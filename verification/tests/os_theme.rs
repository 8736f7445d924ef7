use fft::os_theme::{
    base_size_text, font_family, parse_colors_toml, parse_hex, pick_base_size, SizeRead, ThemeSlot,
    ThemeSnapshot, WatchedMtimes,
};

const TOKYO_NIGHT: &str = r##"
mode = "dark"
accent = "#7aa2f7"
selection = "#292e42"
muted = "#414868"
background = "#1a1b26"
dark_background = "#13141c"
darker_background = "#0e0e14"
lighter_background = "#24283b"
foreground = "#a9b1d6"
dark_foreground = "#565f89"
light_foreground = "#b4bee6"
bright_foreground = "#c0caf5"
red = "#f7768e"
yellow = "#e0af68"
orange = "#eb927b"
green = "#9ece6a"
cyan = "#449dab"
blue = "#7aa2f7"
magenta = "#ad8ee6"
brown = "#75493d"
bright_red = "#ff7a93"
bright_yellow = "#ff9e64"
bright_green = "#b9f27c"
bright_cyan = "#0db9d7"
bright_blue = "#7da6ff"
bright_magenta = "#bb9af7"
"##;

const WHITE_NO_OPTIONAL: &str = r##"
mode = "light"
accent = "#6e6e6e"
selection = "#c0c0c0"
muted = "#808080"
background = "#ffffff"
dark_background = "#f5f5f5"
darker_background = "#e8e8e8"
lighter_background = "#c0c0c0"
foreground = "#000000"
dark_foreground = "#c0c0c0"
light_foreground = "#000000"
bright_foreground = "#000000"
red = "#2a2a2a"
yellow = "#4a4a4a"
green = "#3a3a3a"
cyan = "#3e3e3e"
blue = "#1a1a1a"
magenta = "#2e2e2e"
bright_red = "#2a2a2a"
bright_yellow = "#4a4a4a"
bright_green = "#3a3a3a"
bright_cyan = "#3e3e3e"
bright_blue = "#1a1a1a"
bright_magenta = "#2e2e2e"
"##;

#[test]
fn parse_tokyo_night_round_trip() {
    let c = parse_colors_toml(TOKYO_NIGHT).expect("tokyo-night parses");
    assert_eq!(c.mode, "dark");
    assert_eq!(c.background, 0x1a1b26);
    assert_eq!(c.foreground, 0xa9b1d6);
    assert_eq!(c.orange, 0xeb927b);
    assert_eq!(c.brown, 0x75493d);
    assert_eq!(c.bright_cyan, 0x0db9d7);
    assert_eq!(c.bright_red, 0xff7a93);
}

#[test]
fn missing_required_key_is_err() {
    let mut text = TOKYO_NIGHT.to_string();
    text = text
        .lines()
        .filter(|l| !l.starts_with("background"))
        .collect::<Vec<_>>()
        .join("\n");
    let err = parse_colors_toml(&text).unwrap_err();
    assert!(err.contains("background"), "{err}");
}

#[test]
fn optional_orange_brown_fallback() {
    let c = parse_colors_toml(WHITE_NO_OPTIONAL).expect("white parses");
    assert_eq!(c.orange, c.bright_yellow);
    assert_eq!(c.brown, c.muted);
    assert_eq!(c.orange, 0x4a4a4a);
    assert_eq!(c.brown, 0x808080);
}

#[test]
fn bad_hex_is_err() {
    let text = TOKYO_NIGHT.replace("#1a1b26", "#gg0000");
    let err = parse_colors_toml(&text).unwrap_err();
    assert!(err.contains("background") || err.contains("hex"), "{err}");
}

#[test]
fn parse_hex_accepts_hash_and_bare() {
    assert_eq!(parse_hex("#1a1b26").unwrap(), 0x1a1b26);
    assert_eq!(parse_hex("1a1b26").unwrap(), 0x1a1b26);
    assert!(parse_hex("#abc").is_err());
    assert!(parse_hex("zzzzzz").is_err());
}

#[test]
fn every_color_has_its_own_key() {
    let c = parse_colors_toml(TOKYO_NIGHT).unwrap();
    assert_eq!(
        [
            c.accent,
            c.selection,
            c.muted,
            c.background,
            c.dark_background,
            c.darker_background,
            c.lighter_background,
            c.foreground,
            c.dark_foreground,
            c.light_foreground,
            c.bright_foreground,
            c.red,
            c.yellow,
            c.green,
            c.cyan,
            c.blue,
            c.magenta,
            c.bright_red,
            c.bright_yellow,
            c.bright_green,
            c.bright_cyan,
            c.bright_blue,
            c.bright_magenta,
            c.orange,
            c.brown,
        ],
        [
            0x7aa2f7, 0x292e42, 0x414868, 0x1a1b26, 0x13141c, 0x0e0e14, 0x24283b, 0xa9b1d6,
            0x565f89, 0xb4bee6, 0xc0caf5, 0xf7768e, 0xe0af68, 0x9ece6a, 0x449dab, 0x7aa2f7,
            0xad8ee6, 0xff7a93, 0xff9e64, 0xb9f27c, 0x0db9d7, 0x7da6ff, 0xbb9af7, 0xeb927b,
            0x75493d,
        ]
    );
}

#[test]
fn color_failures_say_what_is_wrong() {
    let message = |text: &str| parse_colors_toml(text).unwrap_err();
    assert_eq!(
        message("# comment\n\n[table]\n"),
        "colors.toml: unexpected table header on line 3: [table]"
    );
    assert_eq!(
        message("mode\r\n"),
        "colors.toml: expected key = value on line 1: mode"
    );
    assert_eq!(message("muted =\n"), "colors.toml: key `muted` on line 1: empty value");
    assert_eq!(
        message("muted = a b\n"),
        "colors.toml: key `muted` on line 1: unquoted value with whitespace: a b"
    );
    assert_eq!(message(""), "colors.toml: missing required key `muted`");
    assert_eq!(
        message("muted = \"#abc\"\n"),
        "colors.toml: key `muted`: expected 6 hex digits, got `#abc`"
    );
    assert_eq!(
        message("muted = '#gggggg'\n"),
        "colors.toml: key `muted`: invalid hex `#gggggg`"
    );
    let no_mode = TOKYO_NIGHT.replace("mode", "mood");
    assert_eq!(message(&no_mode), "colors.toml: missing required key `mode`");
    let bad_orange = TOKYO_NIGHT.replace("#eb927b", "none");
    assert_eq!(
        message(&bad_orange),
        "colors.toml: key `orange`: expected 6 hex digits, got `none`"
    );
}

#[test]
fn the_last_entry_of_a_key_wins() {
    let text = format!("{TOKYO_NIGHT}red = 010203\nmode = light\n");
    let c = parse_colors_toml(&text).unwrap();
    assert_eq!(c.red, 0x010203);
    assert_eq!(c.mode, "light");
}

#[test]
fn hex_digits_are_counted_in_bytes() {
    assert_eq!(parse_hex("\u{e9}abcd").unwrap_err(), "invalid hex `\u{e9}abcd`");
}

#[test]
fn a_sign_is_no_hex_digit() {
    assert!(parse_hex("+12345").is_err());
    assert!(parse_hex(" #+12345 ").is_err());
    assert_eq!(parse_hex("#-12345").unwrap_err(), "invalid hex `#-12345`");
    assert_eq!(parse_hex(" #012345 ").unwrap(), 0x12345);
    let text = format!("{TOKYO_NIGHT}red = \"#+12345\"\n");
    assert_eq!(
        parse_colors_toml(&text).unwrap_err(),
        "colors.toml: key `red`: invalid hex `#+12345`"
    );
}

fn parse_base_size_from_shell_toml(text: &str) -> Option<f32> {
    let (_, value) = base_size_text(text)?;
    value.parse::<f32>().ok().map(|n| n.max(6.0))
}

#[test]
fn base_size_from_font_section_only() {
    let text = r#"
[bar]
base-size = 99
[font]
base-size = 14
"#;
    assert_eq!(parse_base_size_from_shell_toml(text), Some(14.0));
    assert_eq!(parse_base_size_from_shell_toml("[bar]\nbase-size = 9\n"), None);
    assert_eq!(parse_base_size_from_shell_toml("[font]\nbase-size = 5.5\n"), Some(6.0));
}

#[test]
fn base_size_text_strips_comments_and_quotes() {
    assert_eq!(
        base_size_text("[FONT] # family\nbase-size = \"'13'\" # px\nbase-size = 9"),
        Some((2, "13".to_string()))
    );
    assert_eq!(base_size_text("[font]\n[other]\nbase-size = 3"), None);
    assert_eq!(base_size_text("[font]\nsize = 3\nnonsense"), None);
}

#[test]
fn base_size_precedence_user_over_themed_over_default() {
    let fourteen = 14.0f32.to_bits();
    let twelve = 12.0f32.to_bits();
    let pick = |user: &SizeRead, themed: &SizeRead| pick_base_size("u", user, "t", themed);
    assert_eq!(pick(&SizeRead::NotFound, &SizeRead::NotFound), (None, None, None));
    assert_eq!(pick(&SizeRead::NotFound, &SizeRead::Size(twelve)).0, Some(twelve));
    assert_eq!(pick(&SizeRead::Size(fourteen), &SizeRead::Size(twelve)).0, Some(fourteen));
    let nope = SizeRead::Malformed("nope".to_string());
    let (size, user, themed) = pick(&nope, &SizeRead::Size(twelve));
    assert_eq!(size, Some(twelve));
    assert_eq!(
        user.as_deref(),
        Some("fft: WARNING user shell.toml base-size parse failed (u): nope")
    );
    assert_eq!(themed, None);
    let locked = SizeRead::Unreadable("denied".to_string());
    assert_eq!(
        pick(&SizeRead::Absent, &locked),
        (
            None,
            None,
            Some("fft: WARNING cannot read themed shell.toml (t): denied".to_string())
        )
    );
}

#[test]
fn font_family_is_the_first_entry() {
    assert_eq!(font_family(" JetBrains Mono ,Mono"), ("JetBrains Mono".to_string(), false));
    assert_eq!(font_family(" ,Mono"), ("monospace".to_string(), true));
    assert_eq!(font_family(""), ("monospace".to_string(), true));
}

#[test]
fn publishing_counts_generations() {
    let mut slot = ThemeSlot::new(ThemeSnapshot { palette: 1u8, scale_bits: 5, generation: 3 });
    assert_eq!(slot.generation(), 3);
    slot.publish(ThemeSnapshot { palette: 2u8, scale_bits: 7, generation: 0 });
    let snapshot = slot.load();
    assert_eq!((snapshot.palette, snapshot.scale_bits, snapshot.generation), (2, 7, 4));
}

#[test]
fn a_poll_reports_a_change_once() {
    let first = WatchedMtimes {
        theme_name: Some(1),
        colors: None,
        user_shell: Some(2),
        themed_shell: None,
    };
    let mut last = first;
    assert!(!last.update(first));
    let changed = WatchedMtimes { colors: Some(9), ..first };
    assert!(last.update(changed));
    assert!(!last.update(changed));
    assert!(last.update(first));
}
