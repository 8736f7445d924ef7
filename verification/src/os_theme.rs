//! The host's theme: its colors, the base font size and the font family.

use crate::text::{
    chars_of, chomp, concat2, concat3, decimal, digit_value, digits_value, find_char, first_index,
    has_utf8_len, is_space, lemma_digits_prefix, lemma_first_index, lemma_lines_closed,
    lemma_lines_cut, lemma_one_line, lemma_trim_chomp, lemma_utf8_len_prefix, line_ranges, lines,
    parse_unsigned, push_decimal, same_outcome, slice, space, spelled, spells, trim, trim_chars,
    utf8_len, utf8_width,
};
use vstd::prelude::*;

verus! {

/// The colors of the host's `colors.toml`.
#[derive(Debug)]
pub struct OsColors {
    pub mode: String,
    pub accent: u32,
    pub selection: u32,
    pub muted: u32,
    pub background: u32,
    pub dark_background: u32,
    pub darker_background: u32,
    pub lighter_background: u32,
    pub foreground: u32,
    pub dark_foreground: u32,
    pub light_foreground: u32,
    pub bright_foreground: u32,
    pub red: u32,
    pub yellow: u32,
    pub green: u32,
    pub cyan: u32,
    pub blue: u32,
    pub magenta: u32,
    pub bright_red: u32,
    pub bright_yellow: u32,
    pub bright_green: u32,
    pub bright_cyan: u32,
    pub bright_blue: u32,
    pub bright_magenta: u32,
    /// The bright yellow where the file names no orange.
    pub orange: u32,
    /// The muted color where the file names no brown.
    pub brown: u32,
}

/// A key and its value.
pub type Entry = (Seq<char>, Seq<char>);

/// What a line of the file says.
pub enum Line {
    /// Nothing: it is blank or a comment.
    Blank,
    /// A key and its value.
    Entry(Entry),
    /// What is wrong with it.
    Bad(Seq<char>),
}

/// Whether the text stands between two of the given quotes.
pub open spec fn is_quoted(s: Seq<char>, quote: char) -> bool {
    s.len() >= 2 && s[0] == quote && s.last() == quote
}

/// Whether white space occurs in the text.
pub open spec fn has_space(s: Seq<char>) -> bool {
    exists|i: int| 0 <= i < s.len() && is_space(#[trigger] s[i])
}

/// The value that a text stands for: what is inside its quotes, or a bare word.
pub open spec fn unquoted(text: Seq<char>) -> Result<Seq<char>, Seq<char>> {
    let value = trim(text);
    if is_quoted(value, '"') || is_quoted(value, '\'') {
        Ok(value.subrange(1, value.len() - 1))
    } else if value.len() == 0 {
        Err("empty value"@)
    } else if has_space(value) {
        Err("unquoted value with whitespace: "@ + value)
    } else {
        Ok(value)
    }
}

/// What the line with the given number says.
pub open spec fn read_line(raw: Seq<char>, number: nat) -> Line {
    let line = trim(raw);
    let split = first_index(line, '=');
    if line.len() == 0 || line[0] == '#' {
        Line::Blank
    } else if line[0] == '[' {
        Line::Bad(
            "colors.toml: unexpected table header on line "@ + decimal(number) + ": "@ + line,
        )
    } else if split == line.len() {
        Line::Bad("colors.toml: expected key = value on line "@ + decimal(number) + ": "@ + line)
    } else {
        let key = trim(line.take(split));
        match unquoted(trim(line.skip(split + 1))) {
            Ok(value) => Line::Entry((key, value)),
            Err(problem) => Line::Bad(
                "colors.toml: key `"@ + key + "` on line "@ + decimal(number) + ": "@ + problem,
            ),
        }
    }
}

/// The entries of the first `k` lines, or the first thing that is wrong with them.
pub open spec fn entries(all: Seq<Seq<char>>, k: nat) -> Result<Seq<Entry>, Seq<char>>
    decreases k,
{
    if k == 0 {
        Ok(Seq::empty())
    } else {
        match entries(all, (k - 1) as nat) {
            Err(problem) => Err(problem),
            Ok(before) => match read_line(all[k - 1], k) {
                Line::Blank => Ok(before),
                Line::Entry(entry) => Ok(before.push(entry)),
                Line::Bad(problem) => Err(problem),
            },
        }
    }
}

/// The entries of a text, or the first thing that is wrong with its lines.
pub open spec fn table(text: Seq<char>) -> Result<Seq<Entry>, Seq<char>> {
    entries(lines(text), lines(text).len())
}

/// The value of the last entry with the key.
pub open spec fn value_of(map: Seq<Entry>, key: Seq<char>) -> Option<Seq<char>>
    decreases map.len(),
{
    if map.len() == 0 {
        None
    } else if map.last().0 == key {
        Some(map.last().1)
    } else {
        value_of(map.drop_last(), key)
    }
}

/// A text without the number sign that may begin it.
pub open spec fn past_sign(s: Seq<char>) -> Seq<char> {
    if s.len() > 0 && s[0] == '#' {
        s.skip(1)
    } else {
        s
    }
}

/// The color that `#rrggbb` or `rrggbb` stands for.
pub open spec fn hex_color(raw: Seq<char>) -> Result<u32, Seq<char>> {
    let digits = past_sign(trim(raw));
    if utf8_len(digits) != 6 {
        Err("expected 6 hex digits, got `"@ + raw + "`"@)
    } else {
        match digits_value(digits, 16) {
            Some(color) => Ok(color as u32),
            None => Err("invalid hex `"@ + raw + "`"@),
        }
    }
}

/// The color under a key.
pub open spec fn color(map: Seq<Entry>, key: Seq<char>) -> Result<u32, Seq<char>> {
    match value_of(map, key) {
        None => Err("colors.toml: missing required key `"@ + key + "`"@),
        Some(raw) => match hex_color(raw) {
            Ok(color) => Ok(color),
            Err(problem) => Err("colors.toml: key `"@ + key + "`: "@ + problem),
        },
    }
}

/// The color under a key that may be missing.
pub open spec fn color_or(map: Seq<Entry>, key: Seq<char>, other: Seq<char>) -> Result<
    u32,
    Seq<char>,
> {
    if value_of(map, key) is Some {
        color(map, key)
    } else {
        color(map, other)
    }
}

/// The keys in the order in which they are looked up.
pub open spec fn key_at(i: nat) -> Seq<char> {
    if i == 0 {
        "muted"@
    } else if i == 1 {
        "bright_yellow"@
    } else if i == 2 {
        "orange"@
    } else if i == 3 {
        "brown"@
    } else if i == 4 {
        "mode"@
    } else if i == 5 {
        "accent"@
    } else if i == 6 {
        "selection"@
    } else if i == 7 {
        "background"@
    } else if i == 8 {
        "dark_background"@
    } else if i == 9 {
        "darker_background"@
    } else if i == 10 {
        "lighter_background"@
    } else if i == 11 {
        "foreground"@
    } else if i == 12 {
        "dark_foreground"@
    } else if i == 13 {
        "light_foreground"@
    } else if i == 14 {
        "bright_foreground"@
    } else if i == 15 {
        "red"@
    } else if i == 16 {
        "yellow"@
    } else if i == 17 {
        "green"@
    } else if i == 18 {
        "cyan"@
    } else if i == 19 {
        "blue"@
    } else if i == 20 {
        "magenta"@
    } else if i == 21 {
        "bright_red"@
    } else if i == 22 {
        "bright_green"@
    } else if i == 23 {
        "bright_cyan"@
    } else if i == 24 {
        "bright_blue"@
    } else {
        "bright_magenta"@
    }
}

/// How many keys are looked up.
pub const KEYS: usize = 26;

/// The color that the `i`th lookup gives. Orange falls back to the bright yellow and brown to
/// the muted color; the mode is no color and only has to be there.
pub open spec fn lookup(map: Seq<Entry>, i: nat) -> Result<u32, Seq<char>> {
    if i == 2 {
        color_or(map, "orange"@, "bright_yellow"@)
    } else if i == 3 {
        color_or(map, "brown"@, "muted"@)
    } else if i == 4 {
        match value_of(map, "mode"@) {
            None => Err("colors.toml: missing required key `"@ + "mode"@ + "`"@),
            Some(_) => Ok(0),
        }
    } else {
        color(map, key_at(i))
    }
}

/// The first of the lookups from the `i`th on that fails.
pub open spec fn first_problem(map: Seq<Entry>, i: nat) -> Option<Seq<char>>
    decreases KEYS - i,
{
    if i >= KEYS {
        None
    } else {
        match lookup(map, i) {
            Err(problem) => Some(problem),
            Ok(_) => first_problem(map, i + 1),
        }
    }
}

/// Whether every color of the result is the one that the entries name.
pub open spec fn colors_match(c: OsColors, map: Seq<Entry>) -> bool {
    &&& Some(c.mode@) == value_of(map, "mode"@)
    &&& color(map, "accent"@) == Ok::<u32, Seq<char>>(c.accent)
    &&& color(map, "selection"@) == Ok::<u32, Seq<char>>(c.selection)
    &&& color(map, "muted"@) == Ok::<u32, Seq<char>>(c.muted)
    &&& color(map, "background"@) == Ok::<u32, Seq<char>>(c.background)
    &&& color(map, "dark_background"@) == Ok::<u32, Seq<char>>(c.dark_background)
    &&& color(map, "darker_background"@) == Ok::<u32, Seq<char>>(c.darker_background)
    &&& color(map, "lighter_background"@) == Ok::<u32, Seq<char>>(c.lighter_background)
    &&& color(map, "foreground"@) == Ok::<u32, Seq<char>>(c.foreground)
    &&& color(map, "dark_foreground"@) == Ok::<u32, Seq<char>>(c.dark_foreground)
    &&& color(map, "light_foreground"@) == Ok::<u32, Seq<char>>(c.light_foreground)
    &&& color(map, "bright_foreground"@) == Ok::<u32, Seq<char>>(c.bright_foreground)
    &&& color(map, "red"@) == Ok::<u32, Seq<char>>(c.red)
    &&& color(map, "yellow"@) == Ok::<u32, Seq<char>>(c.yellow)
    &&& color(map, "green"@) == Ok::<u32, Seq<char>>(c.green)
    &&& color(map, "cyan"@) == Ok::<u32, Seq<char>>(c.cyan)
    &&& color(map, "blue"@) == Ok::<u32, Seq<char>>(c.blue)
    &&& color(map, "magenta"@) == Ok::<u32, Seq<char>>(c.magenta)
    &&& color(map, "bright_red"@) == Ok::<u32, Seq<char>>(c.bright_red)
    &&& color(map, "bright_yellow"@) == Ok::<u32, Seq<char>>(c.bright_yellow)
    &&& color(map, "bright_green"@) == Ok::<u32, Seq<char>>(c.bright_green)
    &&& color(map, "bright_cyan"@) == Ok::<u32, Seq<char>>(c.bright_cyan)
    &&& color(map, "bright_blue"@) == Ok::<u32, Seq<char>>(c.bright_blue)
    &&& color(map, "bright_magenta"@) == Ok::<u32, Seq<char>>(c.bright_magenta)
    &&& color_or(map, "orange"@, "bright_yellow"@) == Ok::<u32, Seq<char>>(c.orange)
    &&& color_or(map, "brown"@, "muted"@) == Ok::<u32, Seq<char>>(c.brown)
}

/// Whether `r` is what the text of a `colors.toml` stands for: the first bad line, the first
/// lookup that fails, or the colors.
pub open spec fn reads_as(text: Seq<char>, r: Result<OsColors, String>) -> bool {
    match table(text) {
        Err(problem) => r matches Err(message) && message@ == problem,
        Ok(map) => match first_problem(map, 0) {
            Some(problem) => r matches Err(message) && message@ == problem,
            None => r matches Ok(colors) && colors_match(colors, map),
        },
    }
}

/// The entries as texts.
pub open spec fn entry_texts(map: Seq<(Vec<char>, Vec<char>)>) -> Seq<Entry> {
    Seq::new(map.len(), |i: int| (map[i].0@, map[i].1@))
}

fn find_key(map: &Vec<(Vec<char>, Vec<char>)>, key: &str) -> (r: Option<usize>)
    ensures
        match r {
            Some(i) => i < map.len() && value_of(entry_texts(map@), key@) == Some(map@[i as int].1@),
            None => value_of(entry_texts(map@), key@) is None,
        },
{
    let ghost all = entry_texts(map@);
    let mut i: usize = map.len();
    assert(all.take(i as int) =~= all);
    while i > 0
        invariant
            i <= map.len(),
            all == entry_texts(map@),
            value_of(all, key@) == value_of(all.take(i as int), key@),
        decreases i,
    {
        let ghost here = all.take(i as int);
        assert(here.drop_last() =~= all.take(i - 1));
        assert(here.last() == (map@[i - 1].0@, map@[i - 1].1@));
        if spells(&map[i - 1].0, key) {
            return Some(i - 1);
        }
        i -= 1;
    }
    None
}

fn contains_space(v: &Vec<char>) -> (r: bool)
    ensures
        r == has_space(v@),
{
    let mut i: usize = 0;
    while i < v.len()
        invariant
            i <= v.len(),
            forall|j: int| 0 <= j < i ==> !is_space(#[trigger] v@[j]),
        decreases v.len() - i,
    {
        if space(v[i]) {
            assert(is_space(v@[i as int]));
            return true;
        }
        i += 1;
    }
    false
}

fn strip_quoted(text: &Vec<char>) -> (r: Result<Vec<char>, String>)
    ensures
        match unquoted(text@) {
            Ok(value) => r matches Ok(got) && got@ == value,
            Err(problem) => r matches Err(message) && message@ == problem,
        },
{
    let value: Vec<char> = trim_chars(text);
    let n: usize = value.len();
    if n >= 2 && ((value[0] == '"' && value[n - 1] == '"') || (value[0] == '\'' && value[n - 1]
        == '\'')) {
        return Ok(slice(&value, 1, n - 1));
    }
    if n == 0 {
        return Err("empty value".to_owned());
    }
    if contains_space(&value) {
        return Err(concat2("unquoted value with whitespace: ", spelled(&value).as_str()));
    }
    Ok(value)
}

/// At most six hexadecimal digits denote a number of twenty-four bits.
proof fn lemma_hex_bound(s: Seq<char>)
    requires
        s.len() <= 6,
        digits_value(s, 16) is Some,
    ensures
        s.len() == 0 ==> digits_value(s, 16)->0 == 0,
        s.len() <= 1 ==> digits_value(s, 16)->0 < 0x10,
        s.len() <= 2 ==> digits_value(s, 16)->0 < 0x100,
        s.len() <= 3 ==> digits_value(s, 16)->0 < 0x1000,
        s.len() <= 4 ==> digits_value(s, 16)->0 < 0x1_0000,
        s.len() <= 5 ==> digits_value(s, 16)->0 < 0x10_0000,
        digits_value(s, 16)->0 < 0x100_0000,
    decreases s.len(),
{
    if s.len() > 0 {
        lemma_hex_bound(s.drop_last());
    }
}

/// A sign is no hexadecimal digit.
proof fn lemma_no_sign(s: Seq<char>)
    requires
        s.len() > 0,
        s[0] == '+',
    ensures
        digits_value(s, 16) is None,
{
    lemma_digits_prefix(s, 1, 16);
    assert(s.take(1).last() == '+');
}

/// Reads `#rrggbb` or `rrggbb` as a color.
pub fn parse_hex(raw: &str) -> (r: Result<u32, String>)
    ensures
        same_outcome(r, hex_color(raw@)),
{
    let v: Vec<char> = chars_of(raw);
    let s: Vec<char> = trim_chars(&v);
    let start: usize = if s.len() > 0 && s[0] == '#' {
        1
    } else {
        0
    };
    assert(s@.subrange(start as int, s@.len() as int) =~= past_sign(trim(raw@)));
    if !has_utf8_len(&s, start, s.len(), 6) {
        return Err(concat3("expected 6 hex digits, got `", raw, "`"));
    }
    let ghost digits = past_sign(trim(raw@));
    assert(s@.skip(start as int) =~= digits);
    proof {
        lemma_utf8_len_prefix(digits, 0);
        if digits_value(digits, 16) is Some {
            lemma_hex_bound(digits);
        }
    }
    if start < s.len() && s[start] == '+' {
        proof {
            lemma_no_sign(digits);
        }
        return Err(concat3("invalid hex `", raw, "`"));
    }
    match parse_unsigned(&s, start, 16, u32::MAX as u64) {
        Some(color) => Ok(color as u32),
        None => Err(concat3("invalid hex `", raw, "`")),
    }
}

/// What a line says, as it was read.
enum ReadLine {
    Blank,
    Entry(Vec<char>, Vec<char>),
    Bad(String),
}

/// A message about a line.
fn line_message(what: &str, number: u64, detail: &str) -> (r: String)
    ensures
        r@ == what@ + decimal(number as nat) + ": "@ + detail@,
{
    let mut out: String = what.to_owned();
    push_decimal(&mut out, number);
    out.append(": ");
    out.append(detail);
    out
}

fn read(v: &Vec<char>, from: usize, to: usize, number: u64) -> (r: ReadLine)
    requires
        from <= to <= v.len(),
    ensures
        match read_line(v@.subrange(from as int, to as int), number as nat) {
            Line::Blank => r is Blank,
            Line::Entry(entry) => r matches ReadLine::Entry(key, value) && (key@, value@) == entry,
            Line::Bad(problem) => r matches ReadLine::Bad(message) && message@ == problem,
        },
{
    let raw: Vec<char> = slice(v, from, to);
    let line: Vec<char> = trim_chars(&raw);
    let n: usize = line.len();
    if n == 0 || line[0] == '#' {
        return ReadLine::Blank;
    }
    if line[0] == '[' {
        return ReadLine::Bad(
            line_message(
                "colors.toml: unexpected table header on line ",
                number,
                spelled(&line).as_str(),
            ),
        );
    }
    let split: usize = find_char(&line, 0, n, '=');
    assert(line@.subrange(0, n as int) =~= line@);
    if split == n {
        return ReadLine::Bad(
            line_message(
                "colors.toml: expected key = value on line ",
                number,
                spelled(&line).as_str(),
            ),
        );
    }
    assert(line@.subrange(0, split as int) =~= line@.take(split as int));
    assert(line@.subrange(split + 1, n as int) =~= line@.skip(split + 1));
    let key: Vec<char> = trim_chars(&slice(&line, 0, split));
    let rest: Vec<char> = trim_chars(&slice(&line, split + 1, n));
    match strip_quoted(&rest) {
        Ok(value) => ReadLine::Entry(key, value),
        Err(problem) => {
            let what: String = concat3("colors.toml: key `", spelled(&key).as_str(), "` on line ");
            ReadLine::Bad(line_message(what.as_str(), number, problem.as_str()))
        },
    }
}

/// The key of a lookup.
fn key_name(i: usize) -> (r: &'static str)
    requires
        i < KEYS,
    ensures
        r@ == key_at(i as nat),
{
    if i == 0 {
        "muted"
    } else if i == 1 {
        "bright_yellow"
    } else if i == 2 {
        "orange"
    } else if i == 3 {
        "brown"
    } else if i == 4 {
        "mode"
    } else if i == 5 {
        "accent"
    } else if i == 6 {
        "selection"
    } else if i == 7 {
        "background"
    } else if i == 8 {
        "dark_background"
    } else if i == 9 {
        "darker_background"
    } else if i == 10 {
        "lighter_background"
    } else if i == 11 {
        "foreground"
    } else if i == 12 {
        "dark_foreground"
    } else if i == 13 {
        "light_foreground"
    } else if i == 14 {
        "bright_foreground"
    } else if i == 15 {
        "red"
    } else if i == 16 {
        "yellow"
    } else if i == 17 {
        "green"
    } else if i == 18 {
        "cyan"
    } else if i == 19 {
        "blue"
    } else if i == 20 {
        "magenta"
    } else if i == 21 {
        "bright_red"
    } else if i == 22 {
        "bright_green"
    } else if i == 23 {
        "bright_cyan"
    } else if i == 24 {
        "bright_blue"
    } else {
        "bright_magenta"
    }
}

/// A color under a key.
fn required_color(map: &Vec<(Vec<char>, Vec<char>)>, key: &str) -> (r: Result<u32, String>)
    ensures
        same_outcome(r, color(entry_texts(map@), key@)),
{
    match find_key(map, key) {
        None => Err(concat3("colors.toml: missing required key `", key, "`")),
        Some(i) => match parse_hex(spelled(&map[i].1).as_str()) {
            Ok(color) => Ok(color),
            Err(problem) => {
                let what: String = concat3("colors.toml: key `", key, "`: ");
                Err(concat2(what.as_str(), problem.as_str()))
            },
        },
    }
}

fn look_up(map: &Vec<(Vec<char>, Vec<char>)>, i: usize) -> (r: Result<u32, String>)
    requires
        i < KEYS,
    ensures
        same_outcome(r, lookup(entry_texts(map@), i as nat)),
{
    let key: &str = key_name(i);
    if i == 2 && find_key(map, key).is_none() {
        required_color(map, "bright_yellow")
    } else if i == 3 && find_key(map, key).is_none() {
        required_color(map, "muted")
    } else if i == 4 {
        if find_key(map, key).is_none() {
            Err(concat3("colors.toml: missing required key `", key, "`"))
        } else {
            Ok(0)
        }
    } else {
        required_color(map, key)
    }
}

/// Reads the text of a `colors.toml`.
pub fn parse_colors_toml(text: &str) -> (r: Result<OsColors, String>)
    ensures
        reads_as(text@, r),
{
    let v: Vec<char> = chars_of(text);
    let ranges: Vec<(usize, usize)> = line_ranges(&v);
    let ghost all = lines(text@);
    let mut map: Vec<(Vec<char>, Vec<char>)> = Vec::new();
    let mut i: usize = 0;
    assert(entry_texts(map@) =~= Seq::<Entry>::empty());
    while i < ranges.len()
        invariant
            i <= ranges.len(),
            all == lines(text@),
            v@ == text@,
            ranges.len() == all.len(),
            forall|j: int|
                0 <= j < ranges@.len() ==> (#[trigger] ranges@[j]).0 <= ranges@[j].1 <= v@.len()
                    && v@.subrange(ranges@[j].0 as int, ranges@[j].1 as int) == lines(v@)[j],
            entries(all, i as nat) == Ok::<Seq<Entry>, Seq<char>>(entry_texts(map@)),
        decreases ranges.len() - i,
    {
        let (from, to): (usize, usize) = ranges[i];
        match read(&v, from, to, i as u64 + 1) {
            ReadLine::Blank => {},
            ReadLine::Entry(key, value) => {
                let ghost before = entry_texts(map@);
                map.push((key, value));
                assert(entry_texts(map@) =~= before.push((key@, value@)));
            },
            ReadLine::Bad(message) => {
                proof {
                    lemma_entries_fail(all, i as nat + 1, all.len());
                }
                return Err(message);
            },
        }
        i += 1;
    }
    look_up_all(&map)
}

proof fn lemma_entries_fail(all: Seq<Seq<char>>, j: nat, k: nat)
    requires
        j <= k,
        entries(all, j) is Err,
    ensures
        entries(all, k) == entries(all, j),
    decreases k,
{
    if j < k {
        lemma_entries_fail(all, j, (k - 1) as nat);
    }
}

fn look_up_all(map: &Vec<(Vec<char>, Vec<char>)>) -> (r: Result<OsColors, String>)
    ensures
        match first_problem(entry_texts(map@), 0) {
            Some(problem) => r matches Err(message) && message@ == problem,
            None => r matches Ok(colors) && colors_match(colors, entry_texts(map@)),
        },
{
    let ghost all = entry_texts(map@);
    let mut values: Vec<u32> = Vec::new();
    let mut i: usize = 0;
    while i < KEYS
        invariant
            i <= KEYS,
            all == entry_texts(map@),
            values.len() == i,
            first_problem(all, 0) == first_problem(all, i as nat),
            forall|j: int|
                0 <= j < i ==> lookup(all, j as nat) == Ok::<u32, Seq<char>>(#[trigger] values@[j]),
        decreases KEYS - i,
    {
        match look_up(map, i) {
            Ok(value) => {
                values.push(value);
            },
            Err(message) => {
                return Err(message);
            },
        }
        i += 1;
    }
    let mode: String = match find_key(map, "mode") {
        Some(at) => spelled(&map[at].1),
        None => {
            assert(lookup(all, 4) == Ok::<u32, Seq<char>>(values@[4]));
            String::new()
        },
    };
    proof {
        assert(lookup(all, 0) == Ok::<u32, Seq<char>>(values@[0]));
        assert(lookup(all, 1) == Ok::<u32, Seq<char>>(values@[1]));
        assert(lookup(all, 2) == Ok::<u32, Seq<char>>(values@[2]));
        assert(lookup(all, 3) == Ok::<u32, Seq<char>>(values@[3]));
        assert(lookup(all, 5) == Ok::<u32, Seq<char>>(values@[5]));
        assert(lookup(all, 6) == Ok::<u32, Seq<char>>(values@[6]));
        assert(lookup(all, 7) == Ok::<u32, Seq<char>>(values@[7]));
        assert(lookup(all, 8) == Ok::<u32, Seq<char>>(values@[8]));
        assert(lookup(all, 9) == Ok::<u32, Seq<char>>(values@[9]));
        assert(lookup(all, 10) == Ok::<u32, Seq<char>>(values@[10]));
        assert(lookup(all, 11) == Ok::<u32, Seq<char>>(values@[11]));
        assert(lookup(all, 12) == Ok::<u32, Seq<char>>(values@[12]));
        assert(lookup(all, 13) == Ok::<u32, Seq<char>>(values@[13]));
        assert(lookup(all, 14) == Ok::<u32, Seq<char>>(values@[14]));
        assert(lookup(all, 15) == Ok::<u32, Seq<char>>(values@[15]));
        assert(lookup(all, 16) == Ok::<u32, Seq<char>>(values@[16]));
        assert(lookup(all, 17) == Ok::<u32, Seq<char>>(values@[17]));
        assert(lookup(all, 18) == Ok::<u32, Seq<char>>(values@[18]));
        assert(lookup(all, 19) == Ok::<u32, Seq<char>>(values@[19]));
        assert(lookup(all, 20) == Ok::<u32, Seq<char>>(values@[20]));
        assert(lookup(all, 21) == Ok::<u32, Seq<char>>(values@[21]));
        assert(lookup(all, 22) == Ok::<u32, Seq<char>>(values@[22]));
        assert(lookup(all, 23) == Ok::<u32, Seq<char>>(values@[23]));
        assert(lookup(all, 24) == Ok::<u32, Seq<char>>(values@[24]));
        assert(lookup(all, 25) == Ok::<u32, Seq<char>>(values@[25]));
    }
    Ok(OsColors {
        mode,
        muted: values[0],
        bright_yellow: values[1],
        orange: values[2],
        brown: values[3],
        accent: values[5],
        selection: values[6],
        background: values[7],
        dark_background: values[8],
        darker_background: values[9],
        lighter_background: values[10],
        foreground: values[11],
        dark_foreground: values[12],
        light_foreground: values[13],
        bright_foreground: values[14],
        red: values[15],
        yellow: values[16],
        green: values[17],
        cyan: values[18],
        blue: values[19],
        magenta: values[20],
        bright_red: values[21],
        bright_green: values[22],
        bright_cyan: values[23],
        bright_blue: values[24],
        bright_magenta: values[25],
    })
}

/// The field that the `i`th lookup fills; the mode, which is no color, is not among them.
pub open spec fn field(c: OsColors, i: nat) -> u32 {
    if i == 0 {
        c.muted
    } else if i == 1 {
        c.bright_yellow
    } else if i == 2 {
        c.orange
    } else if i == 3 {
        c.brown
    } else if i == 5 {
        c.accent
    } else if i == 6 {
        c.selection
    } else if i == 7 {
        c.background
    } else if i == 8 {
        c.dark_background
    } else if i == 9 {
        c.darker_background
    } else if i == 10 {
        c.lighter_background
    } else if i == 11 {
        c.foreground
    } else if i == 12 {
        c.dark_foreground
    } else if i == 13 {
        c.light_foreground
    } else if i == 14 {
        c.bright_foreground
    } else if i == 15 {
        c.red
    } else if i == 16 {
        c.yellow
    } else if i == 17 {
        c.green
    } else if i == 18 {
        c.cyan
    } else if i == 19 {
        c.blue
    } else if i == 20 {
        c.magenta
    } else if i == 21 {
        c.bright_red
    } else if i == 22 {
        c.bright_green
    } else if i == 23 {
        c.bright_cyan
    } else if i == 24 {
        c.bright_blue
    } else {
        c.bright_magenta
    }
}

/// Whether the color of the `i`th lookup is taken from another key, for want of its own.
pub open spec fn borrows(map: Seq<Entry>, i: nat, key: Seq<char>) -> bool {
    ||| i == 2 && key == "bright_yellow"@ && value_of(map, "orange"@) is None
    ||| i == 3 && key == "muted"@ && value_of(map, "brown"@) is None
}

/// What tells a key apart: its length, its last character but one and the one a third of the
/// way in.
spec fn mark(key: Seq<char>) -> int {
    key.len() * 1_000_000 + key[key.len() - 2] as int * 1_000 + key[key.len() as int / 3] as int
}

spec fn mark_at(i: nat) -> int {
    if i == 0 {
        5_101_117
    } else if i == 1 {
        13_111_104
    } else if i == 2 {
        6_103_097
    } else if i == 3 {
        5_119_114
    } else if i == 4 {
        4_100_111
    } else if i == 5 {
        6_110_099
    } else if i == 6 {
        9_111_101
    } else if i == 7 {
        10_110_107
    } else if i == 8 {
        15_110_098
    } else if i == 9 {
        17_110_114
    } else if i == 10 {
        18_110_114
    } else if i == 11 {
        10_110_101
    } else if i == 12 {
        15_110_102
    } else if i == 13 {
        16_110_095
    } else if i == 14 {
        17_110_116
    } else if i == 15 {
        3_101_101
    } else if i == 16 {
        6_111_108
    } else if i == 17 {
        5_101_114
    } else if i == 18 {
        4_097_121
    } else if i == 19 {
        4_117_108
    } else if i == 20 {
        7_116_103
    } else if i == 21 {
        10_101_103
    } else if i == 22 {
        12_101_104
    } else if i == 23 {
        11_097_103
    } else if i == 24 {
        11_117_103
    } else {
        14_116_104
    }
}

proof fn lemma_mark(i: nat)
    requires
        i < KEYS,
    ensures
        mark(key_at(i)) == mark_at(i),
{
    if i == 0 {
        reveal_strlit("muted");
    }
    if i == 1 {
        reveal_strlit("bright_yellow");
    }
    if i == 2 {
        reveal_strlit("orange");
    }
    if i == 3 {
        reveal_strlit("brown");
    }
    if i == 4 {
        reveal_strlit("mode");
    }
    if i == 5 {
        reveal_strlit("accent");
    }
    if i == 6 {
        reveal_strlit("selection");
    }
    if i == 7 {
        reveal_strlit("background");
    }
    if i == 8 {
        reveal_strlit("dark_background");
    }
    if i == 9 {
        reveal_strlit("darker_background");
    }
    if i == 10 {
        reveal_strlit("lighter_background");
    }
    if i == 11 {
        reveal_strlit("foreground");
    }
    if i == 12 {
        reveal_strlit("dark_foreground");
    }
    if i == 13 {
        reveal_strlit("light_foreground");
    }
    if i == 14 {
        reveal_strlit("bright_foreground");
    }
    if i == 15 {
        reveal_strlit("red");
    }
    if i == 16 {
        reveal_strlit("yellow");
    }
    if i == 17 {
        reveal_strlit("green");
    }
    if i == 18 {
        reveal_strlit("cyan");
    }
    if i == 19 {
        reveal_strlit("blue");
    }
    if i == 20 {
        reveal_strlit("magenta");
    }
    if i == 21 {
        reveal_strlit("bright_red");
    }
    if i == 22 {
        reveal_strlit("bright_green");
    }
    if i == 23 {
        reveal_strlit("bright_cyan");
    }
    if i == 24 {
        reveal_strlit("bright_blue");
    }
    if i == 25 {
        reveal_strlit("bright_magenta");
    }
}

/// No key is looked up twice.
pub proof fn law_keys_differ(i: nat, j: nat)
    requires
        i < j < KEYS,
    ensures
        key_at(i) != key_at(j),
{
    lemma_mark(i);
    lemma_mark(j);
}

proof fn lemma_same_entries(a: Seq<Seq<char>>, b: Seq<Seq<char>>, k: nat)
    requires
        k <= a.len(),
        k <= b.len(),
        forall|i: int| 0 <= i < k ==> trim(#[trigger] b[i]) == trim(a[i]),
    ensures
        entries(b, k) == entries(a, k),
    decreases k,
{
    if k > 0 {
        lemma_same_entries(a, b, (k - 1) as nat);
        assert(trim(b[k - 1]) == trim(a[k - 1]));
    }
}

/// A line that is added to a text without bad lines adds its entry.
pub proof fn law_line_added(text: Seq<char>, line: Seq<char>, key: Seq<char>, value: Seq<char>)
    requires
        table(text) is Ok,
        !line.contains('\n'),
        read_line(line, 0) == Line::Entry((key, value)),
    ensures
        table(text + seq!['\n'] + line + seq!['\n']) == Ok::<Seq<Entry>, Seq<char>>(
            table(text)->Ok_0.push((key, value)),
        ),
{
    let feed = seq!['\n'];
    let before = lines(text);
    let closed = lines(text + feed);
    let all = lines(text + feed + line + feed);
    assert(text + feed + line + feed =~= text + feed + (line + feed));
    lemma_lines_cut(text, line + feed);
    lemma_one_line(line);
    lemma_lines_closed(text);
    lemma_trim_chomp(line);
    assert(all == closed + seq![chomp(line)]);
    lemma_same_entries(before, closed, before.len());
    if closed.len() > before.len() {
        assert(trim(Seq::<char>::empty()) =~= Seq::<char>::empty());
    }
    assert(entries(closed, closed.len()) == table(text));
    lemma_same_entries(closed, all, closed.len());
    assert(all[closed.len() as int] == chomp(line));
}

proof fn lemma_no_problem(map: Seq<Entry>, i: nat, j: nat)
    requires
        i <= j < KEYS,
        first_problem(map, i) is None,
    ensures
        lookup(map, j) is Ok,
    decreases j - i,
{
    if i < j {
        lemma_no_problem(map, i + 1, j);
    }
}

proof fn lemma_all_found(map: Seq<Entry>, i: nat)
    requires
        i <= KEYS,
        forall|j: nat| i <= j < KEYS ==> (#[trigger] lookup(map, j)) is Ok,
    ensures
        first_problem(map, i) is None,
    decreases KEYS - i,
{
    if i < KEYS {
        assert(lookup(map, i) is Ok);
        lemma_all_found(map, i + 1);
    }
}

proof fn lemma_fields(c: OsColors, map: Seq<Entry>, i: nat)
    requires
        colors_match(c, map),
        i < KEYS,
        i != 4,
    ensures
        lookup(map, i) == Ok::<u32, Seq<char>>(field(c, i)),
{
}

/// Of repeated keys the last one wins, and no other field changes: a line that is added to a
/// text that was read names the field of its key anew, and the fields that borrow the color of
/// that key for want of their own.
pub proof fn law_last_key_wins(
    text: Seq<char>,
    line: Seq<char>,
    key: Seq<char>,
    value: Seq<char>,
    c: OsColors,
    r: Result<OsColors, String>,
)
    requires
        reads_as(text, Ok(c)),
        !line.contains('\n'),
        read_line(line, 0) == Line::Entry((key, value)),
        key != "mode"@ ==> hex_color(value) is Ok,
        reads_as(text + seq!['\n'] + line + seq!['\n'], r),
    ensures
        r is Ok,
        r->Ok_0.mode@ == if key == "mode"@ {
            value
        } else {
            c.mode@
        },
        forall|i: nat|
            i < KEYS && i != 4 ==> #[trigger] field(r->Ok_0, i) == (if key == key_at(i) || borrows(
                table(text)->Ok_0,
                i,
                key,
            ) {
                hex_color(value)->Ok_0
            } else {
                field(c, i)
            }),
{
    let map = table(text)->Ok_0;
    let more = map.push((key, value));
    law_line_added(text, line, key, value);
    assert(more.drop_last() =~= map);
    assert(forall|k: Seq<char>| #[trigger] value_of(more, k) == (if k == key {
        Some(value)
    } else {
        value_of(map, k)
    }));
    law_keys_differ(0, 3);
    law_keys_differ(1, 2);
    law_keys_differ(0, 4);
    law_keys_differ(1, 4);
    assert forall|i: nat| i < KEYS implies (#[trigger] lookup(more, i)) is Ok && (i != 4 ==> lookup(
        more,
        i,
    ) == Ok::<u32, Seq<char>>(
        if key == key_at(i) || borrows(map, i, key) {
            hex_color(value)->Ok_0
        } else {
            field(c, i)
        },
    )) by {
        lemma_no_problem(map, 0, i);
        if i != 4 {
            lemma_fields(c, map, i);
            if i < 4 {
                law_keys_differ(i, 4);
            } else {
                law_keys_differ(4, i);
            }
        }
    }
    lemma_all_found(more, 0);
    let c2 = r->Ok_0;
    assert forall|i: nat| i < KEYS && i != 4 implies #[trigger] field(c2, i) == (if key == key_at(i)
        || borrows(map, i, key) {
        hex_color(value)->Ok_0
    } else {
        field(c, i)
    }) by {
        lemma_fields(c2, more, i);
    }
}

/// A text without the given character at its start.
pub open spec fn strip_start(s: Seq<char>, c: char) -> Seq<char>
    decreases s.len(),
{
    if s.len() > 0 && s[0] == c {
        strip_start(s.drop_first(), c)
    } else {
        s
    }
}

/// A text without the given character at its end.
pub open spec fn strip_end(s: Seq<char>, c: char) -> Seq<char>
    decreases s.len(),
{
    if s.len() > 0 && s.last() == c {
        strip_end(s.drop_last(), c)
    } else {
        s
    }
}

/// A text without the given character around it.
pub open spec fn strip_around(s: Seq<char>, c: char) -> Seq<char> {
    strip_end(strip_start(s, c), c)
}

/// The lower-case form of an ASCII letter; any other character as it is.
pub open spec fn ascii_lower(c: char) -> char {
    if 'A' <= c <= 'Z' {
        (c as u32 + 32) as char
    } else {
        c
    }
}

/// The text with its ASCII letters in lower case.
pub open spec fn lowered(s: Seq<char>) -> Seq<char> {
    Seq::new(s.len(), |i: int| ascii_lower(s[i]))
}

/// What a line of a `shell.toml` says about the base size.
pub enum ShellLine {
    /// Nothing.
    Other,
    /// A section begins; whether it is the font section.
    Section(bool),
    /// The value of a `base-size` key.
    Size(Seq<char>),
}

/// What a line says about the base size. A comment runs from a number sign to the end.
pub open spec fn shell_line(raw: Seq<char>) -> ShellLine {
    let line = trim(raw.take(first_index(raw, '#')));
    let split = first_index(line, '=');
    if line.len() == 0 {
        ShellLine::Other
    } else if line[0] == '[' && line.last() == ']' {
        ShellLine::Section(lowered(line) == "[font]"@)
    } else if split < line.len() && trim(line.take(split)) == "base-size"@ {
        ShellLine::Size(strip_around(strip_around(trim(line.skip(split + 1)), '"'), '\''))
    } else {
        ShellLine::Other
    }
}

/// The first base size in a font section of the lines from the `i`th on, with the number of
/// its line.
pub open spec fn base_size(all: Seq<Seq<char>>, i: nat, in_font: bool) -> Option<(nat, Seq<char>)>
    decreases all.len() - i,
{
    if i >= all.len() {
        None
    } else {
        match shell_line(all[i as int]) {
            ShellLine::Section(font) => base_size(all, i + 1, font),
            ShellLine::Size(value) => if in_font {
                Some((i + 1, value))
            } else {
                base_size(all, i + 1, in_font)
            },
            ShellLine::Other => base_size(all, i + 1, in_font),
        }
    }
}

fn strip_char(v: &Vec<char>, c: char) -> (r: Vec<char>)
    ensures
        r@ == strip_around(v@, c),
{
    let mut a: usize = 0;
    let n: usize = v.len();
    assert(v@.subrange(0, n as int) =~= v@);
    while a < n && v[a] == c
        invariant
            a <= n,
            n == v.len(),
            strip_start(v@.subrange(a as int, n as int), c) == strip_start(v@, c),
        decreases n - a,
    {
        assert(v@.subrange(a as int, n as int).drop_first() =~= v@.subrange(a + 1, n as int));
        a += 1;
    }
    let mut b: usize = n;
    while b > a && v[b - 1] == c
        invariant
            a <= b <= n,
            n == v.len(),
            strip_end(v@.subrange(a as int, b as int), c) == strip_around(v@, c),
        decreases b - a,
    {
        assert(v@.subrange(a as int, b as int).drop_last() =~= v@.subrange(a as int, b - 1));
        b -= 1;
    }
    slice(v, a, b)
}

fn lower(c: char) -> (r: char)
    ensures
        r == ascii_lower(c),
{
    if 'A' <= c && c <= 'Z' {
        let low: u8 = c as u8 + 32;
        low as char
    } else {
        c
    }
}

fn lower_chars(v: &Vec<char>) -> (r: Vec<char>)
    ensures
        r@ == lowered(v@),
{
    let mut out: Vec<char> = Vec::new();
    let mut i: usize = 0;
    while i < v.len()
        invariant
            i <= v.len(),
            out@ == lowered(v@).take(i as int),
        decreases v.len() - i,
    {
        out.push(lower(v[i]));
        i += 1;
        assert(lowered(v@).take(i as int) =~= lowered(v@).take(i - 1).push(lowered(v@)[i - 1]));
    }
    assert(lowered(v@).take(i as int) =~= lowered(v@));
    out
}

/// What a line of a `shell.toml` says, as it was read.
enum ReadShell {
    Other,
    Section(bool),
    Size(Vec<char>),
}

fn read_shell(v: &Vec<char>, from: usize, to: usize) -> (r: ReadShell)
    requires
        from <= to <= v.len(),
    ensures
        match shell_line(v@.subrange(from as int, to as int)) {
            ShellLine::Other => r is Other,
            ShellLine::Section(font) => r == ReadShell::Section(font),
            ShellLine::Size(value) => r matches ReadShell::Size(got) && got@ == value,
        },
{
    let raw: Vec<char> = slice(v, from, to);
    let end: usize = find_char(&raw, 0, raw.len(), '#');
    assert(raw@.subrange(0, raw@.len() as int) =~= raw@);
    assert(raw@.subrange(0, end as int) =~= raw@.take(end as int));
    let line: Vec<char> = trim_chars(&slice(&raw, 0, end));
    let n: usize = line.len();
    if n == 0 {
        return ReadShell::Other;
    }
    if line[0] == '[' && line[n - 1] == ']' {
        let low: Vec<char> = lower_chars(&line);
        return ReadShell::Section(spells(&low, "[font]"));
    }
    let split: usize = find_char(&line, 0, n, '=');
    assert(line@.subrange(0, n as int) =~= line@);
    if split == n {
        return ReadShell::Other;
    }
    assert(line@.subrange(0, split as int) =~= line@.take(split as int));
    assert(line@.subrange(split + 1, n as int) =~= line@.skip(split + 1));
    let key: Vec<char> = trim_chars(&slice(&line, 0, split));
    if !spells(&key, "base-size") {
        return ReadShell::Other;
    }
    let rest: Vec<char> = trim_chars(&slice(&line, split + 1, n));
    let inner: Vec<char> = strip_char(&rest, '"');
    ReadShell::Size(strip_char(&inner, '\''))
}

/// The text of the first `base-size` in a `[font]` section of a `shell.toml`, with the number
/// of its line. What number the text stands for is left to the caller.
pub fn base_size_text(text: &str) -> (r: Option<(u64, String)>)
    ensures
        match base_size(lines(text@), 0, false) {
            None => r is None,
            Some((number, value)) => r is Some && (r->0).0 == number && (r->0).1@ == value,
        },
{
    let v: Vec<char> = chars_of(text);
    let ranges: Vec<(usize, usize)> = line_ranges(&v);
    let ghost all = lines(text@);
    let mut in_font: bool = false;
    let mut i: usize = 0;
    while i < ranges.len()
        invariant
            i <= ranges.len(),
            all == lines(text@),
            v@ == text@,
            ranges.len() == all.len(),
            forall|j: int|
                0 <= j < ranges@.len() ==> (#[trigger] ranges@[j]).0 <= ranges@[j].1 <= v@.len()
                    && v@.subrange(ranges@[j].0 as int, ranges@[j].1 as int) == lines(v@)[j],
            base_size(all, 0, false) == base_size(all, i as nat, in_font),
        decreases ranges.len() - i,
    {
        let (from, to): (usize, usize) = ranges[i];
        match read_shell(&v, from, to) {
            ReadShell::Other => {},
            ReadShell::Section(font) => {
                in_font = font;
            },
            ReadShell::Size(value) => {
                if in_font {
                    return Some((i as u64 + 1, spelled(&value)));
                }
            },
        }
        i += 1;
    }
    None
}

/// What reading one of the two `shell.toml` files gave. A size is the bit pattern of the
/// number.
#[derive(Debug)]
pub enum SizeRead {
    /// A usable size.
    Size(u32),
    /// The file holds no size.
    Absent,
    /// The file holds a size that cannot be used.
    Malformed(String),
    /// There is no such file.
    NotFound,
    /// The file cannot be read.
    Unreadable(String),
}

/// The size that wins: the user's, else the theme's, else none of them.
pub open spec fn winning_size(user: SizeRead, themed: SizeRead) -> Option<u32> {
    match (user, themed) {
        (SizeRead::Size(bits), _) => Some(bits),
        (_, SizeRead::Size(bits)) => Some(bits),
        _ => None,
    }
}

/// The warning about one of the files, if there is something to warn of.
pub open spec fn size_warning(label: Seq<char>, path: Seq<char>, read: SizeRead) -> Option<
    Seq<char>,
> {
    match read {
        SizeRead::Malformed(problem) => Some(
            "fft: WARNING "@ + label + " shell.toml base-size parse failed ("@ + path + "): "@
                + problem@,
        ),
        SizeRead::Unreadable(problem) => Some(
            "fft: WARNING cannot read "@ + label + " shell.toml ("@ + path + "): "@ + problem@,
        ),
        _ => None,
    }
}

fn warning_about(label: &str, path: &str, read: &SizeRead) -> (r: Option<String>)
    ensures
        crate::text::text_of(r) == size_warning(label@, path@, *read),
{
    match read {
        SizeRead::Malformed(problem) => {
            let mut out: String = concat3("fft: WARNING ", label, " shell.toml base-size parse failed (");
            out.append(path);
            out.append("): ");
            out.append(problem.as_str());
            Some(out)
        },
        SizeRead::Unreadable(problem) => {
            let mut out: String = concat3("fft: WARNING cannot read ", label, " shell.toml (");
            out.append(path);
            out.append("): ");
            out.append(problem.as_str());
            Some(out)
        },
        _ => None,
    }
}

/// Picks the base size: the user's file before the theme's. A file that is not used for a
/// reason worth telling gives a warning; the theme's file is not looked at when the user's
/// has a size.
pub fn pick_base_size(
    user_path: &str,
    user: &SizeRead,
    themed_path: &str,
    themed: &SizeRead,
) -> (r: (Option<u32>, Option<String>, Option<String>))
    ensures
        r.0 == winning_size(*user, *themed),
        crate::text::text_of(r.1) == size_warning("user"@, user_path@, *user),
        crate::text::text_of(r.2) == if user is Size {
            None
        } else {
            size_warning("themed"@, themed_path@, *themed)
        },
{
    let first: Option<String> = warning_about("user", user_path, user);
    if let SizeRead::Size(bits) = user {
        return (Some(*bits), first, None);
    }
    let second: Option<String> = warning_about("themed", themed_path, themed);
    if let SizeRead::Size(bits) = themed {
        return (Some(*bits), first, second);
    }
    (None, first, second)
}

/// The font family that a matcher's output names: its first entry, or none where that is
/// empty.
pub open spec fn first_family(output: Seq<char>) -> Option<Seq<char>> {
    let family = trim(output.take(first_index(output, ',')));
    if family.len() == 0 {
        None
    } else {
        Some(family)
    }
}

/// The font family to use, and whether it is the fallback.
pub fn font_family(output: &str) -> (r: (String, bool))
    ensures
        match first_family(output@) {
            Some(family) => r.0@ == family && !r.1,
            None => r.0@ == "monospace"@ && r.1,
        },
{
    let v: Vec<char> = chars_of(output);
    let end: usize = find_char(&v, 0, v.len(), ',');
    assert(v@.subrange(0, v@.len() as int) =~= v@);
    assert(v@.subrange(0, end as int) =~= v@.take(end as int));
    let family: Vec<char> = trim_chars(&slice(&v, 0, end));
    if family.len() == 0 {
        ("monospace".to_owned(), true)
    } else {
        (spelled(&family), false)
    }
}

/// The latest theme: a palette, the bit pattern of its scale, and how many were published
/// before it.
#[derive(Clone, Copy, Debug)]
pub struct ThemeSnapshot<P> {
    pub palette: P,
    pub scale_bits: u32,
    pub generation: u64,
}

/// A slot that holds the latest theme alone.
#[derive(Debug)]
pub struct ThemeSlot<P> {
    current: ThemeSnapshot<P>,
}

impl<P> ThemeSlot<P> {
    /// The theme in the slot.
    pub closed spec fn snapshot(self) -> ThemeSnapshot<P> {
        self.current
    }

    /// A slot with its first theme.
    pub fn new(snapshot: ThemeSnapshot<P>) -> (r: ThemeSlot<P>)
        ensures
            r.snapshot() == snapshot,
    {
        ThemeSlot { current: snapshot }
    }

    /// The generation of the latest theme.
    pub fn generation(&self) -> (r: u64)
        ensures
            r == self.snapshot().generation,
    {
        self.current.generation
    }

    /// The latest theme.
    pub fn load(&self) -> (r: &ThemeSnapshot<P>)
        ensures
            *r == self.snapshot(),
    {
        &self.current
    }

    /// Puts a newer theme in the slot, under the next generation whatever it came with.
    pub fn publish(&mut self, snapshot: ThemeSnapshot<P>)
        requires
            old(self).snapshot().generation < u64::MAX,
        ensures
            final(self).snapshot() == (ThemeSnapshot {
                generation: (old(self).snapshot().generation + 1) as u64,
                ..snapshot
            }),
    {
        let next: u64 = self.current.generation + 1;
        self.current = ThemeSnapshot {
            palette: snapshot.palette,
            scale_bits: snapshot.scale_bits,
            generation: next,
        };
    }
}

/// When the watched files were modified last, in nanoseconds; none where there is no file.
#[derive(Clone, Copy, Debug, PartialEq, Eq, Structural)]
pub struct WatchedMtimes {
    pub theme_name: Option<u64>,
    pub colors: Option<u64>,
    pub user_shell: Option<u64>,
    pub themed_shell: Option<u64>,
}

fn same_time(a: Option<u64>, b: Option<u64>) -> (r: bool)
    ensures
        r == (a == b),
{
    match (a, b) {
        (Some(x), Some(y)) => x == y,
        (None, None) => true,
        _ => false,
    }
}

impl WatchedMtimes {
    /// Whether a poll found a file changed, appeared or gone; the poll is then the one to
    /// compare the next with.
    pub fn update(&mut self, now: WatchedMtimes) -> (r: bool)
        ensures
            *final(self) == now,
            r == (*old(self) != now),
    {
        let same: bool = same_time(self.theme_name, now.theme_name) && same_time(
            self.colors,
            now.colors,
        ) && same_time(self.user_shell, now.user_shell) && same_time(
            self.themed_shell,
            now.themed_shell,
        );
        *self = now;
        !same
    }
}

/// Whether the entry under a key stands for the color: some value has the key, none behind it has,
/// and it reads as the color.
pub open spec fn names_color(map: Seq<Entry>, key: Seq<char>, color: u32) -> bool {
    exists|i: int|
        0 <= i < map.len() && (#[trigger] map[i]).0 == key && (forall|j: int|
            i < j < map.len() ==> (#[trigger] map[j]).0 != key) && hex_color(map[i].1) == Ok::<
            u32,
            Seq<char>,
        >(color)
}

/// Whether some entry has the key.
pub open spec fn has_key(map: Seq<Entry>, key: Seq<char>) -> bool {
    exists|i: int| 0 <= i < map.len() && (#[trigger] map[i]).0 == key
}

proof fn lemma_value_of(map: Seq<Entry>, key: Seq<char>)
    ensures
        value_of(map, key) is Some <==> has_key(map, key),
        value_of(map, key) is Some ==> exists|i: int|
            0 <= i < map.len() && (#[trigger] map[i]).0 == key && (forall|j: int|
                i < j < map.len() ==> (#[trigger] map[j]).0 != key) && map[i].1 == value_of(
                map,
                key,
            )->0,
    decreases map.len(),
{
    if map.len() > 0 {
        let front = map.drop_last();
        let last = map.len() - 1;
        lemma_value_of(front, key);
        if map.last().0 == key {
            assert(map[last].0 == key);
            assert(forall|j: int| last < j < map.len() ==> (#[trigger] map[j]).0 != key);
        } else if value_of(front, key) is Some {
            let i = choose|i: int|
                0 <= i < front.len() && (#[trigger] front[i]).0 == key && (forall|j: int|
                    i < j < front.len() ==> (#[trigger] front[j]).0 != key) && front[i].1
                    == value_of(front, key)->0;
            assert(map[i] == front[i]);
            assert forall|j: int| i < j < map.len() implies (#[trigger] map[j]).0 != key by {
                if j < front.len() {
                    assert(front[j] == map[j]);
                }
            }
        } else if has_key(map, key) {
            let i = choose|i: int| 0 <= i < map.len() && (#[trigger] map[i]).0 == key;
            assert(i < last);
            assert(front[i].0 == key);
        }
    }
}

proof fn lemma_names_color(map: Seq<Entry>, key: Seq<char>, c: u32)
    requires
        color(map, key) == Ok::<u32, Seq<char>>(c),
    ensures
        names_color(map, key, c),
{
    lemma_value_of(map, key);
    let i = choose|i: int|
        0 <= i < map.len() && (#[trigger] map[i]).0 == key && (forall|j: int|
            i < j < map.len() ==> (#[trigger] map[j]).0 != key) && map[i].1 == value_of(
            map,
            key,
        )->0;
    assert(hex_color(map[i].1) == Ok::<u32, Seq<char>>(c));
}

/// Every color of a theme is the one that the file names under the key of that name. Orange is the
/// bright yellow, and brown the muted color, where the file names none.
pub proof fn law_colors_of_their_keys(
    text: &'static str,
    r: Result<OsColors, String>,
)
    requires
        call_ensures(parse_colors_toml, (text,), r),
        r is Ok,
    ensures
        table(text@) is Ok,
        ({
            let c = r->Ok_0;
            let map = table(text@)->Ok_0;
            &&& has_key(map, "mode"@)
            &&& names_color(map, "accent"@, c.accent)
            &&& names_color(map, "selection"@, c.selection)
            &&& names_color(map, "muted"@, c.muted)
            &&& names_color(map, "background"@, c.background)
            &&& names_color(map, "dark_background"@, c.dark_background)
            &&& names_color(map, "darker_background"@, c.darker_background)
            &&& names_color(map, "lighter_background"@, c.lighter_background)
            &&& names_color(map, "foreground"@, c.foreground)
            &&& names_color(map, "dark_foreground"@, c.dark_foreground)
            &&& names_color(map, "light_foreground"@, c.light_foreground)
            &&& names_color(map, "bright_foreground"@, c.bright_foreground)
            &&& names_color(map, "red"@, c.red)
            &&& names_color(map, "yellow"@, c.yellow)
            &&& names_color(map, "green"@, c.green)
            &&& names_color(map, "cyan"@, c.cyan)
            &&& names_color(map, "blue"@, c.blue)
            &&& names_color(map, "magenta"@, c.magenta)
            &&& names_color(map, "bright_red"@, c.bright_red)
            &&& names_color(map, "bright_yellow"@, c.bright_yellow)
            &&& names_color(map, "bright_green"@, c.bright_green)
            &&& names_color(map, "bright_cyan"@, c.bright_cyan)
            &&& names_color(map, "bright_blue"@, c.bright_blue)
            &&& names_color(map, "bright_magenta"@, c.bright_magenta)
            &&& has_key(map, "orange"@) ==> names_color(map, "orange"@, c.orange)
            &&& !has_key(map, "orange"@) ==> c.orange == c.bright_yellow
            &&& has_key(map, "brown"@) ==> names_color(map, "brown"@, c.brown)
            &&& !has_key(map, "brown"@) ==> c.brown == c.muted
        }),
{
    let c = r->Ok_0;
    let map = table(text@)->Ok_0;
    lemma_value_of(map, "mode"@);
    lemma_value_of(map, "orange"@);
    lemma_value_of(map, "brown"@);
    lemma_names_color(map, "accent"@, c.accent);
    lemma_names_color(map, "selection"@, c.selection);
    lemma_names_color(map, "muted"@, c.muted);
    lemma_names_color(map, "background"@, c.background);
    lemma_names_color(map, "dark_background"@, c.dark_background);
    lemma_names_color(map, "darker_background"@, c.darker_background);
    lemma_names_color(map, "lighter_background"@, c.lighter_background);
    lemma_names_color(map, "foreground"@, c.foreground);
    lemma_names_color(map, "dark_foreground"@, c.dark_foreground);
    lemma_names_color(map, "light_foreground"@, c.light_foreground);
    lemma_names_color(map, "bright_foreground"@, c.bright_foreground);
    lemma_names_color(map, "red"@, c.red);
    lemma_names_color(map, "yellow"@, c.yellow);
    lemma_names_color(map, "green"@, c.green);
    lemma_names_color(map, "cyan"@, c.cyan);
    lemma_names_color(map, "blue"@, c.blue);
    lemma_names_color(map, "magenta"@, c.magenta);
    lemma_names_color(map, "bright_red"@, c.bright_red);
    lemma_names_color(map, "bright_yellow"@, c.bright_yellow);
    lemma_names_color(map, "bright_green"@, c.bright_green);
    lemma_names_color(map, "bright_cyan"@, c.bright_cyan);
    lemma_names_color(map, "bright_blue"@, c.bright_blue);
    lemma_names_color(map, "bright_magenta"@, c.bright_magenta);
    if has_key(map, "orange"@) {
        lemma_names_color(map, "orange"@, c.orange);
    }
    if has_key(map, "brown"@) {
        lemma_names_color(map, "brown"@, c.brown);
    }
}

/// Six hexadecimal digits, with or without a number sign before them, are the color whose red, green
/// and blue they are, two digits each.
pub proof fn law_color_digits(raw: &'static str, digits: Seq<char>, r: Result<u32, String>)
    requires
        call_ensures(parse_hex, (raw,), r),
        digits.len() == 6,
        forall|i: int| 0 <= i < 6 ==> digit_value(#[trigger] digits[i], 16) is Some,
        raw@ == digits || raw@ == seq!['#'] + digits,
    ensures
        r is Ok,
        ({
            let d = |i: int| digit_value(digits[i], 16)->0 as int;
            let red = 16 * d(0) + d(1);
            let green = 16 * d(2) + d(3);
            let blue = 16 * d(4) + d(5);
            r->Ok_0 == 65_536 * red + 256 * green + blue
        }),
{
    lemma_six_digits(digits);
    assert forall|i: int| 0 <= i < 6 implies !is_space(#[trigger] digits[i]) && digits[i] != '#'
        && utf8_width(digits[i]) == 1 by {
        lemma_hex_digit(digits[i]);
    }
    assert(digits[0] != '#');
    lemma_bare(raw@);
    if raw@ != digits {
        assert(raw@.skip(1) =~= digits);
    }
    assert(past_sign(trim(raw@)) =~= digits);
    reveal_with_fuel(utf8_len, 7);
    assert(utf8_len(digits) == 6) by {
        let a = digits.drop_last();
        let b = a.drop_last();
        let c = b.drop_last();
        let e = c.drop_last();
        let f = e.drop_last();
        assert(f.drop_last() =~= Seq::<char>::empty());
        assert(utf8_width(digits[5]) == 1 && utf8_width(digits[4]) == 1 && utf8_width(digits[3])
            == 1 && utf8_width(digits[2]) == 1 && utf8_width(digits[1]) == 1 && utf8_width(
            digits[0],
        ) == 1);
    }
}

proof fn lemma_hex_digit(c: char)
    requires
        digit_value(c, 16) is Some,
    ensures
        !is_space(c),
        c != '#',
        utf8_width(c) == 1,
        digit_value(c, 16)->0 < 16,
{
}

proof fn lemma_bare(s: Seq<char>)
    requires
        s.len() > 0,
        !is_space(s[0]),
        !is_space(s.last()),
    ensures
        trim(s) == s,
{
}

proof fn lemma_six_digits(s: Seq<char>)
    requires
        s.len() == 6,
        forall|i: int| 0 <= i < 6 ==> digit_value(#[trigger] s[i], 16) is Some,
    ensures
        ({
            let d = |i: int| digit_value(s[i], 16)->0 as int;
            digits_value(s, 16) is Some && digits_value(s, 16)->0 == 1_048_576 * d(0) + 65_536 * d(
                1,
            ) + 4_096 * d(2) + 256 * d(3) + 16 * d(4) + d(5)
        }),
{
    let a = s.drop_last();
    let b = a.drop_last();
    let c = b.drop_last();
    let e = c.drop_last();
    let f = e.drop_last();
    assert(f.drop_last() =~= Seq::<char>::empty());
    reveal_with_fuel(digits_value, 8);
    assert(s.last() == s[5] && a.last() == s[4] && b.last() == s[3] && c.last() == s[2]
        && e.last() == s[1] && f.last() == s[0]);
    assert(digit_value(s[0], 16) is Some && digit_value(s[1], 16) is Some && digit_value(
        s[2],
        16,
    ) is Some && digit_value(s[3], 16) is Some && digit_value(s[4], 16) is Some && digit_value(
        s[5],
        16,
    ) is Some);
}

/// The user's size wins over the theme's, and the theme's over none; a file that cannot be read or
/// understood is warned of, the theme's only where the user's gave no size.
pub proof fn law_size_precedence(
    user_path: &'static str,
    user: &SizeRead,
    themed_path: &'static str,
    themed: &SizeRead,
    r: (Option<u32>, Option<String>, Option<String>),
)
    requires
        call_ensures(pick_base_size, (user_path, user, themed_path, themed), r),
    ensures
        *user matches SizeRead::Size(bits) ==> r.0 == Some(bits) && r.1 is None && r.2 is None,
        !(*user is Size) && *themed is Size ==> r.0 == Some(themed->Size_0) && r.2 is None,
        !(*user is Size) && !(*themed is Size) ==> r.0 is None,
        r.1 is Some <==> *user is Malformed || *user is Unreadable,
        r.2 is Some <==> !(*user is Size) && (*themed is Malformed || *themed is Unreadable),
{
}

/// A font family is what stands before the first comma, without spaces around it; where nothing
/// does, it is the fallback.
pub proof fn law_first_family(output: &'static str, r: (String, bool))
    requires
        call_ensures(font_family, (output,), r),
    ensures
        r.1 ==> r.0@ == "monospace"@,
        !r.1 ==> r.0@.len() > 0 && exists|end: int|
            0 <= end <= output@.len() && r.0@ == trim(#[trigger] output@.take(end)) && (end
                == output@.len() || output@[end] == ',') && forall|i: int|
                0 <= i < end ==> (#[trigger] output@[i]) != ',',
{
    lemma_first_index(output@, ',');
    let end = first_index(output@, ',');
    if !r.1 {
        assert(r.0@ == trim(output@.take(end)));
    }
}

/// A published theme is the one that is loaded, under the generation behind the one before it.
pub proof fn law_latest_theme<P>(
    slot: &mut ThemeSlot<P>,
    snapshot: ThemeSnapshot<P>,
    before: u64,
    after: u64,
    loaded: &ThemeSnapshot<P>,
)
    requires
        call_ensures(ThemeSlot::<P>::generation, (&*old(slot),), before),
        before < u64::MAX,
        call_ensures(ThemeSlot::<P>::publish, (slot, snapshot), ()),
        call_ensures(ThemeSlot::<P>::generation, (&*final(slot),), after),
        call_ensures(ThemeSlot::<P>::load, (&*final(slot),), loaded),
    ensures
        after == before + 1,
        loaded.palette == snapshot.palette,
        loaded.scale_bits == snapshot.scale_bits,
        loaded.generation == after,
{
}

/// A poll reports a change of any of the four files, and the next poll, if nothing changed since,
/// does not.
pub proof fn law_change_reported_once(
    watched: &mut WatchedMtimes,
    again: &mut WatchedMtimes,
    now: WatchedMtimes,
    r: bool,
    s: bool,
)
    requires
        call_ensures(WatchedMtimes::update, (watched, now), r),
        call_ensures(WatchedMtimes::update, (again, now), s),
        *old(again) == *final(watched),
    ensures
        r <==> old(watched).theme_name != now.theme_name || old(watched).colors != now.colors
            || old(watched).user_shell != now.user_shell || old(watched).themed_shell
            != now.themed_shell,
        !s,
{
}

/// Whether a line begins a section.
pub open spec fn begins_section(raw: Seq<char>) -> bool {
    shell_line(raw) is Section
}

proof fn lemma_base_size(all: Seq<Seq<char>>, i: nat, in_font: bool)
    requires
        i <= all.len(),
    ensures
        base_size(all, i, in_font) matches Some((number, value)) ==> {
            &&& i < number <= all.len()
            &&& shell_line(all[number - 1]) == ShellLine::Size(value)
            &&& (in_font && forall|j: int|
                i <= j < number - 1 ==> !begins_section(#[trigger] all[j])) || exists|k: int|
                i <= k < number - 1 && #[trigger] shell_line(all[k]) == ShellLine::Section(true)
                    && forall|j: int| k < j < number - 1 ==> !begins_section(#[trigger] all[j])
        },
    decreases all.len() - i,
{
    if i < all.len() {
        let next = match shell_line(all[i as int]) {
            ShellLine::Section(font) => font,
            _ => in_font,
        };
        lemma_base_size(all, i + 1, next);
        if let Some((number, value)) = base_size(all, i, in_font) {
            if number > i + 1 {
                if next && forall|j: int|
                    i + 1 <= j < number - 1 ==> !begins_section(#[trigger] all[j]) {
                    if begins_section(all[i as int]) {
                        assert(shell_line(all[i as int]) == ShellLine::Section(true));
                    } else {
                        assert(in_font && forall|j: int|
                            i <= j < number - 1 ==> !begins_section(#[trigger] all[j]));
                    }
                } else {
                    let k = choose|k: int|
                        i + 1 <= k < number - 1 && #[trigger] shell_line(all[k])
                            == ShellLine::Section(true) && forall|j: int|
                            k < j < number - 1 ==> !begins_section(#[trigger] all[j]);
                    assert(shell_line(all[k]) == ShellLine::Section(true));
                }
            }
        }
    }
}

/// A base size is taken from a line that assigns it, and the section of that line is the font
/// section.
pub proof fn law_base_size_of_the_font(text: &str, r: Option<(u64, String)>)
    requires
        call_ensures(base_size_text, (text,), r),
        r is Some,
    ensures
        ({
            let all = lines(text@);
            let at = (r->0).0 - 1;
            &&& 0 <= at < all.len()
            &&& shell_line(all[at]) == ShellLine::Size((r->0).1@)
            &&& exists|k: int|
                0 <= k < at && #[trigger] shell_line(all[k]) == ShellLine::Section(true)
                    && forall|j: int| k < j < at ==> !begins_section(#[trigger] all[j])
        }),
{
    lemma_base_size(lines(text@), 0, false);
}

/// A text without white space at its ends is trimmed to itself.
proof fn lemma_trim_nothing(s: Seq<char>)
    requires
        s.len() > 0,
        !is_space(s[0]),
        !is_space(s.last()),
    ensures
        trim(s) == s,
{
}

proof fn lemma_no_char(s: Seq<char>, c: char)
    requires
        forall|i: int| 0 <= i < s.len() ==> #[trigger] s[i] != c,
    ensures
        first_index(s, c) == s.len(),
        s.take(first_index(s, c)) == s,
{
    lemma_first_index(s, c);
    assert(s.take(s.len() as int) =~= s);
}

proof fn lemma_size_line(body: Seq<char>, value: Seq<char>)
    requires
        value.len() > 0,
        forall|i: int| 0 <= i < value.len() ==> '0' <= #[trigger] value[i] <= '9',
        body == value || body == seq!['"'] + value + seq!['"'],
    ensures
        shell_line("base-size="@ + body) == ShellLine::Size(value),
{
    let raw = "base-size="@ + body;
    let key = "base-size"@;
    reveal_strlit("base-size=");
    reveal_strlit("base-size");
    assert forall|i: int| 0 <= i < body.len() implies #[trigger] body[i] == '"' || '0' <= body[i]
        <= '9' by {
        if body != value && 0 < i < body.len() - 1 {
            assert(body[i] == value[i - 1]);
        }
    }
    assert forall|i: int| 0 <= i < raw.len() implies #[trigger] raw[i] != '#' by {
        if i >= 10 {
            assert(raw[i] == body[i - 10]);
        }
    }
    lemma_no_char(raw, '#');
    assert(raw[0] == 'b');
    assert(raw.last() == body.last());
    lemma_trim_nothing(raw);
    lemma_first_index(raw, '=');
    assert(raw[9] == '=');
    assert(raw.contains('='));
    let split = first_index(raw, '=');
    assert(split == 9) by {
        if split < 9 {
            assert(raw[split] == "base-size="@[split]);
        }
    }
    assert(raw.take(9) =~= key);
    assert(key[0] == 'b' && key.last() == 'e');
    lemma_trim_nothing(key);
    assert(raw.skip(10) =~= body);
    assert(body[0] == '"' || '0' <= body[0] <= '9');
    lemma_trim_nothing(body);
    assert('0' <= value[0] <= '9');
    assert('0' <= value.last() <= '9');
    if body == value {
        assert(strip_around(body, '"') == value);
    } else {
        assert(body != value ==> body[0] == '"');
        assert(body.drop_first() =~= value + seq!['"']);
        assert((value + seq!['"'])[0] == value[0]);
        assert(strip_start(value + seq!['"'], '"') == value + seq!['"']);
        assert(strip_start(body, '"') == value + seq!['"']);
        assert((value + seq!['"']).drop_last() =~= value);
        assert(strip_end(value, '"') == value);
        assert(strip_end(value + seq!['"'], '"') == value);
    }
    assert(strip_around(value, '\'') == value);
}

proof fn lemma_section_line(name: Seq<char>)
    requires
        forall|i: int| 0 <= i < name.len() ==> 'a' <= #[trigger] name[i] <= 'z',
    ensures
        shell_line(seq!['['] + name + seq![']']) == ShellLine::Section(name == "font"@),
{
    let raw = seq!['['] + name + seq![']'];
    reveal_strlit("font");
    reveal_strlit("[font]");
    assert forall|i: int| 0 <= i < raw.len() implies #[trigger] raw[i] != '#' && ascii_lower(raw[i])
        == raw[i] by {
        if 0 < i < raw.len() - 1 {
            assert(raw[i] == name[i - 1]);
        }
    }
    lemma_no_char(raw, '#');
    lemma_trim_nothing(raw);
    assert(lowered(raw) =~= raw);
    assert("[font]"@ =~= seq!['['] + "font"@ + seq![']']);
    if raw == "[font]"@ {
        assert(name =~= raw.subrange(1, raw.len() - 1));
        assert("font"@ =~= "[font]"@.subrange(1, 5));
    }
}

/// A line that holds the key, an equals sign and a number names that size, quoted or not; the
/// name of the font section in brackets begins it, and any other name in brackets another.
pub proof fn law_lines_of_the_shell(value: Seq<char>, name: Seq<char>)
    requires
        value.len() > 0,
        forall|i: int| 0 <= i < value.len() ==> '0' <= #[trigger] value[i] <= '9',
        forall|i: int| 0 <= i < name.len() ==> 'a' <= #[trigger] name[i] <= 'z',
    ensures
        shell_line("base-size="@ + value) == ShellLine::Size(value),
        shell_line("base-size="@ + seq!['"'] + value + seq!['"']) == ShellLine::Size(value),
        shell_line(seq!['['] + name + seq![']']) == ShellLine::Section(name == "font"@),
{
    lemma_size_line(value, value);
    lemma_size_line(seq!['"'] + value + seq!['"'], value);
    assert("base-size="@ + (seq!['"'] + value + seq!['"']) =~= "base-size="@ + seq!['"'] + value
        + seq!['"']);
    lemma_section_line(name);
}

proof fn lemma_base_size_found(all: Seq<Seq<char>>, i: nat, in_font: bool, k: int, at: int)
    requires
        i <= at < all.len(),
        shell_line(all[at]) is Size,
        forall|j: int| k < j < at ==> !begins_section(#[trigger] all[j]),
        (k < i && in_font) || (i <= k < at && shell_line(all[k]) == ShellLine::Section(true)),
    ensures
        base_size(all, i, in_font) is Some,
        (base_size(all, i, in_font)->0).0 <= at + 1,
    decreases all.len() - i,
{
    if i < at {
        let next = match shell_line(all[i as int]) {
            ShellLine::Section(font) => font,
            _ => in_font,
        };
        assert(k < i ==> !begins_section(all[i as int]));
        lemma_base_size_found(all, i + 1, next, k, at);
    }
}

/// The first base size of a font section is the one that is taken: none stands before it, and
/// where there is one at all, one is taken.
pub proof fn law_first_base_size(text: &str, r: Option<(u64, String)>, k: int, at: int)
    requires
        call_ensures(base_size_text, (text,), r),
        0 <= k < at < lines(text@).len(),
        shell_line(lines(text@)[k]) == ShellLine::Section(true),
        shell_line(lines(text@)[at]) is Size,
        forall|j: int| k < j < at ==> !begins_section(#[trigger] lines(text@)[j]),
    ensures
        r is Some,
        (r->0).0 <= at + 1,
{
    lemma_base_size_found(lines(text@), 0, false, k, at);
}

} // verus!
