use fft::cli::display::{
    gate_description, parse_args as parse_display, paths_equal, startup_source, Args, ScrubCheck,
    StartupSource,
};
use fft::cli::words::{replace, Fraction, Word};
use fft::cli::{agreement, census, data_plane, rss_week, scrub_burst, seek, soak};

/// The words of a command line. Words that end in `.fftlog` name files, those that end in `/`
/// directories.
fn words(line: &[&str]) -> Vec<Word> {
    line.iter()
        .map(|text| Word {
            text: text.to_string(),
            is_file: text.ends_with(".fftlog"),
            is_dir: text.ends_with('/'),
            fraction: text.parse::<f64>().ok().map(|value| Fraction {
                bits: value.to_bits(),
                nanos: if value > 0.0 { (value * 1e9) as u64 } else { 0 },
                positive: value.is_finite() && value > 0.0,
                negative: value < 0.0,
                text: value.to_string(),
            }),
        })
        .collect()
}

#[test]
fn every_occurrence_is_replaced() {
    assert_eq!(replace("a--b--c", "--", "+"), "a+b+c");
    assert_eq!(replace("aaa", "aa", "b"), "ba");
    assert_eq!(replace("abc", "x", "y"), "abc");
}

#[test]
fn the_data_plane_run_reads_its_options() {
    let args = data_plane::parse_args(&words(&["a.fftlog", "--out", "o", "b.fftlog"])).unwrap();
    assert_eq!((args.out.as_str(), args.smoke, args.seed), ("o", false, 0xC0FF_EE42_A1A7_E011));
    assert_eq!((args.legacy_dir.is_none(), args.diff_trials), (true, 7));
    assert_eq!(args.logs, vec!["a.fftlog".to_string(), "b.fftlog".to_string()]);
    let line = [
        "--out", "o", "--smoke", "--seed", "0xff", "--legacy-dir", "d", "--diff-trials", "3",
        "--seed", "12", "x",
    ];
    let args = data_plane::parse_args(&words(&line)).unwrap();
    assert_eq!((args.smoke, args.seed, args.diff_trials), (true, 12, 3));
    assert_eq!(args.legacy_dir.as_deref(), Some("d"));
}

#[test]
fn the_data_plane_run_refuses() {
    let refused = |line: &[&str]| data_plane::parse_args(&words(line)).unwrap_err();
    assert_eq!(refused(&["x"]), "missing --out");
    assert_eq!(refused(&["--out", "o"]), "need at least one .fftlog path");
    assert_eq!(refused(&["--out"]), "missing --out path");
    assert_eq!(refused(&["--help"]), "help");
    assert_eq!(refused(&["-x"]), "unknown flag -x");
    assert_eq!(refused(&["--seed", "12z"]), "bad --seed: 12z");
    assert_eq!(refused(&["--seed", "0xzz"]), "bad --seed hex: 0xzz");
    assert_eq!(refused(&["--diff-trials", "0"]), "--diff-trials must be ≥ 1");
    assert_eq!(refused(&["--diff-trials"]), "missing --diff-trials value");
}

#[test]
fn the_seek_run_reads_its_options() {
    let args = seek::parse_args(&words(&["--log", "l"])).unwrap();
    assert_eq!((args.seeks, args.verify, args.seed), (1000, 25, 0x4d32_5345_454b));
    assert!(args.out.is_none() && args.label.is_none());
    let line =
        ["--log", "l", "--seeks", "5", "--verify", "0", "--seed", "0XfF", "--out", "o", "--label", "SMOKE"];
    let args = seek::parse_args(&words(&line)).unwrap();
    assert_eq!((args.seeks, args.verify, args.seed), (5, 0, 255));
    assert_eq!((args.out.as_deref(), args.label.as_deref()), (Some("o"), Some("SMOKE")));
    let refused = |line: &[&str]| seek::parse_args(&words(line)).unwrap_err();
    assert_eq!(refused(&[]), "missing required --log");
    assert_eq!(refused(&["--seeks", "0"]), "--seeks must be ≥ 1");
    assert_eq!(refused(&["--seeks", "x"]), "--seeks must be a positive integer");
    assert_eq!(refused(&["--verify", "-1"]), "--verify must be a non-negative integer");
    assert_eq!(refused(&["--seed", "0xg"]), "--seed must be u64 (dec or 0xhex)");
    assert_eq!(refused(&["l"]), "unknown argument: l");
}

#[test]
fn the_census_reads_its_options() {
    let args = census::parse_args(&words(&["--out", "o", "a.fftlog"])).unwrap();
    assert_eq!((args.log.as_str(), args.out.as_deref()), ("a.fftlog", Some("o")));
    let refused = |line: &[&str]| census::parse_args(&words(line)).unwrap_err();
    assert_eq!(refused(&[]), "missing <path.fftlog>");
    assert_eq!(refused(&["a"]), "log not found: a");
    assert_eq!(refused(&["a.fftlog", "b.fftlog"]), "multiple log paths");
    assert_eq!(refused(&["-x"]), "unknown flag -x");
}

#[test]
fn the_agreement_run_reads_its_options() {
    let args =
        agreement::parse_args(&words(&["--replay", "a.fftlog", "--out", "o", "--smoke"])).unwrap();
    assert_eq!((args.replay.as_str(), args.out.as_str(), args.smoke), ("a.fftlog", "o", true));
    let refused = |line: &[&str]| agreement::parse_args(&words(line)).unwrap_err();
    assert_eq!(refused(&["--out", "o"]), "missing --replay");
    assert_eq!(refused(&["--replay", "a"]), "missing --out");
    assert_eq!(refused(&["--replay", "a", "--out", "o"]), "replay log not found: a");
    assert_eq!(refused(&["a"]), "unknown argument a");
}

#[test]
fn the_scrub_burst_reads_its_options() {
    let args = scrub_burst::parse_args(&words(&["--replay", "a.fftlog", "--out", "o"])).unwrap();
    assert_eq!((args.seeks, args.burst_ms, args.label.is_none()), (120, 2_000, true));
    let refused = |line: &[&str]| scrub_burst::parse_args(&words(line)).unwrap_err();
    assert_eq!(refused(&["--seeks", "0"]), "--seeks must be > 0");
    assert_eq!(refused(&["--seeks", "4294967296"]), "--seeks must be a positive integer");
    assert_eq!(refused(&["--burst-ms", "0"]), "--burst-ms must be > 0");
    assert_eq!(refused(&["--burst-ms", ""]), "--burst-ms must be a positive integer");
}

#[test]
fn the_week_reads_its_options() {
    let line = [
        "--current", "a.fftlog", "--out", "o", "--prior", "b.fftlog", "--prior", "c.fftlog",
        "--label", "quiet", "--replay-at", "77",
    ];
    let args = rss_week::parse_args(&words(&line)).unwrap();
    assert_eq!(args.priors, vec!["b.fftlog".to_string(), "c.fftlog".to_string()]);
    assert_eq!((args.label.as_deref(), args.replay_at), (Some("quiet"), Some(77)));
    let refused = |line: &[&str]| rss_week::parse_args(&words(line)).unwrap_err();
    assert_eq!(refused(&["--prior", "b"]), "--prior not a file: b");
    assert_eq!(refused(&[]), "missing --current");
    assert_eq!(refused(&["--current", "a"]), "missing --out");
    assert_eq!(refused(&["--current", "a", "--out", "o"]), "--current not a file: a");
    assert_eq!(
        refused(&["--current", "a.fftlog", "--out", "o"]),
        "need at least one --prior (full week wants four other days)"
    );
}

#[test]
fn the_soak_reads_its_options() {
    let base = ["--replay", "a.fftlog", "--out", "o", "--prior", "b.fftlog"];
    let args = soak::parse_args(&words(&base)).unwrap();
    assert_eq!(f64::from_bits(args.speed_bits), 64.0);
    assert_eq!(f64::from_bits(args.max_hours_bits), 0.0);
    assert_eq!(f64::from_bits(args.leak_pct_bits), 10.0);
    assert_eq!((args.cycle_secs, args.max_cycles), (0, 0));
    assert_eq!((args.scrub_seeks, args.leak_window), (24, 10));
    let mut line = base.to_vec();
    line.extend([
        "--speed", "2.5", "--cycle-secs", "30", "--max-cycles", "4", "--max-hours", "1.5",
        "--scrub-seeks", "4294967299", "--leak-window", "2", "--leak-pct", "0",
    ]);
    let args = soak::parse_args(&words(&line)).unwrap();
    assert_eq!(f64::from_bits(args.speed_bits), 2.5);
    assert_eq!(f64::from_bits(args.max_hours_bits), 1.5);
    assert_eq!((args.cycle_secs, args.max_cycles), (30, 4));
    // Seeks are counted in 32 bits.
    assert_eq!((args.scrub_seeks, args.leak_window), (3, 2));
}

#[test]
fn the_soak_refuses() {
    let refused = |line: &[&str]| soak::parse_args(&words(line)).unwrap_err();
    assert_eq!(refused(&["--speed", "x"]), "--speed must be a finite f64 > 0");
    assert_eq!(refused(&["--speed", "0"]), "--speed must be finite and > 0");
    assert_eq!(refused(&["--speed", "inf"]), "--speed must be finite and > 0");
    assert_eq!(refused(&["--max-hours", "-1"]), "--max-hours must be >= 0");
    assert_eq!(refused(&["--leak-pct", "x"]), "--leak-pct must be a non-negative f64");
    assert_eq!(refused(&["--scrub-seeks", "0"]), "--scrub-seeks must be > 0");
    assert_eq!(refused(&["--leak-window", "1"]), "--leak-window must be >= 2");
    assert_eq!(
        refused(&["--replay", "a.fftlog", "--out", "o"]),
        "need at least one --prior (full week: four other days)"
    );
}

#[test]
fn paths_are_compared_part_by_part() {
    assert!(paths_equal("/a//b/./c/", "/a/b/c"));
    assert!(paths_equal("a/b", "a/b/"));
    assert!(!paths_equal("/a/b", "a/b"));
    assert!(!paths_equal("./a", "a"));
    assert!(!paths_equal("/a/../b", "/b"));
    assert!(paths_equal("", ""));
}

fn some(text: &str) -> Option<String> {
    Some(text.to_string())
}

#[test]
fn a_source_takes_its_options() {
    assert!(matches!(startup_source(None, None, None, None, None), Ok(StartupSource::Blank)));
    match startup_source(some("a"), None, Some(5), None, None) {
        Ok(StartupSource::Replay { path, replay_at }) => {
            assert_eq!((path.as_str(), replay_at), ("a", Some(5)));
        }
        other => panic!("{other:?}"),
    }
    match startup_source(None, some("a"), None, Some(5), some("b")) {
        Ok(StartupSource::SimLive { path, head_ts, live_out }) => {
            assert_eq!((path.as_str(), head_ts, live_out.as_str()), ("a", 5, "b"));
        }
        other => panic!("{other:?}"),
    }
    let refused = |r, s, at, head, out| startup_source(r, s, at, head, out).unwrap_err();
    let exclusive = "--sim-live is mutually exclusive with --replay / --replay-at";
    assert_eq!(refused(some("a"), some("b"), None, None, None), exclusive);
    assert_eq!(refused(None, some("b"), Some(1), None, None), exclusive);
    assert_eq!(
        refused(None, some("b"), None, Some(1), None),
        "--sim-live requires --head and --live-out"
    );
    assert_eq!(
        refused(None, some("d/b"), None, Some(1), some("d//b")),
        "--live-out must be distinct from the --sim-live source"
    );
    assert_eq!(refused(None, None, Some(1), None, None), "--replay-at requires --replay");
    assert_eq!(refused(some("a"), None, None, None, some("b")), "--live-out requires --sim-live");
    assert_eq!(
        refused(some("a"), None, None, Some(1), None),
        "--head / --live-out require --sim-live"
    );
}

fn display(line: &[&str]) -> Result<Args, String> {
    parse_display(&words(line), 99, |check: &ScrubCheck| {
        if check.samples.is_some() && !check.replaying {
            Some("--scrub-latency-gate requires --replay".to_string())
        } else {
            None
        }
    })
}

#[test]
fn the_display_reads_its_options() {
    let args = display(&[]).unwrap();
    assert!(!args.startup.starts_engine() && args.gate.is_none());
    assert_eq!(args.scrub_latency_seed, 99);
    let line = [
        "--replay", "a.fftlog", "--replay-at", "77", "--gate", "1.5", "--prior", "b.fftlog",
        "--no-prior-discovery", "--dbn-dir", "d/", "--gate-out", "g", "--conditions", "quiet",
        "--startup-trace", "--scrub-latency-gate", "9", "--scrub-latency-seed", "3", "--trace",
        "t", "--manifest", "m.fftlog", "--scrub-latency-out", "s", "--no-auto-ingest",
    ];
    let args = display(&line).unwrap();
    assert!(args.startup.starts_engine() && args.startup_trace);
    assert_eq!((args.gate, args.anchor_arg.as_deref()), (Some(1_500_000_000), Some("77")));
    assert_eq!(args.prior, vec!["b.fftlog".to_string()]);
    assert_eq!((args.scrub_latency_gate, args.scrub_latency_seed), (Some(9), 3));
    assert!(args.no_prior_discovery && args.no_auto_ingest);
    assert_eq!(args.manifest.as_deref(), Some("m.fftlog"));
}

#[test]
fn the_display_refuses() {
    let refused = |line: &[&str]| display(line).unwrap_err();
    assert_eq!(refused(&["x"]), "unknown argument: x");
    assert_eq!(refused(&["--gate"]), "--gate requires <seconds>");
    assert_eq!(refused(&["--gate", "x"]), "invalid --gate value: x");
    assert_eq!(refused(&["--gate", "-1"]), "--gate must be a positive number, got -1");
    assert_eq!(refused(&["--prior", "b"]), "--prior file does not exist: b");
    assert_eq!(refused(&["--dbn-dir", "d"]), "--dbn-dir is not a directory: d");
    assert_eq!(refused(&["--prior", "b.fftlog"]), "--prior requires --replay");
    assert_eq!(refused(&["--scrub-latency-gate", "x"]), "invalid --scrub-latency-gate: x");
    assert_eq!(
        refused(&["--sim-live", "a", "--head", "1", "--live-out", "b", "--no-auto-ingest"]),
        "--no-prior-discovery / --no-auto-ingest / --dbn-dir are replay-only (not with --sim-live)"
    );
    assert_eq!(
        refused(&["--startup-trace"]),
        "--startup-trace requires --replay or --sim-live (interactive mark needs a snapshot)"
    );
    assert_eq!(
        refused(&["--scrub-latency-gate", "4"]),
        "--scrub-latency-gate requires --replay"
    );
    assert!(refused(&["--head", "yesterday"]).contains("--head"));
    assert!(!refused(&["--head", "yesterday"]).contains("--replay-at"));
}

#[test]
fn a_run_is_described_by_what_it_measured() {
    let blank = display(&[]).unwrap();
    assert_eq!(gate_description(&blank, None), "fft frame harness (ungated), blank window");
    let line =
        ["--replay", "a", "--replay-at", "77", "--prior", "b.fftlog", "--prior", "c.fftlog"];
    assert_eq!(
        gate_description(&display(&line).unwrap(), Some("60.000")),
        "fft frame gate — 60.000 s, replay a @ 77 +2 priors"
    );
    let line = ["--sim-live", "a", "--head", "77", "--live-out", "b"];
    assert_eq!(
        gate_description(&display(&line).unwrap(), None),
        "fft frame harness (ungated), sim-live a head 77 live-out b"
    );
}

#[test]
fn the_last_value_of_an_option_wins() {
    let args = seek::parse_args(&words(&["--log", "a", "--log", "b"])).unwrap();
    assert_eq!(args.log, "b");
}
