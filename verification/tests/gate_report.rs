use fft::datetime::rfc3339_utc;
use fft::gate_report::{
    command_line, gate_failed, verdict, CoverageReport, FrameResult, GateReport, GitInfo, RunMeta,
    Verdict,
};

fn sample_result() -> FrameResult {
    FrameResult {
        refresh_interval_ns: 4_167_000,
        deadline_ns: 6_250_000,
        warmup_ns: 501_200_000,
        warmup_samples: 120,
        frames: 14_400,
        missed: 0,
        p50_ns: 4_170_000,
        p95_ns: 4_200_000,
        p99_ns: 4_310_000,
        max_ns: 5_020_000,
    }
}

fn meta() -> RunMeta {
    RunMeta {
        gate: "fft frame gate — 60.000 s".to_string(),
        binary: "fft --gate 60".to_string(),
        git: GitInfo { sha: "abc".to_string(), dirty: Some(false) },
        replay: None,
        trace: None,
        manifest: None,
        conditions: None,
    }
}

#[test]
fn dropped_events_force_failure_even_with_zero_missed_frames() {
    let result = sample_result();
    assert_eq!(result.missed, 0);
    let dropped = CoverageReport::new(82_000_000, 81_999_999, 0);
    assert_eq!(dropped.dropped, 1);
    assert_eq!(verdict(Some(&result), Some(&dropped)), Verdict::Fail);
    assert!(gate_failed(true, verdict(Some(&result), Some(&dropped))));
    // Ungated runs report the same verdict but never fail the process.
    assert!(!gate_failed(false, verdict(Some(&result), Some(&dropped))));
}

#[test]
fn clean_run_passes_and_gaps_are_not_drops() {
    let result = sample_result();
    let coverage = CoverageReport::new(1_000, 1_000, 17);
    assert_eq!(coverage.dropped, 0);
    assert_eq!(verdict(Some(&result), Some(&coverage)), Verdict::Pass);
    assert!(!gate_failed(true, Verdict::Pass));
    // Not replaying: absent coverage fails nothing.
    assert_eq!(verdict(Some(&result), None), Verdict::Pass);
}

#[test]
fn missed_frames_and_missing_frames_both_fail() {
    let missed = FrameResult { missed: 1, ..sample_result() };
    assert_eq!(verdict(Some(&missed), None), Verdict::Fail);
    let empty = FrameResult { frames: 0, ..sample_result() };
    assert_eq!(verdict(Some(&empty), None), Verdict::Fail);
    assert_eq!(verdict(None, None), Verdict::Fail);
    assert!(gate_failed(true, Verdict::Fail));
}

#[test]
fn coverage_line_reports_read_minus_applied() {
    let coverage = CoverageReport::new(100, 97, 2);
    assert_eq!(coverage.dropped, 3);
    assert_eq!(
        coverage.to_string(),
        "coverage events_read=100 events_applied=97 dropped=3 gap_records=2"
    );
    // applied > read violates the engine invariant; it must not underflow.
    assert_eq!(CoverageReport::new(1, 5, 0).dropped, 0);
}

#[test]
fn engine_panic_fails_a_clean_run_and_is_noted() {
    let mut report = GateReport::new(
        &meta(),
        rfc3339_utc(0),
        "rev",
        Some(sample_result()),
        Some(CoverageReport::new(1_000, 1_000, 0)),
    );
    assert_eq!(report.verdict, Verdict::Pass);
    report.record_engine_panic("fft-engine replay failure: bad frame");
    assert_eq!(report.verdict, Verdict::Fail);
    assert_eq!(
        report.notes.as_deref(),
        Some("engine thread panicked: fft-engine replay failure: bad frame")
    );
    // The measured frames survive the panic — they are the evidence of the run.
    assert!(report.result.is_some());
}

#[test]
fn a_report_carries_what_identifies_the_run() {
    let mut identified = meta();
    identified.replay = Some("es.fftlog".to_string());
    identified.conditions = Some("quiet".to_string());
    let report = GateReport::new(&identified, rfc3339_utc(0), "abc123", None, None);
    assert_eq!(report.gate, "fft frame gate — 60.000 s");
    assert_eq!(report.date, "1970-01-01T00:00:00Z");
    assert_eq!(report.binary, "fft --gate 60");
    assert_eq!((report.git_sha.as_str(), report.git_dirty), ("abc", Some(false)));
    assert_eq!(report.replay.as_deref(), Some("es.fftlog"));
    assert_eq!(report.trace, None);
    assert_eq!(report.conditions.as_deref(), Some("quiet"));
    assert_eq!(report.gpui_rev.as_deref(), Some("abc123"));
    assert_eq!(report.verdict, Verdict::Fail);
}

#[test]
fn command_line_uses_the_binary_file_name() {
    let argv = ["target/release/fft", "--gate", "60", "--gate-out", "r.json"]
        .map(String::from)
        .to_vec();
    assert_eq!(command_line(argv), "fft --gate 60 --gate-out r.json");
    assert_eq!(command_line(Vec::new()), "");
}

#[test]
fn paths_without_a_file_name_stay_whole() {
    for path in ["/", "..", "a/..", ".", "./", "", "//"] {
        assert_eq!(command_line(vec![path.to_string()]), path, "{path}");
        assert_eq!(std::path::Path::new(path).file_name(), None, "{path}");
    }
    for (path, name) in [("a/b/", "b"), ("a/./", "a"), ("./x", "x"), ("/x/./.", "x"), ("..x", "..x")] {
        assert_eq!(command_line(vec![path.to_string()]), name);
        assert_eq!(std::path::Path::new(path).file_name().unwrap(), name);
    }
}

#[test]
fn unknown_commits_are_warned_of() {
    let (git, warning) = GitInfo::capture(Ok(" abc\n".to_string()), Ok(" M file\n".to_string()));
    assert_eq!((git.sha.as_str(), git.dirty, warning), ("abc", Some(true), None));
    let (git, warning) = GitInfo::capture(Ok("abc\n".to_string()), Ok("\n".to_string()));
    assert_eq!((git.sha.as_str(), git.dirty, warning), ("abc", Some(false), None));
    for (head, status) in [
        (Err("no git".to_string()), Ok(String::new())),
        (Ok("abc".to_string()), Err("no git".to_string())),
        (Err("no git".to_string()), Err("other".to_string())),
    ] {
        let (git, warning) = GitInfo::capture(head, status);
        assert_eq!((git.sha.as_str(), git.dirty), ("unknown", None));
        assert_eq!(
            warning.as_deref(),
            Some("fft: WARNING no git provenance (no git); gate evidence records sha \"unknown\"")
        );
    }
}
