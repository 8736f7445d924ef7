use fft::data_plane::apply::{apply_chunked, apply_oneshot, fail_reason, trial_of};
use fft::data_plane::report::{
    busiest, legacy_fields, legacy_name, render_json, run_fails, size_claim, trials_match,
    ApplyResult, DayStat, DiffTrial, LegacyLookup, LegacyRatio, RunFacts,
};
use fft::data_plane::sections::{first_diff, StateSection, StateSections};
use fft::event::{CanonicalEvent, EventKind, InstrumentMeta, OrderId, Price, SeqNo, Side, Ts};
use fft::replay::frames::{Frame, FrameKind, FrameLog, SectionLayout, SectionTag};
use fft::replay::probe::Probe;
use fft::replay::source::ReplaySource;
use std::cell::Cell;

fn event(seq: u32) -> CanonicalEvent {
    CanonicalEvent {
        kind: EventKind::Add,
        side: Side::Bid,
        flags: 0,
        size: 1,
        ts: Ts(100 + u64::from(seq)),
        seq: SeqNo(seq),
        price: Price(1_000),
        order_id: OrderId(u64::from(seq)),
    }
}

fn events_frame(from: u32, to: u32) -> Frame {
    let events: Vec<CanonicalEvent> = (from..=to).map(event).collect();
    Frame {
        kind: FrameKind::Events,
        first_ts: events[0].ts.0,
        last_ts: events[events.len() - 1].ts.0,
        last_seq: u64::from(to),
        events: Ok(events),
        sections: Ok(Vec::new()),
    }
}

fn source_of(frames: Vec<Frame>) -> ReplaySource {
    let tag = |id| SectionTag { id, version: 1 };
    ReplaySource::open(FrameLog {
        meta: InstrumentMeta {
            symbol: "ESU6".into(),
            instrument_id: 42,
            dataset: "GLBX.MDP3".into(),
            min_price_increment: Price(250_000_000),
            unit_of_measure_qty: 50_000_000_000,
            display_factor: 1,
            trade_date: 20_663,
            session_open: Ts(0),
        },
        layout: SectionLayout {
            book: tag(1),
            flow: tag(2),
            profile: tag(3),
            cvd: tag(4),
            refresh: tag(5),
        },
        warnings: Vec::new(),
        frames,
    })
}

fn sections() -> StateSections {
    StateSections {
        book: vec![1],
        flow: vec![2, 2],
        refresh: vec![3, 3, 3],
        profile: vec![4; 4],
        cvd: vec![5; 5],
        session: vec![6; 6],
    }
}

fn result() -> ApplyResult {
    ApplyResult {
        events: 10,
        seconds: "1.500000000".into(),
        sections: sections(),
        applied_seq: 10,
        applied_ts: 110,
    }
}

fn day(count: u64, half: Option<bool>) -> DayStat {
    DayStat {
        path: "a\"b.fftlog2".into(),
        trade_date: 20_663,
        trade_date_ymd: "2026-07-29".into(),
        symbol: "ESU6".into(),
        event_count: count,
        file_bytes: 200,
        bytes_per_event: "20.000000".into(),
        legacy_bytes: half.map(|_| 500),
        legacy_ratio: half
            .map(|at_most_half| LegacyRatio { numeral: "0.400000".into(), at_most_half }),
        legacy_status: "ok:x:500B".into(),
    }
}

#[test]
fn the_first_section_that_differs_is_named() {
    let a = sections();
    assert_eq!(first_diff(&a, &sections()), None);
    let mut b = sections();
    b.session.push(0);
    assert_eq!(first_diff(&a, &b), Some(StateSection::Session));
    b.cvd[0] = 9;
    assert_eq!(first_diff(&a, &b), Some(StateSection::Cvd));
    b.profile[0] = 9;
    assert_eq!(first_diff(&a, &b), Some(StateSection::Profile));
    b.refresh[0] = 9;
    assert_eq!(first_diff(&a, &b), Some(StateSection::Refresh));
    b.flow[1] = 9;
    assert_eq!(first_diff(&a, &b), Some(StateSection::Flow));
    b.book.clear();
    assert_eq!(first_diff(&a, &b), Some(StateSection::Book));
    assert_eq!(StateSection::Book.name(), "BOOK");
    assert_eq!(StateSection::Session.name(), "SESSION");
}

#[test]
fn a_replay_in_one_go_reaches_the_end() {
    let mut source = source_of(vec![events_frame(1, 4), events_frame(5, 7)]);
    let mut applied = Vec::new();
    let progress = apply_oneshot(&mut source, &mut Probe::new(|| 0), &mut applied).expect("end");
    assert_eq!((progress.events, progress.applied_seq, progress.applied_ts), (7, 7, 107));
    assert!(progress.eof);
    assert_eq!(applied, (1..=7).map(event).collect::<Vec<_>>());
}

#[test]
fn a_replay_that_stops_short_says_so() {
    let clock = Cell::new(0u64);
    let tick = || {
        clock.set(clock.get() + 3_000_000_000_000);
        clock.get()
    };
    let mut source = source_of(vec![events_frame(1, 9_000)]);
    let mut applied = Vec::new();
    let message = apply_oneshot(&mut source, &mut Probe::new(tick), &mut applied).expect_err("budget");
    assert_eq!(
        message,
        format!("oneshot did not reach EOF after {} events (budget?)", applied.len())
    );
    assert_eq!(applied.len(), 1);
}

#[test]
fn a_replay_hands_the_reader_failure_on() {
    let mut broken = events_frame(5, 7);
    broken.events = Err("crc".into());
    let mut source = source_of(vec![events_frame(1, 4), broken]);
    let mut applied = Vec::new();
    assert_eq!(
        apply_oneshot(&mut source, &mut Probe::new(|| 0), &mut applied).expect_err("fault"),
        "apply_forward: fft-replay log error: crc"
    );
    assert_eq!(applied.len(), 4);
}

#[test]
fn chunks_apply_what_one_go_applies() {
    for sizes in [vec![7], vec![1, 2, 4], vec![2, 2], vec![], vec![3, 9]] {
        let mut source = source_of(vec![events_frame(1, 4), events_frame(5, 7)]);
        let mut applied = Vec::new();
        assert_eq!(apply_chunked(&mut source, &sizes, &mut Probe::new(|| 0), &mut applied), Ok(7));
        assert_eq!(applied, (1..=7).map(event).collect::<Vec<_>>());
    }
}

#[test]
fn an_empty_chunk_makes_no_progress() {
    let mut source = source_of(vec![events_frame(1, 4)]);
    let mut applied = Vec::new();
    assert_eq!(
        apply_chunked(&mut source, &vec![3, 0, 1], &mut Probe::new(|| 0), &mut applied),
        Err("chunk made no progress".to_string())
    );
    assert_eq!(applied.len(), 3);
}

#[test]
fn chunks_without_time_stop_short_of_the_end() {
    let clock = Cell::new(0u64);
    let tick = || {
        clock.set(clock.get() + 1_000_000_000_000);
        clock.get()
    };
    let mut source = source_of(vec![events_frame(1, 9)]);
    let mut applied = Vec::new();
    assert_eq!(
        apply_chunked(&mut source, &vec![2, 4], &mut Probe::new(tick), &mut applied),
        Err("chunked did not reach EOF after 8 events".to_string())
    );
    assert_eq!(applied.len(), 8);
    let spent = || {
        clock.set(clock.get() + 4_000_000_000_000);
        clock.get()
    };
    let mut source = source_of(vec![events_frame(1, 9)]);
    assert_eq!(
        apply_chunked(&mut source, &vec![2, 4], &mut Probe::new(spent), &mut Vec::new()),
        Err("chunk made no progress".to_string())
    );
}

#[test]
fn each_difference_between_two_replays_has_its_reason() {
    let oneshot = result();
    assert_eq!(fail_reason(&result(), &oneshot), None);
    let mut run = result();
    run.applied_ts = 111;
    assert_eq!(
        fail_reason(&run, &oneshot).unwrap(),
        "cursor mismatch seq/ts 10/111 vs 10/110"
    );
    for (at, text) in [
        (5, "session section mismatch"),
        (4, "cvd section mismatch"),
        (3, "profile section mismatch"),
        (2, "serialize_refresh mismatch"),
        (1, "serialize_flow mismatch"),
        (0, "serialize_book mismatch"),
    ] {
        let s = &mut run.sections;
        let part = [
            &mut s.book,
            &mut s.flow,
            &mut s.refresh,
            &mut s.profile,
            &mut s.cvd,
            &mut s.session,
        ];
        part.into_iter().nth(at).unwrap().push(0);
        assert_eq!(fail_reason(&run, &oneshot).unwrap(), text);
    }
    run.events = 9;
    assert_eq!(fail_reason(&run, &oneshot).unwrap(), "event count 9 != oneshot 10");
}

#[test]
fn a_trial_takes_over_what_its_replay_came_to() {
    let oneshot = result();
    let good = trial_of(2, vec![4, 6], Ok(result()), &oneshot);
    assert!(good.match_oneshot && good.fail_reason.is_none());
    assert_eq!((good.trial, good.n_chunks, good.seconds.as_str()), (2, 2, "1.500000000"));
    let bad = trial_of(3, vec![10], Err("no log".into()), &oneshot);
    assert!(!bad.match_oneshot);
    assert_eq!(bad.fail_reason.as_deref(), Some("no log"));
    assert_eq!(bad.seconds, "0.000000000");
}

#[test]
fn the_older_log_is_looked_up_by_name() {
    assert_eq!(legacy_name("2026-07-29", "ESU6"), "2026-07-29-ESU6.fftlog");
    assert_eq!(legacy_fields(&LegacyLookup::NotRequested), (None, "not_requested".to_string()));
    assert_eq!(
        legacy_fields(&LegacyLookup::Missing("/d/x".into())),
        (None, "missing:/d/x".to_string())
    );
    assert_eq!(
        legacy_fields(&LegacyLookup::Unreadable("/d/x".into(), "denied".into())),
        (None, "unreadable:/d/x:denied".to_string())
    );
    assert_eq!(
        legacy_fields(&LegacyLookup::Found("/d/x".into(), 500)),
        (Some(500), "ok:/d/x:500B".to_string())
    );
}

#[test]
fn the_last_of_the_busiest_days_is_taken() {
    assert_eq!(busiest(&Vec::new()), None);
    let days = vec![day(3, None), day(9, None), day(9, None), day(4, None)];
    assert_eq!(busiest(&days), Some(2));
}

#[test]
fn sizes_are_claimed_only_where_every_day_was_compared() {
    assert_eq!(size_claim(&vec![day(1, Some(true)), day(1, None)]), (true, "UNVERIFIED"));
    assert_eq!(size_claim(&vec![day(1, Some(true)), day(1, Some(true))]), (false, "PASS"));
    assert_eq!(size_claim(&vec![day(1, Some(true)), day(1, Some(false))]), (false, "FAIL"));
}

#[test]
fn a_smoke_run_never_fails() {
    assert!(run_fails(false, false, true));
    assert!(run_fails(false, true, false));
    assert!(!run_fails(false, true, true));
    assert!(!run_fails(true, false, false));
}

#[test]
fn the_evidence_document() {
    let facts = RunFacts {
        git_sha: "abc".into(),
        date_utc: "2026-07-30T00:00:00Z".into(),
        smoke: false,
        seed: 7,
        apply_pass: true,
        apply_budget: "20".into(),
    };
    let days = vec![day(10, Some(true)), day(4, None)];
    let trials = vec![
        DiffTrial {
            trial: 0,
            n_chunks: 2,
            chunk_sizes: vec![4, 6],
            match_oneshot: true,
            seconds: "1.250000000".into(),
            fail_reason: None,
        },
        DiffTrial {
            trial: 1,
            n_chunks: 1,
            chunk_sizes: vec![10],
            match_oneshot: false,
            seconds: "0.000000000".into(),
            fail_reason: Some("no \"log\"".into()),
        },
    ];
    assert!(!trials_match(&trials));
    let want = r#"{
  "gate": "M1-data-plane",
  "git_sha": "abc",
  "date": "2026-07-30T00:00:00Z",
  "timing_label": "QUIET_BOX",
  "smoke": false,
  "seed": 7,
  "note": "SMOKE timings are not claimable; only QUIET_BOX runs on an idle host count as gate evidence",
  "days": [
    {
      "path": "a\"b.fftlog2",
      "trade_date": 20663,
      "trade_date_ymd": "2026-07-29",
      "symbol": "ESU6",
      "event_count": 10,
      "file_bytes": 200,
      "bytes_per_event": 20.000000,
      "legacy_bytes": 500,
      "legacy_ratio": 0.400000,
      "legacy_status": "ok:x:500B"
    },
    {
      "path": "a\"b.fftlog2",
      "trade_date": 20663,
      "trade_date_ymd": "2026-07-29",
      "symbol": "ESU6",
      "event_count": 4,
      "file_bytes": 200,
      "bytes_per_event": 20.000000,
      "legacy_bytes": null,
      "legacy_ratio": null,
      "legacy_status": "ok:x:500B"
    }
  ],
  "busiest_day": {
    "trade_date_ymd": "2026-07-29",
    "event_count": 10,
    "path": "a\"b.fftlog2"
  },
  "forward_apply": {
    "events": 10,
    "seconds": 1.500000000,
    "budget_seconds": 20,
    "verdict": "PASS",
    "timing_label": "QUIET_BOX",
    "applied_seq": 10,
    "applied_ts": 110,
    "serialize_book_bytes": 1,
    "serialize_flow_bytes": 2,
    "serialize_refresh_bytes": 3,
    "profile_section_bytes": 4,
    "cvd_section_bytes": 5,
    "session_section_bytes": 6
  },
  "differential": {
    "verdict": "FAIL",
    "trials": 2,
    "results": [
      {
        "trial": 0,
        "n_chunks": 2,
        "chunk_sizes": [4, 6],
        "match_oneshot": true,
        "seconds": 1.250000000,
        "fail_reason": null
      },
      {
        "trial": 1,
        "n_chunks": 1,
        "chunk_sizes": [10],
        "match_oneshot": false,
        "seconds": 0.000000000,
        "fail_reason": "no \"log\""
      }
    ]
  },
  "log_size": {
    "claim_leq_half_legacy": "UNVERIFIED",
    "ratio_unverified": true,
    "bytes_per_event_table": [
      {
        "trade_date_ymd": "2026-07-29",
        "event_count": 10,
        "v2_bytes": 200,
        "v2_bytes_per_event": 20.000000,
        "legacy_bytes": 500,
        "v2_over_legacy": 0.400000,
        "legacy_status": "ok:x:500B"
      },
      {
        "trade_date_ymd": "2026-07-29",
        "event_count": 4,
        "v2_bytes": 200,
        "v2_bytes_per_event": 20.000000,
        "legacy_bytes": null,
        "v2_over_legacy": null,
        "legacy_status": "ok:x:500B"
      }
    ]
  }
}
"#;
    let text = render_json(&facts, &days, 0, &result(), &trials);
    assert_eq!(text, want);
    let document: serde_json::Value = serde_json::from_str(&text).unwrap();
    assert_eq!(document["days"][0]["legacy_bytes"], 500);
    assert_eq!(document["log_size"]["ratio_unverified"], true);
}
