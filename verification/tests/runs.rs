use fft::data_plane::sections::StateSections;
use fft::event::{CanonicalEvent, EventKind, InstrumentMeta, OrderId, Price, SeqNo, Side, Ts};
use fft::mp_view::VolumeMismatch;
use fft::render::{
    DomPriceRow, DomRenderState, ProfilePriceRow, ProfileRenderState, ProfileSessionRender,
};
use fft::replay::error::ReplayError;
use fft::replay::frames::{Frame, FrameKind, FrameLog, SectionLayout, SectionTag};
use fft::replay::source::ReplaySource;
use fft::runs::agreement::{
    check_dom_structure, mismatch_detail, timeout_ns, FailureDetail, FailureKind, Monitor,
    Published, STABLE_DONE_NS,
};
use fft::runs::bounds::{
    event_time_bounds, inspect, sweep_targets, BoundsRule, FrameHeader, Inspection,
};
use fft::runs::burst::{panic_note, Burst, SETTLE_TIMEOUT_NS, WEDGE_TIMEOUT_NS};
use fft::runs::seek::{
    compare, decide_verdict, distribution, forward_to_ts, gate_name, inspect_log, replay_to_end,
    LogInfo, Reached, Timings, VerifyReport,
};
use fft::runs::vm_status::{parse_kb, read_vm_status, VmStatus};
use fft::runs::week::{await_current, await_prior, under_budget, Idle, Wait, Week, STABLE_NS};

fn header(kind: FrameKind, first_ts: u64, last_ts: u64, count: u32) -> FrameHeader {
    FrameHeader { kind, first_ts, last_ts, count }
}

fn found(first_ts: Option<u64>, last_ts: u64, checkpoints: usize) -> Inspection {
    Inspection { first_ts, last_ts, records: 12, checkpoints }
}

#[test]
fn a_log_is_inspected_frame_by_frame() {
    let headers = vec![
        header(FrameKind::Other, 1, 2, 99),
        header(FrameKind::Events, 10, 20, 5),
        header(FrameKind::Checkpoint, 20, 20, 1),
        header(FrameKind::Events, 21, 30, 7),
        header(FrameKind::Checkpoint, 30, 30, 1),
    ];
    let got = inspect(&headers);
    assert_eq!((got.first_ts, got.last_ts, got.records, got.checkpoints), (Some(10), 30, 12, 2));
    let none = inspect(&Vec::new());
    assert_eq!((none.first_ts, none.last_ts, none.records, none.checkpoints), (None, 0, 0, 0));
}

#[test]
fn a_log_that_cannot_be_sought_is_refused() {
    let rule = BoundsRule { program: "m5-scrub", ordered: true };
    assert_eq!(event_time_bounds(rule, found(Some(10), 30, 1), "/d/x"), Ok((10, 30)));
    assert_eq!(
        event_time_bounds(rule, found(None, 0, 1), "/d/x"),
        Err("m5-scrub: no EVENTS frames in /d/x".to_string())
    );
    assert_eq!(
        event_time_bounds(rule, found(Some(10), 9, 1), "/d/x"),
        Err("m5-scrub: last_ts < first_ts".to_string())
    );
    assert_eq!(
        event_time_bounds(rule, found(Some(10), 30, 0), "/d/x"),
        Err("m5-scrub: zero checkpoints in /d/x — run fft-checkpoint first".to_string())
    );
    let lenient = BoundsRule { program: "m7-soak", ordered: false };
    assert_eq!(event_time_bounds(lenient, found(Some(10), 9, 1), "/d/x"), Ok((10, 9)));
}

#[test]
fn sweeping_targets_run_from_end_to_end() {
    assert_eq!(sweep_targets(100, 200, 5), vec![100, 125, 150, 175, 200]);
    assert_eq!(sweep_targets(0, u64::MAX, 3), vec![0, u64::MAX / 2, u64::MAX]);
    assert_eq!(sweep_targets(100, 200, 1), vec![100]);
    assert_eq!(sweep_targets(100, 100, 3), vec![100, 100, 100]);
    assert_eq!(sweep_targets(100, 200, 0), Vec::<u64>::new());
}

#[test]
fn memory_is_read_from_the_status_text() {
    let text = "Name:\tfft\nVmPeak:\t  9 kB\nVmHWM:\t  123456 kB\nVmRSS:\t  4567 kB\n";
    assert_eq!(read_vm_status("m5-rss", text), Ok(VmStatus { hwm_kb: 123_456, rss_kb: 4_567 }));
}

#[test]
fn a_status_text_that_lacks_an_amount_is_refused() {
    let missing = |text: &str| read_vm_status("m5-rss", text).unwrap_err();
    assert_eq!(missing("VmRSS: 1 kB\n"), "m5-rss: VmHWM missing from /proc/self/status");
    assert_eq!(missing("VmHWM: 1 kB\n"), "m5-rss: VmRSS missing from /proc/self/status");
    assert_eq!(missing("VmHWM:  \nVmRSS: 1 kB\n"), "m5-rss: empty VmHWM");
    assert_eq!(missing("VmHWM: x kB\n"), "m5-rss: bad VmHWM:  x kB");
    let rest: Vec<char> = " 18446744073709551616 kB".chars().collect();
    assert_eq!(
        parse_kb("p", "VmRSS", &rest),
        Err("p: bad VmRSS:  18446744073709551616 kB".to_string())
    );
}

#[test]
fn a_log_is_described_for_seeks() {
    assert_eq!(
        inspect_log(found(Some(10), 30, 2), 9, "/d/x"),
        Ok(LogInfo {
            event_count: 12,
            checkpoint_count: 2,
            frame_count: 9,
            first_ts: 10,
            last_ts: 30,
        })
    );
    assert_eq!(
        inspect_log(found(None, 0, 2), 9, "/d/x").unwrap_err(),
        "m2-gate: log has no EVENTS frames: /d/x"
    );
    assert_eq!(
        inspect_log(found(Some(10), 9, 2), 9, "/d/x").unwrap_err(),
        "m2-gate: last_ts < first_ts (9 < 10)"
    );
    assert_eq!(
        inspect_log(found(Some(10), 30, 0), 9, "/d/x").unwrap_err(),
        "m2-gate: log has zero CHECKPOINT frames — Seek is forbidden on a checkpoint-less log.\n\
         Run `fft-checkpoint /d/x <checkpointed.fftlog>` and pass the -ckpt copy."
    );
}

fn event(seq: u32) -> CanonicalEvent {
    CanonicalEvent {
        kind: EventKind::Add,
        side: Side::Bid,
        flags: 0,
        size: 1,
        ts: Ts(100 + u64::from(seq)),
        seq: SeqNo(seq),
        price: Price(1_000),
        order_id: OrderId(u64::from(seq)),
    }
}

fn source_of(broken: bool) -> ReplaySource {
    let frame = |from: u32, to: u32| {
        let events: Vec<CanonicalEvent> = (from..=to).map(event).collect();
        Frame {
            kind: FrameKind::Events,
            first_ts: events[0].ts.0,
            last_ts: events[events.len() - 1].ts.0,
            last_seq: u64::from(to),
            events: Ok(events),
            sections: Ok(Vec::new()),
        }
    };
    let mut last = frame(5, 7);
    if broken {
        last.events = Err("crc".into());
    }
    let tag = |id| SectionTag { id, version: 1 };
    ReplaySource::open(FrameLog {
        meta: InstrumentMeta {
            symbol: "ESU6".into(),
            instrument_id: 42,
            dataset: "GLBX.MDP3".into(),
            min_price_increment: Price(250_000_000),
            unit_of_measure_qty: 50_000_000_000,
            display_factor: 1,
            trade_date: 20_663,
            session_open: Ts(0),
        },
        layout: SectionLayout {
            book: tag(1),
            flow: tag(2),
            profile: tag(3),
            cvd: tag(4),
            refresh: tag(5),
        },
        warnings: Vec::new(),
        frames: vec![frame(1, 4), last],
    })
}

#[test]
fn a_forward_replay_stops_before_the_first_later_event() {
    let mut source = source_of(false);
    let mut applied = Vec::new();
    assert_eq!(forward_to_ts(&mut source, 103, &mut applied).expect("replay"), 3);
    assert_eq!(source.applied_seq(), 3);
    assert_eq!(forward_to_ts(&mut source, 103, &mut applied).expect("replay"), 0);
    assert_eq!(forward_to_ts(&mut source, 900, &mut applied).expect("replay"), 4);
    assert_eq!(applied, (1..=7).map(event).collect::<Vec<_>>());
}

#[test]
fn a_replay_to_the_end_counts_its_events() {
    let mut source = source_of(false);
    let mut applied = Vec::new();
    assert_eq!(replay_to_end(&mut source, &mut applied).expect("replay"), 7);
    assert_eq!(applied.len(), 7);
    let mut source = source_of(true);
    let mut applied = Vec::new();
    assert!(matches!(replay_to_end(&mut source, &mut applied), Err(ReplayError::Log(_))));
    assert_eq!(applied.len(), 4);
}

fn reached(seq: u64, book: &[u8], cvd: &[u8]) -> Reached {
    Reached {
        applied_seq: seq,
        applied_ts: 100 + seq,
        sections: StateSections {
            book: book.to_vec(),
            flow: Vec::new(),
            refresh: Vec::new(),
            profile: Vec::new(),
            cvd: cvd.to_vec(),
            session: Vec::new(),
        },
    }
}

#[test]
fn a_seek_is_compared_with_the_replay_from_the_beginning() {
    assert!(compare(9, &reached(3, &[1], &[2]), &reached(3, &[1], &[2])).is_none());
    let at = compare(9, &reached(3, &[1], &[2]), &reached(4, &[1], &[2])).unwrap();
    assert_eq!((at.target_ts, at.section.as_str()), (9, "applied_seq/ts"));
    assert_eq!((at.seek_applied_seq, at.seek_applied_ts), (3, 103));
    assert_eq!((at.forward_applied_seq, at.forward_applied_ts), (4, 104));
    let at = compare(9, &reached(3, &[1], &[2]), &reached(3, &[1], &[3])).unwrap();
    assert_eq!(at.section, "CVD");
    let at = compare(9, &reached(3, &[1], &[2]), &reached(3, &[0], &[3])).unwrap();
    assert_eq!(at.section, "BOOK");
}

#[test]
fn the_first_mismatch_ends_the_check() {
    let mut report = VerifyReport::new(25, 3);
    assert_eq!(report.count, 3);
    assert_eq!(report.next(), Some(0));
    report.record(None);
    assert_eq!(report.next(), Some(1));
    report.record(compare(9, &reached(3, &[1], &[]), &reached(3, &[2], &[])));
    assert_eq!(report.next(), None);
    assert_eq!((report.passed, report.failed()), (1, 1));
    assert_eq!(VerifyReport::new(0, 3).next(), None);
}

#[test]
fn a_distribution_takes_the_times_in_order() {
    let times = vec![50, 10, 40, 20, 30];
    let d = distribution(&times, 2, 4, 9);
    assert_eq!((d.n, d.p50_ns, d.p95_ns, d.p99_ns), (5, 30, 50, 50));
    assert_eq!((d.min_ns, d.max_ns), (10, 50));
}

#[test]
fn the_seek_evidence_is_named_by_its_label() {
    assert_eq!(
        gate_name(None),
        "M2 seek gate — p95≤250ms cold/warm, bit-identity, ≥60× realtime"
    );
    assert_eq!(gate_name(Some("sMoKe")), "M2 seek harness — SMOKE (not a gate claim)");
    assert_eq!(gate_name(Some("quiet")), "M2 seek gate — quiet");
}

fn timings(cold_ns: u64, warm_ns: u64, slow: bool) -> Timings {
    Timings {
        cold_p95_ns: cold_ns,
        cold_p95_ms: "251.000".into(),
        warm_p95_ns: warm_ns,
        warm_p95_ms: "252.000".into(),
        below_realtime_budget: slow,
        realtime_multiple: "59.9".into(),
    }
}

#[test]
fn the_seek_verdict() {
    let good = timings(250_000_000, 250_000_000, false);
    let bad = timings(250_000_001, 250_000_001, true);
    let checked = VerifyReport { count: 3, passed: 3, mismatch: None };
    let unchecked = VerifyReport { count: 0, passed: 0, mismatch: None };
    assert_eq!(decide_verdict(None, &good, &checked), ("PASS", None));
    assert_eq!(
        decide_verdict(Some("quiet"), &bad, &unchecked),
        (
            "FAIL",
            Some(
                "cold p95 251.000 ms > 250 ms; warm p95 252.000 ms > 250 ms; \
                 realtime_multiple 59.9× < 60×; verify count is 0 (no bit-identity evidence)"
                    .to_string()
            )
        )
    );
    let smoke = decide_verdict(Some("smoke"), &bad, &unchecked);
    assert_eq!(smoke.0, "SMOKE");
    assert_eq!(
        smoke.1.unwrap(),
        "SMOKE run — distributions recorded; do not claim M2 gate numbers from this output"
    );
    let mut broken = VerifyReport::new(1, 1);
    broken.record(compare(9, &reached(3, &[1], &[]), &reached(3, &[2], &[])));
    assert_eq!(
        decide_verdict(Some("smoke"), &good, &broken),
        ("FAIL", Some("bit-identity mismatch at target_ts=9 section=BOOK".to_string()))
    );
}

fn dom(tick: i64, rows: &[(i64, u64)]) -> DomRenderState {
    DomRenderState {
        tick_size: Price(tick),
        rows: rows
            .iter()
            .map(|(price, volume)| DomPriceRow {
                price: Price(*price),
                session_volume: *volume,
                ..Default::default()
            })
            .collect(),
        ..Default::default()
    }
}

fn profile(rows: &[(i64, u64)]) -> ProfileRenderState {
    ProfileRenderState {
        sessions: vec![ProfileSessionRender {
            rows: rows
                .iter()
                .map(|(price, volume)| ProfilePriceRow {
                    price: Price(*price),
                    session_volume: *volume,
                    ..Default::default()
                })
                .collect(),
            ..Default::default()
        }],
    }
}

#[test]
fn a_ladder_climbs_by_one_tick() {
    assert_eq!(check_dom_structure(&dom(0, &[])), None);
    assert_eq!(check_dom_structure(&dom(5, &[(10, 0), (15, 0), (20, 0)])), None);
    assert_eq!(
        check_dom_structure(&dom(0, &[(10, 0)])).unwrap(),
        "DOM tick_size must be positive, got 0"
    );
    assert_eq!(
        check_dom_structure(&dom(5, &[(10, 0), (15, 0), (15, 0)])).unwrap(),
        "DOM rows not strictly ascending: 15 then 15"
    );
    assert_eq!(
        check_dom_structure(&dom(5, &[(-10, 0), (-5, 0), (5, 0)])).unwrap(),
        "DOM rows not contiguous by tick_size=5: -5 then 5 (gap 10)"
    );
}

fn published(generation: u64, applied_seq: u64) -> Published {
    Published { generation, applied_seq, applied_ts: 900, events_applied: 40 }
}

#[test]
fn a_monitor_checks_each_state_once() {
    let mut monitor = Monitor::new();
    let good = (profile(&[(10, 3), (15, 4)]), dom(5, &[(10, 3), (15, 4)]));
    assert!(!monitor.observe(published(1, 7), &good.0, &good.1, 0));
    assert!(!monitor.observe(published(1, 7), &good.0, &good.1, 0));
    assert_eq!((monitor.generations_observed, monitor.prices_compared_total), (1, 2));
    assert!(monitor.pass());
    assert_eq!(monitor.missed(3), 2);
    assert_eq!(monitor.missed(0), 0);
    assert_eq!(
        monitor.notes(false, false, 3),
        "latest-value slot: observed 1/3 publications (missed ≈ 2); \
         agreement checked on observed coherent snapshots only"
    );
}

#[test]
fn playback_is_over_once_nothing_changes() {
    let mut monitor = Monitor::new();
    let good = (profile(&[(10, 3)]), dom(5, &[(10, 3)]));
    assert!(!monitor.observe(published(1, 7), &good.0, &good.1, 1_000));
    assert!(!monitor.observe(published(1, 7), &good.0, &good.1, 2_000));
    assert!(!monitor.observe(published(1, 7), &good.0, &good.1, 2_000 + STABLE_DONE_NS - 1));
    assert!(monitor.observe(published(1, 7), &good.0, &good.1, 2_000 + STABLE_DONE_NS));
    // A new state starts over.
    assert!(!monitor.observe(published(2, 8), &good.0, &good.1, 3_000 + STABLE_DONE_NS));
    assert!(!monitor.observe(published(2, 8), &good.0, &good.1, 9 * STABLE_DONE_NS));
}

#[test]
fn the_first_failure_is_kept() {
    let mut monitor = Monitor::new();
    let uneven = dom(5, &[(10, 3), (20, 9)]);
    monitor.observe(published(1, 7), &profile(&[(20, 8)]), &uneven, 0);
    let first = monitor.first_failure.unwrap();
    assert_eq!(
        first,
        FailureDetail {
            generation: 1,
            applied_seq: 7,
            applied_ts: 900,
            price: 0,
            profile_volume: 0,
            dom_volume: 0,
            kind: FailureKind::Structure,
        }
    );
    monitor.observe(published(2, 8), &profile(&[(10, 8)]), &uneven, 0);
    assert_eq!((monitor.structural_failures, monitor.agreement_failures), (2, 2));
    assert_eq!(monitor.first_failure, Some(first));
    assert!(!monitor.pass());
    assert_eq!(
        monitor.notes(true, true, 2),
        "SMOKE; stopped on wall timeout 30.0s (playback may be incomplete); \
         first structural failure: DOM rows not contiguous by tick_size=5: 10 then 20 (gap 10); \
         latest-value slot: observed 2/2 publications (missed ≈ 0); \
         agreement checked on observed coherent snapshots only"
    );
    assert_eq!((timeout_ns(true), timeout_ns(false)), (30_000_000_000, 120_000_000_000));
}

#[test]
fn panes_that_disagree_give_the_price() {
    let mut monitor = Monitor::new();
    monitor.observe(published(4, 7), &profile(&[(15, 8)]), &dom(5, &[(10, 3), (15, 9)]), 0);
    let mismatch = VolumeMismatch { price: Price(15), profile_volume: 8, dom_volume: 9 };
    assert_eq!(monitor.first_failure, Some(mismatch_detail(published(4, 7), &mismatch)));
    assert_eq!(monitor.first_failure.unwrap().kind, FailureKind::VolumeMismatch);
    assert_eq!(monitor.prices_compared_total, 0);
}

#[test]
fn a_burst_spreads_its_seeks() {
    let mut burst = Burst::new(4, 2_000, 1_000);
    assert_eq!(burst.interval, 500);
    assert_eq!(burst.due(999), None);
    assert_eq!(burst.due(1_000), Some((0, 2)));
    burst.on_issued(1_000);
    assert_eq!(burst.due(1_499), None);
    assert_eq!(burst.due(1_500), Some((1, 3)));
    // A late seek delays the next: it is due at once, never before.
    burst.on_issued(2_600);
    assert_eq!(burst.next_issue, 2_600);
    burst.on_issued(2_600);
    assert_eq!(burst.next_issue, 2_600);
    burst.on_issued(2_700);
    assert_eq!(burst.due(u64::MAX), None);
}

#[test]
fn a_burst_passes_once_its_last_seek_is_answered() {
    let mut burst = Burst::new(2, 2_000, 0);
    burst.on_issued(0);
    burst.poll_issuing(2, 5);
    burst.poll_issuing(2, 6);
    burst.on_issued(1_000);
    assert!(burst.settling() && !burst.final_answered() && !burst.pass());
    burst.poll_settling(3, 1_000, 1_010);
    assert!(!burst.settling());
    assert!(burst.final_answered() && burst.monotonic() && burst.pass());
    assert_eq!(burst.answered, vec![2, 3]);
    assert_eq!(
        burst.notes(&Some("quiet".into()), "1.000", 2),
        "quiet; latest-wins: answered 2/2 (ratio 1.000); engine seeks_executed=2"
    );
}

#[test]
fn answers_that_do_not_grow_are_seen() {
    let mut burst = Burst::new(3, 3_000, 0);
    for (answered, grow) in [
        (vec![], true),
        (vec![2], true),
        (vec![2, 3, 4], true),
        (vec![2, 2], false),
        (vec![3, 2, 4], false),
    ] {
        burst.answered = answered;
        assert_eq!(burst.monotonic(), grow);
    }
}

#[test]
fn a_burst_without_answers_is_stuck() {
    let mut burst = Burst::new(2, 2_000, 0);
    burst.poll_issuing(0, WEDGE_TIMEOUT_NS + 1);
    assert!(!burst.wedge);
    burst.on_issued(0);
    burst.poll_issuing(0, WEDGE_TIMEOUT_NS);
    assert!(!burst.wedge);
    burst.poll_issuing(0, WEDGE_TIMEOUT_NS + 1);
    assert!(burst.wedge && !burst.pass());
    assert_eq!(
        burst.notes(&None, "0.000", 0),
        "latest-wins: answered 0/1 (ratio 0.000); engine seeks_executed=0; wedge/timeout"
    );
    let mut late = Burst::new(1, 2_000, 0);
    late.on_issued(0);
    late.poll_settling(0, 0, WEDGE_TIMEOUT_NS);
    assert!(!late.wedge);
    late.poll_settling(2, 0, SETTLE_TIMEOUT_NS + 1);
    assert!(late.wedge && late.answered.is_empty());
    assert_eq!(panic_note("boom"), "engine panic: boom");
}

#[test]
fn a_week_waits_for_its_sessions() {
    assert_eq!(await_current(600_000_000_000, 0, 0), Wait::Again);
    assert_eq!(await_current(600_000_000_000, 1, 1), Wait::Ready);
    assert_eq!(await_current(0, 0, 1), Wait::Again);
    assert_eq!(await_current(600_000_000_001, 1, 1), Wait::Expired);
    assert_eq!(await_prior(0, 0, 1, 1), Wait::Again);
    assert_eq!(await_prior(0, 0, 1, 2), Wait::Ready);
    assert_eq!(await_prior(0, 180_000_000_001, 1, 2), Wait::Expired);
    assert_eq!(await_prior(600_000_000_001, 0, 1, 2), Wait::Expired);
}

#[test]
fn an_engine_is_idle_once_nothing_changes() {
    let mut idle = Idle::new();
    assert!(!idle.observe(0, 0, 0, 5));
    assert!(!idle.observe(1, 1, 9, 10));
    assert!(!idle.observe(1, 1, 9, 10 + STABLE_NS - 1));
    assert!(idle.observe(1, 1, 9, 10 + STABLE_NS));
    assert!(!idle.observe(1, 1, 10, 11 + STABLE_NS));
    assert_eq!(idle.since, Some(11 + STABLE_NS));
}

#[test]
fn a_week_passes_under_its_budget() {
    assert!(under_budget(2_097_151) && !under_budget(2_097_152));
    let week =
        Week { sessions: 5, expected_sessions: 5, priors_completed: 4, prior_skips: 0, hwm_kb: 1024 };
    assert!(week.pass());
    assert_eq!(
        week.notes(&None, "1.0"),
        "sessions=5 expected=5; priors_completed=4 prior_skips=0; \
         VmHWM=1024 kB (1.0 MiB) vs budget 2048 MiB"
    );
    let short = Week { sessions: 4, prior_skips: 1, ..week };
    assert!(!short.pass());
    assert_eq!(
        short.notes(&Some("quiet".into()), "1.0"),
        "quiet; sessions=4 expected=5; priors_completed=4 prior_skips=1; \
         VmHWM=1024 kB (1.0 MiB) vs budget 2048 MiB; incomplete: only 4/5 sessions in snapshot; \
         prior_skips=1 (loud skips — check trade dates / instrument)"
    );
    assert!(!Week { hwm_kb: 2_097_152, ..week }.pass());
}
