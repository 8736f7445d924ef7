use fft::event::{CanonicalEvent, EventKind, InstrumentMeta, OrderId, Price, SeqNo, Side, Ts};
use fft::replay::error::{ReplayError, SectionName};
use fft::replay::frames::{Frame, FrameKind, FrameLog, Section, SectionLayout, SectionTag};
use fft::replay::ordinal::{count_events, events_before_frame};
use fft::replay::probe::Probe;
use fft::replay::sections::{restore_sections, RestoreSet};
use fft::replay::source::{wants_more, ReplaySource, TailStep};
use fft::replay::splice::{write_with_injected_gap, Splice};
use std::cell::{Cell, RefCell};

/// ES tick: 0.25 in 1e-9 units.
const TICK: i64 = 250_000_000;
/// Wed 2026-07-29 CT trade date.
const TRADE_DATE: u32 = 20_663;
const DAY_S: u64 = 86_400;
/// Globex open: Tue 2026-07-28 17:00 CDT = 22:00 UTC.
const SESSION_OPEN_NS: u64 = (20_662 * DAY_S + 22 * 3_600) * 1_000_000_000;

const LAYOUT: SectionLayout = SectionLayout {
    book: SectionTag { id: 1, version: 3 },
    flow: SectionTag { id: 2, version: 1 },
    profile: SectionTag { id: 3, version: 2 },
    cvd: SectionTag { id: 4, version: 1 },
    refresh: SectionTag { id: 5, version: 1 },
};

fn es_meta() -> InstrumentMeta {
    InstrumentMeta {
        symbol: "ESU6".into(),
        instrument_id: 42,
        dataset: "GLBX.MDP3".into(),
        min_price_increment: Price(TICK),
        unit_of_measure_qty: 50_000_000_000,
        display_factor: 1,
        trade_date: TRADE_DATE,
        session_open: Ts(SESSION_OPEN_NS),
    }
}

fn add(id: u64, side: Side, ticks: i64, size: u32, ts: u64, seq: u32) -> CanonicalEvent {
    CanonicalEvent {
        kind: EventKind::Add,
        side,
        flags: 0,
        size,
        ts: Ts(ts),
        seq: SeqNo(seq),
        price: Price(ticks * TICK),
        order_id: OrderId(id),
    }
}

fn trade(aggressor: Side, ticks: i64, size: u32, ts: u64, seq: u32) -> CanonicalEvent {
    CanonicalEvent {
        kind: EventKind::Trade,
        side: aggressor,
        flags: 0,
        size,
        ts: Ts(ts),
        seq: SeqNo(seq),
        price: Price(ticks * TICK),
        order_id: OrderId(0),
    }
}

/// The state that events are applied to here: the resting sizes by order, and the volumes by
/// price, each in the order of their first appearance.
#[derive(Clone, Debug, Default, PartialEq, Eq)]
struct State {
    orders: Vec<(u64, i64, u32)>,
    volumes: Vec<(i64, u64)>,
}

impl State {
    fn apply(&mut self, event: &CanonicalEvent) {
        match event.kind {
            EventKind::Trade => {
                let price = event.price.0;
                match self.volumes.iter_mut().find(|v| v.0 == price) {
                    Some(v) => v.1 += u64::from(event.size),
                    None => self.volumes.push((price, u64::from(event.size))),
                }
            }
            _ => self.orders.push((event.order_id.0, event.price.0, event.size)),
        }
    }

    fn apply_all(&mut self, events: &[CanonicalEvent]) {
        for event in events {
            self.apply(event);
        }
    }

    fn serialize_book(&self) -> Vec<u8> {
        let mut out = Vec::new();
        for (id, price, size) in &self.orders {
            out.extend(id.to_le_bytes());
            out.extend(price.to_le_bytes());
            out.extend(size.to_le_bytes());
        }
        out
    }

    fn serialize_profile(&self) -> Vec<u8> {
        let mut out = Vec::new();
        for (price, volume) in &self.volumes {
            out.extend(price.to_le_bytes());
            out.extend(volume.to_le_bytes());
        }
        out
    }

    fn restore(set: &RestoreSet<'_>) -> State {
        let mut state = State::default();
        for row in set.book.bytes.chunks(20) {
            state.orders.push((
                u64::from_le_bytes(row[0..8].try_into().unwrap()),
                i64::from_le_bytes(row[8..16].try_into().unwrap()),
                u32::from_le_bytes(row[16..20].try_into().unwrap()),
            ));
        }
        for row in set.profile.bytes.chunks(16) {
            state.volumes.push((
                i64::from_le_bytes(row[0..8].try_into().unwrap()),
                u64::from_le_bytes(row[8..16].try_into().unwrap()),
            ));
        }
        state
    }
}

fn events_frame(events: &[CanonicalEvent]) -> Frame {
    Frame {
        kind: FrameKind::Events,
        first_ts: events.first().map_or(0, |e| e.ts.0),
        last_ts: events.last().map_or(0, |e| e.ts.0),
        last_seq: events.last().map_or(0, |e| u64::from(e.seq.0)),
        events: Ok(events.to_vec()),
        sections: Ok(Vec::new()),
    }
}

fn section(tag: SectionTag, bytes: Vec<u8>) -> Section {
    Section {
        id: tag.id,
        version: tag.version,
        bytes,
    }
}

fn checkpoint_frame(state: &State, last: &CanonicalEvent) -> Frame {
    Frame {
        kind: FrameKind::Checkpoint,
        first_ts: last.ts.0,
        last_ts: last.ts.0,
        last_seq: u64::from(last.seq.0),
        events: Ok(Vec::new()),
        sections: Ok(vec![
            section(LAYOUT.book, state.serialize_book()),
            section(LAYOUT.flow, Vec::new()),
            section(LAYOUT.profile, state.serialize_profile()),
            section(LAYOUT.cvd, Vec::new()),
            section(LAYOUT.refresh, Vec::new()),
        ]),
    }
}

fn log_of(frames: Vec<Frame>) -> FrameLog {
    FrameLog {
        meta: es_meta(),
        layout: LAYOUT,
        warnings: Vec::new(),
        frames,
    }
}

fn tape(event_count: usize) -> Vec<CanonicalEvent> {
    (0..event_count)
        .map(|i| {
            let seq = (i as u32) + 1;
            let ts = SESSION_OPEN_NS + (i as u64) * 1_000_000;
            let side = if i % 2 == 0 { Side::Bid } else { Side::Ask };
            if i % 5 == 4 {
                trade(
                    side,
                    20_000 + (i as i64 % 7) - 3,
                    1 + (i as u32 % 5),
                    ts,
                    seq,
                )
            } else {
                let ticks = if side == Side::Bid {
                    20_000 - 1 - (i as i64 % 40)
                } else {
                    20_000 + 1 + (i as i64 % 40)
                };
                add(u64::from(seq), side, ticks, 1 + (i as u32 % 10), ts, seq)
            }
        })
        .collect()
}

/// Scripted tape: adds and trades, with checkpoints after `checkpoint_every` applied events.
fn checkpointed_log(event_count: usize, checkpoint_every: usize) -> FrameLog {
    let mut state = State::default();
    let mut frames = Vec::new();
    let mut batch = Vec::new();
    for (i, event) in tape(event_count).into_iter().enumerate() {
        state.apply(&event);
        batch.push(event);
        let boundary = (i + 1) % checkpoint_every == 0;
        let last = i + 1 == event_count;
        if boundary || last {
            frames.push(events_frame(&batch));
            batch.clear();
            if boundary && !last {
                frames.push(checkpoint_frame(&state, &event));
            }
        }
    }
    log_of(frames)
}

fn forward_to(source: &mut ReplaySource, state: &mut State, target_ts: u64) {
    while let Some(next) = source.peek_event().expect("peek") {
        if next.ts.0 > target_ts {
            break;
        }
        let event = source.apply_next().expect("apply").expect("event present");
        state.apply(&event);
    }
}

fn seek(
    source: &mut ReplaySource,
    target: u64,
    cancel: impl Fn() -> bool,
) -> (Result<fft::replay::source::SeekReport, ReplayError>, State) {
    let state = RefCell::new(State::default());
    let mut tail = Vec::new();
    let report = source.seek(
        target,
        |set| {
            if let Some(set) = set {
                *state.borrow_mut() = State::restore(&set);
            }
            Ok(())
        },
        &mut Probe::new(cancel),
        &mut Probe::new(|| 0),
        &mut tail,
    );
    let mut state = state.into_inner();
    state.apply_all(&tail);
    (report, state)
}

#[test]
fn chunked_forward_matches_oneshot() {
    let mut oneshot = ReplaySource::open(checkpointed_log(800, 200));
    let mut oneshot_state = State::default();
    let mut events = Vec::new();
    let oneshot_progress = oneshot
        .apply_forward(usize::MAX, 60_000_000_000, &mut Probe::new(|| 0), &mut events)
        .unwrap();
    assert!(oneshot_progress.eof);
    oneshot_state.apply_all(&events);

    let mut chunked = ReplaySource::open(checkpointed_log(800, 200));
    let mut chunked_state = State::default();
    let mut total = 0u64;
    loop {
        let mut events = Vec::new();
        let progress = chunked
            .apply_forward(64, 5_000_000, &mut Probe::new(|| 0), &mut events)
            .unwrap();
        chunked_state.apply_all(&events);
        total += progress.events;
        if progress.eof {
            break;
        }
        assert!(
            progress.events > 0 || progress.eof,
            "chunked forward must make progress or hit eof"
        );
    }

    assert_eq!(total, oneshot_progress.events);
    assert_eq!(chunked_state.serialize_book(), oneshot_state.serialize_book());
    assert_eq!(
        chunked_state.serialize_profile(),
        oneshot_state.serialize_profile()
    );
    assert_eq!(chunked.applied_seq(), oneshot.applied_seq());
    assert_eq!(chunked.applied_ts(), oneshot.applied_ts());
}

#[test]
fn an_expired_budget_stops_between_events() {
    let clock = Cell::new(0u64);
    let mut source = ReplaySource::open(checkpointed_log(100, 50));
    let mut events = Vec::new();
    let progress = source
        .apply_forward(
            usize::MAX,
            5,
            &mut Probe::new(|| {
                clock.set(clock.get() + 1);
                clock.get()
            }),
            &mut events,
        )
        .unwrap();
    assert!(!progress.eof);
    assert_eq!(progress.events, 4);
    assert_eq!(progress.events, events.len() as u64);
    assert_eq!(source.event_ordinal(), progress.events);
}

#[test]
fn ordinal_advances_exactly_on_forward_consume() {
    let mut src = ReplaySource::open(checkpointed_log(80, 40));
    assert_eq!(src.event_ordinal(), 0);

    // peek must not advance the ordinal
    let _ = src.peek_event().expect("peek");
    assert_eq!(src.event_ordinal(), 0);

    for expected in 1u64..=8 {
        src.apply_next().expect("apply").expect("event");
        assert_eq!(src.event_ordinal(), expected);
    }
    assert_eq!(src.event_ordinal(), 8);

    let progress = src
        .apply_forward(25, 60_000_000_000, &mut Probe::new(|| 0), &mut Vec::new())
        .expect("forward");
    assert_eq!(progress.events, 25);
    assert_eq!(src.event_ordinal(), 33);

    // next_event (no apply) still advances the ordinal: it consumes source events.
    src.next_event().expect("next").expect("event");
    assert_eq!(src.event_ordinal(), 34);
}

#[test]
fn ordinal_exact_across_seek_with_checkpoint_restore() {
    let targets = [
        SESSION_OPEN_NS + 50 * 1_000_000,  // before first checkpoint
        SESSION_OPEN_NS + 150 * 1_000_000, // after first checkpoint
        SESSION_OPEN_NS + 275 * 1_000_000, // mid later segment
        SESSION_OPEN_NS + 399 * 1_000_000, // EOF target
    ];

    for target in targets {
        let mut forward = ReplaySource::open(checkpointed_log(400, 100));
        forward_to(&mut forward, &mut State::default(), target);
        let expected = forward.event_ordinal();

        let mut source = ReplaySource::open(checkpointed_log(400, 100));
        let (report, _) = seek(&mut source, target, || false);
        let report = report.expect("seek");

        assert!(!report.cancelled);
        assert_eq!(source.event_ordinal(), expected);
        assert_eq!(report.event_ordinal, expected);
        assert_eq!(source.applied_seq(), forward.applied_seq());
        assert_eq!(source.applied_ts(), forward.applied_ts());
    }
}

#[test]
fn ordinal_exact_after_prepare_prior_build_restore() {
    let mut prior = ReplaySource::open(checkpointed_log(250, 100));
    assert!(prior.checkpoint_count() > 0);
    let handed = Cell::new(false);
    prior
        .prepare_prior_build(|set| {
            handed.set(set.is_some());
            Ok(())
        })
        .expect("prepare");
    assert!(handed.get());
    let restored_ordinal = prior.event_ordinal();
    let next_after_restore = prior.peek_event().expect("peek").expect("has more");

    // Independent ground truth: consume from open until the same next event.
    let mut forward = ReplaySource::open(checkpointed_log(250, 100));
    while let Some(next) = forward.peek_event().expect("peek") {
        if next.ts.0 == next_after_restore.ts.0
            && next.seq.0 == next_after_restore.seq.0
            && next.order_id.0 == next_after_restore.order_id.0
            && next.kind == next_after_restore.kind
        {
            break;
        }
        forward.apply_next().expect("apply").expect("event");
    }
    assert_eq!(forward.event_ordinal(), restored_ordinal);

    prior.apply_next().expect("apply").expect("event");
    assert_eq!(prior.event_ordinal(), restored_ordinal + 1);
}

#[test]
fn ordinal_exact_across_same_timestamp_bursts() {
    // Burst A: 5 events at T0, then checkpoint, then burst B: 5 more at the same T0,
    // then burst C: 5 at T0+1ms. Seeks to T0 must consume A+B (all ts <= target).
    let t0 = SESSION_OPEN_NS;
    let t1 = SESSION_OPEN_NS + 1_000_000;
    let mut state = State::default();
    let burst_a: Vec<_> = (0..5)
        .map(|i| add((i + 1) as u64, Side::Bid, 20_000 - i, 1, t0, (i + 1) as u32))
        .collect();
    state.apply_all(&burst_a);
    let burst_b: Vec<_> = (0..5)
        .map(|i| add((i + 6) as u64, Side::Ask, 20_000 + i, 1, t0, (i + 6) as u32))
        .collect();
    let burst_c: Vec<_> = (0..5)
        .map(|i| add((i + 11) as u64, Side::Bid, 20_000 - i, 1, t1, (i + 11) as u32))
        .collect();
    let log = || {
        log_of(vec![
            events_frame(&burst_a),
            checkpoint_frame(&state, &burst_a[4]),
            events_frame(&burst_b),
            events_frame(&burst_c),
        ])
    };

    // Forward through all events at t0: ordinal must be 10 (A+B), not stop at the
    // checkpoint boundary or first same-ts hit.
    let mut forward = ReplaySource::open(log());
    forward_to(&mut forward, &mut State::default(), t0);
    assert_eq!(forward.event_ordinal(), 10);

    let mut source = ReplaySource::open(log());
    let (report, _) = seek(&mut source, t0, || false);
    let report = report.expect("seek");
    assert_eq!(report.checkpoint_frame, Some(1));
    assert_eq!(source.event_ordinal(), 10);
    assert_eq!(report.event_ordinal, 10);
    assert_eq!(report.tail_events, 5); // burst B only; A is under the checkpoint

    // After seek, next event is the first t1 event; ordinal continues.
    let next = source.peek_event().expect("peek").expect("t1 event");
    assert_eq!(next.ts.0, t1);
    source.apply_next().expect("apply").expect("event");
    assert_eq!(source.event_ordinal(), 11);
}

fn written(splice: &Splice) -> Vec<CanonicalEvent> {
    splice.batches.iter().flatten().copied().collect()
}

#[test]
fn inserts_exactly_one_gap_at_boundary_and_preserves_every_source_event() {
    let original = tape(12);
    let boundary = original[5].ts.0;
    let copy_through = original[9].ts.0;

    let splice = write_with_injected_gap(
        checkpointed_log(12, 4),
        || Ok(checkpointed_log(12, 4)),
        boundary,
        copy_through,
        7,
        11,
    )
    .expect("splice");
    let output = written(&splice);
    let expected_source: Vec<_> = original
        .iter()
        .copied()
        .take_while(|event| event.ts.0 <= copy_through)
        .collect();
    let gaps: Vec<_> = output
        .iter()
        .enumerate()
        .filter(|(_, event)| event.kind == EventKind::Gap)
        .collect();

    assert_eq!(splice.output_events, expected_source.len() as u64 + 1);
    assert_eq!(gaps.len(), 1);
    assert_eq!(gaps[0].0, 6);
    assert_eq!(gaps[0].1.ts.0, original[6].ts.0);
    assert_eq!(splice.gap_ts, original[6].ts.0);
    assert_eq!(gaps[0].1.gap_seqs(), (7, 11));

    let non_gaps: Vec<_> = output
        .into_iter()
        .filter(|event| event.kind != EventKind::Gap)
        .collect();
    assert_eq!(non_gaps, expected_source);
}

#[test]
fn no_anchor_fails_without_creating_destination() {
    let error = write_with_injected_gap(
        checkpointed_log(4, 4),
        || Ok(checkpointed_log(4, 4)),
        SESSION_OPEN_NS + 10_000_000,
        SESSION_OPEN_NS + 3_000_000,
        5,
        6,
    )
    .expect_err("missing anchor must fail");

    assert!(matches!(error, ReplayError::SpliceAnchorNotFound { .. }));
}

#[test]
fn a_log_that_is_refused_is_not_opened_again() {
    let opened = Cell::new(false);
    let error = write_with_injected_gap(
        checkpointed_log(4, 4),
        || {
            opened.set(true);
            Ok(checkpointed_log(4, 4))
        },
        SESSION_OPEN_NS + 10_000_000,
        SESSION_OPEN_NS + 3_000_000,
        5,
        6,
    );
    assert!(error.is_err());
    assert!(!opened.get());
    let error = write_with_injected_gap(
        checkpointed_log(4, 4),
        || Err(ReplayError::Log("gone".to_string())),
        SESSION_OPEN_NS,
        SESSION_OPEN_NS + 3_000_000,
        5,
        6,
    )
    .expect_err("a log that cannot be opened again must fail");
    assert_eq!(error.to_string(), "fft-replay log error: gone");
}

#[test]
fn malformed_gap_sequences_fail_without_creating_destination() {
    let error = write_with_injected_gap(
        checkpointed_log(4, 4),
        || Ok(checkpointed_log(4, 4)),
        SESSION_OPEN_NS,
        SESSION_OPEN_NS + 3_000_000,
        9,
        9,
    )
    .expect_err("non-forward Gap must fail");

    assert!(matches!(
        error,
        ReplayError::InvalidGapSequences {
            expected: 9,
            observed: 9
        }
    ));
    assert_eq!(
        error.to_string(),
        "fft-replay splice Gap observed sequence 9 must be greater than expected 9"
    );
}

#[test]
fn backwards_timestamp_fails_without_creating_destination() {
    let events = [
        add(1, Side::Bid, 20_000, 1, SESSION_OPEN_NS, 1),
        add(2, Side::Ask, 20_001, 1, SESSION_OPEN_NS + 2, 2),
        add(3, Side::Bid, 19_999, 1, SESSION_OPEN_NS + 1, 3),
    ];
    let error = write_with_injected_gap(
        log_of(vec![events_frame(&events)]),
        || Ok(log_of(vec![events_frame(&events)])),
        SESSION_OPEN_NS,
        SESSION_OPEN_NS + 2,
        2,
        3,
    )
    .expect_err("backwards timestamp must fail");

    assert!(matches!(
        error,
        ReplayError::NonMonotonicSpliceInput { event_index: 2, .. }
    ));
}

#[test]
fn source_open_warnings_are_rejected_without_creating_destination() {
    let warned = || {
        let mut log = checkpointed_log(8, 8);
        log.warnings.push("missing footer".to_string());
        log
    };
    assert!(checkpointed_log(8, 8).warnings.is_empty());

    let error = write_with_injected_gap(
        warned(),
        || Ok(warned()),
        SESSION_OPEN_NS + 2_000_000,
        SESSION_OPEN_NS + 7_000_000,
        4,
        5,
    )
    .expect_err("open warning must fail");

    match error {
        ReplayError::SpliceOpenWarnings(warnings) => assert!(!warnings.is_empty()),
        other => panic!("unexpected error: {}", other.to_string()),
    }
}

#[test]
fn seek_matches_forward_at_multiple_targets() {
    let targets = [
        SESSION_OPEN_NS,
        SESSION_OPEN_NS + 50 * 1_000_000,
        SESSION_OPEN_NS + 150 * 1_000_000,
        SESSION_OPEN_NS + 275 * 1_000_000,
        SESSION_OPEN_NS + 399 * 1_000_000,
    ];

    for target in targets {
        let mut forward_src = ReplaySource::open(checkpointed_log(400, 100));
        let mut forward_state = State::default();
        forward_to(&mut forward_src, &mut forward_state, target);

        let mut seek_src = ReplaySource::open(checkpointed_log(400, 100));
        let (report, seek_state) = seek(&mut seek_src, target, || false);
        let report = report.expect("seek");
        assert!(!report.cancelled);
        assert_eq!(report.target_ts, target);
        assert_eq!(seek_state.serialize_book(), forward_state.serialize_book());
        assert_eq!(
            seek_state.serialize_profile(),
            forward_state.serialize_profile()
        );
        assert_eq!(seek_src.applied_seq(), forward_src.applied_seq());
        assert_eq!(seek_src.applied_ts(), forward_src.applied_ts());
    }
}

#[test]
fn seek_without_preceding_checkpoint_replays_from_start() {
    let events: Vec<_> = (0..40)
        .map(|i| {
            let side = if i % 2 == 0 { Side::Bid } else { Side::Ask };
            let ticks = if side == Side::Bid {
                20_000 - 1 - (i % 10)
            } else {
                20_000 + 1 + (i % 10)
            };
            add(
                (i + 1) as u64,
                side,
                ticks,
                3,
                SESSION_OPEN_NS + i as u64 * 1_000,
                (i + 1) as u32,
            )
        })
        .collect();

    let mut src = ReplaySource::open(log_of(vec![events_frame(&events)]));
    let (report, _) = seek(&mut src, SESSION_OPEN_NS + 20_000, || false);
    let report = report.unwrap();
    assert!(report.replayed_from_start);
    assert!(report.checkpoint_frame.is_none());
    assert!(!report.cancelled);
    assert!(report.tail_events > 0);
}

#[test]
fn seek_cancel_leaves_no_success_report() {
    let mut src = ReplaySource::open(checkpointed_log(2_000, 500));
    let polls = Cell::new(0u32);
    let (report, _) = seek(&mut src, SESSION_OPEN_NS + 1_999 * 1_000_000, || {
        polls.set(polls.get() + 1);
        polls.get() >= 2
    });
    assert!(report.unwrap().cancelled);
}

#[test]
fn a_seek_that_is_cancelled_at_once_applies_nothing() {
    let mut src = ReplaySource::open(checkpointed_log(2_000, 500));
    let target = SESSION_OPEN_NS + 1_999 * 1_000_000;
    let mut tail = Vec::new();
    let report = src
        .seek(
            target,
            |_| Ok(()),
            &mut Probe::new(|| true),
            &mut Probe::new(|| 0),
            &mut tail,
        )
        .unwrap();
    assert!(report.cancelled);
    assert!(tail.is_empty());
}

/// How often a seek over 600 events asks whether to stop, what it applies, and whether it was
/// cancelled, if it is told to stop at the question `stop` and the clock goes on by `tick`.
fn polls(stop: u32, tick: u64) -> (u32, usize, bool) {
    let mut src = ReplaySource::open(log_of(vec![events_frame(&tape(600))]));
    let asked = Cell::new(0u32);
    let clock = Cell::new(0u64);
    let mut tail = Vec::new();
    let report = src
        .seek(
            u64::MAX,
            |_| Ok(()),
            &mut Probe::new(|| {
                asked.set(asked.get() + 1);
                asked.get() >= stop
            }),
            &mut Probe::new(|| {
                clock.set(clock.get() + tick);
                clock.get()
            }),
            &mut tail,
        )
        .unwrap();
    assert_eq!(report.tail_events, tail.len() as u64);
    (asked.get(), tail.len(), report.cancelled)
}

#[test]
fn a_seek_asks_before_every_event_and_behind_every_batch() {
    assert_eq!(polls(u32::MAX, 0), (603, 600, false));
    assert_eq!(polls(u32::MAX, 5_000_000), (1_201, 600, false));
    assert_eq!(polls(2, 0), (2, 1, true));
    assert_eq!(polls(257, 0), (257, 256, true));
    assert_eq!(polls(258, 0), (258, 256, true));
    assert_eq!(polls(259, 0), (259, 257, true));
    assert_eq!(polls(2, 5_000_000), (2, 1, true));
    assert_eq!(polls(3, 5_000_000), (3, 1, true));
}

#[test]
fn a_step_ends_where_it_is_cancelled_or_nothing_is_due() {
    let events = tape(3);
    let mut src = ReplaySource::open(log_of(vec![events_frame(&events)]));
    let target = events[1].ts.0;
    let ended = |src: &mut ReplaySource, cancelled: bool| {
        match src.tail_step(target, None, src.event_ordinal(), cancelled).unwrap() {
            TailStep::Ended(report) => {
                assert_eq!(report.cancelled, cancelled);
                assert_eq!(report.tail_events, src.event_ordinal());
                assert!(report.replayed_from_start);
                None
            }
            TailStep::Applied(event) => Some(event),
        }
    };
    assert_eq!(ended(&mut src, true), None);
    assert_eq!(src.event_ordinal(), 0);
    assert_eq!(ended(&mut src, false), Some(events[0]));
    assert_eq!(ended(&mut src, false), Some(events[1]));
    assert_eq!(ended(&mut src, false), None);
    assert_eq!(src.event_ordinal(), 2);
}

#[test]
fn a_replay_goes_on_while_it_has_events_and_time() {
    assert!(wants_more(0, 1, 10, 14, 5));
    assert!(!wants_more(1, 1, 10, 14, 5));
    assert!(!wants_more(0, 1, 10, 15, 5));
    assert!(wants_more(0, 1, 10, 3, 5));
    assert!(!wants_more(0, 1, 10, 10, 0));
}

#[test]
fn a_frame_that_does_not_decode_is_reported_once_and_passed() {
    let events = tape(3);
    let mut broken = events_frame(&events[1..2]);
    broken.events = Err("bad checksum".to_string());
    let mut source = ReplaySource::open(log_of(vec![
        events_frame(&events[..1]),
        broken,
        events_frame(&events[2..]),
    ]));
    assert_eq!(source.apply_next().unwrap().unwrap(), events[0]);
    let error = source.apply_next().expect_err("broken frame");
    assert_eq!(error.to_string(), "fft-replay log error: bad checksum");
    assert_eq!(source.event_ordinal(), 1);
    assert_eq!(source.apply_next().unwrap().unwrap(), events[2]);
    assert_eq!(source.apply_next().unwrap(), None);
}

#[test]
fn a_gap_keeps_the_sequence_applied_before_it() {
    let events = tape(2);
    let gap = CanonicalEvent::gap(Ts(events[1].ts.0 + 5), 3, 9);
    let mut source = ReplaySource::open(log_of(vec![events_frame(&[events[0], events[1], gap])]));
    for _ in 0..3 {
        source.apply_next().unwrap().unwrap();
    }
    assert_eq!(source.applied_seq(), 2);
    assert_eq!(source.applied_ts(), events[1].ts.0 + 5);
}

#[test]
fn checkpoints_without_a_section_or_with_another_version_are_refused() {
    let state = State::default();
    let last = tape(1)[0];
    let sections = |frame: Frame| frame.sections.unwrap();
    let all = sections(checkpoint_frame(&state, &last));
    assert!(restore_sections(&all, &LAYOUT).is_ok());

    let mut missing = sections(checkpoint_frame(&state, &last));
    missing.remove(4);
    assert!(matches!(
        restore_sections(&missing, &LAYOUT),
        Err(ReplayError::MissingSection(SectionName::Refresh))
    ));

    let mut other = sections(checkpoint_frame(&state, &last));
    other[0].version = 9;
    let error = restore_sections(&other, &LAYOUT).err().unwrap();
    assert_eq!(
        error.to_string(),
        "fft-replay BOOK section version 9, expected 3"
    );
}

#[test]
fn a_refused_restoration_leaves_the_cursor_where_it_was() {
    let mut source = ReplaySource::open(checkpointed_log(250, 100));
    for _ in 0..7 {
        source.apply_next().unwrap();
    }
    let mut tail = Vec::new();
    let error = source
        .seek(
            SESSION_OPEN_NS + 200 * 1_000_000,
            |_| Err(ReplayError::BookRestore("short".to_string())),
            &mut Probe::new(|| false),
            &mut Probe::new(|| 0),
            &mut tail,
        )
        .expect_err("refused");
    assert_eq!(error.to_string(), "fft-replay book restore: short");
    assert_eq!(source.event_ordinal(), 7);
    assert!(tail.is_empty());
}

#[test]
fn events_before_a_frame_are_counted_from_the_beginning() {
    let log = checkpointed_log(250, 100);
    assert_eq!(events_before_frame(&log.frames, 0).unwrap(), 0);
    assert_eq!(events_before_frame(&log.frames, 1).unwrap(), 100);
    assert_eq!(events_before_frame(&log.frames, 3).unwrap(), 200);
}

#[test]
fn messages_name_what_went_wrong() {
    assert_eq!(
        ReplayError::MissingSection(SectionName::Cvd).to_string(),
        "fft-replay checkpoint missing required CVD section"
    );
    assert_eq!(
        ReplayError::SpliceOpenWarnings(vec!["a".to_string(), "b".to_string()]).to_string(),
        "fft-replay splice rejected source open warnings: a; b"
    );
    assert_eq!(
        ReplayError::NonMonotonicSpliceInput {
            event_index: 2,
            previous_ts: 9,
            observed_ts: 7
        }
        .to_string(),
        "fft-replay splice source event 2 timestamp 7 is before 9"
    );
    assert_eq!(
        ReplayError::SpliceAnchorNotFound {
            inject_after_ts: 1,
            copy_through_ts: 2
        }
        .to_string(),
        "fft-replay splice found no event after 1 through 2"
    );
    assert_eq!(
        ReplayError::ProfileRestore("x".to_string()).to_string(),
        "fft-replay profile restore: x"
    );
}

#[test]
fn a_log_is_counted_up_to_its_first_fault() {
    assert_eq!(count_events(&checkpointed_log(250, 100).frames), Ok(250));
    let mut broken = events_frame(&tape(3));
    broken.events = Err("crc".to_string());
    assert_eq!(
        count_events(&vec![events_frame(&tape(2)), broken]),
        Err("events: crc".to_string())
    );
}
