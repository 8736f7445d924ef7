use fft::soak::cycle::{
    pre_scrub_secs, spawn_failed, Action, Covered, Cycle, Failure, Phase, Plan, PriorLoadOutcome,
};
use fft::soak::honesty::{
    fail_cycle, finalize_honesty, CycleId, CycleResult, EngineExit, FailCtx, Honesty, Peaks,
};
use fft::soak::priors::{expected_prior_sets, per_load_ns, LoadStep, Prior, PriorLoad};
use fft::soak::totals::{ceiling_ok, climb, Totals};
use fft::soak::watch::{
    current_ready, heartbeat_due, seek_answered, Playback, Settling, EOF_STABLE_NS,
};

const SPEED_BITS: u64 = 0x4050_0000_0000_0000;

fn plan(cycle_secs: u64) -> Plan {
    Plan {
        id: CycleId { cycle: 4, speed_bits: SPEED_BITS, cycle_secs },
        first_ts: 900,
        scrub_seeks: 24,
    }
}

fn outcome(accepted_seen: u64, incomplete: &[&str]) -> PriorLoadOutcome {
    PriorLoadOutcome {
        sessions: 3,
        expected_accepted: 2,
        expected_skips: 1,
        accepted_seen,
        incomplete: incomplete.iter().map(|text| text.to_string()).collect(),
    }
}

fn covered(sessions: usize) -> Covered {
    Covered { events_applied: 50, events_read: 60, gap_records: 1, publications: 7, sessions }
}

fn exit(priors_completed: u64) -> EngineExit {
    EngineExit {
        events_applied: 55,
        events_read: 66,
        gap_records: 2,
        publications: 9,
        seeks_executed: 20,
        priors_completed,
        prior_skips: 1,
    }
}

/// A cycle that played its slice and stands before the scrub.
fn before_scrub(cycle_secs: u64) -> Cycle {
    let mut cycle = Cycle::new(plan(cycle_secs));
    assert_eq!(cycle.action(), Action::SetSource);
    cycle.on_sent(true);
    assert_eq!(cycle.action(), Action::AwaitReady { generation: 2 });
    cycle.on_ready(None);
    assert_eq!(cycle.action(), Action::Pause);
    cycle.on_sent(true);
    assert_eq!(cycle.action(), Action::LoadPriors);
    cycle.on_priors(outcome(2, &[]));
    assert_eq!(cycle.action(), Action::SetSpeed);
    cycle.on_sent(true);
    assert_eq!(cycle.action(), Action::Play);
    cycle.on_sent(true);
    assert_eq!(cycle.action(), Action::PlaySlice);
    cycle.on_played();
    cycle
}

/// A cycle that stands before its transport was restored.
fn before_resume(cycle_secs: u64) -> Cycle {
    let mut cycle = before_scrub(cycle_secs);
    assert_eq!(cycle.action(), Action::ScrubBurst { first_generation: 3 });
    cycle.on_scrubbed(None);
    assert_eq!(cycle.action(), Action::Transport);
    cycle.on_transported(None);
    assert_eq!(cycle.action(), Action::SetSpeed);
    cycle.on_sent(true);
    assert_eq!(cycle.action(), Action::Play);
    cycle.on_sent(true);
    cycle
}

/// A cycle that stands before its sessions are counted again.
fn before_retention(sessions: usize) -> Cycle {
    let mut cycle = before_resume(30);
    assert_eq!(cycle.action(), Action::PlayToEnd);
    cycle.on_played();
    assert_eq!(cycle.action(), Action::ReadCoverage);
    cycle.on_covered(covered(sessions));
    assert_eq!(cycle.action(), Action::SetSource);
    cycle.on_sent(true);
    assert_eq!(cycle.action(), Action::ObserveRetention { generation: 27 });
    cycle
}

/// Closes a cycle and stops its engine.
fn closed(mut cycle: Cycle, rss_kb: u64, stopped: Result<EngineExit, String>) -> CycleResult {
    assert_eq!(cycle.action(), Action::CheckMemory);
    cycle.on_memory(rss_kb);
    assert_eq!(cycle.action(), Action::Shutdown);
    cycle.finish(stopped, Peaks { rss_kb: 100, hwm_kb: 100 }, (120, 110), (130, 140), 77)
}

#[test]
fn a_good_cycle_goes_through_every_step() {
    let mut cycle = before_retention(3);
    cycle.on_retention(Ok(3));
    let result = closed(cycle, 100, Ok(exit(2)));
    let line = &result.line;
    assert!(line.ok && line.parts.panic.is_none());
    assert_eq!((line.cycle, line.wall_ns, line.cycle_secs_cap), (4, 77, 30));
    assert_eq!(line.speed_bits, SPEED_BITS);
    assert_eq!(line.notes.as_deref(), Some("re-SetSource retention ok pre=3 post=3"));
    assert_eq!((line.parts.events_applied, line.parts.events_read), (50, 60));
    assert_eq!((line.parts.gap_records, line.parts.publications), (1, 9));
    assert_eq!((line.parts.seeks_executed, line.parts.seeks_issued), (20, 24));
    assert_eq!((line.parts.priors_completed, line.parts.prior_skips), (2, 1));
    assert_eq!(line.parts.sessions, 3);
    assert_eq!((line.parts.peak_rss_kb, line.parts.rss, line.parts.hwm), (110, 110, 120));
    assert_eq!(result.peaks, Peaks { rss_kb: 110, hwm_kb: 120 });
    assert_eq!(
        line.honesty,
        Honesty {
            current_ready: true,
            seeks_final_answered: true,
            retention_ok: true,
            rss_ceiling_ok: true,
            priors_slot_ok: true,
            expected_priors_accepted: 2,
            expected_prior_skips: 1,
            re_set_source_sessions: 3,
            engine_priors_ok: true,
        }
    );
}

#[test]
fn a_cycle_to_the_end_rewinds_first() {
    let mut cycle = before_resume(0);
    assert_eq!(cycle.action(), Action::Seek { ts: 900, generation: 27 });
    cycle.on_sent(true);
    assert_eq!(cycle.action(), Action::AwaitAnswer { generation: 27 });
    cycle.on_rewound(true);
    assert_eq!(cycle.action(), Action::Play);
    cycle.on_sent(true);
    assert_eq!(cycle.action(), Action::PlayToEnd);
    assert_eq!((cycle.seeks_issued, cycle.generation), (25, 28));
    assert_eq!(cycle.notes, vec!["eof_rewind_seek".to_string()]);
    let mut late = before_resume(0);
    late.on_sent(true);
    late.on_rewound(false);
    assert_eq!(late.phase, Phase::Closing);
    assert_eq!(late.error.as_deref(), Some("EOF rewind seek gen 27 unanswered"));
}

#[test]
fn an_engine_that_is_gone_ends_the_cycle() {
    let mut cycle = Cycle::new(plan(30));
    cycle.on_sent(false);
    assert_eq!(cycle.error.as_deref(), Some("engine stopped during SetSource"));
    let result = closed(cycle, 100, Ok(exit(2)));
    let line = &result.line;
    assert!(!line.ok);
    assert_eq!(
        line.notes.as_deref(),
        Some("cycle failure; engine stopped during SetSource")
    );
    assert_eq!(line.parts.panic.as_deref(), Some("engine stopped during SetSource"));
    assert_eq!((line.parts.events_applied, line.parts.publications), (55, 9));
    assert_eq!((line.parts.seeks_issued, line.parts.sessions), (0, 0));
    assert_eq!((line.parts.peak_rss_kb, line.parts.rss, line.parts.hwm), (140, 140, 130));
    assert_eq!(result.peaks, Peaks { rss_kb: 140, hwm_kb: 130 });
}

#[test]
fn each_step_has_its_failure() {
    let mut cycle = Cycle::new(plan(30));
    cycle.on_sent(true);
    cycle.on_ready(Some(Failure::ReadyTimeout));
    assert!(!cycle.honesty.current_ready);
    assert_eq!(
        cycle.error.as_deref(),
        Some("timeout waiting for current session ready (60s)")
    );
    let mut cycle = before_scrub(30);
    cycle.on_scrubbed(Some(Failure::ScrubUnanswered { want: 26, last: 20 }));
    assert_eq!(
        cycle.error.as_deref(),
        Some("scrub final generation unanswered: want=26 got=20 after 15.0s")
    );
    let mut cycle = before_scrub(30);
    cycle.on_scrubbed(None);
    cycle.on_transported(Some(Failure::Stopped("Pause")));
    assert_eq!(cycle.error.as_deref(), Some("engine stopped during Pause"));
    let mut cycle = before_retention(3);
    cycle.on_retention(Err(Failure::RetentionUnanswered { generation: 27 }));
    assert_eq!(cycle.error.as_deref(), Some("retention observe: seek gen 27 unanswered"));
    let mut cycle = before_retention(3);
    cycle.on_retention(Ok(2));
    assert_eq!(
        cycle.error.as_deref(),
        Some("re-SetSource retention failed: pre=3 post=2")
    );
    let mut cycle = before_retention(0);
    cycle.on_retention(Ok(2));
    assert!(!cycle.honesty.retention_ok);
}

#[test]
fn earlier_days_that_are_missing_end_the_cycle() {
    let reach = || {
        let mut cycle = Cycle::new(plan(30));
        cycle.on_sent(true);
        cycle.on_ready(None);
        cycle.on_sent(true);
        cycle
    };
    let mut cycle = reach();
    cycle.on_priors(outcome(1, &["a", "b"]));
    assert_eq!(cycle.error.as_deref(), Some("prior load incomplete: a; b"));
    assert_eq!(cycle.notes, vec!["prior_incomplete=a|b".to_string()]);
    let mut cycle = reach();
    cycle.on_priors(outcome(1, &[]));
    assert_eq!(cycle.error.as_deref(), Some("prior accepted_seen=1 expected=2"));
    assert!(!cycle.honesty.priors_slot_ok);
    let mut cycle = reach();
    cycle.on_priors_stopped();
    assert_eq!(cycle.error.as_deref(), Some("engine stopped during LoadPriorSession"));
}

#[test]
fn a_cycle_above_the_ceiling_fails() {
    let mut cycle = before_retention(3);
    cycle.on_retention(Ok(3));
    let result = closed(cycle, 2_097_153, Ok(exit(2)));
    assert!(!result.line.ok && !result.line.honesty.rss_ceiling_ok);
    assert_eq!(
        result.line.parts.panic.as_deref(),
        Some("RSS ceiling breached: peak_rss=2097153 kB")
    );
    assert!(ceiling_ok(2_097_152) && !ceiling_ok(2_097_153));
}

#[test]
fn counts_that_the_dates_do_not_call_for_spoil_a_cycle() {
    let mut cycle = before_retention(3);
    cycle.on_retention(Ok(4));
    let result = closed(cycle, 100, Ok(exit(1)));
    assert!(!result.line.ok && result.line.parts.panic.is_none());
    assert_eq!(
        result.line.notes.as_deref(),
        Some(
            "re-SetSource retention ok pre=3 post=4; engine priors mismatch: \
             completed=1 skips=1 expected_accepted=2 expected_skips=1"
        )
    );
    let mut honesty = Honesty::default();
    let mut notes = Vec::new();
    assert!(!finalize_honesty(&mut honesty, &exit(0), &mut notes));
    assert_eq!(notes.len(), 1);
}

#[test]
fn a_panic_joins_the_first_report() {
    let mut cycle = before_retention(3);
    cycle.on_retention(Ok(3));
    let result = closed(cycle, 100, Err("boom".into()));
    assert_eq!(result.line.parts.panic.as_deref(), Some("engine panic: boom"));
    assert_eq!(result.line.parts.events_applied, 0);
    let mut cycle = Cycle::new(plan(30));
    cycle.on_sent(false);
    let result = closed(cycle, 100, Err("boom".into()));
    assert_eq!(
        result.line.parts.panic.as_deref(),
        Some("engine stopped during SetSource; engine panic: boom")
    );
}

#[test]
fn an_engine_that_cannot_start_fails_its_cycle() {
    let id = CycleId { cycle: 1, speed_bits: SPEED_BITS, cycle_secs: 30 };
    let result = spawn_failed(id, "no threads", (7, 8), 9);
    assert_eq!(result.line.notes.as_deref(), Some("cycle failure; spawn: no threads"));
    assert_eq!((result.line.cycle, result.line.wall_ns), (1, 9));
    assert_eq!(result.peaks, Peaks { rss_kb: 8, hwm_kb: 7 });
    assert_eq!(result.line.honesty, Honesty::default());
}

#[test]
fn the_slice_before_the_scrub_is_a_third_of_the_cycle() {
    assert_eq!(pre_scrub_secs(1), 0);
    assert_eq!(pre_scrub_secs(12), 4);
    assert_eq!(pre_scrub_secs(300), 10);
}

fn prior(path: &str, trade_date: Option<u32>) -> Prior {
    Prior { path: path.to_string(), trade_date }
}

fn three_priors() -> Vec<Prior> {
    vec![prior("a", Some(9)), prior("b", Some(10)), prior("c", None)]
}

#[test]
fn days_that_are_not_before_the_current_one_are_skipped() {
    assert_eq!(expected_prior_sets(&three_priors(), Some(10)), (2, 1));
    assert_eq!(expected_prior_sets(&three_priors(), Some(11)), (3, 0));
    assert_eq!(expected_prior_sets(&three_priors(), None), (3, 0));
}

#[test]
fn a_day_gets_its_share_of_the_cycle() {
    assert_eq!(per_load_ns(0, 3), 180_000_000_000);
    assert_eq!(per_load_ns(100, 4), 10_000_000_000);
    assert_eq!(per_load_ns(100, 0), 40_000_000_000);
    assert_eq!(per_load_ns(1, 1), 4_000_000_000);
    assert_eq!(per_load_ns(10, 9), 2_000_000_000);
}

#[test]
fn earlier_days_are_loaded_one_after_the_other() {
    let mut load = PriorLoad::new(three_priors(), Some(10), 100_000_000_000, 5_000);
    assert_eq!(load.next(0), LoadStep::Load(0));
    load.on_asked(1, 0);
    assert_eq!(load.poll(1, 5_000), None);
    assert_eq!(load.poll(2, 5_000), Some(true));
    load.on_settled(true, "0.0");
    // The second is not before the current day: it is watched for, and must not come.
    assert_eq!(load.next(6_000), LoadStep::Load(1));
    load.on_asked(2, 6_000);
    assert_eq!(load.poll(2, 2_000_006_000), None);
    assert_eq!(load.poll(2, 2_000_006_001), Some(false));
    load.on_settled(false, "2.0");
    assert_eq!(load.next(3_000_000_000), LoadStep::Load(2));
    load.on_asked(2, 3_000_000_000);
    assert_eq!(load.poll(2, 3_000_005_001), Some(false));
    load.on_settled(false, "0.1");
    assert_eq!(load.next(4_000_000_000), LoadStep::Done);
    assert_eq!(load.accepted_seen, 1);
    assert_eq!(
        load.incomplete,
        vec!["prior 3/3 c not complete in 0.1s (sessions=2)".to_string()]
    );
}

#[test]
fn a_day_that_should_not_have_come_is_reported() {
    let mut load = PriorLoad::new(three_priors(), Some(9), 100, 5_000);
    load.on_asked(1, 0);
    load.on_settled(true, "0.0");
    assert_eq!(load.accepted_seen, 0);
    assert_eq!(
        load.incomplete,
        vec!["expected skip but session inserted for a".to_string()]
    );
}

#[test]
fn the_end_of_the_cycle_cuts_off_the_days_that_are_left() {
    let mut load = PriorLoad::new(three_priors(), Some(10), 100, 5_000);
    assert_eq!(load.next(100), LoadStep::Done);
    assert_eq!(
        load.incomplete,
        vec![
            "deadline before LoadPriorSession a".to_string(),
            "deadline before LoadPriorSession c".to_string(),
        ]
    );
    assert_eq!(load.next(101), LoadStep::Done);
    assert_eq!(load.incomplete.len(), 2);
}

#[test]
fn a_load_that_nothing_was_missed_in_took_what_was_expected() {
    let mut load = PriorLoad::new(three_priors(), Some(10), 100_000_000_000, 5_000);
    for (index, inserted) in [true, false, true].into_iter().enumerate() {
        assert_eq!(load.next(0), LoadStep::Load(index));
        load.on_asked(1, 0);
        load.on_settled(inserted, "0.0");
    }
    assert_eq!(load.next(0), LoadStep::Done);
    let outcome = load.outcome(3);
    assert_eq!(outcome.sessions, 3);
    assert_eq!((outcome.expected_accepted, outcome.expected_skips), (2, 1));
    assert_eq!(outcome.accepted_seen, 2);
    assert!(outcome.incomplete.is_empty());

    let mut load = PriorLoad::new(three_priors(), Some(10), 100, 5_000);
    load.next(100);
    let outcome = load.outcome(1);
    assert_eq!((outcome.accepted_seen, outcome.expected_accepted), (0, 2));
    assert_eq!(outcome.incomplete.len(), 2);
}

fn result_with(ok: bool, rss_kb: u64) -> CycleResult {
    let mut result = fail_cycle(
        FailCtx {
            id: CycleId { cycle: 1, speed_bits: SPEED_BITS, cycle_secs: 30 },
            wall_ns: 0,
            peaks: Peaks::new(),
            message: "m".into(),
            partial: None,
            honesty: Honesty::default(),
        },
        rss_kb,
        rss_kb,
    );
    result.line.ok = ok;
    result
}

#[test]
fn a_climb_has_to_be_unbroken() {
    assert_eq!(climb(&vec![1, 5, 6, 9], 3, 3), Some(4));
    assert_eq!(climb(&vec![1, 5, 5, 9], 3, 3), None);
    assert_eq!(climb(&vec![5, 9], 3, 3), None);
    assert_eq!(climb(&vec![1, 5, 6, 9], 0, 3), None);
}

#[test]
fn cycles_add_up() {
    let mut totals = Totals::new();
    assert!(totals.wants_cycle(2, false) && !totals.wants_cycle(2, true));
    assert_eq!(totals.on_cycle(&result_with(true, 10), 2), None);
    assert_eq!(totals.on_cycle(&result_with(true, 20), 2), None);
    assert!(!totals.wants_cycle(2, false) && totals.wants_cycle(0, false));
    // The third cycle sets the baseline.
    assert_eq!(totals.on_cycle(&result_with(true, 30), 2), Some(10));
    assert_eq!(totals.baseline_kb, Some(30));
    assert!(totals.pass());
    totals.on_leak_suspect();
    assert!(!totals.pass());
    assert_eq!(totals.on_cycle(&result_with(false, 2_097_153), 9), None);
    assert_eq!((totals.cycles, totals.failures, totals.rss_ceiling_fails), (4, 1, 1));
    assert_eq!(totals.peaks, Peaks { rss_kb: 2_097_153, hwm_kb: 2_097_153 });
    assert_eq!(totals.peak_series, vec![10, 20, 30, 2_097_153]);
}

#[test]
fn an_engine_is_ready_once_it_published_an_answer() {
    assert!(seek_answered(3, 3, 1) && !seek_answered(2, 3, 1) && !seek_answered(3, 3, 0));
    assert!(current_ready(3, 3, 1, 1) && !current_ready(3, 3, 0, 1));
    assert!(heartbeat_due(0, 30_000_000_000) && !heartbeat_due(1, 30_000_000_000));
    let mut settling = Settling::new(5);
    assert!(!settling.observe(4) && !settling.observe(3));
    assert_eq!(settling.last, 4);
    assert!(settling.observe(5));
}

#[test]
fn a_playback_that_goes_on_has_not_ended() {
    let mut playback = Playback::new();
    assert!(!playback.observe(5, 100, 900, 0));
    assert!(!playback.observe(5, 100, 900, 10));
    assert!(!playback.observe(6, 110, 900, 10 + EOF_STABLE_NS));
    assert!(!playback.observe(6, 110, 900, 20 + EOF_STABLE_NS));
    assert!(!playback.observe(6, 110, 900, 19 + 2 * EOF_STABLE_NS));
    assert!(playback.observe(6, 110, 900, 20 + 2 * EOF_STABLE_NS));
}

#[test]
fn a_playback_at_the_last_time_ends_without_events() {
    let mut playback = Playback::new();
    assert!(!playback.observe(0, 900, 900, 0));
    assert!(playback.observe(0, 900, 900, EOF_STABLE_NS));
    let mut idle = Playback::new();
    assert!(!idle.observe(0, 0, 900, 0));
    assert!(!idle.observe(0, 0, 900, 9 * EOF_STABLE_NS));
}
