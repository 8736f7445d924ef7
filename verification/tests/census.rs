use fft::census::{
    judge, reconcile, within_budget, Census, Checks, Closing, Histogram, RefreshState, Run,
};
use fft::event::EventKind;
use fft::refresh_section::{parse_refresh, RefreshTotals};

const VERSION: u16 = 1;

fn known(native: bool, reloads: u32, hidden_volume: u64) -> RefreshState {
    RefreshState::Known { native, reloads, hidden_volume }
}

fn clean_run(events: u64) -> Run {
    Run { events, eof: true, section_count: 0, section_hidden: 0, book_gaps: 0, live_orders: 2 }
}

#[test]
fn more_reloads_add_the_difference() {
    let mut census = Census::new();
    census.note(7, known(true, 1, 10), 0);
    census.note(7, known(true, 3, 25), 0);
    assert_eq!((census.total(), census.hidden()), (3, 25));
    assert_eq!(census.max_reloads(), 3);
    assert_eq!((census.sig_checked(), census.sig_ok()), (2, 2));
    // The same state again adds nothing.
    census.note(7, known(true, 3, 25), 0);
    assert_eq!((census.total(), census.hidden()), (3, 25));
    assert_eq!(census.inv_a(), 0);
}

#[test]
fn fewer_reloads_or_another_volume_are_a_new_life() {
    let mut census = Census::new();
    census.note(7, known(true, 3, 25), 0);
    census.note(7, known(true, 1, 4), 0);
    assert_eq!((census.total(), census.hidden()), (4, 29));
    census.note(7, known(true, 1, 5), 0);
    assert_eq!((census.total(), census.hidden()), (5, 34));
    assert_eq!(census.max_reloads(), 3);
    assert_eq!(census.inv_a(), 0);
}

#[test]
fn a_growing_order_whose_volume_shrank_is_a_breach() {
    let mut census = Census::new();
    census.note(7, known(true, 1, 10), 0);
    census.note(7, known(true, 2, 8), 0);
    assert_eq!(census.inv_a(), 1);
    assert_eq!((census.total(), census.hidden()), (2, 18));
}

#[test]
fn a_life_that_ended_starts_over() {
    let mut census = Census::new();
    census.note(7, known(true, 2, 10), 0);
    census.note(7, RefreshState::NotResting, 0);
    census.note(7, known(true, 2, 10), 0);
    assert_eq!((census.total(), census.hidden()), (4, 20));
    census.note(7, known(true, 0, 0), 0);
    census.note(7, known(true, 1, 5), 0);
    assert_eq!((census.total(), census.hidden()), (5, 25));
}

#[test]
fn hidden_volume_without_reloads_is_a_breach() {
    let mut census = Census::new();
    census.note(7, known(true, 0, 5), 0);
    assert_eq!(census.inv_a(), 1);
    census.note(8, known(true, 2, 0), 0);
    assert_eq!(census.inv_a(), 2);
    // At the end of the day the order that still has reloads without volume counts again.
    census.close(0);
    assert_eq!(census.inv_a(), 3);
}

#[test]
fn events_tell_the_census_by_their_kind() {
    let mut census = Census::new();
    census.on_event(EventKind::Add, true, 7, known(true, 1, 5), 0);
    census.on_event(EventKind::Add, false, 0, known(true, 1, 5), 0);
    census.on_event(EventKind::Trade, false, 7, known(true, 1, 5), 0);
    assert_eq!(census.total(), 0);
    census.on_event(EventKind::Modify, false, 7, known(true, 1, 5), 0);
    assert_eq!((census.total(), census.hidden()), (1, 5));
    census.on_event(EventKind::Clear, true, 0, RefreshState::NotResting, 0);
    census.on_event(EventKind::Modify, false, 7, known(true, 1, 5), 0);
    assert_eq!(census.total(), 1);
    census.on_event(EventKind::Clear, false, 0, RefreshState::NotResting, 0);
    census.on_event(EventKind::Modify, false, 7, known(true, 1, 5), 0);
    assert_eq!((census.total(), census.hidden()), (2, 10));
    census.on_event(EventKind::Gap, false, 0, RefreshState::NotResting, 4);
    assert_eq!(census.gaps(), 4);
}

#[test]
fn unavailable_orders_count_only_behind_a_gap() {
    let mut census = Census::new();
    census.note(7, RefreshState::Unavailable, 0);
    assert_eq!(census.unavail_count(), 0);
    census.note(7, RefreshState::Unavailable, 1);
    census.note(7, RefreshState::Unavailable, 1);
    census.note(9, RefreshState::Unavailable, 1);
    assert_eq!(census.unavail_count(), 2);
}

#[test]
fn the_histogram_adds_up() {
    let mut census = Census::new();
    for (id, reloads) in [(1, 1), (2, 2), (3, 4), (4, 5), (5, 9), (6, 10), (7, 400)] {
        census.note(id, known(true, reloads, 5), 0);
    }
    census.note(8, RefreshState::NotResting, 0);
    let hist = census.hist();
    assert_eq!(
        hist,
        Histogram { distinct: 7, one: 1, two_to_four: 2, five_to_nine: 2, ten_or_more: 2 }
    );
    assert_eq!(
        hist.one + hist.two_to_four + hist.five_to_nine + hist.ten_or_more,
        hist.distinct
    );
}

#[test]
fn a_level_cannot_have_more_than_the_session() {
    let mut census = Census::new();
    census.close_level(3, 10, 3, 10);
    assert_eq!(census.inv_a(), 0);
    census.close_level(4, 10, 3, 10);
    census.close_level(3, 11, 3, 10);
    assert_eq!(census.inv_a(), 2);
}

#[test]
fn a_live_order_cannot_outrun_what_was_seen_of_it() {
    let mut census = Census::new();
    census.note(7, known(true, 2, 10), 0);
    let mut closing = Closing { native: 0, unavailable: 0 };
    census.close_order(7, known(true, 2, 10), 0, &mut closing);
    assert_eq!(census.inv_a(), 0);
    census.close_order(7, known(true, 3, 10), 0, &mut closing);
    assert_eq!(census.inv_a(), 1);
    census.close_order(8, known(true, 1, 10), 0, &mut closing);
    assert_eq!(census.inv_a(), 2);
    census.close_order(9, known(false, 1, 10), 0, &mut closing);
    census.close_order(9, known(true, 0, 0), 0, &mut closing);
    assert_eq!(census.inv_a(), 2);
    census.close_order(10, RefreshState::Unavailable, 0, &mut closing);
    assert_eq!(census.unavail_count(), 0);
    census.close_order(10, RefreshState::Unavailable, 1, &mut closing);
    census.close_order(11, RefreshState::NotResting, 1, &mut closing);
    assert_eq!(census.unavail_count(), 1);
    assert_eq!(closing, Closing { native: 4, unavailable: 2 });
}

#[test]
fn the_aggregate_is_held_against_the_census() {
    let mut census = Census::new();
    census.note(7, known(true, 2, 10), 0);
    assert_eq!(reconcile(&census, 2, 10, 2, 10), Ok(()));
    assert_eq!(
        reconcile(&census, 2, 11, 1, 9),
        Err("session aggregate vs place-path: section=2/11 census=2/10 live=1/9".to_string())
    );
}

#[test]
fn a_clean_day_passes_with_what_it_counted_over() {
    let census = Census::new();
    let (checks, notes) = judge(&census, &clean_run(5), 5, 250);
    assert_eq!(
        checks,
        Checks {
            coverage: true,
            hidden_implies_reload: true,
            same_order: true,
            zero_gap_unavailable: true,
            aggregate: true,
            gaps: true,
            nonzero: true,
        }
    );
    assert!(checks.pass());
    assert_eq!(notes, "refresh_window_ns=250; book_apply only; live_orders_eod=2");
}

#[test]
fn every_broken_rule_is_noted() {
    let mut census = Census::new();
    census.note(7, known(false, 1, 0), 0);
    census.note(8, RefreshState::Unavailable, 3);
    let run =
        Run { events: 4, eof: false, section_count: 2, section_hidden: 3, book_gaps: 6, live_orders: 0 };
    let (checks, notes) = judge(&census, &run, 5, 250);
    assert!(!checks.pass());
    assert_eq!(
        notes,
        "coverage FAIL: applied=4 expected=5 eof=false; check_a FAIL: 1 breaches; \
         check_b FAIL: ok=0 checked=1; check_c FAIL: gaps=0 unavail=1; \
         section agg mismatch: section=2/3 census=1/0; gaps mismatch: census=0 book=6"
    );
}

#[test]
fn a_long_day_needs_a_refresh() {
    let census = Census::new();
    assert!(judge(&census, &clean_run(1_000_000), 1_000_000, 250).0.pass());
    let (checks, notes) = judge(&census, &clean_run(1_000_001), 1_000_001, 250);
    assert!(!checks.nonzero && !checks.pass());
    assert_eq!(notes, "zero native refreshes on multi-million-event day");
}

/// A section with the given live orders and levels, and one row in each of the other lists.
fn section(live: &[(u32, u64)], levels: &[(u32, u64)]) -> Vec<u8> {
    let mut out = Vec::new();
    out.extend(VERSION.to_le_bytes());
    out.extend(9u32.to_le_bytes());
    out.extend(9u64.to_le_bytes());
    out.extend((live.len() as u32).to_le_bytes());
    for (reloads, hidden) in live {
        out.extend(1u64.to_le_bytes());
        out.extend(reloads.to_le_bytes());
        out.extend(hidden.to_le_bytes());
        out.push(1);
    }
    out.extend(1u32.to_le_bytes());
    out.extend([7; 41]);
    out.extend(1u32.to_le_bytes());
    out.extend([7; 29]);
    out.extend((levels.len() as u32).to_le_bytes());
    for (count, hidden) in levels {
        out.push(0);
        out.extend((-5i64).to_le_bytes());
        out.extend(count.to_le_bytes());
        out.extend(hidden.to_le_bytes());
    }
    out
}

#[test]
fn a_section_gives_its_sums() {
    let bytes = section(&[(2, 10), (1, 300)], &[(3, 40), (4, 50), (u32::MAX, 1)]);
    assert_eq!(
        parse_refresh(&bytes, VERSION),
        Ok(RefreshTotals {
            count: 7 + u64::from(u32::MAX),
            hidden: 91,
            live_reloads: 3,
            live_hidden: 310,
        })
    );
    let wide = section(&[], &[(1, u64::MAX), (1, u64::MAX)]);
    assert_eq!(parse_refresh(&wide, VERSION).unwrap().hidden, 2 * u128::from(u64::MAX));
}

#[test]
fn another_version_is_refused() {
    assert_eq!(
        parse_refresh(&section(&[], &[]), VERSION + 1),
        Err("REFRESH version mismatch".to_string())
    );
}

#[test]
fn bytes_that_run_out_are_refused_where_they_do() {
    let bytes = section(&[(2, 10)], &[(3, 40)]);
    assert_eq!(parse_refresh(&Vec::new(), VERSION), Err("truncated at 0".to_string()));
    assert_eq!(parse_refresh(&bytes[..5].to_vec(), VERSION), Err("truncated at 2".to_string()));
    assert_eq!(parse_refresh(&bytes[..20].to_vec(), VERSION), Err("truncated at 18".to_string()));
    // The last field of the last level is eight bytes wide.
    let short = bytes[..bytes.len() - 1].to_vec();
    assert_eq!(
        parse_refresh(&short, VERSION),
        Err(format!("truncated at {}", bytes.len() - 8))
    );
}

#[test]
fn bytes_behind_the_section_are_refused() {
    let mut bytes = section(&[], &[]);
    bytes.extend([0; 3]);
    assert_eq!(parse_refresh(&bytes, VERSION), Err("3 trailing REFRESH bytes".to_string()));
}

#[test]
fn a_spent_budget_names_the_events_it_went_on() {
    assert_eq!(within_budget(0, 0), Ok(()));
    assert_eq!(within_budget(3_599_999_999_999, 7), Ok(()));
    assert_eq!(
        within_budget(3_600_000_000_000, 12),
        Err("apply budget 3600s after 12 events".to_string())
    );
}
