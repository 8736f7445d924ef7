use fft::header::{clock_in, contract_context, format_clock, format_ny_clock, fps_label, rolling_frame_count, FrameCadence};
use fft::render::{ProfileRenderState, ProfileSessionRender, RenderSnapshot};
use std::cell::RefCell;
use std::collections::VecDeque;

const MS: u64 = 1_000_000;
const WINDOW: u64 = 1_000 * MS;

#[test]
fn ny_clock_pins_sim_live_anchor() {
    assert_eq!(format_ny_clock(1_785_333_000_000_000_000), "09:50:00");
}

#[test]
fn ny_clock_crosses_spring_dst_boundary() {
    assert_eq!(format_ny_clock(1_772_953_199_000_000_000), "01:59:59");
    assert_eq!(format_ny_clock(1_772_953_200_000_000_000), "03:00:00");
}

#[test]
fn ny_clock_is_empty_without_applied_event() {
    assert_eq!(format_ny_clock(0), "--:--:--");
}

#[test]
fn a_clock_shows_the_time_of_day_at_an_offset() {
    assert_eq!(format_clock(86_399_000_000_000, Some(0)), "23:59:59");
    assert_eq!(format_clock(86_399_000_000_000, Some(1)), "00:00:00");
    assert_eq!(format_clock(1_000_000_000, Some(-2)), "23:59:59");
    assert_eq!(format_clock(1_000_000_000, None), "--:--:--");
}

#[test]
fn the_clock_asks_for_new_york_at_its_instant() {
    let asked = RefCell::new(Vec::new());
    let label = clock_in(86_399_000_000_000, |ts_ns, zone| {
        asked.borrow_mut().push((ts_ns, zone));
        Some(-18_000)
    });
    assert_eq!(label, "18:59:59");
    assert_eq!(asked.into_inner(), vec![(86_399_000_000_000, "America/New_York")]);
    assert_eq!(clock_in(86_399_000_000_000, |_, _| None), "--:--:--");
}

#[test]
fn rolling_fps_expires_frames_at_window_boundary() {
    let start = 7 * MS;
    let mut frames = VecDeque::new();
    assert_eq!(rolling_frame_count(&mut frames, start, WINDOW), 1);
    assert_eq!(rolling_frame_count(&mut frames, start + 400 * MS, WINDOW), 2);
    assert_eq!(rolling_frame_count(&mut frames, start + 999 * MS, WINDOW), 3);
    assert_eq!(rolling_frame_count(&mut frames, start + 1_000 * MS, WINDOW), 3);
    assert_eq!(rolling_frame_count(&mut frames, start + 1_400 * MS, WINDOW), 3);
    assert_eq!(rolling_frame_count(&mut frames, start + 2_000 * MS, WINDOW), 2);
}

#[test]
fn a_cadence_counts_the_last_second() {
    let mut cadence = FrameCadence::new();
    assert_eq!(cadence.record(0), 1);
    assert_eq!(cadence.record(999 * MS), 2);
    assert_eq!(cadence.record(1_000 * MS), 2);
    assert_eq!(fps_label(2), "2 FPS");
}

#[test]
fn contract_context_is_placeholder_until_session_exists() {
    assert_eq!(contract_context(&RenderSnapshot::default()), "-- ---- --");
}

#[test]
fn contract_context_pairs_placeholder_with_trade_date() {
    let snapshot = RenderSnapshot {
        profile: ProfileRenderState {
            sessions: vec![ProfileSessionRender {
                trade_date: 20_663,
                ..ProfileSessionRender::default()
            }],
        },
        ..RenderSnapshot::default()
    };
    assert_eq!(contract_context(&snapshot), "-- 2026-07-29");
}

#[test]
fn contract_context_renders_symbol_with_trade_date() {
    let snapshot = RenderSnapshot {
        symbol: "ESU6".to_string(),
        profile: ProfileRenderState {
            sessions: vec![ProfileSessionRender {
                trade_date: 20_663,
                ..ProfileSessionRender::default()
            }],
        },
        ..RenderSnapshot::default()
    };
    assert_eq!(contract_context(&snapshot), "ESU6 2026-07-29");
}
