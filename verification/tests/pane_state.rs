use fft::event::Price;
use fft::pane_state::{
    clamp_center, navigation_range, pan_center, raw_follow_center, Pane, PanePrefsSnapshot,
    PaneState, SplitterState,
};
use fft::render::{
    DomPriceRow, DomRenderState, ProfilePriceRow, ProfileRenderState, ProfileSessionRender,
};

fn profile(prices: &[i64]) -> ProfileRenderState {
    ProfileRenderState {
        sessions: vec![ProfileSessionRender {
            rows: prices
                .iter()
                .map(|price| ProfilePriceRow {
                    price: Price(*price),
                    ..Default::default()
                })
                .collect(),
            ..Default::default()
        }],
    }
}

fn dom(prices: &[i64]) -> DomRenderState {
    DomRenderState {
        rows: prices
            .iter()
            .map(|price| DomPriceRow {
                price: Price(*price),
                ..Default::default()
            })
            .collect(),
        ..Default::default()
    }
}

fn usable(width: f32) -> bool {
    width.is_finite() && width > 0.0
}

#[test]
fn raw_follow_center_is_scale_independent() {
    let dom = DomRenderState {
        best_bid: Some(Price(100)),
        best_ask: Some(Price(110)),
        ..Default::default()
    };
    assert_eq!(raw_follow_center(&dom), Some(Price(105)));
}

#[test]
fn scale_key_changes_only_hovered_pane() {
    let mut state = PaneState::default();
    assert!(!state.set_hovered_scale(4));
    state.set_hovered(Pane::MarketProfile, true);
    assert!(state.set_hovered_scale(4));
    assert_eq!((state.mp_scale, state.dom_scale), (4, 1));
    state.set_hovered(Pane::Dom, true);
    assert!(state.set_hovered_scale(2));
    assert_eq!((state.mp_scale, state.dom_scale), (4, 2));
}

#[test]
fn t_syncs_other_pane_to_hovered_scale() {
    let mut state = PaneState::default();
    assert!(!state.sync_scale_from_hovered(), "no hover is a no-op");
    state.set_hovered(Pane::MarketProfile, true);
    assert!(state.set_hovered_scale(4));
    assert!(state.sync_scale_from_hovered());
    assert_eq!((state.mp_scale, state.dom_scale), (4, 4));
    assert!(!state.sync_scale_from_hovered(), "already equal is a no-op");
    state.set_hovered(Pane::Dom, true);
    assert!(state.set_hovered_scale(2));
    assert!(state.sync_scale_from_hovered());
    assert_eq!((state.mp_scale, state.dom_scale), (2, 2));
}

#[test]
fn toggling_the_ladder_keeps_the_navigation() {
    let mut state = PaneState {
        center: Some(Price(105)),
        mp_scale: 4,
        mp_zoom_bits: 1.8f32.to_bits(),
        ..Default::default()
    };
    state.splitter.set_ratio_bits(0.37f32.to_bits());
    let before = (
        state.center,
        state.mp_scale,
        state.mp_zoom_bits,
        state.splitter.ratio_bits(),
    );

    assert!(!state.dom_visible());
    assert!(state.toggle_dom());
    assert!(!state.toggle_dom());
    assert_eq!(
        before,
        (
            state.center,
            state.mp_scale,
            state.mp_zoom_bits,
            state.splitter.ratio_bits(),
        )
    );
}

#[test]
fn hiding_dom_clears_dom_hover_and_cancels_splitter_drag() {
    let mut state = PaneState::default();
    state.toggle_dom();
    state.set_hovered(Pane::Dom, true);
    state.splitter.begin(400.0f32.to_bits());
    assert!(state.splitter.is_dragging());

    state.toggle_dom();
    assert_eq!(state.hovered, None);
    assert!(!state.splitter.is_dragging());
    assert!(state.splitter.consume(usable(1_000.0)).is_none());
}

#[test]
fn the_latest_splitter_position_wins_and_survives_the_release() {
    let mut split = SplitterState::default();
    split.begin(250.0f32.to_bits());
    split.queue(300.0f32.to_bits());
    split.queue(400.0f32.to_bits());
    assert_eq!(split.consume(true), Some(400.0f32.to_bits()));
    assert_eq!(split.consume(true), None);
    split.queue(420.0f32.to_bits());
    split.end();
    assert_eq!(split.consume(true), Some(420.0f32.to_bits()));
    split.queue(1.0f32.to_bits());
    assert_eq!(split.consume(true), None);
}

#[test]
fn splitter_consume_zero_width_is_noop() {
    let mut split = SplitterState::default();
    split.begin(250.0f32.to_bits());
    split.queue(400.0f32.to_bits());
    assert!(split.consume(usable(0.0)).is_none());
    assert!(split.consume(usable(-1.0)).is_none());
    assert!(split.consume(usable(f32::NAN)).is_none());
    // pending remains until a valid width arrives
    assert!(split.consume(usable(1_000.0)).is_some());
}

#[test]
fn navigation_range_uses_profile_extrema_beyond_dom_both_ends() {
    assert_eq!(
        navigation_range(&profile(&[80, 140]), &dom(&[100, 120])),
        Some((Price(80), Price(140)))
    );
}

#[test]
fn navigation_range_uses_dom_extrema_beyond_profile_both_ends() {
    assert_eq!(
        navigation_range(&profile(&[100, 120]), &dom(&[80, 140])),
        Some((Price(80), Price(140)))
    );
}

#[test]
fn navigation_range_accepts_only_one_source() {
    assert_eq!(
        navigation_range(&profile(&[80, 140]), &DomRenderState::default()),
        Some((Price(80), Price(140)))
    );
    assert_eq!(
        navigation_range(&ProfileRenderState::default(), &dom(&[100, 120])),
        Some((Price(100), Price(120)))
    );
    assert_eq!(
        navigation_range(&ProfileRenderState::default(), &DomRenderState::default()),
        None
    );
}

#[test]
fn pure_center_clamp_honors_optional_range() {
    assert_eq!(
        clamp_center(Some(Price(500)), Some((Price(80), Price(140)))),
        Some(Price(140))
    );
    assert_eq!(clamp_center(Some(Price(70)), None), Some(Price(70)));
    assert_eq!(clamp_center(None, Some((Price(80), Price(140)))), None);
}

#[test]
fn pan_center_sign_moves_with_pointer_rows() {
    assert_eq!(pan_center(Price(110), Price(1), 1, 3), Price(113));
    assert_eq!(pan_center(Price(110), Price(1), 1, -3), Price(107));
}

#[test]
fn pan_center_applies_each_tick_scale() {
    for (scale, expected) in [(1, 112), (2, 114), (4, 118)] {
        assert_eq!(pan_center(Price(110), Price(1), scale, 2), Price(expected));
    }
}

#[test]
fn recentering_drops_the_center_alone() {
    let mut state = PaneState {
        center: Some(Price(105)),
        mp_scale: 4,
        mp_zoom_bits: 1.8f32.to_bits(),
        ..Default::default()
    };
    assert!(state.recenter());
    assert_eq!(state.center, None);
    assert_eq!((state.mp_scale, state.mp_zoom_bits), (4, 1.8f32.to_bits()));
    assert!(!state.recenter());
}

#[test]
fn automatic_center_stays_inside_navigation_range() {
    let state = PaneState::default();
    let mut dom = dom(&[100, 120]);
    dom.best_bid = Some(Price(90));
    dom.best_ask = Some(Price(92));
    assert_eq!(
        state.navigation_center(&profile(&[80, 140]), &dom),
        Some(Price(91))
    );

    dom.best_bid = Some(Price(60));
    dom.best_ask = Some(Price(62));
    assert_eq!(
        state.navigation_center(&profile(&[80, 140]), &dom),
        Some(Price(80))
    );
    assert_eq!(state.center, None);
}

#[test]
fn preferences_survive_a_round_trip() {
    let prefs = PanePrefsSnapshot {
        mp_scale: 2,
        dom_scale: 4,
        splitter_ratio_bits: 0.3f32.to_bits(),
        mp_zoom_bits: 1.5f32.to_bits(),
    };
    let state = PaneState::from_prefs(&prefs);
    let kept = state.prefs_snapshot();
    assert_eq!(kept.mp_scale, 2);
    assert_eq!(kept.dom_scale, 4);
    assert_eq!(kept.splitter_ratio_bits, 0.3f32.to_bits());
    assert_eq!(kept.mp_zoom_bits, 1.5f32.to_bits());
}
