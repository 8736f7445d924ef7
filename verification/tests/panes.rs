use fft::dom_view::{DomView, DomViewRow};
use fft::event::Price;
use fft::ladder::{max_side_sizes, prepare as prepare_ladder, prepare_cells, SideSizes};
use fft::mp_plan::{
    max_volumes, period_column, prepare as prepare_profile, prepare_line, prepare_tpos,
    price_row, prior_lines, prior_markers, semantic_lines, session_markers, LineKind, LineSpan,
    Markers, SemanticLine,
};
use fft::mp_view::MpRow;
use fft::render::{
    DomPriceRow, DomRenderState, LastTrade, ProfilePriceRow, ProfileRenderState,
    ProfileSessionRender, RenderSnapshot,
};

const TICK: i64 = 250_000_000;

fn depth() -> DomRenderState {
    let row = |ticks: i64, bid: u64, ask: u64, volume: u64| DomPriceRow {
        price: Price(ticks * TICK),
        bid_size: bid,
        ask_size: ask,
        session_volume: volume,
        ..Default::default()
    };
    let mut rows = vec![row(100, 7, 0, 4), row(101, 5, 0, 9), row(102, 0, 6, 3), row(103, 0, 8, 0)];
    rows[1].refresh_agg.bid_count = 3;
    rows[1].cb = 11;
    rows[2].ca = 12;
    DomRenderState {
        tick_size: Price(TICK),
        best_bid: Some(Price(101 * TICK)),
        best_ask: Some(Price(102 * TICK)),
        last_trade: Some(LastTrade { price: Price(101 * TICK) }),
        rows,
    }
}

fn texts(cells: &[fft::ladder::Cell]) -> Vec<(usize, &str, bool)> {
    cells.iter().map(|cell| (cell.column, cell.text.as_str(), cell.right)).collect()
}

#[test]
fn a_row_has_a_cell_for_every_amount() {
    let plan = prepare_ladder(&DomView::default(), &depth(), 4);
    assert_eq!(
        texts(&prepare_cells(&plan.dom.rows[1])),
        vec![(0, "25.25", true), (1, "9", true), (2, "5", true), (3, "11", true)]
    );
    assert_eq!(
        texts(&prepare_cells(&plan.dom.rows[2])),
        vec![(0, "25.50", true), (1, "3", true), (4, "12", true), (5, "6", false)]
    );
}

#[test]
fn the_ladder_shows_the_highest_price_first() {
    let plan = prepare_ladder(&DomView::default(), &depth(), 4);
    assert_eq!((plan.start, plan.end), (0, 4));
    let prices: Vec<i64> = plan.rows.iter().map(|row| row.row.price.0 / TICK).collect();
    assert_eq!(prices, vec![103, 102, 101, 100]);
    let inside: Vec<bool> = plan.rows.iter().map(|row| row.inside).collect();
    assert_eq!(inside, vec![false, true, true, false]);
    assert_eq!(plan.rows[2].bid_reload.as_deref(), Some("×3"));
    assert!(plan.rows[2].ask_reload.is_none() && plan.rows[1].bid_reload.is_none());
    assert_eq!(plan.sizes, SideSizes { bid: 7, ask: 8, volume: 9 });
    assert_eq!(plan.hovered(0), Some(3));
    assert_eq!(plan.hovered(3), Some(0));
    assert_eq!(plan.hovered(4), None);
}

#[test]
fn a_small_window_counts_only_its_rows() {
    let plan = prepare_ladder(&DomView::default(), &depth(), 2);
    assert_eq!(plan.rows.len(), 2);
    let shown: Vec<DomViewRow> = plan.dom.rows[plan.start..plan.end].to_vec();
    assert_eq!(plan.sizes.bid, shown.iter().map(|row| row.bid_size).max().unwrap());
    assert_eq!(
        max_side_sizes(&plan.dom.rows, 0, 0),
        SideSizes { bid: 0, ask: 0, volume: 0 }
    );
}

#[test]
fn an_unpublished_depth_shows_nothing() {
    let plan = prepare_ladder(&DomView::default(), &DomRenderState::default(), 9);
    assert!(plan.rows.is_empty());
    assert_eq!(plan.hovered(0), None);
}

#[test]
fn letters_stand_side_by_side_or_in_their_columns() {
    let runs = prepare_tpos((1 << 0) | (1 << 30) | (1 << 44), (1 << 0) | (1 << 12));
    assert_eq!(runs.cp_eth, "Ae  s");
    assert_eq!(runs.cp_rth, "  AM ");
    assert_eq!(runs.ep_eth.chars().count(), 46);
    let column = |run: &str, at: usize| run.chars().nth(at).unwrap();
    assert_eq!(column(&runs.ep_eth, 0), 'A');
    assert_eq!(column(&runs.ep_eth, 30), 'e');
    assert_eq!(column(&runs.ep_eth, 31), ' ');
    assert_eq!(column(&runs.ep_rth, 31), 'A');
    assert_eq!(column(&runs.ep_rth, 43), 'M');
    assert_eq!(column(&runs.ep_eth, 44), 's');
    // Without the columns that were not traded, the expanded letters are the collapsed ones.
    let traded = [0, 30, 31, 43, 44];
    let picked: String = traded.iter().map(|at| column(&runs.ep_eth, *at)).collect();
    assert_eq!(picked, runs.cp_eth);
}

fn session() -> ProfileSessionRender {
    let row = |ticks: i64, volume: u64, period: u64| ProfilePriceRow {
        price: Price(ticks * TICK),
        eth_periods: 1,
        session_volume: volume,
        period_volume: period,
        ..Default::default()
    };
    ProfileSessionRender {
        trade_date: 20_663,
        open: Some(Price(101 * TICK)),
        vpoc: Some(Price(102 * TICK)),
        vah: Some(Price(103 * TICK)),
        val: Some(Price(102 * TICK)),
        ib_low: Some(Price(100 * TICK)),
        ib_high: Some(Price(104 * TICK)),
        current_period: 7,
        period_gap: true,
        rows: vec![row(100, 3, 0), row(101, 4, 2), row(102, 9, 1), row(103, 1, 0)],
    }
}

#[test]
fn markers_are_those_of_the_session() {
    let markers = session_markers(&session(), Some(Price(5)));
    assert_eq!(
        markers,
        Markers {
            open: Some(Price(101 * TICK)),
            vpoc: Some(Price(102 * TICK)),
            vah: Some(Price(103 * TICK)),
            val: Some(Price(102 * TICK)),
            ib_low: Some(Price(100 * TICK)),
            ib_high: Some(Price(104 * TICK)),
            current_price: Some(Price(5)),
            current_period: 7,
            period_gap: true,
        }
    );
    assert_eq!(
        prior_markers(&session()),
        Markers {
            open: Some(Price(101 * TICK)),
            vpoc: Some(Price(102 * TICK)),
            vah: Some(Price(103 * TICK)),
            val: Some(Price(102 * TICK)),
            ..Markers::default()
        }
    );
    assert_eq!(period_column(&markers), Some(7));
    assert_eq!(period_column(&Markers { current_period: 46, ..markers }), None);
}

#[test]
fn a_price_takes_the_row_of_its_bucket() {
    assert_eq!(price_row(Price(104), Price(104), Price(1)), Some(0));
    assert_eq!(price_row(Price(101), Price(104), Price(1)), Some(3));
    assert_eq!(price_row(Price(105), Price(104), Price(1)), None);
    assert_eq!(price_row(Price(101), Price(104), Price(4)), Some(1));
    assert_eq!(price_row(Price(101), Price(103), Price(4)), None);
    assert_eq!(price_row(Price(-1), Price(4), Price(4)), Some(2));
    assert_eq!(price_row(Price(i64::MIN + 8), Price(i64::MAX - 7), Price(8)), None);
}

#[test]
fn lines_are_drawn_in_order_of_importance() {
    let markers = session_markers(&session(), Some(Price(103 * TICK)));
    let line = |kind, row, span| SemanticLine { kind, row, span };
    let here = LineSpan::CurrentSession;
    // The upper end of the initial balance lies above the rows.
    assert_eq!(
        semantic_lines(&markers, Price(103 * TICK), Price(TICK)),
        vec![
            line(LineKind::Open, 2, here),
            line(LineKind::InitialBalance, 3, here),
            line(LineKind::ValueArea, 0, here),
            line(LineKind::ValueArea, 1, here),
            line(LineKind::Vpoc, 1, here),
            line(LineKind::CurrentPrice, 0, LineSpan::FullPane),
        ]
    );
    assert_eq!(
        prior_lines(&prior_markers(&session()), Price(103 * TICK), Price(TICK)),
        vec![
            line(LineKind::ValueArea, 0, here),
            line(LineKind::ValueArea, 1, here),
            line(LineKind::Vpoc, 1, here),
        ]
    );
}

#[test]
fn a_bucket_that_reaches_into_the_value_area_is_marked() {
    let markers = Markers { val: Some(Price(103)), vah: Some(Price(107)), ..Markers::default() };
    let at = |price| {
        let row = MpRow { price: Price(price), ..Default::default() };
        prepare_line(&row, Price(4), &markers).in_value_area
    };
    assert_eq!((at(96), at(100), at(104), at(108)), (false, true, true, false));
    let open = Markers { val: Some(Price(103)), ..Markers::default() };
    let row = MpRow { price: Price(104), ..Default::default() };
    assert!(!prepare_line(&row, Price(4), &open).in_value_area);
}

#[test]
fn the_profile_shows_the_highest_price_first() {
    let snapshot = RenderSnapshot {
        symbol: "ESU6".into(),
        profile: ProfileRenderState { sessions: vec![session()] },
        dom: depth(),
    };
    let plan = prepare_profile(&snapshot, 1, Some(Price(102 * TICK)), 4);
    let prices: Vec<&str> = plan.lines.iter().map(|line| line.price.as_str()).collect();
    assert_eq!(prices, vec!["25.75", "25.50", "25.25", "25.00"]);
    assert_eq!((plan.max_period_volume, plan.max_session_volume), (2, 9));
    assert_eq!(plan.markers.current_price, Some(Price(101 * TICK)));
    assert_eq!(plan.footer.as_deref(), Some("07-28 18:00"));
    assert_eq!(plan.lines[1].session_volume, "9");
    assert_eq!(plan.lines[3].period_volume, "");
    let marked: Vec<bool> = plan.lines.iter().map(|line| line.in_value_area).collect();
    assert_eq!(marked, vec![true, true, false, false]);
    assert_eq!(max_volumes(&plan.profile.rows), (2, 9));
}

#[test]
fn a_pane_without_a_session_shows_nothing() {
    let plan = prepare_profile(&RenderSnapshot::default(), 1, None, 4);
    assert!(plan.lines.is_empty() && plan.footer.is_none());
    assert_eq!(plan.markers, Markers::default());
}
