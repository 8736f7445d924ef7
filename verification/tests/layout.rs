use fft::dom_badges::{format_reload_count, iceberg_badge_visible, row_iceberg_sides};
use fft::dom_view::DomViewRow;
use fft::event::Price;
use fft::layout::{
    format_price, format_size, is_inside_market, price_to_row_from_top, visible_row_window,
    COL_LABELS,
};

#[test]
fn visible_window_centers_and_clamps() {
    assert_eq!(visible_row_window(0, Some(0), 10), (0, 0));
    assert_eq!(visible_row_window(5, Some(2), 3), (1, 4));
    assert_eq!(visible_row_window(5, Some(0), 3), (0, 3));
    assert_eq!(visible_row_window(5, Some(4), 3), (2, 5));
    assert_eq!(visible_row_window(5, None, 10), (0, 5));
}

#[test]
fn visible_window_edges() {
    assert_eq!(visible_row_window(5, Some(usize::MAX), 2), (3, 5));
    assert_eq!(visible_row_window(5, None, 2), (1, 3));
    assert_eq!(visible_row_window(5, Some(3), 0), (0, 0));
}

#[test]
fn inside_market_band() {
    assert!(is_inside_market(100, Some(100), Some(101)));
    assert!(is_inside_market(101, Some(100), Some(101)));
    assert!(!is_inside_market(99, Some(100), Some(101)));
    assert!(is_inside_market(100, Some(100), None));
    assert!(!is_inside_market(100, None, None));
}

#[test]
fn format_price_two_decimals() {
    assert_eq!(format_price(5_000_250_000_000), "5000.25");
    assert_eq!(format_price(0), "0.00");
}

#[test]
fn format_price_writes_what_a_float_would() {
    let mut price: i64 = 1;
    for i in 0..4_000u64 {
        for p in [price, -price, price % 1_000_000_000_000, (price % 100_000) * 5_000_000] {
            assert_eq!(format_price(p), format!("{:.2}", p as f64 / 1_000_000_000.0), "{p}");
        }
        price = (price as u64)
            .wrapping_mul(6_364_136_223_846_793_005)
            .wrapping_add(1_442_695_040_888_963_407 + i) as i64;
        price = price.checked_abs().unwrap_or(0);
    }
    for p in [
        i64::MAX,
        i64::MIN,
        i64::MIN + 1,
        1 << 53,
        (1 << 53) + 1,
        (1 << 53) - 1,
        (1 << 54) + 2,
        125_000_000,
        5_000_000,
        15_000_000,
        -5_000_000,
        -1,
        1,
        4_999_999,
        9_223_372_036_854_775_295,
    ] {
        assert_eq!(format_price(p), format!("{:.2}", p as f64 / 1_000_000_000.0), "{p}");
    }
}

#[test]
fn prices_map_to_rows_from_the_top() {
    assert_eq!(price_to_row_from_top(100, 104, 2), Some(2));
    assert_eq!(price_to_row_from_top(106, 104, 2), Some(-1));
    assert_eq!(price_to_row_from_top(101, 104, 2), None);
    assert_eq!(price_to_row_from_top(105, 104, 2), None);
    assert_eq!(price_to_row_from_top(100, 104, 0), None);
}

#[test]
fn sizes_are_quiet_at_zero() {
    assert_eq!(format_size(0), "");
    assert_eq!(format_size(u64::MAX), "18446744073709551615");
    assert_eq!(COL_LABELS, ["PRICE", "VOL", "BID", "cB", "cA", "ASK"]);
}

#[test]
fn badge_visible_only_when_count_positive() {
    assert!(!iceberg_badge_visible(0));
    assert!(iceberg_badge_visible(1));
    assert!(iceberg_badge_visible(u32::MAX));
}

#[test]
fn reload_count_format() {
    assert_eq!(format_reload_count(1), "×1");
    assert_eq!(format_reload_count(12), "×12");
}

#[test]
fn row_sides_mirror_engine_counts() {
    let mut row = DomViewRow::default();
    assert_eq!(row.price, Price(0));
    assert_eq!(row_iceberg_sides(&row), (false, false));
    row.refresh_bid_count = 2;
    assert_eq!(row_iceberg_sides(&row), (true, false));
    row.refresh_ask_count = 1;
    assert_eq!(row_iceberg_sides(&row), (true, true));
}
