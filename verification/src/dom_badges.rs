//! Badges for native refresh activity on the ladder.

use crate::dom_view::DomViewRow;
use crate::text::{decimal, push_decimal};
use vstd::prelude::*;

verus! {

/// The side of the ladder that a badge belongs to.
#[derive(Clone, Copy, Debug, PartialEq, Eq, Structural)]
pub enum IcebergSide {
    Bid,
    Ask,
}

/// Whether a side shows a badge: it has seen refresh activity.
pub fn iceberg_badge_visible(count: u32) -> (r: bool)
    ensures
        r == (count > 0),
{
    count > 0
}

/// The label beside a badge: a multiplication sign and the count.
pub fn format_reload_count(count: u32) -> (r: String)
    ensures
        r@ == seq!['\u{d7}'] + decimal(count as nat),
{
    let mut out: String = String::new();
    out.push('\u{d7}');
    push_decimal(&mut out, count as u64);
    assert(out@ =~= seq!['\u{d7}'] + decimal(count as nat));
    out
}

/// Whether the bid side and the ask side of a row show badges.
pub fn row_iceberg_sides(row: &DomViewRow) -> (r: (bool, bool))
    ensures
        r == (row.refresh_bid_count > 0, row.refresh_ask_count > 0),
{
    (iceberg_badge_visible(row.refresh_bid_count), iceberg_badge_visible(row.refresh_ask_count))
}

/// Each side has a badge exactly where it saw refreshes of its own, and the label beside it counts
/// them.
pub proof fn law_badges(
    row: &DomViewRow,
    sides: (bool, bool),
    count: u32,
    visible: bool,
    label: String,
)
    requires
        call_ensures(row_iceberg_sides, (row,), sides),
        call_ensures(iceberg_badge_visible, (count,), visible),
        call_ensures(format_reload_count, (count,), label),
    ensures
        sides.0 <==> row.refresh_bid_count != 0,
        sides.1 <==> row.refresh_ask_count != 0,
        visible <==> count != 0,
        label@.len() > 1,
        label@[0] == '\u{d7}',
        crate::text::digits_value(label@.skip(1), 10) == Some(count as nat),
{
    crate::text::law_numeral_round_trip(count as nat);
    assert(label@.skip(1) =~= decimal(count as nat));
}

} // verus!
