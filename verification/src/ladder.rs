//! What the ladder shows: the rows of its window from the top down, the cells of each, and the
//! largest amounts, which the bars are drawn against.

use crate::dom_badges::{format_reload_count, iceberg_badge_visible};
use crate::dom_view::{
    aggregates, renders_at, window, window_fits, windowed, AggregatedDom, DomView, DomViewRow,
};
use crate::layout::{format_price, format_size, is_inside_market, price_text, size_text};
use crate::render::DomRenderState;
use crate::text::{decimal, text_of};
use core::ops::Range;
use vstd::prelude::*;

verus! {

/// A text in a column of a row.
#[derive(Debug)]
pub struct Cell {
    pub column: usize,
    pub text: String,
    /// Whether the text stands at the right of its column, and not at the left.
    pub right: bool,
}

/// A cell, as a mathematical value: its column, its text, and whether it stands at the right.
pub type CellModel = (int, Seq<char>, bool);

/// The cells of a list.
pub open spec fn cells_of(cells: Seq<Cell>) -> Seq<CellModel> {
    Seq::new(cells.len(), |i: int| (cells[i].column as int, cells[i].text@, cells[i].right))
}

/// A cell, unless its text is empty.
pub open spec fn cell_if(column: int, text: Seq<char>, right: bool) -> Seq<CellModel> {
    if text.len() == 0 {
        Seq::empty()
    } else {
        seq![(column, text, right)]
    }
}

/// The cells of a row: price, volume, bid, the two flows and the ask. Amounts of zero stay
/// quiet.
pub open spec fn row_cells(row: DomViewRow) -> Seq<CellModel> {
    cell_if(0, price_text(row.price.0 as int), true) + cell_if(
        1,
        size_text(row.session_volume as nat),
        true,
    ) + cell_if(2, size_text(row.bid_size as nat), true) + cell_if(
        3,
        size_text(row.cb as nat),
        true,
    ) + cell_if(4, size_text(row.ca as nat), true) + cell_if(
        5,
        size_text(row.ask_size as nat),
        false,
    )
}

fn push_cell(cells: &mut Vec<Cell>, column: usize, text: String, right: bool)
    ensures
        cells_of(final(cells)@) == cells_of(old(cells)@) + cell_if(column as int, text@, right),
{
    let v: Vec<char> = crate::text::chars_of(text.as_str());
    if v.len() > 0 {
        cells.push(Cell { column, text, right });
    }
    assert(cells_of(cells@) =~= cells_of(old(cells)@) + cell_if(column as int, text@, right));
}

/// The cells of a row.
pub fn prepare_cells(row: &DomViewRow) -> (r: Vec<Cell>)
    ensures
        cells_of(r@) == row_cells(*row),
{
    let mut cells: Vec<Cell> = Vec::new();
    assert(cells_of(cells@) =~= Seq::<CellModel>::empty());
    push_cell(&mut cells, 0, format_price(row.price.0), true);
    assert(cells_of(cells@) =~= cell_if(0, price_text(row.price.0 as int), true));
    push_cell(&mut cells, 1, format_size(row.session_volume), true);
    push_cell(&mut cells, 2, format_size(row.bid_size), true);
    push_cell(&mut cells, 3, format_size(row.cb), true);
    push_cell(&mut cells, 4, format_size(row.ca), true);
    push_cell(&mut cells, 5, format_size(row.ask_size), false);
    cells
}

/// The label beside a side's badge, where there is one.
pub open spec fn reload_label(count: u32) -> Option<Seq<char>> {
    if count > 0 {
        Some(seq!['\u{d7}'] + decimal(count as nat))
    } else {
        None
    }
}

fn reload_text(count: u32) -> (r: Option<String>)
    ensures
        text_of(r) == reload_label(count),
{
    if iceberg_badge_visible(count) {
        Some(format_reload_count(count))
    } else {
        None
    }
}

/// A row of the ladder.
#[derive(Debug)]
pub struct LadderRow {
    pub row: DomViewRow,
    /// Whether the row lies in the inside market. A row that the depth does not hold never does.
    pub inside: bool,
    pub cells: Vec<Cell>,
    pub bid_reload: Option<String>,
    pub ask_reload: Option<String>,
}

/// Whether a price lies in the inside market of the depth.
pub open spec fn in_market(dom: AggregatedDom, price: i64) -> bool {
    match (dom.best_bid, dom.best_ask) {
        (Some(bid), Some(ask)) => bid.0 <= price <= ask.0,
        (Some(bid), None) => price == bid.0,
        (None, Some(ask)) => price == ask.0,
        (None, None) => false,
    }
}

/// Whether a row of the ladder shows a row of the depth.
pub open spec fn shows(r: LadderRow, dom: AggregatedDom, row: DomViewRow) -> bool {
    &&& r.row == row
    &&& r.inside == (row.source_present && in_market(dom, row.price.0))
    &&& cells_of(r.cells@) == row_cells(row)
    &&& text_of(r.bid_reload) == reload_label(row.refresh_bid_count)
    &&& text_of(r.ask_reload) == reload_label(row.refresh_ask_count)
}

/// The largest amounts among rows.
#[derive(Clone, Copy, Debug, PartialEq, Eq, Structural)]
pub struct SideSizes {
    pub bid: u64,
    pub ask: u64,
    pub volume: u64,
}

/// Whether `most` is the largest of an amount among the rows `from..to`, or zero without rows.
pub open spec fn is_largest(
    rows: Seq<DomViewRow>,
    from: int,
    to: int,
    amount: spec_fn(DomViewRow) -> u64,
    most: u64,
) -> bool {
    &&& forall|i: int| from <= i < to ==> amount(#[trigger] rows[i]) <= most
    &&& most > 0 ==> exists|i: int| from <= i < to && amount(#[trigger] rows[i]) == most
}

/// Whether these are the largest amounts among the rows `from..to`.
pub open spec fn are_largest(rows: Seq<DomViewRow>, from: int, to: int, sizes: SideSizes) -> bool {
    &&& is_largest(rows, from, to, |row: DomViewRow| row.bid_size, sizes.bid)
    &&& is_largest(rows, from, to, |row: DomViewRow| row.ask_size, sizes.ask)
    &&& is_largest(rows, from, to, |row: DomViewRow| row.session_volume, sizes.volume)
}

/// The largest amounts among the rows `from..to`.
pub fn max_side_sizes(rows: &Vec<DomViewRow>, from: usize, to: usize) -> (r: SideSizes)
    requires
        from <= to <= rows.len(),
    ensures
        are_largest(rows@, from as int, to as int, r),
{
    let mut r: SideSizes = SideSizes { bid: 0, ask: 0, volume: 0 };
    let mut i: usize = from;
    while i < to
        invariant
            from <= i <= to <= rows.len(),
            are_largest(rows@, from as int, i as int, r),
        decreases to - i,
    {
        let ghost before = r;
        let ghost bid = |row: DomViewRow| row.bid_size;
        let ghost ask = |row: DomViewRow| row.ask_size;
        let ghost volume = |row: DomViewRow| row.session_volume;
        let row: &DomViewRow = &rows[i];
        if row.bid_size > r.bid {
            r.bid = row.bid_size;
        }
        if row.ask_size > r.ask {
            r.ask = row.ask_size;
        }
        if row.session_volume > r.volume {
            r.volume = row.session_volume;
        }
        proof {
            lemma_largest(rows@, from as int, i as int, bid, before.bid, r.bid);
            lemma_largest(rows@, from as int, i as int, ask, before.ask, r.ask);
            lemma_largest(rows@, from as int, i as int, volume, before.volume, r.volume);
        }
        i += 1;
    }
    r
}

proof fn lemma_largest(
    rows: Seq<DomViewRow>,
    from: int,
    i: int,
    amount: spec_fn(DomViewRow) -> u64,
    before: u64,
    after: u64,
)
    requires
        from <= i < rows.len(),
        is_largest(rows, from, i, amount, before),
        after == (if amount(rows[i]) > before {
            amount(rows[i])
        } else {
            before
        }),
    ensures
        is_largest(rows, from, i + 1, amount, after),
{
    if after > 0 {
        if amount(rows[i]) > before {
            assert(amount(rows[i]) == after);
        } else {
            let j = choose|j: int| from <= j < i && amount(#[trigger] rows[j]) == before;
            assert(amount(rows[j]) == after);
        }
    }
}

/// What the ladder shows.
#[derive(Debug)]
pub struct LadderPlan {
    pub dom: AggregatedDom,
    /// The rows of the depth that the window shows.
    pub start: usize,
    pub end: usize,
    /// The same rows as the ladder shows them, the highest price first.
    pub rows: Vec<LadderRow>,
    pub sizes: SideSizes,
}

impl LadderPlan {
    /// Whether the plan shows the rows of its window from the top down.
    pub open spec fn lays_out(self) -> bool {
        &&& self.start <= self.end <= self.dom.rows.len()
        &&& self.rows.len() == self.end - self.start
        &&& forall|k: int|
            0 <= k < self.rows.len() ==> shows(
                #[trigger] self.rows@[k],
                self.dom,
                self.dom.rows@[self.end - 1 - k],
            )
        &&& are_largest(self.dom.rows@, self.start as int, self.end as int, self.sizes)
    }

    /// The row of the depth under the pointer, given how many rows from the top it is.
    pub fn hovered(&self, from_top: usize) -> (r: Option<usize>)
        requires
            self.lays_out(),
        ensures
            r == (if from_top < self.rows.len() {
                Some((self.end - 1 - from_top) as usize)
            } else {
                None
            }),
    {
        if from_top < self.rows.len() {
            Some(self.end - 1 - from_top)
        } else {
            None
        }
    }
}

fn lay_out_row(dom: &AggregatedDom, row: &DomViewRow) -> (r: LadderRow)
    ensures
        shows(r, *dom, *row),
{
    let best_bid: Option<i64> = match dom.best_bid {
        Some(price) => Some(price.0),
        None => None,
    };
    let best_ask: Option<i64> = match dom.best_ask {
        Some(price) => Some(price.0),
        None => None,
    };
    LadderRow {
        row: *row,
        inside: row.source_present && is_inside_market(row.price.0, best_bid, best_ask),
        cells: prepare_cells(row),
        bid_reload: reload_text(row.refresh_bid_count),
        ask_reload: reload_text(row.refresh_ask_count),
    }
}

/// Lays out the rows of a window from the top down.
pub fn lay_out(dom: AggregatedDom, start: usize, end: usize) -> (r: LadderPlan)
    requires
        start <= end <= dom.rows.len(),
    ensures
        r.lays_out(),
        r.dom == dom,
        r.start == start,
        r.end == end,
{
    let sizes: SideSizes = max_side_sizes(&dom.rows, start, end);
    let mut rows: Vec<LadderRow> = Vec::new();
    let mut i: usize = end;
    while i > start
        invariant
            start <= i <= end <= dom.rows.len(),
            rows.len() == end - i,
            forall|k: int|
                0 <= k < rows.len() ==> shows(#[trigger] rows@[k], dom, dom.rows@[end - 1 - k]),
        decreases i,
    {
        i -= 1;
        rows.push(lay_out_row(&dom, &dom.rows[i]));
    }
    LadderPlan { dom, start, end, rows, sizes }
}

/// What the ladder shows of the engine's depth in a viewport of at most `max_rows` rows.
pub fn prepare(view: &DomView, depth: &DomRenderState, max_rows: usize) -> (r: LadderPlan)
    requires
        renders_at(*depth, view.tick_scale),
        window_fits(*view, *depth, max_rows),
    ensures
        r.lays_out(),
        exists|all: AggregatedDom| #[trigger]
            aggregates(all, *depth, view.tick_scale) && windowed(r.dom, all, *view, max_rows),
        (r.start as int, r.end as int) == window(*view, r.dom, max_rows),
{
    let dom: AggregatedDom = view.aggregate_window(depth, max_rows);
    let range: Range<usize> = view.window_range(&dom, max_rows);
    lay_out(dom, range.start, range.end)
}

/// Prices fall from row to row of the ladder, and no row shows a price twice.
pub proof fn law_highest_first(plan: LadderPlan, i: int, j: int)
    requires
        plan.lays_out(),
        plan.dom.searchable(),
        0 <= i < j < plan.rows.len(),
    ensures
        plan.rows@[i].row.price.0 > plan.rows@[j].row.price.0,
{
    assert(shows(plan.rows@[i], plan.dom, plan.dom.rows@[plan.end - 1 - i]));
    assert(shows(plan.rows@[j], plan.dom, plan.dom.rows@[plan.end - 1 - j]));
}

proof fn lemma_cells(
    p: Seq<CellModel>,
    v: Seq<CellModel>,
    b: Seq<CellModel>,
    cb: Seq<CellModel>,
    ca: Seq<CellModel>,
    a: Seq<CellModel>,
    i: int,
)
    requires
        p.len() <= 1 && v.len() <= 1 && b.len() <= 1 && cb.len() <= 1 && ca.len() <= 1 && a.len()
            <= 1,
        0 <= i < (p + v + b + cb + ca + a).len(),
    ensures
        ({
            let cell = (p + v + b + cb + ca + a)[i];
            p.contains(cell) || v.contains(cell) || b.contains(cell) || cb.contains(cell)
                || ca.contains(cell) || a.contains(cell)
        }),
{
    let n1 = p.len() as int;
    let n2 = n1 + v.len();
    let n3 = n2 + b.len();
    let n4 = n3 + cb.len();
    let n5 = n4 + ca.len();
    let cell = (p + v + b + cb + ca + a)[i];
    if i < n1 {
        assert(p[i] == cell);
    } else if i < n2 {
        assert(v[i - n1] == cell);
    } else if i < n3 {
        assert(b[i - n2] == cell);
    } else if i < n4 {
        assert(cb[i - n3] == cell);
    } else if i < n5 {
        assert(ca[i - n4] == cell);
    } else {
        assert(a[i - n5] == cell);
    }
}

/// Each cell of a row stands in the column of its own amount and spells it: the price, the session's
/// volume, the bid, the two flows and the ask, which alone stands at the left.
pub proof fn law_cells_spell_their_amounts(row: &DomViewRow, r: Vec<Cell>, i: int)
    requires
        call_ensures(prepare_cells, (row,), r),
        0 <= i < r.len(),
    ensures
        ({
            let cell = r@[i];
            &&& cell.column < 6
            &&& cell.right <==> cell.column != 5
            &&& cell.column == 0 ==> cell.text@ == price_text(row.price.0 as int)
            &&& cell.column == 1 ==> row.session_volume > 0 && cell.text@ == decimal(
                row.session_volume as nat,
            )
            &&& cell.column == 2 ==> row.bid_size > 0 && cell.text@ == decimal(row.bid_size as nat)
            &&& cell.column == 3 ==> row.cb > 0 && cell.text@ == decimal(row.cb as nat)
            &&& cell.column == 4 ==> row.ca > 0 && cell.text@ == decimal(row.ca as nat)
            &&& cell.column == 5 ==> row.ask_size > 0 && cell.text@ == decimal(row.ask_size as nat)
        }),
{
    let p = cell_if(0, price_text(row.price.0 as int), true);
    let v = cell_if(1, size_text(row.session_volume as nat), true);
    let b = cell_if(2, size_text(row.bid_size as nat), true);
    let cb = cell_if(3, size_text(row.cb as nat), true);
    let ca = cell_if(4, size_text(row.ca as nat), true);
    let a = cell_if(5, size_text(row.ask_size as nat), false);
    assert(cells_of(r@) == p + v + b + cb + ca + a);
    lemma_cells(p, v, b, cb, ca, a, i);
    assert(cells_of(r@)[i] == (r@[i].column as int, r@[i].text@, r@[i].right));
}

/// A row has one cell for its price and one for each amount that is not zero, from left to right.
pub proof fn law_cells_in_order(row: &DomViewRow, r: Vec<Cell>)
    requires
        call_ensures(prepare_cells, (row,), r),
    ensures
        r.len() == 1 + (if row.session_volume > 0 {
            1int
        } else {
            0
        }) + (if row.bid_size > 0 {
            1int
        } else {
            0
        }) + (if row.cb > 0 {
            1int
        } else {
            0
        }) + (if row.ca > 0 {
            1int
        } else {
            0
        }) + (if row.ask_size > 0 {
            1int
        } else {
            0
        }),
        r@[0].column == 0,
        forall|i: int| 0 <= i < r.len() - 1 ==> (#[trigger] r@[i]).column < r@[i + 1].column,
{
    crate::text::law_numeral_round_trip(row.session_volume as nat);
    crate::text::law_numeral_round_trip(row.bid_size as nat);
    crate::text::law_numeral_round_trip(row.cb as nat);
    crate::text::law_numeral_round_trip(row.ca as nat);
    crate::text::law_numeral_round_trip(row.ask_size as nat);
    crate::layout::lemma_price_text_shown(row.price.0 as int);
    let p = cell_if(0, price_text(row.price.0 as int), true);
    let v = cell_if(1, size_text(row.session_volume as nat), true);
    let b = cell_if(2, size_text(row.bid_size as nat), true);
    let cb = cell_if(3, size_text(row.cb as nat), true);
    let ca = cell_if(4, size_text(row.ca as nat), true);
    let a = cell_if(5, size_text(row.ask_size as nat), false);
    let cells = p + v + b + cb + ca + a;
    assert(cells_of(r@) == cells);
    assert(r.len() == cells.len());
    assert(p.len() == 1);
    let n2 = 1 + v.len() as int;
    let n3 = n2 + b.len();
    let n4 = n3 + cb.len();
    let n5 = n4 + ca.len();
    assert forall|i: int| 0 <= i < r.len() implies (#[trigger] r@[i]).column == (if i < 1 {
        0int
    } else if i < n2 {
        1
    } else if i < n3 {
        2
    } else if i < n4 {
        3
    } else if i < n5 {
        4
    } else {
        5
    }) by {
        assert(cells_of(r@)[i].0 == r@[i].column);
        if i < 1 {
            assert(cells[i] == p[i]);
        } else if i < n2 {
            assert(cells[i] == v[i - 1]);
        } else if i < n3 {
            assert(cells[i] == b[i - n2]);
        } else if i < n4 {
            assert(cells[i] == cb[i - n3]);
        } else if i < n5 {
            assert(cells[i] == ca[i - n4]);
        } else {
            assert(cells[i] == a[i - n5]);
        }
    }
}

/// A window is laid out from the top down: each row shows its own row of the depth, is inside where
/// the depth holds it and its price lies from the best bid to the best ask, and has the badge of each
/// side that saw refreshes. The bars are drawn against the largest amounts of the window.
pub proof fn law_laid_out(dom: AggregatedDom, start: usize, end: usize, r: LadderPlan, k: int)
    requires
        start <= end <= dom.rows.len(),
        call_ensures(lay_out, (dom, start, end), r),
        0 <= k < end - start,
    ensures
        r.rows.len() == end - start,
        ({
            let shown = r.rows@[k];
            let row = dom.rows@[end - 1 - k];
            &&& shown.row == row
            &&& dom.best_bid is Some && dom.best_ask is Some ==> (shown.inside
                <==> row.source_present && (dom.best_bid->0).0 <= row.price.0
                && row.price.0 <= (dom.best_ask->0).0)
            &&& dom.best_bid is Some && dom.best_ask is None ==> (shown.inside
                <==> row.source_present && row.price == dom.best_bid->0)
            &&& dom.best_bid is None && dom.best_ask is Some ==> (shown.inside
                <==> row.source_present && row.price == dom.best_ask->0)
            &&& dom.best_bid is None && dom.best_ask is None ==> !shown.inside
            &&& shown.bid_reload is Some <==> row.refresh_bid_count > 0
            &&& shown.ask_reload is Some <==> row.refresh_ask_count > 0
            &&& shown.bid_reload is Some ==> shown.bid_reload->0@ == seq!['\u{d7}'] + decimal(
                row.refresh_bid_count as nat,
            )
            &&& shown.ask_reload is Some ==> shown.ask_reload->0@ == seq!['\u{d7}'] + decimal(
                row.refresh_ask_count as nat,
            )
            &&& row.bid_size <= r.sizes.bid
            &&& row.ask_size <= r.sizes.ask
            &&& row.session_volume <= r.sizes.volume
        }),
{
    assert(shows(r.rows@[k], dom, dom.rows@[end - 1 - k]));
    let bid = |row: DomViewRow| row.bid_size;
    let ask = |row: DomViewRow| row.ask_size;
    let volume = |row: DomViewRow| row.session_volume;
    let row = dom.rows@[end - 1 - k];
    assert(is_largest(dom.rows@, start as int, end as int, bid, r.sizes.bid));
    assert(is_largest(dom.rows@, start as int, end as int, ask, r.sizes.ask));
    assert(is_largest(dom.rows@, start as int, end as int, volume, r.sizes.volume));
    assert(bid(row) <= r.sizes.bid && ask(row) <= r.sizes.ask && volume(row) <= r.sizes.volume);
}

/// The largest amounts of a window are amounts of its rows, each of its own kind, or zero.
pub proof fn law_largest_amounts(rows: &Vec<DomViewRow>, from: usize, to: usize, r: SideSizes)
    requires
        from <= to <= rows.len(),
        call_ensures(max_side_sizes, (rows, from, to), r),
    ensures
        forall|i: int|
            from <= i < to ==> (#[trigger] rows@[i]).bid_size <= r.bid && rows@[i].ask_size
                <= r.ask && rows@[i].session_volume <= r.volume,
        r.bid > 0 ==> exists|i: int| from <= i < to && (#[trigger] rows@[i]).bid_size == r.bid,
        r.ask > 0 ==> exists|i: int| from <= i < to && (#[trigger] rows@[i]).ask_size == r.ask,
        r.volume > 0 ==> exists|i: int|
            from <= i < to && (#[trigger] rows@[i]).session_volume == r.volume,
{
    let bid = |row: DomViewRow| row.bid_size;
    let ask = |row: DomViewRow| row.ask_size;
    let volume = |row: DomViewRow| row.session_volume;
    assert(is_largest(rows@, from as int, to as int, bid, r.bid));
    assert(is_largest(rows@, from as int, to as int, ask, r.ask));
    assert(is_largest(rows@, from as int, to as int, volume, r.volume));
    if r.bid > 0 {
        let i = choose|i: int| from <= i < to && bid(#[trigger] rows@[i]) == r.bid;
        assert(rows@[i].bid_size == r.bid);
    }
    if r.ask > 0 {
        let i = choose|i: int| from <= i < to && ask(#[trigger] rows@[i]) == r.ask;
        assert(rows@[i].ask_size == r.ask);
    }
    if r.volume > 0 {
        let i = choose|i: int| from <= i < to && volume(#[trigger] rows@[i]) == r.volume;
        assert(rows@[i].session_volume == r.volume);
    }
    assert forall|i: int| from <= i < to implies (#[trigger] rows@[i]).bid_size <= r.bid
        && rows@[i].ask_size <= r.ask && rows@[i].session_volume <= r.volume by {
        assert(bid(rows@[i]) <= r.bid && ask(rows@[i]) <= r.ask && volume(rows@[i]) <= r.volume);
    }
}

/// The row under the pointer is the one that the ladder shows there.
pub proof fn law_hovered_row(plan: &LadderPlan, from_top: usize, r: Option<usize>)
    requires
        plan.lays_out(),
        call_ensures(LadderPlan::hovered, (plan, from_top), r),
    ensures
        r is Some <==> from_top < plan.rows.len(),
        r is Some ==> plan.start <= r->0 < plan.end && plan.rows@[from_top as int].row
            == plan.dom.rows@[r->0 as int],
{
    if from_top < plan.rows.len() {
        assert(shows(
            plan.rows@[from_top as int],
            plan.dom,
            plan.dom.rows@[plan.end - 1 - from_top],
        ));
    }
}

} // verus!
