//! What the profile pane shows: the letters of each row, the value area, the markers with the
//! rows they fall on, and the largest volumes, which the bars are drawn against.

use crate::dom_view::{bucket, bucket_fits, bucket_price, valid_scale};
use crate::event::Price;
use crate::layout::{format_price, format_size, price_text, size_text};
use crate::mp_view::{
    display_session, displayed, footer_text, for_each_tpo, gathers, letter, period_letter, periods,
    session_open_footer, shows, tpo_at, tpos, traded, viewport_fits, visible_rows, MpRow, TpoKind,
    VisibleProfile, ETH_PERIOD_COUNT,
};
use crate::render::{ProfilePriceRow, ProfileSessionRender, RenderSnapshot};
use vstd::prelude::*;

verus! {

/// The letters of a row. The collapsed ones stand side by side, the expanded ones each in the
/// column of its period; letters of regular hours and others are kept apart, with blanks where
/// the other kind stands.
#[derive(Debug)]
pub struct TpoRuns {
    pub cp_eth: String,
    pub cp_rth: String,
    pub ep_eth: String,
    pub ep_rth: String,
}

/// Whether the periods of a row are periods of a session.
pub open spec fn periods_fit(eth: u64, rth: u64) -> bool {
    eth < 0x4000_0000_0000 && rth < 0x2000
}

/// The letters of one kind side by side, with blanks for the other kind.
pub open spec fn collapsed(shown: Seq<(usize, char, TpoKind)>, kind: TpoKind) -> Seq<char> {
    Seq::new(
        shown.len(),
        |i: int| if shown[i].2 == kind {
            shown[i].1
        } else {
            ' '
        },
    )
}

/// What the column of a period shows of one kind.
pub open spec fn column_char(eth: u64, rth: u64, column: int, kind: TpoKind) -> char {
    match tpo_at(eth, rth, column) {
        Some(tpo) => if tpo.2 == kind {
            tpo.1
        } else {
            ' '
        },
        None => ' ',
    }
}

/// The letters of one kind, each in the column of its period: the first `n` columns.
pub open spec fn expanded(eth: u64, rth: u64, n: nat, kind: TpoKind) -> Seq<char> {
    Seq::new(n, |column: int| column_char(eth, rth, column, kind))
}

/// The collapsed and the expanded letters are the same letters in the same order: the expanded
/// ones, without the columns that are not occupied, are the collapsed ones.
pub open spec fn occupied(eth: u64, rth: u64, n: int, kind: TpoKind) -> Seq<char>
    decreases n,
{
    if n <= 0 {
        Seq::empty()
    } else if tpo_at(eth, rth, n - 1) is Some {
        occupied(eth, rth, n - 1, kind).push(column_char(eth, rth, n - 1, kind))
    } else {
        occupied(eth, rth, n - 1, kind)
    }
}

/// The collapsed letters are the expanded ones without the columns of periods that were not
/// traded.
pub proof fn law_collapsed(eth: u64, rth: u64, n: int, kind: TpoKind)
    ensures
        collapsed(tpos(eth, rth, n), kind) == occupied(eth, rth, n, kind),
    decreases n,
{
    if n > 0 {
        law_collapsed(eth, rth, n - 1, kind);
        if tpo_at(eth, rth, n - 1) is Some {
            let tpo = tpo_at(eth, rth, n - 1)->0;
            assert(collapsed(tpos(eth, rth, n - 1).push(tpo), kind) =~= collapsed(
                tpos(eth, rth, n - 1),
                kind,
            ).push(column_char(eth, rth, n - 1, kind)));
        }
    }
    assert(collapsed(tpos(eth, rth, n), kind) =~= occupied(eth, rth, n, kind));
}

/// The letters of a row.
pub fn prepare_tpos(eth: u64, rth: u64) -> (r: TpoRuns)
    requires
        periods_fit(eth, rth),
    ensures
        r.cp_eth@ == collapsed(tpos(eth, rth, ETH_PERIOD_COUNT as int), TpoKind::Eth),
        r.cp_rth@ == collapsed(tpos(eth, rth, ETH_PERIOD_COUNT as int), TpoKind::Rth),
        r.ep_eth@ == expanded(eth, rth, ETH_PERIOD_COUNT as nat, TpoKind::Eth),
        r.ep_rth@ == expanded(eth, rth, ETH_PERIOD_COUNT as nat, TpoKind::Rth),
{
    let shown: Vec<(usize, char, TpoKind)> = for_each_tpo(eth, rth);
    let mut r: TpoRuns = TpoRuns {
        cp_eth: String::new(),
        cp_rth: String::new(),
        ep_eth: String::new(),
        ep_rth: String::new(),
    };
    let mut column: usize = 0;
    let mut at: usize = 0;
    assert(r.cp_eth@ =~= collapsed(shown@.take(0), TpoKind::Eth));
    assert(r.cp_rth@ =~= collapsed(shown@.take(0), TpoKind::Rth));
    assert(tpos(eth, rth, 0).len() == 0);
    assert(r.ep_eth@ =~= expanded(eth, rth, 0, TpoKind::Eth));
    assert(r.ep_rth@ =~= expanded(eth, rth, 0, TpoKind::Rth));
    proof {
        lemma_tpos_prefix(eth, rth, 0, ETH_PERIOD_COUNT as int);
    }
    while column < ETH_PERIOD_COUNT
        invariant
            column <= ETH_PERIOD_COUNT,
            at <= shown.len(),
            shown@ == tpos(eth, rth, ETH_PERIOD_COUNT as int),
            at == tpos(eth, rth, column as int).len(),
            shown@.take(at as int) == tpos(eth, rth, column as int),
            r.cp_eth@ == collapsed(shown@.take(at as int), TpoKind::Eth),
            r.cp_rth@ == collapsed(shown@.take(at as int), TpoKind::Rth),
            r.ep_eth@ == expanded(eth, rth, column as nat, TpoKind::Eth),
            r.ep_rth@ == expanded(eth, rth, column as nat, TpoKind::Rth),
        decreases ETH_PERIOD_COUNT - column,
    {
        proof {
            lemma_tpos_prefix(eth, rth, column + 1, ETH_PERIOD_COUNT as int);
            lemma_next_tpo(eth, rth, column as int, ETH_PERIOD_COUNT as int);
        }
        let ghost taken = shown@.take(at as int);
        let mut eth_char: char = ' ';
        let mut rth_char: char = ' ';
        if at < shown.len() && shown[at].0 == column {
            let (_, letter, kind) = shown[at];
            match kind {
                TpoKind::Eth => {
                    eth_char = letter;
                },
                TpoKind::Rth => {
                    rth_char = letter;
                },
            }
            r.cp_eth.push(eth_char);
            r.cp_rth.push(rth_char);
            at += 1;
            assert(shown@.take(at as int) =~= taken.push(shown@[at - 1]));
            assert(r.cp_eth@ =~= collapsed(shown@.take(at as int), TpoKind::Eth));
            assert(r.cp_rth@ =~= collapsed(shown@.take(at as int), TpoKind::Rth));
        }
        r.ep_eth.push(eth_char);
        r.ep_rth.push(rth_char);
        column += 1;
        assert(r.ep_eth@ =~= expanded(eth, rth, column as nat, TpoKind::Eth));
        assert(r.ep_rth@ =~= expanded(eth, rth, column as nat, TpoKind::Rth));
    }
    assert(shown@.take(at as int) =~= shown@);
    r
}

/// What is shown before a column is the beginning of what is shown at all.
proof fn lemma_tpos_prefix(eth: u64, rth: u64, column: int, end: int)
    requires
        0 <= column <= end,
    ensures
        tpos(eth, rth, column).len() <= tpos(eth, rth, end).len(),
        tpos(eth, rth, end).take(tpos(eth, rth, column).len() as int) == tpos(eth, rth, column),
    decreases end,
{
    let part = tpos(eth, rth, column);
    if column == end {
        assert(part.take(part.len() as int) =~= part);
    } else {
        lemma_tpos_prefix(eth, rth, column, end - 1);
        assert(tpos(eth, rth, end).take(part.len() as int) =~= tpos(eth, rth, end - 1).take(
            part.len() as int,
        ));
    }
}

/// What comes next among what is shown is what the column shows, or something to its right.
proof fn lemma_next_tpo(eth: u64, rth: u64, column: int, end: int)
    requires
        0 <= column < end <= ETH_PERIOD_COUNT,
    ensures
        ({
            let all = tpos(eth, rth, end);
            let at = tpos(eth, rth, column).len() as int;
            match tpo_at(eth, rth, column) {
                Some(tpo) => at < all.len() && all[at] == tpo && tpo.0 == column && tpos(
                    eth,
                    rth,
                    column + 1,
                ).len() == at + 1,
                None => (at < all.len() ==> all[at].0 > column) && tpos(
                    eth,
                    rth,
                    column + 1,
                ).len() == at,
            }
        }),
    decreases end,
{
    let at = tpos(eth, rth, column).len() as int;
    if end == column + 1 {
    } else {
        lemma_next_tpo(eth, rth, column, end - 1);
        lemma_tpos_prefix(eth, rth, column + 1, end - 1);
        let all = tpos(eth, rth, end);
        let less = tpos(eth, rth, end - 1);
        if at < less.len() {
            assert(all[at] == less[at]);
        }
    }
}

/// The prices that lines are drawn at, and the period that is under way.
#[derive(Clone, Copy, Debug, PartialEq, Eq, Structural)]
pub struct Markers {
    pub open: Option<Price>,
    pub vpoc: Option<Price>,
    pub vah: Option<Price>,
    pub val: Option<Price>,
    pub ib_low: Option<Price>,
    pub ib_high: Option<Price>,
    pub current_price: Option<Price>,
    pub current_period: u32,
    pub period_gap: bool,
}

/// No markers.
pub open spec fn no_markers() -> Markers {
    Markers {
        open: None,
        vpoc: None,
        vah: None,
        val: None,
        ib_low: None,
        ib_high: None,
        current_price: None,
        current_period: 0,
        period_gap: false,
    }
}

impl Default for Markers {
    fn default() -> (r: Markers)
        ensures
            r == no_markers(),
    {
        Markers {
            open: None,
            vpoc: None,
            vah: None,
            val: None,
            ib_low: None,
            ib_high: None,
            current_price: None,
            current_period: 0,
            period_gap: false,
        }
    }
}

/// The markers of the session on display.
pub fn session_markers(session: &ProfileSessionRender, current_price: Option<Price>) -> (r: Markers)
    ensures
        r == markers_of(*session, current_price),
{
    Markers {
        open: session.open,
        vpoc: session.vpoc,
        vah: session.vah,
        val: session.val,
        ib_low: session.ib_low,
        ib_high: session.ib_high,
        current_price,
        current_period: session.current_period,
        period_gap: session.period_gap,
    }
}

/// The markers of the session on display.
pub open spec fn markers_of(session: ProfileSessionRender, current_price: Option<Price>) -> Markers {
    Markers {
        open: session.open,
        vpoc: session.vpoc,
        vah: session.vah,
        val: session.val,
        ib_low: session.ib_low,
        ib_high: session.ib_high,
        current_price,
        current_period: session.current_period,
        period_gap: session.period_gap,
    }
}

/// The markers of an earlier session: its opening and its value area.
pub fn prior_markers(session: &ProfileSessionRender) -> (r: Markers)
    ensures
        r == (Markers {
            open: session.open,
            vpoc: session.vpoc,
            vah: session.vah,
            val: session.val,
            ..no_markers()
        }),
{
    Markers {
        open: session.open,
        vpoc: session.vpoc,
        vah: session.vah,
        val: session.val,
        ib_low: None,
        ib_high: None,
        current_price: None,
        current_period: 0,
        period_gap: false,
    }
}

/// Whether a row's bucket reaches into the value area.
pub open spec fn in_value_area(row: MpRow, tick: Price, markers: Markers) -> bool {
    match (markers.val, markers.vah) {
        (Some(low), Some(high)) => row.price.0 + tick.0 - 1 >= low.0 && row.price.0 <= high.0,
        _ => false,
    }
}

fn row_in_value_area(row: &MpRow, tick: Price, markers: &Markers) -> (r: bool)
    ensures
        r == in_value_area(*row, tick, *markers),
{
    match (markers.val, markers.vah) {
        (Some(low), Some(high)) => row.price.0 as i128 + tick.0 as i128 - 1 >= low.0 as i128
            && row.price.0 <= high.0,
        _ => false,
    }
}

/// A row of the pane.
#[derive(Debug)]
pub struct ProfileLine {
    pub row: MpRow,
    pub runs: TpoRuns,
    pub period_volume: String,
    pub session_volume: String,
    pub price: String,
    pub in_value_area: bool,
}

/// Whether a row of the pane shows a row of the profile.
pub open spec fn line_shows(r: ProfileLine, row: MpRow, tick: Price, markers: Markers) -> bool {
    &&& r.row == row
    &&& r.runs.cp_eth@ == collapsed(
        tpos(row.eth_periods, row.rth_periods, ETH_PERIOD_COUNT as int),
        TpoKind::Eth,
    )
    &&& r.runs.cp_rth@ == collapsed(
        tpos(row.eth_periods, row.rth_periods, ETH_PERIOD_COUNT as int),
        TpoKind::Rth,
    )
    &&& r.runs.ep_eth@ == expanded(
        row.eth_periods,
        row.rth_periods,
        ETH_PERIOD_COUNT as nat,
        TpoKind::Eth,
    )
    &&& r.runs.ep_rth@ == expanded(
        row.eth_periods,
        row.rth_periods,
        ETH_PERIOD_COUNT as nat,
        TpoKind::Rth,
    )
    &&& r.period_volume@ == size_text(row.period_volume as nat)
    &&& r.session_volume@ == size_text(row.session_volume as nat)
    &&& r.price@ == price_text(row.price.0 as int)
    &&& r.in_value_area == in_value_area(row, tick, markers)
}

/// Prepares one row of the pane.
pub fn prepare_line(row: &MpRow, tick: Price, markers: &Markers) -> (r: ProfileLine)
    requires
        periods_fit(row.eth_periods, row.rth_periods),
    ensures
        line_shows(r, *row, tick, *markers),
{
    ProfileLine {
        row: *row,
        runs: prepare_tpos(row.eth_periods, row.rth_periods),
        period_volume: format_size(row.period_volume),
        session_volume: format_size(row.session_volume),
        price: format_price(row.price.0),
        in_value_area: row_in_value_area(row, tick, markers),
    }
}

/// The row from the top that a price's bucket takes, where the rows reach up to `top`.
pub open spec fn marker_row(price: Price, top: Price, tick: Price) -> Option<int> {
    let delta = top.0 - bucket(price, tick);
    if delta < 0 || delta > i64::MAX || delta % (tick.0 as int) != 0 {
        None
    } else {
        Some(delta / tick.0 as int)
    }
}

/// The row from the top that a price's bucket takes.
pub fn price_row(price: Price, top: Price, tick: Price) -> (r: Option<i64>)
    requires
        tick.0 > 0,
        bucket_fits(price, tick),
    ensures
        match (r, marker_row(price, top, tick)) {
            (Some(row), Some(want)) => row == want,
            (None, None) => true,
            _ => false,
        },
{
    let at: Price = bucket_price(price, tick);
    match top.0.checked_sub(at.0) {
        None => None,
        Some(delta) => {
            if delta < 0 || delta % tick.0 != 0 {
                None
            } else {
                Some(delta / tick.0)
            }
        },
    }
}

/// What a line across the pane stands for.
#[derive(Clone, Copy, Debug, PartialEq, Eq, Structural)]
pub enum LineKind {
    Open,
    InitialBalance,
    ValueArea,
    Vpoc,
    CurrentPrice,
}

/// How far a line reaches: over the current session, or over the whole pane.
#[derive(Clone, Copy, Debug, PartialEq, Eq, Structural)]
pub enum LineSpan {
    CurrentSession,
    FullPane,
}

/// A line across the pane, at the middle of a row.
#[derive(Clone, Copy, Debug, PartialEq, Eq, Structural)]
pub struct SemanticLine {
    pub kind: LineKind,
    /// Rows from the top.
    pub row: i64,
    pub span: LineSpan,
}

/// The line at a price, unless there is none or it lies above the rows.
pub open spec fn line_at(
    kind: LineKind,
    price: Option<Price>,
    top: Price,
    tick: Price,
    span: LineSpan,
) -> Seq<SemanticLine> {
    match price {
        None => Seq::empty(),
        Some(price) => match marker_row(price, top, tick) {
            None => Seq::empty(),
            Some(row) => seq![SemanticLine { kind, row: row as i64, span }],
        },
    }
}

/// The lines across the pane in the order in which they are drawn, so that the more important
/// one stays on top: the opening, the initial balance, the value area, its point of control, and
/// the current price, which alone reaches over the whole pane.
pub open spec fn lines_of(markers: Markers, top: Price, tick: Price) -> Seq<SemanticLine> {
    let here = LineSpan::CurrentSession;
    line_at(LineKind::Open, markers.open, top, tick, here) + line_at(
        LineKind::InitialBalance,
        markers.ib_high,
        top,
        tick,
        here,
    ) + line_at(LineKind::InitialBalance, markers.ib_low, top, tick, here) + line_at(
        LineKind::ValueArea,
        markers.vah,
        top,
        tick,
        here,
    ) + line_at(LineKind::ValueArea, markers.val, top, tick, here) + line_at(
        LineKind::Vpoc,
        markers.vpoc,
        top,
        tick,
        here,
    ) + line_at(
        LineKind::CurrentPrice,
        markers.current_price,
        top,
        tick,
        LineSpan::FullPane,
    )
}

/// Whether every marker has a bucket.
pub open spec fn markers_fit(markers: Markers, tick: Price) -> bool {
    &&& markers.open is Some ==> bucket_fits(markers.open->0, tick)
    &&& markers.ib_high is Some ==> bucket_fits(markers.ib_high->0, tick)
    &&& markers.ib_low is Some ==> bucket_fits(markers.ib_low->0, tick)
    &&& markers.vah is Some ==> bucket_fits(markers.vah->0, tick)
    &&& markers.val is Some ==> bucket_fits(markers.val->0, tick)
    &&& markers.vpoc is Some ==> bucket_fits(markers.vpoc->0, tick)
    &&& markers.current_price is Some ==> bucket_fits(markers.current_price->0, tick)
}

fn push_line(
    lines: &mut Vec<SemanticLine>,
    kind: LineKind,
    price: Option<Price>,
    top: Price,
    tick: Price,
    span: LineSpan,
)
    requires
        tick.0 > 0,
        price is Some ==> bucket_fits(price->0, tick),
    ensures
        final(lines)@ == old(lines)@ + line_at(kind, price, top, tick, span),
{
    if let Some(price) = price {
        if let Some(row) = price_row(price, top, tick) {
            lines.push(SemanticLine { kind, row, span });
        }
    }
    assert(lines@ =~= old(lines)@ + line_at(kind, price, top, tick, span));
}

/// The lines across the pane, in the order in which they are drawn.
pub fn semantic_lines(markers: &Markers, top: Price, tick: Price) -> (r: Vec<SemanticLine>)
    requires
        tick.0 > 0,
        markers_fit(*markers, tick),
    ensures
        r@ == lines_of(*markers, top, tick),
{
    let here: LineSpan = LineSpan::CurrentSession;
    let mut lines: Vec<SemanticLine> = Vec::new();
    push_line(&mut lines, LineKind::Open, markers.open, top, tick, here);
    assert(lines@ =~= line_at(LineKind::Open, markers.open, top, tick, here));
    push_line(&mut lines, LineKind::InitialBalance, markers.ib_high, top, tick, here);
    push_line(&mut lines, LineKind::InitialBalance, markers.ib_low, top, tick, here);
    push_line(&mut lines, LineKind::ValueArea, markers.vah, top, tick, here);
    push_line(&mut lines, LineKind::ValueArea, markers.val, top, tick, here);
    push_line(&mut lines, LineKind::Vpoc, markers.vpoc, top, tick, here);
    push_line(
        &mut lines,
        LineKind::CurrentPrice,
        markers.current_price,
        top,
        tick,
        LineSpan::FullPane,
    );
    lines
}

/// The lines across an earlier session: its value area, and its point of control on top.
pub open spec fn prior_lines_of(markers: Markers, top: Price, tick: Price) -> Seq<SemanticLine> {
    let here = LineSpan::CurrentSession;
    line_at(LineKind::ValueArea, markers.vah, top, tick, here) + line_at(
        LineKind::ValueArea,
        markers.val,
        top,
        tick,
        here,
    ) + line_at(LineKind::Vpoc, markers.vpoc, top, tick, here)
}

/// The lines across an earlier session.
pub fn prior_lines(markers: &Markers, top: Price, tick: Price) -> (r: Vec<SemanticLine>)
    requires
        tick.0 > 0,
        markers_fit(*markers, tick),
    ensures
        r@ == prior_lines_of(*markers, top, tick),
{
    let here: LineSpan = LineSpan::CurrentSession;
    let mut lines: Vec<SemanticLine> = Vec::new();
    push_line(&mut lines, LineKind::ValueArea, markers.vah, top, tick, here);
    assert(lines@ =~= line_at(LineKind::ValueArea, markers.vah, top, tick, here));
    push_line(&mut lines, LineKind::ValueArea, markers.val, top, tick, here);
    push_line(&mut lines, LineKind::Vpoc, markers.vpoc, top, tick, here);
    lines
}

/// A line stands on the row whose bucket holds its price, where the rows fall by one tick each
/// from `top`.
pub proof fn law_line_row(price: Price, top: Price, tick: Price)
    requires
        tick.0 > 0,
        marker_row(price, top, tick) is Some,
    ensures
        top.0 - marker_row(price, top, tick)->0 * tick.0 == bucket(price, tick),
        bucket(price, tick) <= price.0 < bucket(price, tick) + tick.0,
{
    let t = tick.0 as int;
    let delta = top.0 - bucket(price, tick);
    vstd::arithmetic::div_mod::lemma_fundamental_div_mod(delta, t);
    assert(t * (delta / t) == (delta / t) * t) by (nonlinear_arith);
    vstd::arithmetic::div_mod::lemma_fundamental_div_mod(price.0 as int, t);
    assert(t * (price.0 as int / t) == (price.0 as int / t) * t) by (nonlinear_arith);
    vstd::arithmetic::div_mod::lemma_mod_bound(price.0 as int, t);
}

/// The column of the period under way, if the session has one.
pub fn period_column(markers: &Markers) -> (r: Option<usize>)
    ensures
        r == (if markers.current_period < ETH_PERIOD_COUNT {
            Some(markers.current_period as usize)
        } else {
            None
        }),
{
    if (markers.current_period as usize) < ETH_PERIOD_COUNT {
        Some(markers.current_period as usize)
    } else {
        None
    }
}

/// What the pane shows.
#[derive(Debug)]
pub struct ProfilePlan {
    pub profile: VisibleProfile,
    /// The rows, the highest price first.
    pub lines: Vec<ProfileLine>,
    pub max_period_volume: u64,
    pub max_session_volume: u64,
    pub markers: Markers,
    pub footer: Option<String>,
}

/// Whether `most` is the largest of a volume among the first `n` rows, or zero without rows.
pub open spec fn is_largest(
    rows: Seq<MpRow>,
    n: int,
    volume: spec_fn(MpRow) -> u64,
    most: u64,
) -> bool {
    &&& forall|i: int| 0 <= i < n ==> volume(#[trigger] rows[i]) <= most
    &&& most > 0 ==> exists|i: int| 0 <= i < n && volume(#[trigger] rows[i]) == most
}

proof fn lemma_largest(
    rows: Seq<MpRow>,
    n: int,
    volume: spec_fn(MpRow) -> u64,
    before: u64,
    after: u64,
)
    requires
        0 <= n < rows.len(),
        is_largest(rows, n, volume, before),
        after == (if volume(rows[n]) > before {
            volume(rows[n])
        } else {
            before
        }),
    ensures
        is_largest(rows, n + 1, volume, after),
{
    if after > 0 {
        if volume(rows[n]) > before {
            assert(volume(rows[n]) == after);
        } else {
            let j = choose|j: int| 0 <= j < n && volume(#[trigger] rows[j]) == before;
            assert(volume(rows[j]) == after);
        }
    }
}

/// The largest period volume and the largest session volume of the rows.
pub fn max_volumes(rows: &Vec<MpRow>) -> (r: (u64, u64))
    ensures
        is_largest(rows@, rows.len() as int, |row: MpRow| row.period_volume, r.0),
        is_largest(rows@, rows.len() as int, |row: MpRow| row.session_volume, r.1),
{
    let mut period: u64 = 0;
    let mut session: u64 = 0;
    let mut i: usize = 0;
    while i < rows.len()
        invariant
            i <= rows.len(),
            is_largest(rows@, i as int, |row: MpRow| row.period_volume, period),
            is_largest(rows@, i as int, |row: MpRow| row.session_volume, session),
        decreases rows.len() - i,
    {
        let ghost before = (period, session);
        if rows[i].period_volume > period {
            period = rows[i].period_volume;
        }
        if rows[i].session_volume > session {
            session = rows[i].session_volume;
        }
        proof {
            lemma_largest(
                rows@,
                i as int,
                |row: MpRow| row.period_volume,
                before.0,
                period,
            );
            lemma_largest(
                rows@,
                i as int,
                |row: MpRow| row.session_volume,
                before.1,
                session,
            );
        }
        i += 1;
    }
    (period, session)
}

/// Whether a plan shows a session from the top down.
pub open spec fn lays_out(
    r: ProfilePlan,
    session: ProfileSessionRender,
    snapshot: RenderSnapshot,
    tick_scale: u8,
    center: Option<Price>,
    max_rows: usize,
) -> bool {
    let n = r.profile.rows.len() as int;
    &&& shows(r.profile, session, snapshot.dom.tick_size, tick_scale, center, max_rows)
    &&& r.markers == markers_of(
        session,
        match snapshot.dom.last_trade {
            Some(trade) => Some(trade.price),
            None => None,
        },
    )
    &&& r.lines.len() == n
    &&& forall|k: int|
        0 <= k < n ==> line_shows(
            #[trigger] r.lines@[k],
            r.profile.rows@[n - 1 - k],
            r.profile.scaled_tick,
            r.markers,
        )
    &&& is_largest(
        r.profile.rows@,
        n,
        |row: MpRow| row.period_volume,
        r.max_period_volume,
    )
    &&& is_largest(
        r.profile.rows@,
        n,
        |row: MpRow| row.session_volume,
        r.max_session_volume,
    )
    &&& crate::text::text_of(r.footer) == Some(footer_text(session.trade_date as int))
}

/// Whether the periods of every row of a session are periods of a session.
pub open spec fn all_periods_fit(rows: Seq<ProfilePriceRow>) -> bool {
    forall|i: int|
        0 <= i < rows.len() ==> periods_fit(
            (#[trigger] rows[i]).eth_periods,
            rows[i].rth_periods,
        )
}

proof fn lemma_periods_fit(source: Seq<ProfilePriceRow>, tick: Price, price: int)
    requires
        all_periods_fit(source),
    ensures
        periods_fit(
            periods(source, tick, price, false),
            periods(source, tick, price, true),
        ),
    decreases source.len(),
{
    if source.len() > 0 {
        let rest = source.drop_last();
        assert forall|i: int| 0 <= i < rest.len() implies periods_fit(
            (#[trigger] rest[i]).eth_periods,
            rest[i].rth_periods,
        ) by {
            assert(rest[i] == source[i]);
        }
        lemma_periods_fit(rest, tick, price);
        let eth = periods(rest, tick, price, false);
        let rth = periods(rest, tick, price, true);
        let last = source.last();
        let last_eth = last.eth_periods;
        let last_rth = last.rth_periods;
        assert(source[source.len() - 1] == last);
        assert(eth | last_eth < 0x4000_0000_0000u64) by (bit_vector)
            requires
                eth < 0x4000_0000_0000u64,
                last_eth < 0x4000_0000_0000u64,
        ;
        assert(rth | last_rth < 0x2000u64) by (bit_vector)
            requires
                rth < 0x2000u64,
                last_rth < 0x2000u64,
        ;
    }
}

/// What the pane shows of the session on display in a viewport of at most `max_rows` rows;
/// nothing without a session.
pub fn prepare(
    snapshot: &RenderSnapshot,
    tick_scale: u8,
    center: Option<Price>,
    max_rows: usize,
) -> (r: ProfilePlan)
    requires
        valid_scale(tick_scale),
        displayed(snapshot.profile) matches Some(session) ==> {
            &&& session.trade_date > 0
            &&& all_periods_fit(session.rows@)
            &&& session.rows.len() > 0 && max_rows > 0 ==> viewport_fits(
                session,
                snapshot.dom.tick_size,
                tick_scale,
                center,
                max_rows,
            )
        },
    ensures
        match displayed(snapshot.profile) {
            None => {
                &&& r.profile.scaled_tick == Price(0)
                &&& r.profile.rows.len() == 0
                &&& r.lines.len() == 0
                &&& r.max_period_volume == 0
                &&& r.max_session_volume == 0
                &&& r.markers == no_markers()
                &&& r.footer is None
            },
            Some(session) => lays_out(r, session, *snapshot, tick_scale, center, max_rows),
        },
{
    let session: &ProfileSessionRender = match display_session(&snapshot.profile) {
        Some(session) => session,
        None => return ProfilePlan {
            profile: VisibleProfile { scaled_tick: Price(0), rows: Vec::new() },
            lines: Vec::new(),
            max_period_volume: 0,
            max_session_volume: 0,
            markers: Markers::default(),
            footer: None,
        },
    };
    let profile: VisibleProfile = visible_rows(
        session,
        snapshot.dom.tick_size,
        tick_scale,
        center,
        max_rows,
    );
    let (max_period_volume, max_session_volume) = max_volumes(&profile.rows);
    let markers: Markers = session_markers(
        session,
        match snapshot.dom.last_trade {
            Some(trade) => Some(trade.price),
            None => None,
        },
    );
    let n: usize = profile.rows.len();
    let mut lines: Vec<ProfileLine> = Vec::new();
    let mut i: usize = n;
    while i > 0
        invariant
            i <= n,
            n == profile.rows.len(),
            lines.len() == n - i,
            all_periods_fit(session.rows@),
            shows(profile, *session, snapshot.dom.tick_size, tick_scale, center, max_rows),
            forall|k: int|
                0 <= k < lines.len() ==> line_shows(
                    #[trigger] lines@[k],
                    profile.rows@[n - 1 - k],
                    profile.scaled_tick,
                    markers,
                ),
        decreases i,
    {
        i -= 1;
        proof {
            assert(gathers(profile.rows@[i as int], session.rows@, profile.scaled_tick));
            lemma_periods_fit(
                session.rows@,
                profile.scaled_tick,
                profile.rows@[i as int].price.0 as int,
            );
        }
        lines.push(prepare_line(&profile.rows[i], profile.scaled_tick, &markers));
    }
    ProfilePlan {
        profile,
        lines,
        max_period_volume,
        max_session_volume,
        markers,
        footer: Some(session_open_footer(session.trade_date)),
    }
}

/// The expanded letters of a row fill the forty-six columns of the session: a column shows a letter
/// of a kind exactly where the row traded in it in that clock. The collapsed letters of both kinds
/// are as many as the columns traded in.
pub proof fn law_letters_of_a_row(eth: u64, rth: u64, r: TpoRuns, column: int)
    requires
        periods_fit(eth, rth),
        call_ensures(prepare_tpos, (eth, rth), r),
        0 <= column < 46,
    ensures
        r.ep_eth@.len() == 46,
        r.ep_rth@.len() == 46,
        r.cp_eth@.len() == r.cp_rth@.len(),
        r.ep_eth@[column] != ' ' <==> traded(eth, rth, column, TpoKind::Eth),
        r.ep_rth@[column] != ' ' <==> traded(eth, rth, column, TpoKind::Rth),
        forall|index: usize, c: char| #[trigger]
            call_ensures(period_letter, (index,), c) && index < 52 ==> {
                &&& traded(eth, rth, column, TpoKind::Eth) && index == column ==> r.ep_eth@[column]
                    == c
                &&& traded(eth, rth, column, TpoKind::Rth) && index + 31 == column
                    ==> r.ep_rth@[column] == c
            },
{
    assert(r.ep_eth@[column] == column_char(eth, rth, column, TpoKind::Eth));
    assert(r.ep_rth@[column] == column_char(eth, rth, column, TpoKind::Rth));
    assert forall|i: int| 0 <= i < 52 implies #[trigger] letter(i) != ' ' by {}
    assert(letter(column) != ' ');
    if column >= 31 {
        assert(letter(column - 31) != ' ');
    }
}

/// The markers of a session are its own prices and period; an earlier session has no initial
/// balance, no current price and no period under way.
pub proof fn law_markers(
    session: &ProfileSessionRender,
    current_price: Option<Price>,
    r: Markers,
    prior: Markers,
)
    requires
        call_ensures(session_markers, (session, current_price), r),
        call_ensures(prior_markers, (session,), prior),
    ensures
        r.open == session.open && prior.open == session.open,
        r.vpoc == session.vpoc && prior.vpoc == session.vpoc,
        r.vah == session.vah && prior.vah == session.vah,
        r.val == session.val && prior.val == session.val,
        r.ib_low == session.ib_low && prior.ib_low is None,
        r.ib_high == session.ib_high && prior.ib_high is None,
        r.current_price == current_price && prior.current_price is None,
        r.current_period == session.current_period && prior.current_period == 0,
        r.period_gap == session.period_gap && !prior.period_gap,
{
}

/// A row of the pane writes its own row's price and volumes, each in its place, and is in the value
/// area where some price of it is: from the area's low to its high, both included.
pub proof fn law_line_of_a_row(
    row: &MpRow,
    tick: Price,
    markers: &Markers,
    r: ProfileLine,
    period: String,
    session: String,
    price: String,
)
    requires
        periods_fit(row.eth_periods, row.rth_periods),
        tick.0 > 0,
        call_ensures(prepare_line, (row, tick, markers), r),
        call_ensures(format_size, (row.period_volume,), period),
        call_ensures(format_size, (row.session_volume,), session),
        call_ensures(format_price, (row.price.0,), price),
    ensures
        r.row == *row,
        r.period_volume@ == period@,
        r.session_volume@ == session@,
        r.price@ == price@,
        markers.val is None || markers.vah is None ==> !r.in_value_area,
        markers.val is Some && markers.vah is Some && (markers.val->0).0 <= (markers.vah->0).0
            ==> (r.in_value_area <==> exists|p: int|
            row.price.0 <= p < row.price.0 + tick.0 && #[trigger] within(
                (markers.val->0).0 as int,
                p,
                (markers.vah->0).0 as int,
            )),
{
    if markers.val is Some && markers.vah is Some && (markers.val->0).0 <= (markers.vah->0).0 {
        let low = (markers.val->0).0 as int;
        let high = (markers.vah->0).0 as int;
        if r.in_value_area {
            let p = if row.price.0 >= low {
                row.price.0 as int
            } else {
                low
            };
            assert(within(low, p, high));
        }
    }
}

/// Whether a price lies from `low` to `high`.
pub open spec fn within(low: int, price: int, high: int) -> bool {
    low <= price <= high
}

/// A price is marked on the row that holds it, counted from the top, where the rows fall by one tick
/// each; one that lies above the top is not.
pub proof fn law_marked_row(price: Price, top: Price, tick: Price, r: Option<i64>)
    requires
        tick.0 > 0,
        bucket_fits(price, tick),
        call_ensures(price_row, (price, top, tick), r),
    ensures
        r is Some ==> r->0 >= 0 && top.0 - r->0 * tick.0 <= price.0 < top.0 - r->0 * tick.0
            + tick.0,
        top.0 + tick.0 <= price.0 ==> r is None,
{
    crate::dom_view::lemma_bucket(price, tick);
    if r is Some {
        law_line_row(price, top, tick);
        let d = top.0 - bucket(price, tick);
        vstd::arithmetic::div_mod::lemma_div_pos_is_pos(d, tick.0 as int);
    }
}

/// The line that a marker gives, if it gives one.
proof fn lemma_line_at(
    kind: LineKind,
    price: Option<Price>,
    top: Price,
    tick: Price,
    span: LineSpan,
    row: Option<i64>,
)
    requires
        tick.0 > 0,
        price is Some ==> bucket_fits(price->0, tick),
        price is Some ==> call_ensures(price_row, (price->0, top, tick), row),
        price is None ==> row is None,
    ensures
        line_at(kind, price, top, tick, span) == (if row is Some {
            seq![SemanticLine { kind, row: row->0, span }]
        } else {
            Seq::empty()
        }),
{
}

/// The lines across the pane are those of the markers that have a row, in the order in which they
/// are drawn: opening, initial balance, value area, point of control, and the current price on top
/// of them all, which alone reaches over the whole pane.
pub proof fn law_lines_in_order(
    markers: &Markers,
    top: Price,
    tick: Price,
    r: Vec<SemanticLine>,
    open: Option<i64>,
    ib_high: Option<i64>,
    ib_low: Option<i64>,
    vah: Option<i64>,
    val: Option<i64>,
    vpoc: Option<i64>,
    current: Option<i64>,
)
    requires
        tick.0 > 0,
        markers_fit(*markers, tick),
        call_ensures(semantic_lines, (markers, top, tick), r),
        marks(markers.open, top, tick, open),
        marks(markers.ib_high, top, tick, ib_high),
        marks(markers.ib_low, top, tick, ib_low),
        marks(markers.vah, top, tick, vah),
        marks(markers.val, top, tick, val),
        marks(markers.vpoc, top, tick, vpoc),
        marks(markers.current_price, top, tick, current),
    ensures
        r@ == drawn(LineKind::Open, open, LineSpan::CurrentSession) + drawn(
            LineKind::InitialBalance,
            ib_high,
            LineSpan::CurrentSession,
        ) + drawn(LineKind::InitialBalance, ib_low, LineSpan::CurrentSession) + drawn(
            LineKind::ValueArea,
            vah,
            LineSpan::CurrentSession,
        ) + drawn(LineKind::ValueArea, val, LineSpan::CurrentSession) + drawn(
            LineKind::Vpoc,
            vpoc,
            LineSpan::CurrentSession,
        ) + drawn(LineKind::CurrentPrice, current, LineSpan::FullPane),
{
    let here = LineSpan::CurrentSession;
    lemma_line_at(LineKind::Open, markers.open, top, tick, here, open);
    lemma_line_at(LineKind::InitialBalance, markers.ib_high, top, tick, here, ib_high);
    lemma_line_at(LineKind::InitialBalance, markers.ib_low, top, tick, here, ib_low);
    lemma_line_at(LineKind::ValueArea, markers.vah, top, tick, here, vah);
    lemma_line_at(LineKind::ValueArea, markers.val, top, tick, here, val);
    lemma_line_at(LineKind::Vpoc, markers.vpoc, top, tick, here, vpoc);
    lemma_line_at(
        LineKind::CurrentPrice,
        markers.current_price,
        top,
        tick,
        LineSpan::FullPane,
        current,
    );
}

/// Whether a marker's price has the row; a marker without a price has none.
pub open spec fn marks(price: Option<Price>, top: Price, tick: Price, row: Option<i64>) -> bool {
    if price is Some {
        call_ensures(price_row, (price->0, top, tick), row)
    } else {
        row is None
    }
}

/// A line on a row, where there is one.
pub open spec fn drawn(kind: LineKind, row: Option<i64>, span: LineSpan) -> Seq<SemanticLine> {
    if row is Some {
        seq![SemanticLine { kind, row: row->0, span }]
    } else {
        Seq::empty()
    }
}

/// The lines across an earlier session are those of its value area, with its point of control on
/// top.
pub proof fn law_prior_lines_in_order(
    markers: &Markers,
    top: Price,
    tick: Price,
    r: Vec<SemanticLine>,
    vah: Option<i64>,
    val: Option<i64>,
    vpoc: Option<i64>,
)
    requires
        tick.0 > 0,
        markers_fit(*markers, tick),
        call_ensures(prior_lines, (markers, top, tick), r),
        marks(markers.vah, top, tick, vah),
        marks(markers.val, top, tick, val),
        marks(markers.vpoc, top, tick, vpoc),
    ensures
        r@ == drawn(LineKind::ValueArea, vah, LineSpan::CurrentSession) + drawn(
            LineKind::ValueArea,
            val,
            LineSpan::CurrentSession,
        ) + drawn(LineKind::Vpoc, vpoc, LineSpan::CurrentSession),
{
    let here = LineSpan::CurrentSession;
    lemma_line_at(LineKind::ValueArea, markers.vah, top, tick, here, vah);
    lemma_line_at(LineKind::ValueArea, markers.val, top, tick, here, val);
    lemma_line_at(LineKind::Vpoc, markers.vpoc, top, tick, here, vpoc);
}

/// The largest volumes are volumes of the rows, each of its own kind, or zero.
pub proof fn law_largest_volumes(rows: &Vec<MpRow>, r: (u64, u64))
    requires
        call_ensures(max_volumes, (rows,), r),
    ensures
        forall|i: int|
            0 <= i < rows.len() ==> (#[trigger] rows@[i]).period_volume <= r.0
                && rows@[i].session_volume <= r.1,
        r.0 > 0 ==> exists|i: int|
            0 <= i < rows.len() && (#[trigger] rows@[i]).period_volume == r.0,
        r.1 > 0 ==> exists|i: int|
            0 <= i < rows.len() && (#[trigger] rows@[i]).session_volume == r.1,
{
    let period = |row: MpRow| row.period_volume;
    let session = |row: MpRow| row.session_volume;
    let n = rows.len() as int;
    assert(is_largest(rows@, n, period, r.0));
    assert(is_largest(rows@, n, session, r.1));
    if r.0 > 0 {
        let i = choose|i: int| 0 <= i < n && period(#[trigger] rows@[i]) == r.0;
        assert(rows@[i].period_volume == r.0);
    }
    if r.1 > 0 {
        let i = choose|i: int| 0 <= i < n && session(#[trigger] rows@[i]) == r.1;
        assert(rows@[i].session_volume == r.1);
    }
    assert forall|i: int| 0 <= i < n implies (#[trigger] rows@[i]).period_volume <= r.0
        && rows@[i].session_volume <= r.1 by {
        assert(period(rows@[i]) <= r.0 && session(rows@[i]) <= r.1);
    }
}

/// The pane shows the session on display from the top down: each line is that of a row of the
/// viewport, the markers are the session's with the last trade as the current price, and the bars
/// are drawn against the largest volumes. Without a session it shows nothing.
pub proof fn law_pane(
    snapshot: &RenderSnapshot,
    tick_scale: u8,
    center: Option<Price>,
    max_rows: usize,
    r: ProfilePlan,
    k: int,
)
    requires
        call_ensures(prepare, (snapshot, tick_scale, center, max_rows), r),
    ensures
        snapshot.profile.sessions.len() == 0 ==> r.lines.len() == 0 && r.footer is None
            && r.profile.rows.len() == 0,
        snapshot.profile.sessions.len() > 0 ==> {
            let session = snapshot.profile.sessions@[0];
            let n = r.profile.rows.len() as int;
            &&& r.lines.len() == n
            &&& r.markers.open == session.open && r.markers.vpoc == session.vpoc
            &&& r.markers.vah == session.vah && r.markers.val == session.val
            &&& r.markers.ib_low == session.ib_low && r.markers.ib_high == session.ib_high
            &&& r.markers.current_price is Some <==> snapshot.dom.last_trade is Some
            &&& r.markers.current_price is Some ==> r.markers.current_price->0
                == snapshot.dom.last_trade->0.price
            &&& r.footer is Some
            &&& 0 <= k < n ==> r.lines@[k].row == r.profile.rows@[n - 1 - k]
            &&& 0 <= k < n ==> r.profile.rows@[k].period_volume <= r.max_period_volume
            &&& 0 <= k < n ==> r.profile.rows@[k].session_volume <= r.max_session_volume
        },
{
    if snapshot.profile.sessions.len() > 0 {
        let n = r.profile.rows.len() as int;
        let period = |row: MpRow| row.period_volume;
        let session = |row: MpRow| row.session_volume;
        assert(is_largest(r.profile.rows@, n, period, r.max_period_volume));
        assert(is_largest(r.profile.rows@, n, session, r.max_session_volume));
        if 0 <= k < n {
            assert(line_shows(
                r.lines@[k],
                r.profile.rows@[n - 1 - k],
                r.profile.scaled_tick,
                r.markers,
            ));
            assert(period(r.profile.rows@[k]) <= r.max_period_volume);
            assert(session(r.profile.rows@[k]) <= r.max_session_volume);
        }
    }
}

/// The column of the period under way is its number, as long as the session has that many.
pub proof fn law_period_under_way(markers: &Markers, r: Option<usize>)
    requires
        call_ensures(period_column, (markers,), r),
    ensures
        r is Some <==> markers.current_period < 46,
        r is Some ==> r->0 == markers.current_period,
{
}

} // verus!
