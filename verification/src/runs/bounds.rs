//! What the frame headers of a log say of it, and the targets that sweep across it.

use crate::replay::frames::FrameKind;
use crate::text::{concat2, concat3, same_outcome};
use vstd::prelude::*;

verus! {

/// A frame's header.
#[derive(Clone, Copy, Debug, PartialEq, Eq, Structural)]
pub struct FrameHeader {
    pub kind: FrameKind,
    pub first_ts: u64,
    pub last_ts: u64,
    /// The records that the frame holds, those that only frame the events included.
    pub count: u32,
}

/// What the headers of a log add up to.
#[derive(Clone, Copy, Debug, PartialEq, Eq, Structural)]
pub struct Inspection {
    /// When the first frame of events begins.
    pub first_ts: Option<u64>,
    /// When the last frame of events ends.
    pub last_ts: u64,
    /// The records of the frames of events.
    pub records: u64,
    pub checkpoints: usize,
}

/// What the first `n` headers add up to.
pub open spec fn inspected(headers: Seq<FrameHeader>, n: int) -> (Option<u64>, u64, nat, nat)
    decreases n,
{
    if n <= 0 {
        (None, 0, 0, 0)
    } else {
        let (first, last, records, checkpoints) = inspected(headers, n - 1);
        let header = headers[n - 1];
        match header.kind {
            FrameKind::Events => (
                if first is None {
                    Some(header.first_ts)
                } else {
                    first
                },
                header.last_ts,
                records + header.count as nat,
                checkpoints,
            ),
            FrameKind::Checkpoint => (first, last, records, checkpoints + 1),
            FrameKind::Other => (first, last, records, checkpoints),
        }
    }
}

proof fn lemma_records_grow(headers: Seq<FrameHeader>, i: int, n: int)
    requires
        i <= n,
    ensures
        inspected(headers, i).2 <= inspected(headers, n).2,
    decreases n - i,
{
    if i < n {
        lemma_records_grow(headers, i, n - 1);
    }
}

/// Adds up the headers of a log.
pub fn inspect(headers: &Vec<FrameHeader>) -> (r: Inspection)
    requires
        inspected(headers@, headers.len() as int).2 <= u64::MAX,
    ensures
        (r.first_ts, r.last_ts, r.records as nat, r.checkpoints as nat) == inspected(
            headers@,
            headers.len() as int,
        ),
{
    let mut first_ts: Option<u64> = None;
    let mut last_ts: u64 = 0;
    let mut records: u64 = 0;
    let mut checkpoints: usize = 0;
    let mut i: usize = 0;
    while i < headers.len()
        invariant
            i <= headers.len(),
            inspected(headers@, headers.len() as int).2 <= u64::MAX,
            (first_ts, last_ts, records as nat, checkpoints as nat) == inspected(
                headers@,
                i as int,
            ),
            checkpoints <= i,
        decreases headers.len() - i,
    {
        let header: FrameHeader = headers[i];
        proof {
            lemma_records_grow(headers@, i + 1, headers.len() as int);
        }
        match header.kind {
            FrameKind::Events => {
                if first_ts.is_none() {
                    first_ts = Some(header.first_ts);
                }
                last_ts = header.last_ts;
                records += header.count as u64;
            },
            FrameKind::Checkpoint => {
                checkpoints += 1;
            },
            FrameKind::Other => {},
        }
        i += 1;
    }
    Inspection { first_ts, last_ts, records, checkpoints }
}

/// Which of the conditions on a log a run reports.
#[derive(Clone, Copy, Debug)]
pub struct BoundsRule {
    /// The program's name, which opens every report.
    pub program: &'static str,
    /// Whether a log that ends before it begins is refused.
    pub ordered: bool,
}

/// The times between which a log's events lie, or why the log cannot be used: it holds no events,
/// it ends before it begins, or it holds no checkpoint to seek from.
pub open spec fn bounds_of(
    rule: BoundsRule,
    found: Inspection,
    path: Seq<char>,
) -> Result<(u64, u64), Seq<char>> {
    match found.first_ts {
        None => Err(rule.program@ + ": no EVENTS frames in "@ + path),
        Some(first) => if rule.ordered && found.last_ts < first {
            Err(rule.program@ + ": last_ts < first_ts"@)
        } else if found.checkpoints == 0 {
            Err(
                rule.program@ + ": zero checkpoints in "@ + path
                    + " — run fft-checkpoint first"@,
            )
        } else {
            Ok((first, found.last_ts))
        },
    }
}

/// The times between which a log's events lie, or why the log cannot be used.
pub fn event_time_bounds(rule: BoundsRule, found: Inspection, path: &str) -> (r: Result<
    (u64, u64),
    String,
>)
    ensures
        same_outcome(r, bounds_of(rule, found, path@)),
{
    match found.first_ts {
        None => Err(concat3(rule.program, ": no EVENTS frames in ", path)),
        Some(first) => {
            if rule.ordered && found.last_ts < first {
                return Err(concat2(rule.program, ": last_ts < first_ts"));
            }
            if found.checkpoints == 0 {
                let mut text: String = concat3(rule.program, ": zero checkpoints in ", path);
                text.append(" — run fft-checkpoint first");
                return Err(text);
            }
            Ok((first, found.last_ts))
        },
    }
}

/// The target `i` of `n` that sweep from `first` to `last` in equal steps.
pub open spec fn swept(first: int, last: int, n: int, i: int) -> int {
    if n <= 1 || last <= first {
        first
    } else {
        first + ((last - first) * i) / (n - 1)
    }
}

proof fn lemma_swept(first: int, last: int, n: int, i: int)
    requires
        first <= last,
        0 <= i < n,
    ensures
        first <= swept(first, last, n, i) <= last,
{
    if n > 1 && first < last {
        let span = last - first;
        let den = n - 1;
        assert(0 <= span * i <= span * den) by (nonlinear_arith)
            requires
                0 <= i <= den,
                span >= 0,
        ;
        vstd::arithmetic::div_mod::lemma_div_is_ordered(span * i, span * den, den);
        vstd::arithmetic::div_mod::lemma_div_multiples_vanish(span, den);
        assert(span * den == den * span) by (nonlinear_arith);
        vstd::arithmetic::div_mod::lemma_div_pos_is_pos(span * i, den);
    }
}

/// Sweeping targets begin at the first time, end at the last, and never go back.
pub proof fn law_sweep(first: int, last: int, n: int, i: int, j: int)
    requires
        first <= last,
        0 <= i <= j < n,
    ensures
        swept(first, last, n, 0) == first,
        n > 1 ==> swept(first, last, n, n - 1) == last,
        first <= swept(first, last, n, i) <= swept(first, last, n, j) <= last,
{
    lemma_swept(first, last, n, i);
    lemma_swept(first, last, n, j);
    if n > 1 && first < last {
        let span = last - first;
        let den = n - 1;
        assert(span * 0 == 0 && span * den == den * span) by (nonlinear_arith);
        vstd::arithmetic::div_mod::lemma_div_multiples_vanish(span, den);
        assert(span * i <= span * j) by (nonlinear_arith)
            requires
                i <= j,
                span >= 0,
        ;
        vstd::arithmetic::div_mod::lemma_div_is_ordered(span * i, span * j, den);
        vstd::arithmetic::div_mod::lemma_basic_div(0, den);
    }
}

/// Targets that sweep from `first` to `last` in equal steps.
pub fn sweep_targets(first: u64, last: u64, n: u32) -> (r: Vec<u64>)
    ensures
        r.len() == n,
        forall|i: int|
            0 <= i < n ==> #[trigger] r@[i] == swept(first as int, last as int, n as int, i),
{
    let mut out: Vec<u64> = Vec::new();
    let mut i: u32 = 0;
    let span: u64 = last.saturating_sub(first);
    while i < n
        invariant
            i <= n,
            out.len() == i,
            span == if last >= first {
                last - first
            } else {
                0
            },
            forall|j: int|
                0 <= j < i ==> #[trigger] out@[j] == swept(first as int, last as int, n as int, j),
        decreases n - i,
    {
        if n == 1 || span == 0 {
            out.push(first);
        } else {
            proof {
                lemma_swept(first as int, last as int, n as int, i as int);
            }
            assert(0 <= span * i <= 0xffff_ffff_ffff_ffff * 0xffff_ffff) by (nonlinear_arith)
                requires
                    0 <= span <= 0xffff_ffff_ffff_ffff,
                    0 <= i <= 0xffff_ffff,
            ;
            let step: u128 = (span as u128) * (i as u128) / ((n - 1) as u128);
            assert(first + step == swept(first as int, last as int, n as int, i as int));
            out.push(first + step as u64);
        }
        i += 1;
    }
    out
}

/// The sum of an amount over the headers.
pub open spec fn header_sum(headers: Seq<FrameHeader>, amount: spec_fn(FrameHeader) -> int) -> int
    decreases headers.len(),
{
    if headers.len() == 0 {
        0
    } else {
        header_sum(headers.drop_last(), amount) + amount(headers.last())
    }
}

/// Whether a frame is the first of events.
pub open spec fn opens(headers: Seq<FrameHeader>, i: int) -> bool {
    &&& headers[i].kind == FrameKind::Events
    &&& forall|j: int| 0 <= j < i ==> (#[trigger] headers[j]).kind != FrameKind::Events
}

/// Whether a frame of events is the last of the first `n` frames.
pub open spec fn closes(headers: Seq<FrameHeader>, n: int, i: int) -> bool {
    &&& headers[i].kind == FrameKind::Events
    &&& forall|j: int| i < j < n ==> (#[trigger] headers[j]).kind != FrameKind::Events
}

proof fn lemma_sums(headers: Seq<FrameHeader>, n: int)
    requires
        0 <= n <= headers.len(),
    ensures
        inspected(headers, n).2 == header_sum(
            headers.take(n),
            |h: FrameHeader|
                if h.kind == FrameKind::Events {
                    h.count as int
                } else {
                    0
                },
        ),
        inspected(headers, n).3 == header_sum(
            headers.take(n),
            |h: FrameHeader|
                if h.kind == FrameKind::Checkpoint {
                    1int
                } else {
                    0
                },
        ),
    decreases n,
{
    if n > 0 {
        lemma_sums(headers, n - 1);
        assert(headers.take(n).drop_last() =~= headers.take(n - 1));
        assert(headers.take(n).last() == headers[n - 1]);
    }
}

proof fn lemma_first(headers: Seq<FrameHeader>, n: int, i: int)
    requires
        0 <= i < n <= headers.len(),
        opens(headers, i),
    ensures
        inspected(headers, n).0 == Some(headers[i].first_ts),
    decreases n,
{
    if i < n - 1 {
        lemma_first(headers, n - 1, i);
    } else {
        lemma_no_events(headers, i);
    }
}

proof fn lemma_last(headers: Seq<FrameHeader>, n: int, i: int)
    requires
        0 <= i < n <= headers.len(),
        closes(headers, n, i),
    ensures
        inspected(headers, n).1 == headers[i].last_ts,
    decreases n,
{
    if i < n - 1 {
        assert(headers[n - 1].kind != FrameKind::Events);
        lemma_last(headers, n - 1, i);
    }
}

proof fn lemma_no_events(headers: Seq<FrameHeader>, n: int)
    requires
        0 <= n <= headers.len(),
        forall|j: int| 0 <= j < n ==> (#[trigger] headers[j]).kind != FrameKind::Events,
    ensures
        inspected(headers, n).0 is None,
    decreases n,
{
    if n > 0 {
        assert(headers[n - 1].kind != FrameKind::Events);
        lemma_no_events(headers, n - 1);
    }
}

/// A log begins where its first frame of events begins and ends where its last one ends; without
/// one it has no beginning. Its records are those of the frames of events, and its checkpoints are
/// counted by frames.
pub proof fn law_headers_add_up(headers: &Vec<FrameHeader>, r: Inspection, i: int, k: int)
    requires
        call_ensures(inspect, (headers,), r),
    ensures
        r.records == header_sum(
            headers@,
            |h: FrameHeader|
                if h.kind == FrameKind::Events {
                    h.count as int
                } else {
                    0
                },
        ),
        r.checkpoints == header_sum(
            headers@,
            |h: FrameHeader|
                if h.kind == FrameKind::Checkpoint {
                    1int
                } else {
                    0
                },
        ),
        0 <= i < headers.len() && opens(headers@, i) ==> r.first_ts == Some(headers@[i].first_ts),
        0 <= k < headers.len() && closes(headers@, headers.len() as int, k) ==> r.last_ts
            == headers@[k].last_ts,
        (forall|j: int|
            0 <= j < headers.len() ==> (#[trigger] headers@[j]).kind != FrameKind::Events)
            ==> r.first_ts is None,
{
    let n = headers.len() as int;
    lemma_sums(headers@, n);
    assert(headers@.take(n) =~= headers@);
    if 0 <= i < n && opens(headers@, i) {
        lemma_first(headers@, n, i);
    }
    if 0 <= k < n && closes(headers@, n, k) {
        lemma_last(headers@, n, k);
    }
    if forall|j: int| 0 <= j < n ==> (#[trigger] headers@[j]).kind != FrameKind::Events {
        lemma_no_events(headers@, n);
    }
}

/// A log can be used when it has events and a checkpoint and, where that matters, does not end
/// before it begins; its bounds are then its own first and last time.
pub proof fn law_usable_log(
    rule: BoundsRule,
    found: Inspection,
    path: &'static str,
    r: Result<(u64, u64), String>,
)
    requires
        call_ensures(event_time_bounds, (rule, found, path), r),
    ensures
        r is Ok <==> found.first_ts is Some && found.checkpoints > 0 && (rule.ordered
            ==> found.first_ts->0 <= found.last_ts),
        r is Ok ==> r->Ok_0.0 == found.first_ts->0 && r->Ok_0.1 == found.last_ts,
{
}

/// Targets that sweep a log are as many as were asked for; they begin at its first time, end at its
/// last, never go back, and their steps differ by one nanosecond at most.
pub proof fn law_even_sweep(first: u64, last: u64, n: u32, r: Vec<u64>, i: int)
    requires
        first <= last,
        call_ensures(sweep_targets, (first, last, n), r),
        0 <= i < n,
    ensures
        r.len() == n,
        r@[0] == first,
        n > 1 ==> r@[n - 1] == last,
        first <= r@[i] <= last,
        i + 1 < n ==> r@[i] <= r@[i + 1],
        n > 1 ==> (r@[i] - first) * (n - 1) <= (last - first) * i < (r@[i] - first + 1) * (n - 1),
{
    law_sweep(first as int, last as int, n as int, i, i);
    if i + 1 < n {
        law_sweep(first as int, last as int, n as int, i, i + 1);
    }
    if n > 1 {
        let den = n - 1;
        let all = (last - first) * i;
        let step = r@[i] - first;
        if first < last {
            vstd::arithmetic::div_mod::lemma_fundamental_div_mod(all, den);
            vstd::arithmetic::div_mod::lemma_mod_bound(all, den);
            assert(step * den <= all < (step + 1) * den) by (nonlinear_arith)
                requires
                    all == den * step + all % den,
                    0 <= all % den < den,
            ;
        } else {
            assert(step * den <= all < (step + 1) * den) by (nonlinear_arith)
                requires
                    all == (last - first) * i,
                    last == first,
                    step == 0,
                    den > 0,
            ;
        }
    }
}

} // verus!
