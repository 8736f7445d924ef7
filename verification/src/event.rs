//! Market events and the instrument that they are about.

use vstd::prelude::*;

verus! {

/// A price, in units of one thousand-millionth.
#[derive(Clone, Copy, Debug, PartialEq, Eq, Structural)]
pub struct Price(pub i64);

/// An event timestamp, in nanoseconds UTC.
#[derive(Clone, Copy, Debug, PartialEq, Eq, Structural)]
pub struct Ts(pub u64);

/// A source sequence number; zero where the source gave none.
#[derive(Clone, Copy, Debug, PartialEq, Eq, Structural)]
pub struct SeqNo(pub u32);

/// An order's identity.
#[derive(Clone, Copy, Debug, PartialEq, Eq, Structural)]
pub struct OrderId(pub u64);

/// A side of the book.
#[derive(Clone, Copy, Debug, PartialEq, Eq, Structural)]
pub enum Side {
    Bid,
    Ask,
    /// The event has no side.
    Unset,
}

/// What an event does.
#[derive(Clone, Copy, Debug, PartialEq, Eq, Structural)]
pub enum EventKind {
    Add,
    Modify,
    Cancel,
    Trade,
    Clear,
    /// Source sequences are missing.
    Gap,
}

/// One event of the tape.
#[derive(Clone, Copy, Debug, PartialEq, Eq, Structural)]
pub struct CanonicalEvent {
    pub kind: EventKind,
    pub side: Side,
    pub flags: u8,
    pub size: u32,
    pub ts: Ts,
    pub seq: SeqNo,
    pub price: Price,
    pub order_id: OrderId,
}

/// A Gap at `ts`: the sequence that was expected stands in the price, the one that was
/// observed in the order identity.
pub open spec fn gap_event(ts: Ts, expected: u64, observed: u64) -> CanonicalEvent {
    CanonicalEvent {
        kind: EventKind::Gap,
        side: Side::Unset,
        flags: 0,
        size: 0,
        ts,
        seq: SeqNo(0),
        price: Price(expected as i64),
        order_id: OrderId(observed),
    }
}

impl CanonicalEvent {
    /// A Gap between the sequence that was expected and the one that was observed.
    pub fn gap(ts: Ts, expected: u64, observed: u64) -> (r: CanonicalEvent)
        requires
            expected <= i64::MAX,
        ensures
            r == gap_event(ts, expected, observed),
    {
        CanonicalEvent {
            kind: EventKind::Gap,
            side: Side::Unset,
            flags: 0,
            size: 0,
            ts,
            seq: SeqNo(0),
            price: Price(expected as i64),
            order_id: OrderId(observed),
        }
    }

    /// The sequences that a Gap lies between: the one expected and the one observed.
    pub fn gap_seqs(&self) -> (r: (u64, u64))
        requires
            self.price.0 >= 0,
        ensures
            r == (self.price.0 as u64, self.order_id.0),
    {
        (self.price.0 as u64, self.order_id.0)
    }
}

/// A Gap gives back the two sequences it was made of.
pub proof fn law_gap_seqs(ts: Ts, expected: u64, observed: u64)
    requires
        expected <= i64::MAX,
    ensures
        gap_event(ts, expected, observed).price.0 as u64 == expected,
        gap_event(ts, expected, observed).order_id.0 == observed,
{
}

/// What a log says of the instrument it records.
#[derive(Clone, Debug)]
pub struct InstrumentMeta {
    pub symbol: String,
    pub instrument_id: u32,
    pub dataset: String,
    pub min_price_increment: Price,
    pub unit_of_measure_qty: i64,
    pub display_factor: i64,
    /// Trade date, in days since 1970-01-01.
    pub trade_date: u32,
    pub session_open: Ts,
}

/// A Gap that was made of two sequences gives them back, is a Gap, and stands at its time.
pub proof fn law_gap_made(
    ts: Ts,
    expected: u64,
    observed: u64,
    gap: CanonicalEvent,
    r: (u64, u64),
)
    requires
        expected <= i64::MAX,
        call_ensures(CanonicalEvent::gap, (ts, expected, observed), gap),
        call_ensures(CanonicalEvent::gap_seqs, (&gap,), r),
    ensures
        r == (expected, observed),
        gap.kind == EventKind::Gap,
        gap.ts == ts,
        gap.seq.0 == 0,
        gap.size == 0,
{
}

} // verus!
