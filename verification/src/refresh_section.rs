//! The refresh section of a checkpoint: its session totals and its live totals.

use crate::text::{concat2, decimal, decimal_string};
use vstd::arithmetic::power2::pow2;
use vstd::prelude::*;

verus! {

/// The number that `n` bytes from `pos` on spell, the lowest first.
pub open spec fn le(buf: Seq<u8>, pos: int, n: nat) -> nat
    decreases n,
{
    if n == 0 {
        0
    } else {
        buf[pos] as nat + 256 * le(buf, pos + 1, (n - 1) as nat)
    }
}

/// What reading on gives: where it stands then, or where it ran out of bytes.
pub type Place = Result<int, int>;

/// Reading fields of the given widths, one after the other.
pub open spec fn fields(len: int, pos: int, widths: Seq<int>) -> Place
    decreases widths.len(),
{
    if widths.len() == 0 {
        Ok(pos)
    } else if pos + widths[0] > len {
        Err(pos)
    } else {
        fields(len, pos + widths[0], widths.skip(1))
    }
}

/// Reading `count` records of the given fields.
pub open spec fn records(len: int, pos: int, count: nat, widths: Seq<int>) -> Place
    decreases count,
{
    if count == 0 {
        Ok(pos)
    } else {
        match records(len, pos, (count - 1) as nat, widths) {
            Ok(next) => fields(len, next, widths),
            Err(at) => Err(at),
        }
    }
}

/// The sum of the numbers of `n` bytes at `offset` in each of `count` records of `width` bytes.
pub open spec fn sum(buf: Seq<u8>, pos: int, count: nat, width: int, offset: int, n: nat) -> nat
    decreases count,
{
    if count == 0 {
        0
    } else {
        sum(buf, pos, (count - 1) as nat, width, offset, n) + le(
            buf,
            pos + (count - 1) * width + offset,
            n,
        )
    }
}

/// The message for bytes that run out.
pub open spec fn truncated(at: int) -> Seq<char> {
    "truncated at "@ + decimal(at as nat)
}

/// The totals of a refresh section.
#[derive(Clone, Copy, Debug, PartialEq, Eq, Structural)]
pub struct RefreshTotals {
    /// Refreshes of the session.
    pub count: u64,
    /// Hidden volume of the session.
    pub hidden: u128,
    /// Reloads of live orders.
    pub live_reloads: u64,
    /// Hidden volume of live orders.
    pub live_hidden: u128,
}

/// The fields of a live order: its identity, reloads, hidden volume and a flag.
pub open spec fn live_fields() -> Seq<int> {
    seq![8, 4, 8, 1]
}

/// The fields of a pending refresh.
pub open spec fn pending_fields() -> Seq<int> {
    seq![8, 1, 8, 8, 4, 4, 8]
}

/// The fields of a recent trade.
pub open spec fn recent_fields() -> Seq<int> {
    seq![8, 8, 1, 8, 4]
}

/// The fields of a price level: its side, price, refreshes and hidden volume.
pub open spec fn level_fields() -> Seq<int> {
    seq![1, 8, 4, 8]
}

/// Reading a list of records after their count: how many there are, where they begin, and
/// where reading stands after them.
pub open spec fn list(buf: Seq<u8>, pos: int, widths: Seq<int>) -> Result<(nat, int, int), int> {
    match fields(buf.len() as int, pos, seq![4]) {
        Err(at) => Err(at),
        Ok(start) => match records(buf.len() as int, start, le(buf, pos, 4), widths) {
            Err(at) => Err(at),
            Ok(end) => Ok((le(buf, pos, 4), start, end)),
        },
    }
}

/// The totals that a section holds, as numbers.
pub struct Totals {
    pub count: nat,
    pub hidden: nat,
    pub live_reloads: nat,
    pub live_hidden: nat,
}

/// The totals that a section holds, or what is wrong with it.
pub open spec fn section(buf: Seq<u8>, version: u16) -> Result<Totals, Seq<char>> {
    if buf.len() < 2 {
        Err(truncated(0))
    } else if le(buf, 0, 2) != version {
        Err("REFRESH version mismatch"@)
    } else {
        match fields(buf.len() as int, 2, seq![4, 8]) {
            Err(at) => Err(truncated(at)),
            Ok(first) => match list(buf, first, live_fields()) {
                Err(at) => Err(truncated(at)),
                Ok((live, live_start, second)) => match list(buf, second, pending_fields()) {
                    Err(at) => Err(truncated(at)),
                    Ok((_, _, third)) => match list(buf, third, recent_fields()) {
                        Err(at) => Err(truncated(at)),
                        Ok((_, _, fourth)) => match list(buf, fourth, level_fields()) {
                            Err(at) => Err(truncated(at)),
                            Ok((levels, level_start, end)) => if end != buf.len() {
                                Err(decimal((buf.len() - end) as nat) + " trailing REFRESH bytes"@)
                            } else {
                                Ok(
                                    Totals {
                                        count: sum(buf, level_start, levels, 21, 9, 4),
                                        hidden: sum(buf, level_start, levels, 21, 13, 8),
                                        live_reloads: sum(buf, live_start, live, 21, 8, 4),
                                        live_hidden: sum(buf, live_start, live, 21, 12, 8),
                                    },
                                )
                            },
                        },
                    },
                },
            },
        }
    }
}

/// A reader over bytes.
struct Sec<'a> {
    buf: &'a Vec<u8>,
    pos: usize,
}

proof fn lemma_le_bound(buf: Seq<u8>, pos: int, n: nat)
    ensures
        le(buf, pos, n) < pow2(8 * n),
    decreases n,
{
    if n == 0 {
        vstd::arithmetic::power2::lemma2_to64();
    } else {
        let m = (n - 1) as nat;
        lemma_le_bound(buf, pos + 1, m);
        vstd::arithmetic::power2::lemma_pow2_adds(8, 8 * m);
        vstd::arithmetic::power2::lemma2_to64();
        assert(8 + 8 * m == 8 * n);
        assert(pow2(8 * n) == 256 * pow2(8 * m));
    }
}

impl<'a> Sec<'a> {
    spec fn wf(self) -> bool {
        self.pos <= self.buf.len()
    }

    fn new(buf: &'a Vec<u8>) -> (r: Sec<'a>)
        ensures
            r.wf(),
            r.buf@ == buf@,
            r.pos == 0,
    {
        Sec { buf, pos: 0 }
    }

    /// Moves past `n` bytes; where they begin.
    fn take(&mut self, n: usize) -> (r: Result<usize, String>)
        requires
            old(self).wf(),
        ensures
            final(self).wf(),
            final(self).buf == old(self).buf,
            old(self).pos + n <= old(self).buf.len() ==> r == Ok::<usize, String>(old(self).pos)
                && final(self).pos == old(self).pos + n,
            old(self).pos + n > old(self).buf.len() ==> r is Err && r->Err_0@ == truncated(
                old(self).pos as int,
            ) && final(self).pos == old(self).pos,
    {
        if n > self.buf.len() - self.pos {
            return Err(concat2("truncated at ", decimal_string(self.pos as u64).as_str()));
        }
        let start: usize = self.pos;
        self.pos = start + n;
        Ok(start)
    }

    /// Reads a number of `n` bytes.
    fn number(&mut self, n: usize) -> (r: Result<u64, String>)
        requires
            old(self).wf(),
            n <= 8,
        ensures
            final(self).wf(),
            final(self).buf == old(self).buf,
            old(self).pos + n <= old(self).buf.len() ==> {
                &&& r is Ok
                &&& r->Ok_0 == le(old(self).buf@, old(self).pos as int, n as nat)
                &&& r->Ok_0 < pow2(8 * n as nat)
                &&& final(self).pos == old(self).pos + n
            },
            old(self).pos + n > old(self).buf.len() ==> r is Err && r->Err_0@ == truncated(
                old(self).pos as int,
            ),
    {
        let start: usize = match self.take(n) {
            Ok(start) => start,
            Err(message) => return Err(message),
        };
        let mut value: u64 = 0;
        let mut i: usize = n;
        while i > 0
            invariant
                i <= n <= 8,
                start + n <= self.buf.len(),
                value == le(self.buf@, start + i, (n - i) as nat),
            decreases i,
        {
            proof {
                lemma_le_bound(self.buf@, start + i, (n - i) as nat);
                vstd::arithmetic::power2::lemma2_to64();
                vstd::arithmetic::power2::lemma2_to64_rest();
                if 8 * (n - i) < 56 {
                    vstd::arithmetic::power2::lemma_pow2_strictly_increases(
                        (8 * (n - i)) as nat,
                        56,
                    );
                }
            }
            i -= 1;
            value = value * 256 + self.buf[start + i] as u64;
        }
        proof {
            lemma_le_bound(self.buf@, start as int, n as nat);
        }
        Ok(value)
    }

    fn u8(&mut self) -> (r: Result<u64, String>)
        requires
            old(self).wf(),
        ensures
            final(self).wf(),
            final(self).buf == old(self).buf,
            old(self).pos + 1 <= old(self).buf.len() ==> r is Ok && final(self).pos
                == old(self).pos + 1,
            old(self).pos + 1 > old(self).buf.len() ==> r is Err && r->Err_0@ == truncated(
                old(self).pos as int,
            ),
    {
        self.number(1)
    }

    fn u16(&mut self) -> (r: Result<u64, String>)
        requires
            old(self).wf(),
        ensures
            final(self).wf(),
            final(self).buf == old(self).buf,
            old(self).pos + 2 <= old(self).buf.len() ==> r is Ok && r->Ok_0 == le(
                old(self).buf@,
                old(self).pos as int,
                2,
            ) && final(self).pos == old(self).pos + 2,
            old(self).pos + 2 > old(self).buf.len() ==> r is Err && r->Err_0@ == truncated(
                old(self).pos as int,
            ),
    {
        self.number(2)
    }

    fn u32(&mut self) -> (r: Result<u64, String>)
        requires
            old(self).wf(),
        ensures
            final(self).wf(),
            final(self).buf == old(self).buf,
            old(self).pos + 4 <= old(self).buf.len() ==> r is Ok && r->Ok_0 == le(
                old(self).buf@,
                old(self).pos as int,
                4,
            ) && r->Ok_0 <= u32::MAX && final(self).pos == old(self).pos + 4,
            old(self).pos + 4 > old(self).buf.len() ==> r is Err && r->Err_0@ == truncated(
                old(self).pos as int,
            ),
    {
        proof {
            vstd::arithmetic::power2::lemma2_to64();
        }
        self.number(4)
    }

    fn u64(&mut self) -> (r: Result<u64, String>)
        requires
            old(self).wf(),
        ensures
            final(self).wf(),
            final(self).buf == old(self).buf,
            old(self).pos + 8 <= old(self).buf.len() ==> r is Ok && r->Ok_0 == le(
                old(self).buf@,
                old(self).pos as int,
                8,
            ) && final(self).pos == old(self).pos + 8,
            old(self).pos + 8 > old(self).buf.len() ==> r is Err && r->Err_0@ == truncated(
                old(self).pos as int,
            ),
    {
        self.number(8)
    }

    /// Moves past fields of the given widths.
    fn skip_fields(&mut self, widths: &Vec<usize>) -> (r: Result<(), String>)
        requires
            old(self).wf(),
        ensures
            final(self).wf(),
            final(self).buf == old(self).buf,
            match fields(old(self).buf.len() as int, old(self).pos as int, ints(widths@)) {
                Ok(next) => r is Ok && final(self).pos == next,
                Err(at) => r is Err && r->Err_0@ == truncated(at),
            },
    {
        let ghost all = ints(widths@);
        let mut i: usize = 0;
        assert(all.skip(0) =~= all);
        while i < widths.len()
            invariant
                i <= widths.len(),
                self.wf(),
                self.buf == old(self).buf,
                all == ints(widths@),
                fields(old(self).buf.len() as int, old(self).pos as int, all) == fields(
                    self.buf.len() as int,
                    self.pos as int,
                    all.skip(i as int),
                ),
            decreases widths.len() - i,
        {
            assert(all.skip(i as int).skip(1) =~= all.skip(i + 1));
            assert(all.skip(i as int)[0] == widths@[i as int]);
            match self.take(widths[i]) {
                Ok(_) => {},
                Err(message) => return Err(message),
            }
            i += 1;
        }
        Ok(())
    }

    /// Moves past a list of records after their count.
    fn skip_list(&mut self, widths: &Vec<usize>) -> (r: Result<(), String>)
        requires
            old(self).wf(),
        ensures
            final(self).wf(),
            final(self).buf == old(self).buf,
            match list(old(self).buf@, old(self).pos as int, ints(widths@)) {
                Ok((_, _, next)) => r is Ok && final(self).pos == next,
                Err(at) => r is Err && r->Err_0@ == truncated(at),
            },
    {
        let ghost buf = self.buf@;
        let ghost pos = self.pos as int;
        let ghost all = ints(widths@);
        proof {
            lemma_one_field(buf.len() as int, pos, 4);
        }
        let count: u64 = match self.u32() {
            Ok(count) => count,
            Err(message) => return Err(message),
        };
        let ghost start = self.pos as int;
        let mut i: u64 = 0;
        while i < count
            invariant
                i <= count,
                self.wf(),
                self.buf == old(self).buf,
                buf == self.buf@,
                all == ints(widths@),
                count == le(buf, pos, 4),
                fields(buf.len() as int, pos, seq![4]) == Ok::<int, int>(start),
                pos == old(self).pos,
                records(buf.len() as int, start, i as nat, all) == Ok::<int, int>(
                    self.pos as int,
                ),
            decreases count - i,
        {
            match self.skip_fields(widths) {
                Ok(_) => {},
                Err(message) => {
                    proof {
                        lemma_records_fail(
                            buf.len() as int,
                            start,
                            (i + 1) as nat,
                            count as nat,
                            all,
                        );
                    }
                    return Err(message);
                },
            }
            i += 1;
        }
        Ok(())
    }
}

impl<'a> Sec<'a> {
    /// Reads a list of live orders after its count: the sums of their reloads and their hidden
    /// volumes.
    fn live_orders(&mut self) -> (r: Result<(u128, u128), String>)
        requires
            old(self).wf(),
        ensures
            final(self).wf(),
            final(self).buf == old(self).buf,
            match list(old(self).buf@, old(self).pos as int, live_fields()) {
                Ok((count, start, next)) => {
                    &&& r is Ok
                    &&& final(self).pos == next
                    &&& r->Ok_0.0 == sum(old(self).buf@, start, count, 21, 8, 4)
                    &&& r->Ok_0.0 <= u64::MAX
                    &&& r->Ok_0.1 == sum(old(self).buf@, start, count, 21, 12, 8)
                },
                Err(at) => r is Err && r->Err_0@ == truncated(at),
            },
    {
        let ghost buf = self.buf@;
        let ghost pos = self.pos as int;
        let ghost len = buf.len() as int;
        proof {
            lemma_one_field(len, pos, 4);
        }
        let count: u64 = match self.u32() {
            Ok(count) => count,
            Err(message) => return Err(message),
        };
        let ghost start = self.pos as int;
        let mut reloads: u128 = 0;
        let mut hidden: u128 = 0;
        let mut i: u64 = 0;
        while i < count
            invariant
                i <= count <= u32::MAX,
                self.wf(),
                self.buf == old(self).buf,
                buf == self.buf@,
                len == buf.len(),
                pos == old(self).pos,
                count == le(buf, pos, 4),
                fields(len, pos, seq![4]) == Ok::<int, int>(start),
                records(len, start, i as nat, live_fields()) == Ok::<int, int>(self.pos as int),
                self.pos == start + i * 21,
                reloads == sum(buf, start, i as nat, 21, 8, 4),
                hidden == sum(buf, start, i as nat, 21, 12, 8),
                reloads <= i * 0x1_0000_0000,
                hidden <= i * 0x1_0000_0000_0000_0000,
            decreases count - i,
        {
            proof {
                let here = self.pos as int;
                lemma_four_fields(len, here, 8, 4, 8, 1);
                if fields(len, here, live_fields()) is Err {
                    lemma_records_fail(len, start, (i + 1) as nat, count as nat, live_fields());
                }
            }
            let _id: u64 = match self.u64() {
                Ok(id) => id,
                Err(message) => return Err(message),
            };
            let n: u64 = match self.u32() {
                Ok(n) => n,
                Err(message) => return Err(message),
            };
            let volume: u64 = match self.u64() {
                Ok(volume) => volume,
                Err(message) => return Err(message),
            };
            let _flag: u64 = match self.u8() {
                Ok(flag) => flag,
                Err(message) => return Err(message),
            };
            reloads = reloads + n as u128;
            hidden = hidden + volume as u128;
            i += 1;
        }
        Ok((reloads, hidden))
    }

    /// Reads a list of price levels after its count: the sums of their refreshes and their
    /// hidden volumes.
    fn levels(&mut self) -> (r: Result<(u128, u128), String>)
        requires
            old(self).wf(),
        ensures
            final(self).wf(),
            final(self).buf == old(self).buf,
            match list(old(self).buf@, old(self).pos as int, level_fields()) {
                Ok((count, start, next)) => {
                    &&& r is Ok
                    &&& final(self).pos == next
                    &&& r->Ok_0.0 == sum(old(self).buf@, start, count, 21, 9, 4)
                    &&& r->Ok_0.0 <= u64::MAX
                    &&& r->Ok_0.1 == sum(old(self).buf@, start, count, 21, 13, 8)
                },
                Err(at) => r is Err && r->Err_0@ == truncated(at),
            },
    {
        let ghost buf = self.buf@;
        let ghost pos = self.pos as int;
        let ghost len = buf.len() as int;
        proof {
            lemma_one_field(len, pos, 4);
        }
        let count: u64 = match self.u32() {
            Ok(count) => count,
            Err(message) => return Err(message),
        };
        let ghost start = self.pos as int;
        let mut refreshes: u128 = 0;
        let mut hidden: u128 = 0;
        let mut i: u64 = 0;
        while i < count
            invariant
                i <= count <= u32::MAX,
                self.wf(),
                self.buf == old(self).buf,
                buf == self.buf@,
                len == buf.len(),
                pos == old(self).pos,
                count == le(buf, pos, 4),
                fields(len, pos, seq![4]) == Ok::<int, int>(start),
                records(len, start, i as nat, level_fields()) == Ok::<int, int>(self.pos as int),
                self.pos == start + i * 21,
                refreshes == sum(buf, start, i as nat, 21, 9, 4),
                hidden == sum(buf, start, i as nat, 21, 13, 8),
                refreshes <= i * 0x1_0000_0000,
                hidden <= i * 0x1_0000_0000_0000_0000,
            decreases count - i,
        {
            proof {
                let here = self.pos as int;
                lemma_four_fields(len, here, 1, 8, 4, 8);
                if fields(len, here, level_fields()) is Err {
                    lemma_records_fail(len, start, (i + 1) as nat, count as nat, level_fields());
                }
            }
            let _side: u64 = match self.u8() {
                Ok(side) => side,
                Err(message) => return Err(message),
            };
            let _price: u64 = match self.u64() {
                Ok(price) => price,
                Err(message) => return Err(message),
            };
            let n: u64 = match self.u32() {
                Ok(n) => n,
                Err(message) => return Err(message),
            };
            let volume: u64 = match self.u64() {
                Ok(volume) => volume,
                Err(message) => return Err(message),
            };
            refreshes = refreshes + n as u128;
            hidden = hidden + volume as u128;
            i += 1;
        }
        Ok((refreshes, hidden))
    }
}

/// Whether the result is what the section holds.
pub open spec fn reads_as(r: Result<RefreshTotals, String>, want: Result<Totals, Seq<char>>) -> bool {
    match want {
        Ok(totals) => r matches Ok(got) && got.count == totals.count && got.hidden == totals.hidden
            && got.live_reloads == totals.live_reloads && got.live_hidden == totals.live_hidden,
        Err(problem) => r matches Err(message) && message@ == problem,
    }
}

/// Reads the totals of a refresh section of the given version.
pub fn parse_refresh(bytes: &Vec<u8>, version: u16) -> (r: Result<RefreshTotals, String>)
    ensures
        reads_as(r, section(bytes@, version)),
{
    let mut sec: Sec<'_> = Sec::new(bytes);
    let found: u64 = match sec.u16() {
        Ok(found) => found,
        Err(message) => return Err(message),
    };
    if found != version as u64 {
        return Err("REFRESH version mismatch".to_owned());
    }
    let header: Vec<usize> = vec![4, 8];
    assert(ints(header@) =~= seq![4int, 8int]);
    if let Err(message) = sec.skip_fields(&header) {
        return Err(message);
    }
    let (live_reloads, live_hidden): (u128, u128) = match sec.live_orders() {
        Ok(sums) => sums,
        Err(message) => return Err(message),
    };
    let pending: Vec<usize> = vec![8, 1, 8, 8, 4, 4, 8];
    assert(ints(pending@) =~= pending_fields());
    if let Err(message) = sec.skip_list(&pending) {
        return Err(message);
    }
    let recent: Vec<usize> = vec![8, 8, 1, 8, 4];
    assert(ints(recent@) =~= recent_fields());
    if let Err(message) = sec.skip_list(&recent) {
        return Err(message);
    }
    let (count, hidden): (u128, u128) = match sec.levels() {
        Ok(sums) => sums,
        Err(message) => return Err(message),
    };
    if sec.pos != bytes.len() {
        return Err(
            concat2(
                decimal_string((bytes.len() - sec.pos) as u64).as_str(),
                " trailing REFRESH bytes",
            ),
        );
    }
    Ok(
        RefreshTotals {
            count: count as u64,
            hidden,
            live_reloads: live_reloads as u64,
            live_hidden,
        },
    )
}

/// Widths as numbers.
spec fn ints(widths: Seq<usize>) -> Seq<int> {
    Seq::new(widths.len(), |i: int| widths[i] as int)
}

proof fn lemma_one_field(len: int, pos: int, width: int)
    ensures
        fields(len, pos, seq![width]) == if pos + width > len {
            Err::<int, int>(pos)
        } else {
            Ok::<int, int>(pos + width)
        },
{
    reveal_with_fuel(fields, 2);
    assert(seq![width].skip(1) =~= Seq::<int>::empty());
}

proof fn lemma_four_fields(len: int, pos: int, a: int, b: int, c: int, d: int)
    requires
        a >= 0,
        b >= 0,
        c >= 0,
        d >= 0,
    ensures
        fields(len, pos, seq![a, b, c, d]) == if pos + a > len {
            Err::<int, int>(pos)
        } else if pos + a + b > len {
            Err::<int, int>(pos + a)
        } else if pos + a + b + c > len {
            Err::<int, int>(pos + a + b)
        } else if pos + a + b + c + d > len {
            Err::<int, int>(pos + a + b + c)
        } else {
            Ok::<int, int>(pos + a + b + c + d)
        },
{
    let w = seq![a, b, c, d];
    reveal_with_fuel(fields, 5);
    assert(w.skip(1) =~= seq![b, c, d]);
    assert(w.skip(1).skip(1) =~= seq![c, d]);
    assert(w.skip(1).skip(1).skip(1) =~= seq![d]);
    assert(w.skip(1).skip(1).skip(1).skip(1) =~= Seq::<int>::empty());
}

proof fn lemma_records_fail(len: int, pos: int, j: nat, k: nat, widths: Seq<int>)
    requires
        j <= k,
        records(len, pos, j, widths) is Err,
    ensures
        records(len, pos, k, widths) == records(len, pos, j, widths),
    decreases k,
{
    if j < k {
        lemma_records_fail(len, pos, j, (k - 1) as nat, widths);
    }
}

/// The number that four bytes spell, the lowest first.
pub open spec fn four_bytes(buf: Seq<u8>, pos: int) -> int {
    buf[pos] + 256 * buf[pos + 1] + 65_536 * buf[pos + 2] + 16_777_216 * buf[pos + 3]
}

/// The number that eight bytes spell, the lowest first.
pub open spec fn eight_bytes(buf: Seq<u8>, pos: int) -> int {
    four_bytes(buf, pos) + 4_294_967_296 * four_bytes(buf, pos + 4)
}

/// The sum of the first `count` numbers.
pub open spec fn added(count: nat, number: spec_fn(int) -> int) -> int
    decreases count,
{
    if count == 0 {
        0
    } else {
        added((count - 1) as nat, number) + number(count - 1)
    }
}

proof fn lemma_le_bytes(buf: Seq<u8>, pos: int)
    ensures
        le(buf, pos, 2) == buf[pos] + 256 * buf[pos + 1],
        le(buf, pos, 4) == four_bytes(buf, pos),
        le(buf, pos, 8) == eight_bytes(buf, pos),
{
    reveal_with_fuel(le, 9);
}

proof fn lemma_whole_records(len: int, pos: int, count: nat, widths: Seq<int>, width: int)
    requires
        width > 0,
        pos + count * width <= len,
        forall|at: int| at + width <= len ==> #[trigger] fields(len, at, widths) == Ok::<int, int>(
            at + width,
        ),
    ensures
        records(len, pos, count, widths) == Ok::<int, int>(pos + count * width),
    decreases count,
{
    if count > 0 {
        let before = (count - 1) as nat;
        assert(count * width == before * width + width) by (nonlinear_arith)
            requires
                count == before + 1,
        ;
        lemma_whole_records(len, pos, before, widths, width);
        let at = pos + before * width;
        assert(fields(len, at, widths) == Ok::<int, int>(at + width));
    } else {
        assert(count * width == 0) by (nonlinear_arith)
            requires
                count == 0,
        ;
    }
}

proof fn lemma_sum_added(
    buf: Seq<u8>,
    pos: int,
    count: nat,
    width: int,
    offset: int,
    n: nat,
    number: spec_fn(int) -> int,
)
    requires
        forall|i: int| 0 <= i < count ==> #[trigger] number(i) == le(
            buf,
            pos + i * width + offset,
            n,
        ),
    ensures
        sum(buf, pos, count, width, offset, n) == added(count, number),
    decreases count,
{
    if count > 0 {
        lemma_sum_added(buf, pos, (count - 1) as nat, width, offset, n, number);
        assert(number(count - 1) == le(buf, pos + (count - 1) * width + offset, n));
    }
}

proof fn lemma_widths(len: int, at: int)
    ensures
        at + 21 <= len ==> fields(len, at, live_fields()) == Ok::<int, int>(at + 21),
        at + 41 <= len ==> fields(len, at, pending_fields()) == Ok::<int, int>(at + 41),
        at + 29 <= len ==> fields(len, at, recent_fields()) == Ok::<int, int>(at + 29),
        at + 21 <= len ==> fields(len, at, level_fields()) == Ok::<int, int>(at + 21),
        at + 4 <= len ==> fields(len, at, seq![4]) == Ok::<int, int>(at + 4),
        at + 12 <= len ==> fields(len, at, seq![4, 8]) == Ok::<int, int>(at + 12),
{
    reveal_with_fuel(fields, 9);
    lemma_four_fields(len, at, 8, 4, 8, 1);
    lemma_four_fields(len, at, 1, 8, 4, 8);
    let p = pending_fields();
    assert(p.skip(1) =~= seq![1, 8, 8, 4, 4, 8]);
    assert(p.skip(1).skip(1) =~= seq![8, 8, 4, 4, 8]);
    assert(p.skip(1).skip(1).skip(1) =~= seq![8, 4, 4, 8]);
    lemma_four_fields(len, at + 17, 8, 4, 4, 8);
    let q = recent_fields();
    assert(q.skip(1) =~= seq![8, 1, 8, 4]);
    lemma_four_fields(len, at + 8, 8, 1, 8, 4);
    assert(seq![4int].skip(1) =~= Seq::<int>::empty());
    assert(seq![4int, 8].skip(1) =~= seq![8int]);
    assert(seq![4int, 8].skip(1).skip(1) =~= Seq::<int>::empty());
}

/// A section in which every list has as many records as its count says, and which ends with them,
/// gives its totals: the reloads and the hidden volumes of the live orders, and the refreshes and the
/// hidden volumes of the price levels, each from its own place in the records.
pub proof fn law_section_totals(
    bytes: &Vec<u8>,
    version: u16,
    r: Result<RefreshTotals, String>,
    live: nat,
    pending: nat,
    recent: nat,
    levels: nat,
)
    requires
        call_ensures(parse_refresh, (bytes, version), r),
        ({
            let b = bytes@;
            let second = (18 + 21 * live) as int;
            let third = second + 4 + 41 * pending;
            let fourth = third + 4 + 29 * recent;
            &&& b.len() == fourth + 4 + 21 * levels
            &&& b[0] + 256 * b[1] == version
            &&& four_bytes(b, 14) == live
            &&& four_bytes(b, second) == pending
            &&& four_bytes(b, third) == recent
            &&& four_bytes(b, fourth) == levels
        }),
    ensures
        r is Ok,
        ({
            let b = bytes@;
            let fourth = (18 + 21 * live + 4 + 41 * pending + 4 + 29 * recent) as int;
            &&& r->Ok_0.live_reloads == added(live, |i: int| four_bytes(b, 18 + 21 * i + 8))
            &&& r->Ok_0.live_hidden == added(live, |i: int| eight_bytes(b, 18 + 21 * i + 12))
            &&& r->Ok_0.count == added(levels, |i: int| four_bytes(b, fourth + 4 + 21 * i + 9))
            &&& r->Ok_0.hidden == added(levels, |i: int| eight_bytes(b, fourth + 4 + 21 * i + 13))
        }),
{
    let b = bytes@;
    let len = b.len() as int;
    let second = (18 + 21 * live) as int;
    let third = second + 4 + 41 * pending;
    let fourth = third + 4 + 29 * recent;
    assert forall|at: int| #![auto] true implies (at + 21 <= len ==> fields(
        len,
        at,
        live_fields(),
    ) == Ok::<int, int>(at + 21)) && (at + 41 <= len ==> fields(len, at, pending_fields()) == Ok::<
        int,
        int,
    >(at + 41)) && (at + 29 <= len ==> fields(len, at, recent_fields()) == Ok::<int, int>(at + 29))
        && (at + 21 <= len ==> fields(len, at, level_fields()) == Ok::<int, int>(at + 21)) by {
        lemma_widths(len, at);
    }
    lemma_widths(len, 2);
    lemma_widths(len, 14);
    lemma_widths(len, second);
    lemma_widths(len, third);
    lemma_widths(len, fourth);
    lemma_le_bytes(b, 0);
    lemma_le_bytes(b, 14);
    lemma_le_bytes(b, second);
    lemma_le_bytes(b, third);
    lemma_le_bytes(b, fourth);
    lemma_whole_records(len, 18, live, live_fields(), 21);
    lemma_whole_records(len, second + 4, pending, pending_fields(), 41);
    lemma_whole_records(len, third + 4, recent, recent_fields(), 29);
    lemma_whole_records(len, fourth + 4, levels, level_fields(), 21);
    let reloads = |i: int| four_bytes(b, 18 + 21 * i + 8);
    let held = |i: int| eight_bytes(b, 18 + 21 * i + 12);
    let counts = |i: int| four_bytes(b, fourth + 4 + 21 * i + 9);
    let hidden = |i: int| eight_bytes(b, fourth + 4 + 21 * i + 13);
    assert forall|i: int| #[trigger] reloads(i) == le(b, 18 + i * 21 + 8, 4) by {
        lemma_le_bytes(b, 18 + i * 21 + 8);
    }
    assert forall|i: int| #[trigger] held(i) == le(b, 18 + i * 21 + 12, 8) by {
        lemma_le_bytes(b, 18 + i * 21 + 12);
    }
    assert forall|i: int| #[trigger] counts(i) == le(b, fourth + 4 + i * 21 + 9, 4) by {
        lemma_le_bytes(b, fourth + 4 + i * 21 + 9);
    }
    assert forall|i: int| #[trigger] hidden(i) == le(b, fourth + 4 + i * 21 + 13, 8) by {
        lemma_le_bytes(b, fourth + 4 + i * 21 + 13);
    }
    lemma_sum_added(b, 18, live, 21, 8, 4, reloads);
    lemma_sum_added(b, 18, live, 21, 12, 8, held);
    lemma_sum_added(b, fourth + 4, levels, 21, 9, 4, counts);
    lemma_sum_added(b, fourth + 4, levels, 21, 13, 8, hidden);
    assert(r->Ok_0.live_reloads == added(live, reloads));
}

/// A section of another version is refused.
pub proof fn law_other_version_refused(
    bytes: &Vec<u8>,
    version: u16,
    r: Result<RefreshTotals, String>,
)
    requires
        call_ensures(parse_refresh, (bytes, version), r),
        bytes@.len() < 2 || bytes@[0] + 256 * bytes@[1] != version,
    ensures
        r is Err,
{
    if bytes@.len() >= 2 {
        lemma_le_bytes(bytes@, 0);
    }
}

} // verus!
