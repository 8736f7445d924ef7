//! Deterministic sampling: a small generator, the seek targets that it picks, and the chunks
//! that it cuts a replay into.

use crate::num::{ascending, greatest, least, sorted};
use vstd::prelude::*;

verus! {

/// What a zero seed stands for: zero is the one state that the generator never leaves.
pub const ZERO_SEED: u64 = 0x9E37_79B9_7F4A_7C15;

/// How many draws are made for the cuts of one replay.
pub const MAX_DRAWS: u64 = 0xffff_ffff_ffff_ffff;

/// One step of the generator.
pub open spec fn stepped(x: u64) -> u64 {
    let a = x ^ (x << 13);
    let b = a ^ (a >> 7);
    b ^ (b << 17)
}

/// The state after `n` steps.
pub open spec fn stepped_times(x: u64, n: nat) -> u64
    decreases n,
{
    if n == 0 {
        x
    } else {
        stepped(stepped_times(x, (n - 1) as nat))
    }
}

/// The generator never steps to zero, and no two states step to the same one.
pub proof fn law_stepped(x: u64, y: u64)
    ensures
        x != 0 ==> stepped(x) != 0,
        stepped(x) == stepped(y) ==> x == y,
{
    let ax = x ^ (x << 13);
    let ay = y ^ (y << 13);
    let bx = ax ^ (ax >> 7);
    let by_ = ay ^ (ay >> 7);
    assert(x ^ (x << 13) == y ^ (y << 13) ==> x == y) by (bit_vector);
    assert(ax ^ (ax >> 7) == ay ^ (ay >> 7) ==> ax == ay) by (bit_vector);
    assert(bx ^ (bx << 17) == by_ ^ (by_ << 17) ==> bx == by_) by (bit_vector);
    assert(x != 0 ==> x ^ (x << 13) != 0) by (bit_vector);
    assert(ax != 0 ==> ax ^ (ax >> 7) != 0) by (bit_vector);
    assert(bx != 0 ==> bx ^ (bx << 17) != 0) by (bit_vector);
}

/// A deterministic generator of 64-bit numbers.
#[derive(Clone, Copy, Debug)]
pub struct XorShift64(u64);

impl View for XorShift64 {
    type V = u64;

    closed spec fn view(&self) -> u64 {
        self.0
    }
}

impl XorShift64 {
    /// The generator of a seed.
    pub fn new(seed: u64) -> (r: XorShift64)
        ensures
            r@ == if seed == 0 {
                ZERO_SEED
            } else {
                seed
            },
            r@ != 0,
    {
        XorShift64(
            if seed == 0 {
                ZERO_SEED
            } else {
                seed
            },
        )
    }

    /// The next number, which is the next state too.
    pub fn next(&mut self) -> (r: u64)
        ensures
            r == stepped(old(self)@),
            final(self)@ == r,
            old(self)@ != 0 ==> r != 0,
    {
        proof {
            law_stepped(self.0, self.0);
        }
        let mut x: u64 = self.0;
        x = x ^ (x << 13);
        x = x ^ (x >> 7);
        x = x ^ (x << 17);
        self.0 = x;
        x
    }

    /// A number between `lo` and `hi`, both among those that can come. An empty or single range
    /// gives `lo` and draws nothing.
    pub fn gen_inclusive(&mut self, lo: u64, hi: u64) -> (r: u64)
        ensures
            r == sampled(old(self)@, lo, hi),
            final(self)@ == (if lo >= hi {
                old(self)@
            } else {
                stepped(old(self)@)
            }),
            lo < hi ==> lo <= r <= hi,
    {
        if lo >= hi {
            return lo;
        }
        let x: u64 = self.next();
        if hi - lo == u64::MAX {
            return x;
        }
        lo + x % (hi - lo + 1)
    }
}

/// What the state `x` gives for the range.
pub open spec fn sampled(x: u64, lo: u64, hi: u64) -> int {
    if lo >= hi {
        lo as int
    } else {
        lo + stepped(x) as int % (hi - lo + 1)
    }
}

/// Seek targets between two timestamps: as many as asked for, each from the next state.
pub fn sample_targets(seed: u64, n: usize, first_ts: u64, last_ts: u64) -> (r: Vec<u64>)
    ensures
        r.len() == n,
        forall|i: int|
            0 <= i < n ==> #[trigger] r@[i] == sampled(
                stepped_times(
                    if seed == 0 {
                        ZERO_SEED
                    } else {
                        seed
                    },
                    i as nat,
                ),
                first_ts,
                last_ts,
            ),
        first_ts <= last_ts ==> forall|i: int|
            0 <= i < n ==> first_ts <= #[trigger] r@[i] <= last_ts,
{
    let mut rng: XorShift64 = XorShift64::new(seed);
    let ghost start = rng@;
    let mut out: Vec<u64> = Vec::new();
    while out.len() < n
        invariant
            out.len() <= n,
            start == if seed == 0 {
                ZERO_SEED
            } else {
                seed
            },
            first_ts < last_ts ==> rng@ == stepped_times(start, out.len() as nat),
            forall|i: int|
                0 <= i < out.len() ==> #[trigger] out@[i] == sampled(
                    stepped_times(start, i as nat),
                    first_ts,
                    last_ts,
                ),
            first_ts <= last_ts ==> forall|i: int|
                0 <= i < out.len() ==> first_ts <= #[trigger] out@[i] <= last_ts,
        decreases n - out.len(),
    {
        let t: u64 = rng.gen_inclusive(first_ts, last_ts);
        out.push(t);
    }
    out
}

/// The cut that a number stands for in `1..n`.
pub open spec fn cut_of(x: u64, n: int) -> u64 {
    (1 + x as int % (n - 1)) as u64
}

/// The cuts that the state `x` draws, after those in `cuts`: `want` different ones, or those met
/// in `draws` draws; and the state after them.
pub open spec fn drawn(x: u64, n: int, want: nat, cuts: Seq<u64>, draws: nat) -> (Seq<u64>, u64)
    decreases draws,
{
    if cuts.len() >= want || draws == 0 {
        (cuts, x)
    } else {
        let next = stepped(x);
        let cut = cut_of(next, n);
        drawn(
            next,
            n,
            want,
            if cuts.contains(cut) {
                cuts
            } else {
                cuts.push(cut)
            },
            (draws - 1) as nat,
        )
    }
}

/// The cuts with the lowest ones from `next` on that are not among them, until there are `want`.
pub open spec fn filled(cuts: Seq<u64>, n: int, want: nat, next: int) -> Seq<u64>
    decreases n - next,
{
    if cuts.len() >= want || next >= n {
        cuts
    } else {
        filled(
            if cuts.contains(next as u64) {
                cuts
            } else {
                cuts.push(next as u64)
            },
            n,
            want,
            next + 1,
        )
    }
}

/// The cuts that the state `x` gives: those that are drawn and, should the draws run out, the
/// lowest others; and the state after them.
pub open spec fn cuts_from(x: u64, n: int, want: nat) -> (Seq<u64>, u64) {
    let (cuts, state) = drawn(x, n, want, Seq::empty(), MAX_DRAWS as nat);
    (filled(cuts, n, want, 1), state)
}

/// Where the chunk `j` begins: at the start, at a cut, or, past the last cut, at the end.
pub open spec fn bound(cuts: Seq<u64>, n: int, j: int) -> int {
    if j <= 0 {
        0
    } else if j <= cuts.len() {
        cuts[j - 1] as int
    } else {
        n
    }
}

/// The sum of the sizes.
pub open spec fn total(sizes: Seq<usize>) -> int
    decreases sizes.len(),
{
    if sizes.len() == 0 {
        0
    } else {
        total(sizes.drop_last()) + sizes.last()
    }
}

/// How many chunks are cut: as many as asked for, one at least, and no more than events.
pub open spec fn chunk_count(n: int, n_chunks: int) -> int {
    least(greatest(n_chunks, 1), n)
}

/// Whether `v` holds `x`.
fn holds(v: &Vec<u64>, x: u64) -> (r: bool)
    ensures
        r == v@.contains(x),
{
    let mut i: usize = 0;
    while i < v.len()
        invariant
            i <= v.len(),
            forall|j: int| 0 <= j < i ==> #[trigger] v@[j] != x,
        decreases v.len() - i,
    {
        if v[i] == x {
            assert(v@[i as int] == x);
            return true;
        }
        i += 1;
    }
    false
}

spec fn below(k: int) -> Set<u64> {
    Set::new(|v: u64| 1 <= v < k)
}

proof fn lemma_below(k: int)
    requires
        1 <= k <= u64::MAX,
    ensures
        below(k).finite(),
        below(k).len() == k - 1,
    decreases k,
{
    if k == 1 {
        assert(below(k) =~= Set::empty());
    } else {
        lemma_below(k - 1);
        assert(below(k) =~= below(k - 1).insert((k - 1) as u64));
    }
}

/// Among cuts that leave none out there are enough.
proof fn lemma_none_left_out(cuts: Seq<u64>, n: int)
    requires
        1 <= n <= u64::MAX,
        forall|v: u64| 1 <= v < n ==> #[trigger] cuts.contains(v),
    ensures
        cuts.len() >= n - 1,
{
    lemma_below(n);
    cuts.lemma_cardinality_of_set();
    assert(below(n).subset_of(cuts.to_set()));
    vstd::set_lib::lemma_len_subset(below(n), cuts.to_set());
}

/// Draws the cuts.
fn draw_cuts(n: usize, want: usize, rng: &mut XorShift64) -> (r: Vec<u64>)
    requires
        n >= 2,
        want < n,
    ensures
        (r@, final(rng)@) == cuts_from(old(rng)@, n as int, want as nat),
        r.len() == want,
        r@.no_duplicates(),
        forall|i: int| 0 <= i < r.len() ==> 1 <= #[trigger] r@[i] < n,
{
    let mut cuts: Vec<u64> = Vec::new();
    let mut draws: u64 = MAX_DRAWS;
    while cuts.len() < want && draws > 0
        invariant
            n >= 2,
            cuts.len() <= want,
            cuts@.no_duplicates(),
            forall|i: int| 0 <= i < cuts.len() ==> 1 <= #[trigger] cuts@[i] < n,
            drawn(old(rng)@, n as int, want as nat, Seq::empty(), MAX_DRAWS as nat) == drawn(
                rng@,
                n as int,
                want as nat,
                cuts@,
                draws as nat,
            ),
        decreases draws,
    {
        let x: u64 = rng.next();
        let cut: u64 = 1 + x % ((n - 1) as u64);
        if !holds(&cuts, cut) {
            cuts.push(cut);
        }
        draws -= 1;
    }
    let ghost met = cuts@;
    let mut next: u64 = 1;
    while cuts.len() < want && next < n as u64
        invariant
            1 <= next <= n,
            want < n,
            cuts.len() <= want,
            cuts@.no_duplicates(),
            forall|i: int| 0 <= i < cuts.len() ==> 1 <= #[trigger] cuts@[i] < n,
            forall|v: u64| 1 <= v < next ==> #[trigger] cuts@.contains(v),
            filled(met, n as int, want as nat, 1) == filled(
                cuts@,
                n as int,
                want as nat,
                next as int,
            ),
        decreases n - next,
    {
        let ghost before = cuts@;
        if !holds(&cuts, next) {
            cuts.push(next);
            assert(cuts@[before.len() as int] == next);
        }
        assert forall|v: u64| 1 <= v < next + 1 implies #[trigger] cuts@.contains(v) by {
            if v < next {
                let i = choose|i: int| 0 <= i < before.len() && before[i] == v;
                assert(before.contains(v));
                assert(cuts@[i] == v);
            }
        }
        next += 1;
    }
    proof {
        if cuts.len() < want {
            lemma_none_left_out(cuts@, n as int);
        }
    }
    cuts
}

/// Splits `n` events into chunks of random sizes, none of them empty, that add up to `n`. There
/// are as many chunks as `chunk_count` says. No events give empty chunks.
pub fn split_sizes(n: usize, n_chunks: usize, rng: &mut XorShift64) -> (r: Vec<usize>)
    ensures
        n == 0 ==> r@ == Seq::new(greatest(n_chunks as int, 1) as nat, |i: int| 0usize)
            && final(rng)@ == old(rng)@,
        n > 0 && chunk_count(n as int, n_chunks as int) == 1 ==> r@ == seq![n] && final(rng)@
            == old(rng)@,
        n > 0 && chunk_count(n as int, n_chunks as int) > 1 ==> ({
            let (cuts, state) = cuts_from(
                old(rng)@,
                n as int,
                (chunk_count(n as int, n_chunks as int) - 1) as nat,
            );
            &&& final(rng)@ == state
            &&& r.len() == cuts.len() + 1
            &&& forall|i: int|
                0 <= i < r.len() ==> #[trigger] r@[i] == bound(ascending(cuts), n as int, i + 1)
                    - bound(ascending(cuts), n as int, i)
        }),
        n > 0 ==> r.len() == chunk_count(n as int, n_chunks as int),
        n > 0 ==> forall|i: int| 0 <= i < r.len() ==> #[trigger] r@[i] > 0,
        total(r@) == n,
{
    if n == 0 {
        let mut sizes: Vec<usize> = Vec::new();
        let count: usize = if n_chunks < 1 {
            1
        } else {
            n_chunks
        };
        while sizes.len() < count
            invariant
                sizes.len() <= count,
                total(sizes@) == 0,
                forall|i: int| 0 <= i < sizes.len() ==> #[trigger] sizes@[i] == 0,
            decreases count - sizes.len(),
        {
            let ghost before = sizes@;
            sizes.push(0);
            assert(sizes@.drop_last() =~= before);
        }
        return sizes;
    }
    let k: usize = if n_chunks < 1 {
        1
    } else if n_chunks > n {
        n
    } else {
        n_chunks
    };
    if k == 1 {
        let mut sizes: Vec<usize> = Vec::new();
        sizes.push(n);
        assert(sizes@ =~= seq![n]);
        assert(sizes@.drop_last() =~= Seq::<usize>::empty());
        assert(total(sizes@.drop_last()) == 0);
        return sizes;
    }
    let cuts: Vec<u64> = draw_cuts(n, k - 1, rng);
    let at: Vec<u64> = sorted(&cuts);
    proof {
        lemma_cuts_ascend(cuts@, n as int);
    }
    let mut sizes: Vec<usize> = Vec::new();
    let mut prev: u64 = 0;
    while sizes.len() < at.len()
        invariant
            sizes.len() <= at.len(),
            prev == bound(at@, n as int, sizes.len() as int),
            forall|i: int| 0 <= i < at.len() ==> 1 <= #[trigger] at@[i] < n,
            forall|i: int, j: int| 0 <= i < j < at.len() ==> #[trigger] at@[i] < #[trigger] at@[j],
            forall|i: int|
                0 <= i < sizes.len() ==> #[trigger] sizes@[i] == bound(at@, n as int, i + 1)
                    - bound(at@, n as int, i) && sizes@[i] > 0,
            total(sizes@) == prev,
        decreases at.len() - sizes.len(),
    {
        let ghost before = sizes@;
        let c: u64 = at[sizes.len()];
        assert(prev < c) by {
            if sizes.len() > 0 {
                assert(at@[sizes.len() - 1] < at@[sizes.len() as int]);
            }
        }
        sizes.push((c - prev) as usize);
        assert(sizes@.drop_last() =~= before);
        prev = c;
    }
    let ghost before = sizes@;
    sizes.push((n as u64 - prev) as usize);
    assert(sizes@.drop_last() =~= before);
    sizes
}

proof fn lemma_cuts_ascend(cuts: Seq<u64>, n: int)
    requires
        cuts.no_duplicates(),
        forall|i: int| 0 <= i < cuts.len() ==> 1 <= #[trigger] cuts[i] < n,
    ensures
        ascending(cuts).len() == cuts.len(),
        forall|i: int| 0 <= i < cuts.len() ==> 1 <= #[trigger] ascending(cuts)[i] < n,
        forall|i: int, j: int|
            0 <= i < j < cuts.len() ==> #[trigger] ascending(cuts)[i] < #[trigger] ascending(
                cuts,
            )[j],
{
    broadcast use vstd::seq_lib::group_to_multiset_ensures;
    broadcast use vstd::multiset::group_multiset_axioms;

    let leq = |a: u64, b: u64| a <= b;
    let at = ascending(cuts);
    assert(vstd::relations::total_ordering(leq));
    cuts.lemma_sort_by_ensures(leq);
    assert(at.to_multiset() == cuts.to_multiset());
    assert(at.to_multiset().len() == at.len());
    assert(cuts.to_multiset().len() == cuts.len());
    cuts.lemma_multiset_has_no_duplicates();
    at.lemma_multiset_has_no_duplicates_conv();
    assert forall|i: int| 0 <= i < cuts.len() implies 1 <= #[trigger] at[i] < n by {
        assert(at.contains(at[i]));
        assert(at.to_multiset().contains(at[i]));
        assert(cuts.contains(at[i]));
    }
    assert forall|i: int, j: int| 0 <= i < j < cuts.len() implies #[trigger] at[i]
        < #[trigger] at[j] by {
        assert(leq(at[i], at[j]));
        assert(at[i] != at[j]);
    }
}

/// A drawn number lies in the range, and differs from the generator's next number by a multiple of
/// the range's size; a range of one number, or none, draws nothing.
pub proof fn law_drawn_in_range(
    rng: &mut XorShift64,
    twin: &mut XorShift64,
    lo: u64,
    hi: u64,
    r: u64,
    x: u64,
)
    requires
        old(rng)@ == old(twin)@,
        call_ensures(XorShift64::gen_inclusive, (rng, lo, hi), r),
        call_ensures(XorShift64::next, (twin,), x),
    ensures
        lo >= hi ==> r == lo && final(rng)@ == old(rng)@,
        lo < hi ==> lo <= r <= hi && final(rng)@ == final(twin)@,
        lo < hi ==> (x - (r - lo)) % (hi - lo + 1) == 0,
        lo < hi ==> r - lo <= x,
{
    if lo < hi {
        let m = hi - lo + 1;
        vstd::arithmetic::div_mod::lemma_fundamental_div_mod(x as int, m);
        vstd::arithmetic::div_mod::lemma_mod_bound(x as int, m);
        let q = x as int / m;
        assert(x - (r - lo) == q * m) by (nonlinear_arith)
            requires
                x == m * q + (r - lo),
        ;
        vstd::arithmetic::div_mod::lemma_mod_multiples_basic(q, m);
        vstd::arithmetic::div_mod::lemma_div_pos_is_pos(x as int, m);
        assert(q * m >= 0) by (nonlinear_arith)
            requires
                q >= 0,
                m > 0,
        ;
    }
}

/// The number that comes next is the next state, and generators in the same state go on alike.
pub proof fn law_same_state_same_numbers(
    rng: &mut XorShift64,
    twin: &mut XorShift64,
    r: u64,
    s: u64,
)
    requires
        old(rng)@ == old(twin)@,
        old(rng)@ != 0,
        call_ensures(XorShift64::next, (rng,), r),
        call_ensures(XorShift64::next, (twin,), s),
    ensures
        r == s,
        r != 0,
        final(rng)@ == r,
{
}

/// Targets depend on the seed alone: more of them begin with the same ones, and all lie between the
/// two times. The first is the first number that a generator of the seed draws.
pub proof fn law_targets_begin_alike(
    seed: u64,
    n: usize,
    m: usize,
    first_ts: u64,
    last_ts: u64,
    r: Vec<u64>,
    s: Vec<u64>,
    made: XorShift64,
    rng: &mut XorShift64,
    x: u64,
)
    requires
        first_ts <= last_ts,
        n <= m,
        call_ensures(sample_targets, (seed, n, first_ts, last_ts), r),
        call_ensures(sample_targets, (seed, m, first_ts, last_ts), s),
        call_ensures(XorShift64::new, (seed,), made),
        old(rng)@ == made@,
        call_ensures(XorShift64::gen_inclusive, (rng, first_ts, last_ts), x),
    ensures
        r.len() == n && s.len() == m,
        forall|i: int| 0 <= i < n ==> #[trigger] r@[i] == s@[i],
        forall|i: int| 0 <= i < n ==> first_ts <= #[trigger] r@[i] <= last_ts,
        n > 0 ==> r@[0] == x,
        seed != 0 ==> made@ == seed,
        made@ != 0,
{
    if n > 0 {
        assert(stepped_times(made@, 0) == made@);
    }
}

/// Chunks are as many as asked for, one at least and no more than there are events; none is empty,
/// and together they are all the events.
pub proof fn law_chunks_of_events(
    n: usize,
    n_chunks: usize,
    rng: &mut XorShift64,
    r: Vec<usize>,
)
    requires
        n > 0,
        call_ensures(split_sizes, (n, n_chunks, rng), r),
    ensures
        0 < n_chunks <= n ==> r.len() == n_chunks,
        n_chunks > n ==> r.len() == n,
        n_chunks == 0 ==> r.len() == 1,
        forall|i: int| 0 <= i < r.len() ==> #[trigger] r@[i] > 0,
        r@.map_values(|size: usize| size as int).fold_left(0int, |sum: int, size: int| sum + size)
            == n,
{
    lemma_total_fold(r@);
}

proof fn lemma_total_fold(sizes: Seq<usize>)
    ensures
        sizes.map_values(|size: usize| size as int).fold_left(
            0int,
            |sum: int, size: int| sum + size,
        ) == total(sizes),
    decreases sizes.len(),
{
    let wide = sizes.map_values(|size: usize| size as int);
    if sizes.len() > 0 {
        lemma_total_fold(sizes.drop_last());
        assert(wide.drop_last() =~= sizes.drop_last().map_values(|size: usize| size as int));
    }
}

} // verus!
