//! Frame times in a log-scale histogram, against a deadline.
//!
//! Times are nanoseconds. Values below thirty-two have a bucket each; from there on every
//! octave is split into thirty-two buckets, so that a bucket is never wider than a
//! thirty-second of its lower bound.

use crate::num::ascending;
use vstd::arithmetic::power2::pow2;
use vstd::multiset::Multiset;
use vstd::prelude::*;

verus! {

/// Buckets per octave.
pub const SUB: u64 = 32;

/// Buckets for the whole range of nanoseconds.
pub const NUM_BUCKETS: usize = 1920;

/// The smallest value of a bucket.
pub open spec fn lower(index: int) -> int {
    if index < 32 {
        index
    } else {
        (32 + index % 32) * pow2((index / 32 - 1) as nat)
    }
}

/// The largest value of a bucket.
pub open spec fn upper(index: int) -> int {
    lower(index + 1) - 1
}

/// Whether a bucket holds a value.
pub open spec fn holds(index: int, ns: int) -> bool {
    0 <= index < NUM_BUCKETS && lower(index) <= ns <= upper(index)
}

proof fn lemma_pow2_step(e: nat)
    ensures
        pow2(e + 1) == 2 * pow2(e),
        pow2(e) >= 1,
        pow2(0) == 1,
{
    vstd::arithmetic::power2::lemma_pow2_unfold(e + 1);
    vstd::arithmetic::power2::lemma_pow2_pos(e);
    vstd::arithmetic::power2::lemma2_to64();
}

/// A bucket begins right after the one before it, and from the first octave on is as wide as
/// its octave says.
proof fn lemma_lower_step(index: int)
    requires
        0 <= index,
    ensures
        index < 32 ==> lower(index + 1) == lower(index) + 1,
        index >= 32 ==> lower(index + 1) == lower(index) + pow2((index / 32 - 1) as nat),
        lower(index) < lower(index + 1),
{
    lemma_pow2_step(0);
    if index >= 32 {
        let o = (index / 32 - 1) as nat;
        let m = index % 32;
        lemma_pow2_step(o);
        if m < 31 {
            assert((index + 1) / 32 == index / 32);
            assert((index + 1) % 32 == m + 1);
            assert((32 + m + 1) * pow2(o) == (32 + m) * pow2(o) + pow2(o)) by (nonlinear_arith);
        } else {
            assert((index + 1) / 32 == index / 32 + 1);
            assert((index + 1) % 32 == 0);
            assert(32 * pow2(o + 1) == 63 * pow2(o) + pow2(o)) by (nonlinear_arith)
                requires
                    pow2(o + 1) == 2 * pow2(o),
            ;
        }
    } else if index == 31 {
        assert((index + 1) % 32 == 0 && (index + 1) / 32 - 1 == 0);
        assert(32 * pow2(0) == 32);
    }
}

/// Buckets ascend: a later bucket begins later.
pub proof fn law_buckets_ascend(a: int, b: int)
    requires
        0 <= a < b,
    ensures
        lower(a) < lower(b),
        upper(a) < lower(b),
    decreases b - a,
{
    lemma_lower_step(a);
    if a + 1 < b {
        law_buckets_ascend(a + 1, b);
    }
}

/// No two buckets hold the same value.
pub proof fn law_one_bucket(a: int, b: int, ns: int)
    requires
        holds(a, ns),
        holds(b, ns),
    ensures
        a == b,
{
    if a < b {
        law_buckets_ascend(a, b);
    } else if b < a {
        law_buckets_ascend(b, a);
    }
}

/// Neighbouring values lie in the same bucket or in neighbouring ones.
pub proof fn law_buckets_contiguous(a: int, b: int, ns: int)
    requires
        holds(a, ns),
        holds(b, ns + 1),
    ensures
        b == a || b == a + 1,
{
    if b < a {
        law_buckets_ascend(b, a);
    } else if b > a + 1 {
        law_buckets_ascend(a + 1, b);
    }
}

/// Both ends of a bucket lie in it.
pub proof fn law_bounds_round_trip(index: int)
    requires
        0 <= index < NUM_BUCKETS,
    ensures
        holds(index, lower(index)),
        holds(index, upper(index)),
{
    lemma_lower_step(index);
}

/// From the first octave on, a bucket is at most a thirty-second of its lower bound wide.
pub proof fn law_relative_error(index: int)
    requires
        32 <= index < NUM_BUCKETS,
    ensures
        (upper(index) - lower(index)) * 32 <= lower(index),
{
    lemma_lower_step(index);
    let o = (index / 32 - 1) as nat;
    assert(32 * pow2(o) <= (32 + index % 32) * pow2(o)) by (nonlinear_arith)
        requires
            index % 32 >= 0,
            pow2(o) >= 0,
    ;
}

/// A power of two.
fn power(e: u64) -> (r: u64)
    requires
        e < 64,
    ensures
        r == pow2(e as nat),
{
    let mut r: u64 = 1;
    let mut i: u64 = 0;
    proof {
        vstd::arithmetic::power2::lemma2_to64();
        vstd::arithmetic::power2::lemma2_to64_rest();
    }
    while i < e
        invariant
            i <= e < 64,
            r == pow2(i as nat),
            pow2(63) == 0x8000_0000_0000_0000,
        decreases e - i,
    {
        proof {
            lemma_pow2_step(i as nat);
            if i + 1 < 63 {
                vstd::arithmetic::power2::lemma_pow2_strictly_increases(i as nat + 1, 63);
            }
        }
        r = r * 2;
        i += 1;
    }
    r
}

/// The bucket of a value.
pub fn bucket_index(ns: u64) -> (r: usize)
    ensures
        holds(r as int, ns as int),
{
    if ns < 32 {
        proof {
            lemma_lower_step(ns as int);
        }
        return ns as usize;
    }
    let mut octave: u64 = 0;
    let mut value: u64 = ns;
    proof {
        lemma_pow2_step(0);
        vstd::arithmetic::power2::lemma2_to64();
        vstd::arithmetic::power2::lemma2_to64_rest();
    }
    while value >= 64
        invariant
            32 <= value,
            octave <= 58,
            value * pow2(octave as nat) <= ns < (value + 1) * pow2(octave as nat),
            pow2(58) == 0x400_0000_0000_0000,
            pow2(59) == 0x800_0000_0000_0000,
        decreases value,
    {
        let half: u64 = value / 2;
        proof {
            let p = pow2(octave as nat) as int;
            lemma_pow2_step(octave as nat);
            let q = pow2(octave as nat + 1) as int;
            assert(half * q <= ns < (half + 1) * q) by (nonlinear_arith)
                requires
                    q == 2 * p,
                    p >= 1,
                    value * p <= ns < (value + 1) * p,
                    half * 2 <= value <= half * 2 + 1,
            ;
            assert(octave < 58) by {
                if octave == 58 {
                    assert(value * pow2(58) >= 64 * pow2(58)) by (nonlinear_arith)
                        requires
                            value >= 64,
                            pow2(58) >= 0,
                    ;
                }
            }
        }
        value = half;
        octave += 1;
    }
    let index: u64 = octave * 32 + value;
    proof {
        let i = index as int;
        assert(i / 32 - 1 == octave);
        assert(32 + i % 32 == value);
        lemma_lower_step(i);
        assert((value + 1) * pow2(octave as nat) == value * pow2(octave as nat) + pow2(
            octave as nat,
        )) by (nonlinear_arith);
    }
    index as usize
}

/// The smallest and the largest value of a bucket.
pub fn bucket_bounds(index: usize) -> (r: (u64, u64))
    requires
        index < NUM_BUCKETS,
    ensures
        r.0 == lower(index as int),
        r.1 == upper(index as int),
{
    let i: u64 = index as u64;
    proof {
        lemma_lower_step(index as int);
        lemma_pow2_step(0);
    }
    if i < 32 {
        return (i, i);
    }
    let octave: u64 = i / 32 - 1;
    let mantissa: u64 = i % 32;
    let width: u64 = power(octave);
    proof {
        vstd::arithmetic::power2::lemma2_to64_rest();
        if octave < 58 {
            vstd::arithmetic::power2::lemma_pow2_strictly_increases(octave as nat, 58);
        }
        assert((32 + mantissa) * width <= 63 * 0x400_0000_0000_0000) by (nonlinear_arith)
            requires
                0 <= mantissa <= 31,
                0 <= width <= 0x400_0000_0000_0000,
        ;
        assert((32 + mantissa) * width + width == (33 + mantissa) * width) by (nonlinear_arith);
    }
    let low: u64 = (32 + mantissa) * width;
    (low, low + (width - 1))
}

/// The nanoseconds that the histogram counts a time as.
pub open spec fn clamped(ns: u128) -> u64 {
    if ns <= u64::MAX {
        ns as u64
    } else {
        u64::MAX
    }
}

/// How many of the times lie in the bucket.
pub open spec fn bucket_count(samples: Seq<u128>, index: int) -> nat
    decreases samples.len(),
{
    if samples.len() == 0 {
        0
    } else {
        bucket_count(samples.drop_last(), index) + if holds(
            index,
            clamped(samples.last()) as int,
        ) {
            1nat
        } else {
            0nat
        }
    }
}

/// How many of the times lie in the buckets before `end`.
pub open spec fn count_before(samples: Seq<u128>, end: int) -> nat
    decreases end,
{
    if end <= 0 {
        0
    } else {
        count_before(samples, end - 1) + bucket_count(samples, end - 1)
    }
}

/// How many of the times are longer than the deadline.
pub open spec fn missed_count(samples: Seq<u128>, deadline: u128) -> nat
    decreases samples.len(),
{
    if samples.len() == 0 {
        0
    } else {
        missed_count(samples.drop_last(), deadline) + if samples.last() > deadline {
            1nat
        } else {
            0nat
        }
    }
}

/// The longest of the times.
pub open spec fn longest(samples: Seq<u128>) -> u64
    decreases samples.len(),
{
    if samples.len() == 0 {
        0
    } else {
        let before = longest(samples.drop_last());
        if clamped(samples.last()) > before {
            clamped(samples.last())
        } else {
            before
        }
    }
}

/// A deadline and the frame times recorded against it.
pub struct Recorded {
    pub deadline: u128,
    pub samples: Seq<u128>,
}

/// Frame times against a fixed deadline.
pub struct FrameStats {
    deadline: u128,
    buckets: Vec<u64>,
    frames: u64,
    missed: u64,
    max_ns: u64,
    samples: Ghost<Seq<u128>>,
}

/// A digest of recorded frame times, in nanoseconds.
#[derive(Clone, Copy, Debug, PartialEq, Eq, Structural)]
pub struct Summary {
    pub deadline: u128,
    pub frames: u64,
    pub missed: u64,
    pub p50: u64,
    pub p99: u64,
    pub max: u64,
}

impl View for FrameStats {
    type V = Recorded;

    closed spec fn view(&self) -> Recorded {
        Recorded { deadline: self.deadline, samples: self.samples@ }
    }
}

/// Whether `value` is the upper bound of the bucket that holds the sample of the given rank,
/// counted from one: fewer samples than the rank lie before the bucket, and enough up to it.
pub open spec fn is_quantile(samples: Seq<u128>, rank: int, value: int) -> bool {
    exists|index: int|
        {
            &&& 0 <= index < NUM_BUCKETS
            &&& value == upper(index)
            &&& #[trigger] count_before(samples, index) < rank
            &&& count_before(samples, index + 1) >= rank
        }
}

proof fn lemma_count_step(samples: Seq<u128>, ns: u128, at: int, end: int)
    requires
        holds(at, clamped(ns) as int),
        0 <= end <= NUM_BUCKETS,
    ensures
        count_before(samples.push(ns), end) == count_before(samples, end) + if at < end {
            1nat
        } else {
            0nat
        },
    decreases end,
{
    if end > 0 {
        lemma_count_step(samples, ns, at, end - 1);
        lemma_bucket_step(samples, ns, at, end - 1);
    }
}

proof fn lemma_bucket_step(samples: Seq<u128>, ns: u128, at: int, index: int)
    requires
        holds(at, clamped(ns) as int),
        0 <= index < NUM_BUCKETS,
    ensures
        bucket_count(samples.push(ns), index) == bucket_count(samples, index) + if at == index {
            1nat
        } else {
            0nat
        },
{
    assert(samples.push(ns).drop_last() =~= samples);
    if holds(index, clamped(ns) as int) {
        law_one_bucket(at, index, clamped(ns) as int);
    }
}

proof fn lemma_count_none(end: int)
    requires
        0 <= end <= NUM_BUCKETS,
    ensures
        count_before(Seq::<u128>::empty(), end) == 0,
    decreases end,
{
    if end > 0 {
        lemma_count_none(end - 1);
    }
}

proof fn lemma_bucket_below(samples: Seq<u128>, index: int)
    requires
        0 <= index < NUM_BUCKETS,
    ensures
        bucket_count(samples, index) <= samples.len(),
    decreases samples.len(),
{
    if samples.len() > 0 {
        lemma_bucket_below(samples.drop_last(), index);
    }
}

impl FrameStats {
    /// Whether the counts are those of the recorded times.
    pub closed spec fn wf(self) -> bool {
        &&& self.buckets.len() == NUM_BUCKETS
        &&& self.frames == self.samples@.len()
        &&& self.missed == missed_count(self.samples@, self.deadline)
        &&& self.missed <= self.frames
        &&& self.max_ns == longest(self.samples@)
        &&& count_before(self.samples@, NUM_BUCKETS as int) == self.samples@.len()
        &&& forall|i: int|
            0 <= i < NUM_BUCKETS ==> #[trigger] self.buckets@[i] == bucket_count(
                self.samples@,
                i,
            )
    }

    /// No frames yet, against a deadline.
    pub fn new(deadline: u128) -> (r: FrameStats)
        ensures
            r.wf(),
            r@.deadline == deadline,
            r@.samples == Seq::<u128>::empty(),
    {
        let mut buckets: Vec<u64> = Vec::new();
        let mut i: usize = 0;
        while i < NUM_BUCKETS
            invariant
                i <= NUM_BUCKETS,
                buckets.len() == i,
                forall|j: int| 0 <= j < i ==> #[trigger] buckets@[j] == 0,
            decreases NUM_BUCKETS - i,
        {
            buckets.push(0);
            i += 1;
        }
        proof {
            lemma_count_none(NUM_BUCKETS as int);
        }
        FrameStats {
            deadline,
            buckets,
            frames: 0,
            missed: 0,
            max_ns: 0,
            samples: Ghost(Seq::empty()),
        }
    }

    /// Records one frame's time.
    pub fn record(&mut self, frame_time: u128)
        requires
            old(self).wf(),
            old(self)@.samples.len() < u64::MAX,
        ensures
            final(self).wf(),
            final(self)@.deadline == old(self)@.deadline,
            final(self)@.samples == old(self)@.samples.push(frame_time),
    {
        let ns: u64 = if frame_time <= u64::MAX as u128 {
            frame_time as u64
        } else {
            u64::MAX
        };
        let index: usize = bucket_index(ns);
        let ghost before = self.samples@;
        proof {
            lemma_bucket_below(before, index as int);
            lemma_count_step(before, frame_time, index as int, NUM_BUCKETS as int);
            assert(before.push(frame_time).drop_last() =~= before);
            assert forall|i: int| 0 <= i < NUM_BUCKETS implies bucket_count(
                before.push(frame_time),
                i,
            ) == #[trigger] bucket_count(before, i) + if index == i {
                1nat
            } else {
                0nat
            } by {
                lemma_bucket_step(before, frame_time, index as int, i);
            }
        }
        let count: u64 = self.buckets[index];
        assert(self.buckets@[index as int] == bucket_count(before, index as int));
        self.buckets.set(index, count + 1);
        self.frames = self.frames + 1;
        if ns > self.max_ns {
            self.max_ns = ns;
        }
        if frame_time > self.deadline {
            self.missed = self.missed + 1;
        }
        self.samples = Ghost(before.push(frame_time));
        proof {
            assert forall|i: int| 0 <= i < NUM_BUCKETS implies #[trigger] self.buckets@[i]
                == bucket_count(self.samples@, i) by {
                assert(bucket_count(before.push(frame_time), i) == bucket_count(before, i)
                    + if index == i {
                    1nat
                } else {
                    0nat
                });
            }
        }
    }

    /// Number of recorded frames.
    pub fn frames(&self) -> (r: u64)
        requires
            self.wf(),
        ensures
            r == self@.samples.len(),
    {
        self.frames
    }

    /// Number of frames that took longer than the deadline.
    pub fn missed(&self) -> (r: u64)
        requires
            self.wf(),
        ensures
            r == missed_count(self@.samples, self@.deadline),
    {
        self.missed
    }

    /// The deadline.
    pub fn deadline(&self) -> (r: u128)
        ensures
            r == self@.deadline,
    {
        self.deadline
    }

    /// The upper bound of the bucket that holds the frame of the given rank, counted from one
    /// in ascending order of time.
    pub fn quantile(&self, rank: u64) -> (r: u64)
        requires
            self.wf(),
            1 <= rank <= self@.samples.len(),
        ensures
            is_quantile(self@.samples, rank as int, r as int),
    {
        let mut seen: u64 = 0;
        let mut i: usize = 0;
        while i < NUM_BUCKETS
            invariant
                i <= NUM_BUCKETS,
                self.wf(),
                1 <= rank <= self.samples@.len(),
                seen == count_before(self.samples@, i as int),
                seen < rank,
            decreases NUM_BUCKETS - i,
        {
            proof {
                lemma_count_grows(self.samples@, i + 1, NUM_BUCKETS as int);
                assert(self.buckets@[i as int] == bucket_count(self.samples@, i as int));
            }
            seen = seen + self.buckets[i];
            if seen >= rank {
                assert(count_before(self.samples@, i as int) < rank);
                return bucket_bounds(i).1;
            }
            i += 1;
        }
        assert(false);
        0
    }

    /// The digest of the recorded frames, given the ranks of the two quantiles.
    pub fn summary(&self, p50_rank: u64, p99_rank: u64) -> (r: Summary)
        requires
            self.wf(),
            1 <= p50_rank <= self@.samples.len(),
            1 <= p99_rank <= self@.samples.len(),
        ensures
            r.deadline == self@.deadline,
            r.frames == self@.samples.len(),
            r.missed == missed_count(self@.samples, self@.deadline),
            is_quantile(self@.samples, p50_rank as int, r.p50 as int),
            is_quantile(self@.samples, p99_rank as int, r.p99 as int),
            r.max == longest(self@.samples),
    {
        Summary {
            deadline: self.deadline,
            frames: self.frames,
            missed: self.missed,
            p50: self.quantile(p50_rank),
            p99: self.quantile(p99_rank),
            max: self.max_ns,
        }
    }
}

proof fn lemma_count_grows(samples: Seq<u128>, a: int, b: int)
    requires
        0 <= a <= b,
    ensures
        count_before(samples, a) <= count_before(samples, b),
    decreases b - a,
{
    if a < b {
        lemma_count_grows(samples, a, b - 1);
    }
}

/// One rank has one quantile.
pub proof fn law_one_quantile(samples: Seq<u128>, rank: int, a: int, b: int)
    requires
        is_quantile(samples, rank, a),
        is_quantile(samples, rank, b),
    ensures
        a == b,
{
    let i = choose|i: int|
        0 <= i < NUM_BUCKETS && a == upper(i) && #[trigger] count_before(samples, i) < rank
            && count_before(samples, i + 1) >= rank;
    let j = choose|j: int|
        0 <= j < NUM_BUCKETS && b == upper(j) && #[trigger] count_before(samples, j) < rank
            && count_before(samples, j + 1) >= rank;
    if i < j {
        lemma_count_grows(samples, i + 1, j);
    } else if j < i {
        lemma_count_grows(samples, j + 1, i);
    }
}

proof fn lemma_some_bucket(ns: int, i: int) -> (at: int)
    requires
        0 <= i < NUM_BUCKETS,
        0 <= ns <= upper(i),
    ensures
        holds(at, ns),
    decreases i,
{
    if lower(i) <= ns {
        i
    } else {
        lemma_some_bucket(ns, i - 1)
    }
}

/// The bucket of a time.
proof fn lemma_bucket_of(ns: u64) -> (at: int)
    ensures
        holds(at, ns as int),
{
    vstd::arithmetic::power2::lemma2_to64_rest();
    let last = NUM_BUCKETS as int;
    assert(last / 32 - 1 == 59 && last % 32 == 0);
    assert(32 * pow2(59) == 0x1_0000_0000_0000_0000) by (nonlinear_arith)
        requires
            pow2(59) == 0x800_0000_0000_0000,
    ;
    lemma_some_bucket(ns as int, last - 1)
}

/// The times as the histogram counts them.
pub open spec fn counted(samples: Seq<u128>) -> Seq<u64> {
    Seq::new(samples.len(), |i: int| clamped(samples[i]))
}

/// The time of the given rank, counted from one: the one that so many times come up to when
/// they are put in order.
pub open spec fn ranked(samples: Seq<u128>, rank: int) -> u64 {
    ascending(counted(samples))[rank - 1]
}

/// How many of the numbers come up to `top`.
spec fn up_to(s: Seq<u64>, top: int) -> nat
    decreases s.len(),
{
    if s.len() == 0 {
        0
    } else {
        up_to(s.drop_last(), top) + if s.last() <= top {
            1nat
        } else {
            0nat
        }
    }
}

proof fn lemma_up_to_multiset(s: Seq<u64>, top: int)
    ensures
        up_to(s, top) == s.to_multiset().filter(|x: u64| x <= top).len(),
    decreases s.len(),
{
    broadcast use vstd::seq_lib::group_to_multiset_ensures;
    broadcast use vstd::multiset::group_multiset_axioms;

    let f = |x: u64| x <= top;
    if s.len() == 0 {
        assert(s.to_multiset().filter(f) =~= Multiset::empty());
    } else {
        let before = s.drop_last();
        lemma_up_to_multiset(before, top);
        assert(before.push(s.last()) =~= s);
        assert(s.to_multiset() =~= before.to_multiset().insert(s.last()));
        if s.last() <= top {
            assert(s.to_multiset().filter(f) =~= before.to_multiset().filter(f).insert(s.last()));
        } else {
            assert(s.to_multiset().filter(f) =~= before.to_multiset().filter(f));
        }
    }
}

proof fn lemma_up_to_bound(s: Seq<u64>, top: int)
    ensures
        up_to(s, top) <= s.len(),
        (forall|i: int| 0 <= i < s.len() ==> #[trigger] s[i] <= top) ==> up_to(s, top) == s.len(),
    decreases s.len(),
{
    if s.len() > 0 {
        lemma_up_to_bound(s.drop_last(), top);
        if forall|i: int| 0 <= i < s.len() ==> #[trigger] s[i] <= top {
            assert forall|i: int| 0 <= i < s.drop_last().len() implies #[trigger] s.drop_last()[i]
                <= top by {
                assert(s[i] <= top);
            }
        }
    }
}

/// In order, the numbers that come up to `top` stand first.
proof fn lemma_up_to_first(s: Seq<u64>, top: int, j: int)
    requires
        forall|a: int, b: int| 0 <= a <= b < s.len() ==> #[trigger] s[a] <= #[trigger] s[b],
        0 <= j < s.len(),
    ensures
        s[j] <= top <==> j < up_to(s, top),
    decreases s.len(),
{
    let before = s.drop_last();
    lemma_up_to_bound(s, top);
    lemma_up_to_bound(before, top);
    if s.last() <= top {
        assert forall|i: int| 0 <= i < s.len() implies #[trigger] s[i] <= top by {
            assert(s[i] <= s[s.len() - 1]);
        }
    } else if j < before.len() {
        lemma_up_to_first(before, top, j);
    }
}

/// The times before a bucket are those that come up to the end of the one before it.
proof fn lemma_count_is_up_to(samples: Seq<u128>, end: int)
    requires
        0 <= end <= NUM_BUCKETS,
    ensures
        count_before(samples, end) == up_to(counted(samples), lower(end) - 1),
    decreases samples.len(),
{
    let times = counted(samples);
    if samples.len() == 0 {
        assert(samples =~= Seq::<u128>::empty());
        lemma_count_none(end);
    } else {
        let before = samples.drop_last();
        let ns = samples.last();
        lemma_count_is_up_to(before, end);
        assert(before.push(ns) =~= samples);
        assert(times.drop_last() =~= counted(before));
        let at = lemma_bucket_of(clamped(ns));
        lemma_count_step(before, ns, at, end);
        if at < end {
            law_buckets_ascend(at, end);
        } else if end < at {
            law_buckets_ascend(end, at);
        }
    }
}

/// A quantile is close to the time of its rank: no shorter than it, and at most a thirty-second
/// of it longer.
pub proof fn law_quantile_error(samples: Seq<u128>, rank: int, value: int)
    requires
        1 <= rank <= samples.len(),
        is_quantile(samples, rank, value),
    ensures
        ranked(samples, rank) <= value,
        (value - ranked(samples, rank)) * 32 <= ranked(samples, rank),
{
    broadcast use vstd::seq_lib::group_to_multiset_ensures;

    let i = choose|i: int|
        0 <= i < NUM_BUCKETS && value == upper(i) && #[trigger] count_before(samples, i) < rank
            && count_before(samples, i + 1) >= rank;
    let times = counted(samples);
    let leq = |a: u64, b: u64| a <= b;
    let order = ascending(times);
    assert(vstd::relations::total_ordering(leq));
    times.lemma_sort_by_ensures(leq);
    assert(order.to_multiset().len() == order.len());
    assert(times.to_multiset().len() == times.len());
    assert forall|a: int, b: int| 0 <= a <= b < order.len() implies #[trigger] order[a]
        <= #[trigger] order[b] by {
        if a < b {
            assert(leq(order[a], order[b]));
        }
    }
    lemma_count_is_up_to(samples, i);
    lemma_count_is_up_to(samples, i + 1);
    lemma_up_to_multiset(times, lower(i) - 1);
    lemma_up_to_multiset(order, lower(i) - 1);
    lemma_up_to_multiset(times, upper(i));
    lemma_up_to_multiset(order, upper(i));
    lemma_up_to_first(order, lower(i) - 1, rank - 1);
    lemma_up_to_first(order, upper(i), rank - 1);
    assert(holds(i, ranked(samples, rank) as int));
    if i >= 32 {
        law_relative_error(i);
    } else {
        lemma_lower_step(i);
    }
}

/// A value lies within the bounds of its bucket; below thirty-two nanoseconds the bucket is the
/// value itself, and above it is at most a thirty-second of the value wide.
pub proof fn law_bucket_of_a_value(ns: u64, index: usize, bounds: (u64, u64))
    requires
        call_ensures(bucket_index, (ns,), index),
        call_ensures(bucket_bounds, (index,), bounds),
    ensures
        bounds.0 <= ns <= bounds.1,
        ns < 32 ==> index == ns && bounds == (ns, ns),
        (bounds.1 - bounds.0) * 32 <= ns,
{
    if index >= 32 {
        law_relative_error(index as int);
    } else {
        lemma_lower_step(index as int);
    }
    if ns < 32 {
        lemma_lower_step(ns as int);
        assert(holds(ns as int, ns as int));
        law_one_bucket(index as int, ns as int, ns as int);
    }
}

pub proof fn lemma_missed(samples: Seq<u128>, deadline: u128)
    ensures
        missed_count(samples, deadline) == samples.filter(|t: u128| t > deadline).len(),
    decreases samples.len(),
{
    reveal(Seq::filter);
    if samples.len() > 0 {
        lemma_missed(samples.drop_last(), deadline);
    }
}

pub proof fn lemma_longest(samples: Seq<u128>)
    ensures
        forall|i: int|
            0 <= i < samples.len() && #[trigger] samples[i] <= u64::MAX ==> samples[i] <= longest(
                samples,
            ),
        (exists|i: int| 0 <= i < samples.len() && #[trigger] samples[i] > u64::MAX) ==> longest(
            samples,
        ) == u64::MAX,
        samples.len() > 0 && longest(samples) < u64::MAX ==> exists|i: int|
            0 <= i < samples.len() && #[trigger] samples[i] == longest(samples),
    decreases samples.len(),
{
    if samples.len() > 0 {
        let front = samples.drop_last();
        lemma_longest(front);
        assert forall|i: int|
            0 <= i < samples.len() && #[trigger] samples[i] <= u64::MAX implies samples[i]
            <= longest(samples) by {
            if i < front.len() {
                assert(front[i] == samples[i]);
            }
        }
        if exists|i: int| 0 <= i < samples.len() && #[trigger] samples[i] > u64::MAX {
            let i = choose|i: int| 0 <= i < samples.len() && #[trigger] samples[i] > u64::MAX;
            if i < front.len() {
                assert(front[i] == samples[i]);
            }
        }
        if longest(samples) < u64::MAX {
            if longest(samples) == clamped(samples.last()) {
                assert(samples[samples.len() - 1] == longest(samples));
            } else {
                if front.len() > 0 {
                    let i = choose|i: int|
                        0 <= i < front.len() && #[trigger] front[i] == longest(front);
                    assert(samples[i] == longest(samples));
                }
            }
        }
    }
}

/// A digest counts every frame, and as missed those that took longer than the deadline; none took
/// longer than the longest, which one of them took. A quantile is the time of its rank, in order of
/// time, or at most a thirty-second more.
pub proof fn law_digest(
    stats: &FrameStats,
    p50_rank: u64,
    p99_rank: u64,
    r: Summary,
    order: Seq<u64>,
)
    requires
        stats.wf(),
        1 <= p50_rank <= stats@.samples.len(),
        1 <= p99_rank <= stats@.samples.len(),
        call_ensures(FrameStats::summary, (stats, p50_rank, p99_rank), r),
        forall|i: int| 0 <= i < stats@.samples.len() ==> #[trigger] stats@.samples[i] <= u64::MAX,
        order.to_multiset() == Seq::new(
            stats@.samples.len(),
            |i: int| stats@.samples[i] as u64,
        ).to_multiset(),
        forall|i: int, j: int|
            0 <= i <= j < order.len() ==> #[trigger] order[i] <= #[trigger] order[j],
    ensures
        r.deadline == stats@.deadline,
        r.frames == stats@.samples.len(),
        r.missed == stats@.samples.filter(|t: u128| t > stats@.deadline).len(),
        forall|i: int| 0 <= i < stats@.samples.len() ==> #[trigger] stats@.samples[i] <= r.max,
        r.max < u64::MAX ==> exists|i: int|
            0 <= i < stats@.samples.len() && #[trigger] stats@.samples[i] == r.max,
        order[p50_rank - 1] <= r.p50,
        (r.p50 - order[p50_rank - 1]) * 32 <= order[p50_rank - 1],
        order[p99_rank - 1] <= r.p99,
        (r.p99 - order[p99_rank - 1]) * 32 <= order[p99_rank - 1],
{
    let samples = stats@.samples;
    lemma_missed(samples, stats@.deadline);
    lemma_longest(samples);
    law_quantile_error(samples, p50_rank as int, r.p50 as int);
    law_quantile_error(samples, p99_rank as int, r.p99 as int);
    assert(counted(samples) =~= Seq::new(samples.len(), |i: int| samples[i] as u64));
    crate::num::law_ascending(counted(samples), order);
}

/// A recorded time is put behind those before it, and the deadline stays.
pub proof fn law_times_recorded(stats: &mut FrameStats, time: u128, before: u64, after: u64)
    requires
        old(stats).wf(),
        final(stats).wf(),
        call_ensures(FrameStats::missed, (&*old(stats),), before),
        call_ensures(FrameStats::record, (stats, time), ()),
        call_ensures(FrameStats::missed, (&*final(stats),), after),
    ensures
        final(stats)@.deadline == old(stats)@.deadline,
        final(stats)@.samples == old(stats)@.samples.push(time),
        time > old(stats)@.deadline ==> after == before + 1,
        time <= old(stats)@.deadline ==> after == before,
{
    let samples = old(stats)@.samples;
    assert(samples.push(time).drop_last() =~= samples);
}

} // verus!
