use fft::frame_stats::{bucket_bounds, bucket_index, FrameStats, NUM_BUCKETS, SUB};

const MS: u128 = 1_000_000;

fn rank(p: f64, frames: u64) -> u64 {
    ((p * frames as f64).ceil() as u64).max(1)
}

#[test]
fn bucket_index_is_monotonic_and_contiguous() {
    // Every value maps to the same bucket as, or the one after, its predecessor.
    let mut prev = bucket_index(0);
    assert_eq!(prev, 0);
    for ns in 1..4096u64 {
        let i = bucket_index(ns);
        assert!(i == prev || i == prev + 1, "gap at {ns}: {prev} -> {i}");
        prev = i;
    }
    // Spot-check across octaves, up to u64::MAX.
    let mut prev = 0;
    for shift in 12..64 {
        let i = bucket_index(1u64 << shift);
        assert!(i > prev);
        prev = i;
    }
    assert!(bucket_index(u64::MAX) < NUM_BUCKETS);
}

#[test]
fn bucket_bounds_roundtrip() {
    // Both edges of every reachable bucket map back to that bucket.
    for ns in [0, 1, 31, 32, 63, 64, 65, 1_000, 16_666_667, u64::MAX] {
        let i = bucket_index(ns);
        let (lo, hi) = bucket_bounds(i);
        assert!(lo <= ns && ns <= hi, "{ns} outside bucket {i} [{lo}, {hi}]");
        assert_eq!(bucket_index(lo), i);
        assert_eq!(bucket_index(hi), i);
    }
}

#[test]
fn bucket_relative_error_is_bounded() {
    // Bucket width / lower bound ≤ 2^-SUB_BITS for all values past the linear region.
    for shift in 6..63 {
        let ns = (1u64 << shift) + 12345 % (1u64 << shift);
        let (lo, hi) = bucket_bounds(bucket_index(ns));
        assert!((hi - lo) as f64 / lo as f64 <= 1.0 / SUB as f64);
    }
}

#[test]
fn bucket_of_a_bit_pattern() {
    // The octave of the leading bit, and the five bits below it.
    for ns in [64u64, 65, 100, 1_000, 16_666_667, 1 << 40, u64::MAX] {
        let octave = 63 - u64::from(ns.leading_zeros()) - 5;
        let mantissa = (ns >> octave) & 31;
        assert_eq!(bucket_index(ns) as u64, ((octave + 1) << 5) + mantissa);
    }
    assert_eq!(bucket_bounds(NUM_BUCKETS - 1).1, u64::MAX);
}

#[test]
fn missed_deadline_counting() {
    let deadline = 8 * MS;
    let mut stats = FrameStats::new(deadline);
    stats.record(7 * MS);
    stats.record(deadline); // exactly on deadline is not a miss
    stats.record(9 * MS);
    stats.record(20 * MS);
    assert_eq!(stats.frames(), 4);
    assert_eq!(stats.missed(), 2);
}

#[test]
fn quantiles_from_known_distribution() {
    let mut stats = FrameStats::new(8 * MS);
    // 98 fast frames, 1 medium, 1 slow.
    for _ in 0..98 {
        stats.record(MS);
    }
    stats.record(4 * MS);
    stats.record(100 * MS);

    let s = stats.summary(rank(0.50, stats.frames()), rank(0.99, stats.frames()));
    assert_eq!(s.frames, 100);
    assert_eq!(s.missed, 1);
    assert_eq!(u128::from(s.max), 100 * MS);

    // Reported quantile is the bucket upper bound: within +3.2 % of the true value.
    let one_ms = MS as f64;
    let p50 = s.p50 as f64;
    assert!(p50 >= one_ms && p50 <= one_ms * (1.0 + 1.0 / SUB as f64));
    // p99 rank is frame 99 of 100 — the 4 ms frame.
    let four_ms = (4 * MS) as f64;
    let p99 = s.p99 as f64;
    assert!(p99 >= four_ms && p99 <= four_ms * (1.0 + 1.0 / SUB as f64));
    // p100 is the slow frame's bucket.
    assert!(u128::from(stats.quantile(rank(1.0, stats.frames()))) >= 100 * MS);
}

#[test]
fn zero_and_extreme_durations_do_not_panic() {
    let mut stats = FrameStats::new(8 * MS);
    stats.record(0);
    stats.record(u128::from(u64::MAX / 2_000_000_000) * 1_000_000_000);
    assert_eq!(stats.frames(), 2);
    let s = stats.summary(rank(0.50, 2), rank(0.99, 2));
    assert_eq!(s.missed, 1);
    assert!(u128::from(s.max) > 1_000_000 * 1_000_000_000);
}

#[test]
fn times_beyond_the_range_count_as_the_longest() {
    let mut stats = FrameStats::new(u128::MAX);
    stats.record(u128::MAX);
    assert_eq!(stats.missed(), 0);
    assert_eq!(stats.quantile(1), u64::MAX);
    assert_eq!(stats.deadline(), u128::MAX);
}
