use fft::harness::Harness;

const MS: u64 = 1_000_000;

fn rank(p: f64, frames: u64) -> u64 {
    ((p * frames as f64).ceil() as u64).max(1)
}

fn finish(harness: &Harness) -> Option<fft::gate_report::FrameResult> {
    let frames = harness.frames();
    harness.finish(rank(0.50, frames), rank(0.95, frames), rank(0.99, frames))
}

/// Warmup completes only once both the time budget and the sample floor are met, and
/// the measured warmup facts land in the reported result.
#[test]
fn warmup_facts_reach_the_frame_result() {
    let mut harness = Harness::new(None, false);
    let start = 77;
    let interval = 10 * MS;
    // First call establishes `last_frame` (no gap yet), then 100 gaps of 10 ms.
    harness.on_frame(start);
    for i in 1..=100 {
        harness.on_frame(start + interval * i);
    }
    // Warmup ends at 500 ms / 50 samples; the rest are measured frames.
    let result = finish(&harness).expect("frames measured");
    assert_eq!(result.warmup_samples, 50);
    assert_eq!(result.warmup_ns, 500 * MS);
    assert_eq!(result.refresh_interval_ns, 10 * MS);
    assert_eq!(result.deadline_ns, u128::from(15 * MS));
    assert_eq!(result.frames, 50);
    assert_eq!(result.missed, 0);
}

#[test]
fn no_frames_measured_yields_no_result() {
    let mut harness = Harness::new(Some(1_000 * MS), false);
    let start = 0;
    harness.on_frame(start);
    harness.on_frame(start + 10 * MS);
    assert!(finish(&harness).is_none());
    assert!(harness.gating());
}

#[test]
fn few_samples_keep_the_warmup_going() {
    let mut harness = Harness::new(None, false);
    harness.on_frame(0);
    for i in 1..=7 {
        harness.on_frame(i * 1_000 * MS);
    }
    assert_eq!(harness.frames(), 0);
    harness.on_frame(8_000 * MS);
    harness.on_frame(9_000 * MS);
    assert_eq!(harness.frames(), 1);
}

#[test]
fn the_deadline_follows_the_median_gap() {
    let mut harness = Harness::new(Some(100 * MS), true);
    let mut now = 0;
    harness.on_frame(now);
    for gap in [300, 1, 2, 200, 4, 5, 6, 7] {
        now += gap * MS;
        assert!(harness.on_frame(now));
    }
    // The eighth gap ended the warmup: the fifth of the eight in order is six.
    now += 9 * MS;
    assert!(harness.on_frame(now));
    now += 10 * MS;
    assert!(harness.on_frame(now));
    now += 81 * MS;
    assert!(!harness.on_frame(now));
    let result = finish(&harness).unwrap();
    assert_eq!(result.refresh_interval_ns, 6 * MS);
    assert_eq!(result.deadline_ns, u128::from(9 * MS));
    assert_eq!((result.frames, result.missed), (3, 2));
    assert_eq!(result.max_ns, 81 * MS);
    assert_eq!(harness.trace().unwrap(), &vec![9 * MS, 10 * MS, 81 * MS]);
}
