use fft::json::json_escape;
use fft::sampling::{sample_targets, split_sizes, XorShift64};

#[test]
fn the_generator_is_the_shift_register() {
    let mut rng = XorShift64::new(0xC0FF_EE42_A1A7_E011);
    assert_eq!(rng.next(), 10_901_164_382_050_093_969);
    assert_eq!(rng.next(), 13_426_236_815_777_216_198);
    assert_eq!(rng.next(), 15_342_073_975_819_345_707);
    assert_eq!(rng.next(), 9_087_005_473_990_656_469);
}

#[test]
fn a_zero_seed_is_replaced() {
    assert_eq!(XorShift64::new(0).next(), 15_860_402_102_123_842_989);
    assert_eq!(
        XorShift64::new(0).next(),
        XorShift64::new(0x9E37_79B9_7F4A_7C15).next()
    );
}

#[test]
fn draws_stay_between_the_bounds() {
    let mut rng = XorShift64::new(3);
    for _ in 0..1_000 {
        let drawn = rng.gen_inclusive(10, 12);
        assert!((10..=12).contains(&drawn));
    }
    assert_eq!(rng.gen_inclusive(5, 5), 5);
    assert_eq!(rng.gen_inclusive(9, 5), 9);
}

#[test]
fn the_full_range_gives_the_number_drawn() {
    let mut bounded = XorShift64::new(3);
    let mut plain = XorShift64::new(3);
    for _ in 0..100 {
        assert_eq!(bounded.gen_inclusive(0, u64::MAX), plain.next());
    }
    let mut rng = XorShift64::new(9);
    assert_eq!(sample_targets(9, 2, 0, u64::MAX), vec![rng.next(), rng.next()]);
}

#[test]
fn targets_are_drawn_in_order_of_the_seed() {
    assert_eq!(
        sample_targets(0x4d32_5345_454b, 4, 1_000, 2_000),
        vec![1_186, 1_365, 1_820, 1_401]
    );
    assert_eq!(sample_targets(1, 3, 7, 7), vec![7, 7, 7]);
    assert_eq!(sample_targets(1, 0, 7, 9), Vec::<u64>::new());
}

#[test]
fn chunk_sizes_are_positive_and_add_up() {
    let mut rng = XorShift64::new(1);
    assert_eq!(split_sizes(100, 5, &mut rng), vec![9, 34, 36, 8, 13]);
    for n in 1..40 {
        for chunks in 1..=n {
            let sizes = split_sizes(n, chunks, &mut rng);
            assert_eq!(sizes.len(), chunks);
            assert!(sizes.iter().all(|size| *size > 0));
            assert_eq!(sizes.iter().sum::<usize>(), n);
        }
    }
}

#[test]
fn texts_are_escaped_for_documents() {
    assert_eq!(json_escape("plain/ü"), "plain/ü");
    assert_eq!(
        json_escape("a\"b\\c\nd\re\tf\u{1}g\u{1f}h\u{7f}"),
        "a\\\"b\\\\c\\nd\\re\\tf\\u0001g\\u001fh\\u007f"
    );
    // The parts of a text are escaped one by one.
    let (a, b) = ("x\"", "\\\n");
    assert_eq!(
        json_escape(&format!("{a}{b}")),
        format!("{}{}", json_escape(a), json_escape(b))
    );
}
