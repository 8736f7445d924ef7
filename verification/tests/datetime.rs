use fft::datetime::{civil_from_days, days_from_civil, parse_replay_at, rfc3339_utc, ymd_from_unix_days};

#[test]
fn days_from_civil_round_trips_civil_from_days() {
    for days in [
        0_i64, 1, 31, 59, 60, 365, 366, 10_000, 20_000, 40_000, // 2026-07-29
        20_663, // leap day 2024-02-29
        19_782, // 2000-03-01
        11_017,
    ] {
        let (y, m, d) = civil_from_days(days);
        assert_eq!(days_from_civil(y, m, d), days, "round-trip failed for days={days}");
    }
}

#[test]
fn days_from_civil_pins_known_instants() {
    assert_eq!(days_from_civil(2026, 7, 29), 20_663);
    assert_eq!(
        u64::try_from(days_from_civil(2026, 7, 29)).unwrap() * 86_400 + 13 * 3600 + 50 * 60,
        1_785_333_000
    );
    assert_eq!(days_from_civil(1970, 1, 1), 0);
    assert_eq!(days_from_civil(2000, 3, 1), 11_017);
}

#[test]
fn parse_replay_at_accepts_ns_and_rfc3339() {
    assert_eq!(parse_replay_at("1785333000000000000").unwrap(), 1_785_333_000_000_000_000);
    assert_eq!(parse_replay_at("2026-07-29T13:50:00Z").unwrap(), 1_785_333_000_000_000_000);
    assert_eq!(parse_replay_at("0").unwrap(), 0);
    assert_eq!(parse_replay_at("1970-01-01T00:00:00Z").unwrap(), 0);
}

#[test]
fn parse_replay_at_rejects_bad_shapes_and_ranges() {
    assert!(parse_replay_at("2026-07-29T13:50:00").is_err()); // missing Z
    assert!(parse_replay_at("2026-07-29 13:50:00Z").is_err());
    assert!(parse_replay_at("2026-13-01T00:00:00Z").is_err()); // bad month
    assert!(parse_replay_at("2026-02-30T00:00:00Z").is_err()); // bad day
    assert!(parse_replay_at("2026-07-29T24:00:00Z").is_err()); // bad hour
    assert!(parse_replay_at("2026-07-29T13:60:00Z").is_err()); // bad minute
    assert!(parse_replay_at("2026-07-29T13:50:60Z").is_err()); // bad second
    assert!(parse_replay_at("not-a-timestamp").is_err());
    assert!(parse_replay_at("12ab").is_err());
    assert!(parse_replay_at("").is_err());
}

#[test]
fn replay_at_failures_say_what_is_wrong() {
    let message = |raw: &str| parse_replay_at(raw).unwrap_err();
    assert_eq!(message(""), "empty --replay-at value");
    assert_eq!(
        message("99999999999999999999"),
        "invalid --replay-at nanoseconds: 99999999999999999999"
    );
    assert_eq!(
        message("12ab"),
        "invalid --replay-at timestamp (want YYYY-MM-DDTHH:MM:SSZ or ns): 12ab"
    );
    assert_eq!(
        message("20x6-07-29T13:50:00Z"),
        "--replay-at year is not digits: 20x6-07-29T13:50:00Z"
    );
    assert_eq!(
        message("2026-+7-29T13:50:00Z"),
        "--replay-at month is not digits: 2026-+7-29T13:50:00Z"
    );
    assert_eq!(
        message("2026-07-2xT13:50:00Z"),
        "--replay-at day is not digits: 2026-07-2xT13:50:00Z"
    );
    assert_eq!(
        message("2026-07-29Tx3:50:00Z"),
        "--replay-at hour is not digits: 2026-07-29Tx3:50:00Z"
    );
    assert_eq!(
        message("2026-07-29T13:5x:00Z"),
        "--replay-at minute is not digits: 2026-07-29T13:5x:00Z"
    );
    assert_eq!(
        message("2026-07-29T13:50:x0Z"),
        "--replay-at second is not digits: 2026-07-29T13:50:x0Z"
    );
    assert_eq!(
        message("2026-13-01T00:00:00Z"),
        "--replay-at month out of range: 2026-13-01T00:00:00Z"
    );
    assert_eq!(
        message("2026-02-30T00:00:00Z"),
        "--replay-at day out of range: 2026-02-30T00:00:00Z"
    );
    assert_eq!(
        message("2026-07-29T24:00:00Z"),
        "--replay-at hour out of range: 2026-07-29T24:00:00Z"
    );
    assert_eq!(
        message("2026-07-29T13:60:00Z"),
        "--replay-at minute out of range: 2026-07-29T13:60:00Z"
    );
    assert_eq!(
        message("2026-07-29T13:50:60Z"),
        "--replay-at second out of range: 2026-07-29T13:50:60Z"
    );
    assert_eq!(
        message("1969-12-31T23:59:59Z"),
        "--replay-at predates the Unix epoch: 1969-12-31T23:59:59Z"
    );
}

#[test]
fn far_timestamps_saturate() {
    assert_eq!(parse_replay_at("9999-12-31T23:59:59Z").unwrap(), u64::MAX);
}

#[test]
fn dates_before_the_epoch_round_trip() {
    for days in [-1_i64, -719_468, -719_469, -1_000_000_000] {
        let (y, m, d) = civil_from_days(days);
        assert_eq!(days_from_civil(y, m, d), days);
    }
    assert_eq!(civil_from_days(-1), (1969, 12, 31));
}

#[test]
fn leap_days_are_dates() {
    assert_eq!(civil_from_days(days_from_civil(2000, 2, 28) + 1), (2000, 2, 29));
    assert_eq!(civil_from_days(days_from_civil(1900, 2, 28) + 1), (1900, 3, 1));
    assert_eq!(civil_from_days(days_from_civil(2023, 12, 31) + 1), (2024, 1, 1));
}

#[test]
fn rfc3339_matches_known_instants() {
    assert_eq!(rfc3339_utc(0), "1970-01-01T00:00:00Z");
    assert_eq!(rfc3339_utc(951_868_800), "2000-03-01T00:00:00Z");
    assert_eq!(rfc3339_utc(1_709_251_199), "2024-02-29T23:59:59Z");
    assert_eq!(rfc3339_utc(1_786_356_660), "2026-08-10T10:11:00Z");
}

#[test]
fn unix_days_are_written_as_dates() {
    assert_eq!(ymd_from_unix_days(0), "1970-01-01");
    assert_eq!(ymd_from_unix_days(20_663), "2026-07-29");
}

#[test]
fn written_stamps_read_back() {
    for secs in [0u64, 86_399, 951_782_400, 1_785_283_200, 18_446_744_073] {
        let text = rfc3339_utc(secs);
        assert_eq!(parse_replay_at(&text), Ok(secs * 1_000_000_000));
    }
}

#[test]
fn written_nanoseconds_read_back() {
    for ns in [0u64, 7, 1_785_283_200_000_000_001, u64::MAX] {
        assert_eq!(parse_replay_at(&ns.to_string()), Ok(ns));
    }
}
