//! Civil-date arithmetic for gate timestamps and `--replay-at` values.
//!
//! The calendar is the proleptic Gregorian one, in UTC; days are counted from 1970-01-01.

use crate::text::{
    chars_of, concat2, concat4, decimal, digit_of, digit_value, digits_value,
    law_numeral_round_trip, law_padded_round_trip, lemma_digits_prefix, lemma_padded_len, padded,
    parse_unsigned, push_padded, same_outcome, unsigned_value,
};
use crate::num::{floor_div, floor_rem, least};
use vstd::arithmetic::div_mod::{
    lemma_hoist_over_denominator, lemma_mod_mod, lemma_mod_multiples_vanish,
};
use vstd::prelude::*;

verus! {

/// Whether `year` has a twenty-ninth of February.
pub open spec fn leap(year: int) -> bool {
    (year % 4 == 0 && year % 100 != 0) || year % 400 == 0
}

/// The number of days of a month; zero when there is no such month.
pub open spec fn month_days(year: int, month: int) -> int {
    if month == 2 {
        if leap(year) {
            29
        } else {
            28
        }
    } else if month == 4 || month == 6 || month == 9 || month == 11 {
        30
    } else if 1 <= month <= 12 {
        31
    } else {
        0
    }
}

/// The number of days of `year` before its month `month`.
pub open spec fn days_before_month(year: int, month: int) -> int
    decreases month,
{
    if month <= 1 {
        0
    } else {
        days_before_month(year, month - 1) + month_days(year, month - 1)
    }
}

/// The number of leap years from the year 1 on and before `year`.
pub open spec fn leaps_before(year: int) -> int {
    (year - 1) / 4 - (year - 1) / 100 + (year - 1) / 400
}

/// Whether the calendar has this date.
pub open spec fn valid_date(year: int, month: int, day: int) -> bool {
    1 <= month <= 12 && 1 <= day <= month_days(year, month)
}

/// The number of days from 1970-01-01 to the given date.
pub open spec fn civil_day(year: int, month: int, day: int) -> int {
    365 * (year - 1970) + leaps_before(year) - leaps_before(1970) + days_before_month(year, month)
        + day - 1
}

/// The days of a year that begins in March, before the month `mp` of it, counted from zero.
pub open spec fn march_days(mp: int) -> int {
    (153 * mp + 2) / 5
}

/// The year, begun in March, that holds the given month of `year`.
pub open spec fn march_year(year: int, month: int) -> int {
    if month <= 2 {
        year - 1
    } else {
        year
    }
}

/// The place of a month in a year that begins in March, counted from zero.
pub open spec fn march_month(month: int) -> int {
    if month > 2 {
        month - 3
    } else {
        month + 9
    }
}

/// The number of days from 0000-03-01 to the given date.
pub open spec fn march_count(year: int, month: int, day: int) -> int {
    let my = march_year(year, month);
    365 * my + my / 4 - my / 100 + my / 400 + march_days(march_month(month)) + day - 1
}

/// Whether the count of days fits the machine integers that it is computed in.
pub open spec fn day_count_fits(year: int, month: int, day: int) -> bool {
    &&& march_year(year, month) >= i64::MIN
    &&& march_year(year, month) / 400 * 146_097 >= i64::MIN + 719_468
    &&& march_count(year, month, day) <= i64::MAX
    &&& 1 <= march_days(march_month(month)) + day <= 0x7fff_ffff
    &&& 0 <= month <= 0xff_ffff
}

proof fn lemma_leap_step(year: int)
    ensures
        leaps_before(year + 1) == leaps_before(year) + if leap(year) {
            1int
        } else {
            0int
        },
{
}

proof fn lemma_months(year: int)
    ensures
        days_before_month(year, 1) == 0,
        days_before_month(year, 2) == 31,
        days_before_month(year, 3) == 59 + if leap(year) {
            1int
        } else {
            0int
        },
        forall|mp: int|
            0 <= mp <= 9 ==> #[trigger] days_before_month(year, mp + 3) == days_before_month(year, 3)
                + march_days(mp),
{
    reveal_with_fuel(days_before_month, 13);
    let d = |m: int| days_before_month(year, m);
    assert(d(4) == d(3) + march_days(1));
    assert(d(5) == d(3) + march_days(2));
    assert(d(6) == d(3) + march_days(3));
    assert(d(7) == d(3) + march_days(4));
    assert(d(8) == d(3) + march_days(5));
    assert(d(9) == d(3) + march_days(6));
    assert(d(10) == d(3) + march_days(7));
    assert(d(11) == d(3) + march_days(8));
    assert(d(12) == d(3) + march_days(9));
    assert forall|mp: int| 0 <= mp <= 9 implies #[trigger] days_before_month(year, mp + 3)
        == days_before_month(year, 3) + march_days(mp) by {
        assert(mp == 0 || mp == 1 || mp == 2 || mp == 3 || mp == 4 || mp == 5 || mp == 6 || mp == 7
            || mp == 8 || mp == 9);
    }
}

/// The day count of a date, from the year that begins in March: `my` is that year, `mp` its
/// month counted from zero and `dom` the day of the month.
proof fn lemma_march(my: int, mp: int, dom: int)
    requires
        0 <= mp <= 11,
    ensures
        civil_day(
            if mp < 10 {
                my
            } else {
                my + 1
            },
            if mp < 10 {
                mp + 3
            } else {
                mp - 9
            },
            dom,
        ) == 365 * my + my / 4 - my / 100 + my / 400 + march_days(mp) + dom - 1 - 719468,
{
    lemma_leap_step(my);
    lemma_months(my);
    lemma_months(my + 1);
    assert(leaps_before(1970) == 477);
    assert(march_days(10) == 306);
    assert(march_days(11) == 337);
    if mp < 10 {
        assert(days_before_month(my, mp + 3) == days_before_month(my, 3) + march_days(mp));
    }
}

proof fn lemma_march_count(year: int, month: int, day: int)
    requires
        1 <= month <= 12,
    ensures
        march_count(year, month, day) - 719_468 == civil_day(year, month, day),
{
    lemma_march(march_year(year, month), march_month(month), day);
}

/// The year of an era of four hundred years, counted from a first of March, from the day of
/// the era.
proof fn lemma_year_of_era(doe: int, yoe: int)
    requires
        0 <= doe < 146097,
        yoe == (doe - doe / 1460 + doe / 36524 - doe / 146096) / 365,
    ensures
        0 <= yoe < 400,
        365 * yoe + yoe / 4 - yoe / 100 <= doe,
        doe - (365 * yoe + yoe / 4 - yoe / 100) <= 365,
        doe - (365 * yoe + yoe / 4 - yoe / 100) == 365 ==> leap(yoe + 1),
{
}

/// The month, counted from March, and the day of it, from the day of a year that begins in
/// March.
proof fn lemma_month_of_year(doy: int, mp: int)
    requires
        0 <= doy <= 365,
        mp == (5 * doy + 2) / 153,
    ensures
        0 <= mp <= 11,
        march_days(mp) <= doy < march_days(mp + 1) || mp == 11,
        march_days(mp) <= doy,
{
}

/// A date that comes from the day of a year begun in March is one of the calendar.
proof fn lemma_month_length(my: int, doy: int, mp: int)
    requires
        0 <= doy <= 365,
        doy == 365 ==> leap(my + 1),
        mp == (5 * doy + 2) / 153,
    ensures
        0 <= mp <= 11,
        march_days(mp) <= doy,
        mp < 10 ==> 1 <= doy - march_days(mp) + 1 <= month_days(my, mp + 3),
        mp >= 10 ==> 1 <= doy - march_days(mp) + 1 <= month_days(my + 1, mp - 9),
{
    lemma_month_of_year(doy, mp);
    assert(mp == 0 || mp == 1 || mp == 2 || mp == 3 || mp == 4 || mp == 5 || mp == 6 || mp == 7
        || mp == 8 || mp == 9 || mp == 10 || mp == 11);
}

/// The leap years of an era fall in the same years of every era.
proof fn lemma_year_in_era(era: int, yoe: int)
    requires
        0 <= yoe < 400,
    ensures
        leap(yoe + era * 400 + 1) == leap(yoe + 1),
        (yoe + era * 400) / 4 == 100 * era + yoe / 4,
        (yoe + era * 400) / 100 == 4 * era + yoe / 100,
        (yoe + era * 400) / 400 == era,
{
    lemma_mod_multiples_vanish(era, yoe + 1, 400);
    lemma_mod_multiples_vanish(era * 4, yoe + 1, 100);
    lemma_mod_multiples_vanish(era * 100, yoe + 1, 4);
    lemma_hoist_over_denominator(yoe, era * 100, 4);
    lemma_hoist_over_denominator(yoe, era * 4, 100);
    lemma_hoist_over_denominator(yoe, era, 400);
}

/// The day count from the parts that it is split into: the era of four hundred years `era`,
/// the year `yoe` of it and the day `doy` of that year, all begun on a first of March.
proof fn lemma_era(era: int, yoe: int, doy: int, mp: int)
    requires
        0 <= yoe < 400,
        0 <= doy <= 365,
        doy == 365 ==> leap(yoe + 1),
        mp == (5 * doy + 2) / 153,
    ensures
        0 <= mp <= 11,
        march_days(mp) <= doy,
        valid_date(
            if mp < 10 {
                yoe + era * 400
            } else {
                yoe + era * 400 + 1
            },
            if mp < 10 {
                mp + 3
            } else {
                mp - 9
            },
            doy - march_days(mp) + 1,
        ),
        civil_day(
            if mp < 10 {
                yoe + era * 400
            } else {
                yoe + era * 400 + 1
            },
            if mp < 10 {
                mp + 3
            } else {
                mp - 9
            },
            doy - march_days(mp) + 1,
        ) == era * 146_097 + (365 * yoe + yoe / 4 - yoe / 100) + doy - 719_468,
{
    let my = yoe + era * 400;
    lemma_year_in_era(era, yoe);
    lemma_month_length(my, doy, mp);
    lemma_march(my, mp, doy - march_days(mp) + 1);
}

/// Every count of days has a date.
proof fn lemma_some_date(days: int) -> (date: (int, int, int))
    ensures
        valid_date(date.0, date.1, date.2),
        civil_day(date.0, date.1, date.2) == days,
{
    let z = days + 719_468;
    let era = z / 146_097;
    let doe = z % 146_097;
    assert(z == era * 146_097 + doe);
    let yoe = (doe - doe / 1460 + doe / 36_524 - doe / 146_096) / 365;
    lemma_year_of_era(doe, yoe);
    let doy = doe - (365 * yoe + yoe / 4 - yoe / 100);
    let mp = (5 * doy + 2) / 153;
    let day = doy - march_days(mp) + 1;
    lemma_era(era, yoe, doy, mp);
    if mp < 10 {
        (yoe + era * 400, mp + 3, day)
    } else {
        (yoe + era * 400 + 1, mp - 9, day)
    }
}

/// The era and the day of it, from the count of days.
fn split_era(z: i64) -> (r: (i64, i64))
    ensures
        z == r.0 * 146_097 + r.1,
        0 <= r.1 < 146_097,
        -64_000_000_000_000 <= r.0 <= 64_000_000_000_000,
{
    let era: i64 = floor_div(z, 146_097);
    let doe: i64 = floor_rem(z, 146_097);
    assert(z == era * 146_097 + doe);
    (era, doe)
}

/// The year of an era and the day of that year, from the day of the era.
fn split_year(doe: i64) -> (r: (i64, i64))
    requires
        0 <= doe < 146_097,
    ensures
        0 <= r.0 < 400,
        0 <= r.1 <= 365,
        r.1 == 365 ==> leap(r.0 + 1),
        doe == (365 * r.0 + r.0 as int / 4 - r.0 as int / 100) + r.1,
{
    let yoe: i64 = (doe - doe / 1460 + doe / 36_524 - doe / 146_096) / 365;
    proof {
        lemma_year_of_era(doe as int, yoe as int);
    }
    (yoe, doe - (365 * yoe + yoe / 4 - yoe / 100))
}

/// Days since 1970-01-01 to `(year, month, day)`.
pub fn civil_from_days(days: i64) -> (r: (i64, u32, u32))
    requires
        days <= i64::MAX - 719_468,
    ensures
        valid_date(r.0 as int, r.1 as int, r.2 as int),
        civil_day(r.0 as int, r.1 as int, r.2 as int) == days,
{
    let (era, doe) = split_era(days + 719_468);
    let (yoe, doy) = split_year(doe);
    let mp: i64 = (5 * doy + 2) / 153;
    proof {
        lemma_era(era as int, yoe as int, doy as int, mp as int);
    }
    let day: u32 = (doy - (153 * mp + 2) / 5 + 1) as u32;
    let my: i64 = yoe + era * 400;
    if mp < 10 {
        (my, (mp + 3) as u32, day)
    } else {
        (my + 1, (mp - 9) as u32, day)
    }
}

/// `(year, month, day)` to days since 1970-01-01.
pub fn days_from_civil(year: i64, month: u32, day: u32) -> (r: i64)
    requires
        day_count_fits(year as int, month as int, day as int),
    ensures
        r == march_count(year as int, month as int, day as int) - 719_468,
        1 <= month <= 12 ==> r == civil_day(year as int, month as int, day as int),
{
    let y: i64 = if month <= 2 {
        year - 1
    } else {
        year
    };
    let era: i64 = floor_div(y, 400);
    let yoe: i64 = floor_rem(y, 400);
    let mp: u32 = if month > 2 {
        month - 3
    } else {
        month + 9
    };
    let doy: u32 = (153 * mp + 2) / 5 + day - 1;
    let doe: i64 = yoe * 365 + yoe / 4 - yoe / 100 + doy as i64;
    proof {
        assert(y as int / 4 == 100 * era + yoe as int / 4);
        assert(y as int / 100 == 4 * era + yoe as int / 100);
        if 1 <= month <= 12 {
            lemma_march_count(year as int, month as int, day as int);
        }
    }
    era * 146_097 + doe - 719_468
}

proof fn lemma_months_in_order(year: int, before: int, after: int)
    requires
        1 <= before < after,
    ensures
        days_before_month(year, before) + month_days(year, before) <= days_before_month(
            year,
            after,
        ),
    decreases after,
{
    if before < after - 1 {
        lemma_months_in_order(year, before, after - 1);
    }
}

proof fn lemma_year_length(year: int)
    ensures
        days_before_month(year, 13) == 365 + if leap(year) {
            1int
        } else {
            0int
        },
{
    reveal_with_fuel(days_before_month, 13);
}

proof fn lemma_within_year(year: int, month: int, day: int)
    requires
        valid_date(year, month, day),
    ensures
        civil_day(year, 1, 1) <= civil_day(year, month, day) < civil_day(year + 1, 1, 1),
{
    lemma_leap_step(year);
    lemma_year_length(year);
    lemma_months(year);
    lemma_months(year + 1);
    lemma_months_in_order(year, month, 13);
    if month > 1 {
        lemma_months_in_order(year, 1, month);
    }
}

/// An earlier date has a smaller count of days.
pub proof fn law_dates_in_order(
    year_a: int,
    month_a: int,
    day_a: int,
    year_b: int,
    month_b: int,
    day_b: int,
)
    requires
        valid_date(year_a, month_a, day_a),
        valid_date(year_b, month_b, day_b),
        year_a < year_b || (year_a == year_b && (month_a < month_b || (month_a == month_b && day_a
            < day_b))),
    ensures
        civil_day(year_a, month_a, day_a) < civil_day(year_b, month_b, day_b),
{
    if year_a < year_b {
        lemma_within_year(year_a, month_a, day_a);
        lemma_within_year(year_b, month_b, day_b);
        lemma_months(year_a + 1);
        lemma_months(year_b);
        assert(civil_day(year_a + 1, 1, 1) <= civil_day(year_b, 1, 1));
    } else if month_a < month_b {
        lemma_months_in_order(year_a, month_a, month_b);
    }
}

/// Each count of days belongs to one date.
pub proof fn law_one_date_per_day(
    year_a: int,
    month_a: int,
    day_a: int,
    year_b: int,
    month_b: int,
    day_b: int,
)
    requires
        valid_date(year_a, month_a, day_a),
        valid_date(year_b, month_b, day_b),
        civil_day(year_a, month_a, day_a) == civil_day(year_b, month_b, day_b),
    ensures
        (year_a, month_a, day_a) == (year_b, month_b, day_b),
{
    let a_first = year_a < year_b || (year_a == year_b && (month_a < month_b || (month_a == month_b
        && day_a < day_b)));
    let b_first = year_b < year_a || (year_b == year_a && (month_b < month_a || (month_b == month_a
        && day_b < day_a)));
    if a_first {
        law_dates_in_order(year_a, month_a, day_a, year_b, month_b, day_b);
    } else if b_first {
        law_dates_in_order(year_b, month_b, day_b, year_a, month_a, day_a);
    }
}

/// The day after a date has the next count of days: within a month, at the end of a month and
/// at the end of a year.
pub proof fn law_next_day(year: int, month: int, day: int)
    requires
        valid_date(year, month, day),
    ensures
        day < month_days(year, month) ==> civil_day(year, month, day + 1) == civil_day(
            year,
            month,
            day,
        ) + 1,
        day == month_days(year, month) && month < 12 ==> civil_day(year, month + 1, 1)
            == civil_day(year, month, day) + 1,
        day == month_days(year, month) && month == 12 ==> civil_day(year + 1, 1, 1) == civil_day(
            year,
            month,
            day,
        ) + 1,
{
    lemma_leap_step(year);
    lemma_year_length(year);
    lemma_months(year + 1);
}

/// The date with the given count of days.
pub open spec fn date_of(days: int) -> (int, int, int) {
    choose|date: (int, int, int)|
        valid_date(date.0, date.1, date.2) && #[trigger] civil_day(date.0, date.1, date.2) == days
}

/// The date `date_of` names is the one with that count of days.
pub proof fn law_date_of(year: int, month: int, day: int)
    requires
        valid_date(year, month, day),
    ensures
        date_of(civil_day(year, month, day)) == (year, month, day),
{
    let days = civil_day(year, month, day);
    let date = (year, month, day);
    assert(valid_date(date.0, date.1, date.2) && civil_day(date.0, date.1, date.2) == days);
    let got = date_of(days);
    law_one_date_per_day(got.0, got.1, got.2, year, month, day);
}

/// `civil_from_days` and `days_from_civil` undo each other: the date of a count has that
/// count, and the count of a date has that date.
pub proof fn law_civil_round_trip(days: i64, year: int, month: int, day: int)
    requires
        days <= i64::MAX - 719_468,
        valid_date(year, month, day),
    ensures
        valid_date(date_of(days as int).0, date_of(days as int).1, date_of(days as int).2),
        civil_day(date_of(days as int).0, date_of(days as int).1, date_of(days as int).2) == days,
        date_of(civil_day(year, month, day)) == (year, month, day),
{
    law_date_of(year, month, day);
    let date = lemma_some_date(days as int);
    assert(valid_date(date.0, date.1, date.2) && civil_day(date.0, date.1, date.2) == days);
}

/// A date as `2026-08-10`.
pub open spec fn date_text(date: (int, int, int)) -> Seq<char> {
    padded(date.0 as nat, 4) + "-"@ + padded(date.1 as nat, 2) + "-"@ + padded(date.2 as nat, 2)
}

/// A second of a day as `10:11:00`.
pub open spec fn clock_text(second: int) -> Seq<char> {
    padded((second / 3600) as nat, 2) + ":"@ + padded((second / 60 % 60) as nat, 2) + ":"@
        + padded((second % 60) as nat, 2)
}

/// An instant as `2026-08-10T10:11:00Z`.
pub open spec fn stamp_text(unix_secs: int) -> Seq<char> {
    date_text(date_of(unix_secs / 86_400)) + "T"@ + clock_text(unix_secs % 86_400) + "Z"@
}

/// Appends a date as `2026-08-10`.
pub fn push_date(out: &mut String, days: u64)
    requires
        days <= i64::MAX - 719_468,
    ensures
        final(out)@ == old(out)@ + date_text(date_of(days as int)),
{
    let (year, month, day) = civil_from_days(days as i64);
    proof {
        law_date_of(year as int, month as int, day as int);
        assert(year >= 1970) by {
            if year < 1970 {
                lemma_months(1970);
                law_dates_in_order(year as int, month as int, day as int, 1970, 1, 1);
            }
        }
    }
    push_padded(out, year as u64, 4);
    out.append("-");
    push_padded(out, month as u64, 2);
    out.append("-");
    push_padded(out, day as u64, 2);
}

/// A count of days since 1970-01-01 as `YYYY-MM-DD`.
pub fn ymd_from_unix_days(days: u32) -> (r: String)
    ensures
        r@ == date_text(date_of(days as int)),
{
    let mut out: String = String::new();
    push_date(&mut out, days as u64);
    out
}

/// An instant, in seconds since 1970-01-01T00:00:00Z, as `YYYY-MM-DDTHH:MM:SSZ`.
pub fn rfc3339_utc(unix_secs: u64) -> (r: String)
    ensures
        r@ == stamp_text(unix_secs as int),
{
    let mut out: String = String::new();
    let secs: u64 = unix_secs % 86_400;
    push_date(&mut out, unix_secs / 86_400);
    out.append("T");
    push_padded(&mut out, secs / 3600, 2);
    out.append(":");
    push_padded(&mut out, (secs / 60) % 60, 2);
    out.append(":");
    push_padded(&mut out, secs % 60, 2);
    out.append("Z");
    out
}

/// Whether every character is an ASCII digit.
pub open spec fn all_digits(s: Seq<char>) -> bool {
    forall|i: int| 0 <= i < s.len() ==> digit_value(#[trigger] s[i], 10) is Some
}

/// Whether every character is ASCII.
pub open spec fn all_ascii(s: Seq<char>) -> bool {
    forall|i: int| 0 <= i < s.len() ==> (#[trigger] s[i]) as u32 <= 0x7f
}

/// Whether the text has the shape `YYYY-MM-DDTHH:MM:SSZ`, whatever stands for the letters.
pub open spec fn has_stamp_shape(s: Seq<char>) -> bool {
    &&& s.len() == 20
    &&& all_ascii(s)
    &&& s[4] == '-' && s[7] == '-' && s[10] == 'T' && s[13] == ':' && s[16] == ':' && s[19] == 'Z'
}

/// The number that a range of digits spells.
pub open spec fn field(s: Seq<char>, from: int, to: int) -> Option<nat> {
    digits_value(s.subrange(from, to), 10)
}

/// The message for a field that does not hold digits.
pub open spec fn not_digits(name: Seq<char>, raw: Seq<char>) -> Seq<char> {
    "--replay-at "@ + name + " is not digits: "@ + raw
}

/// The seconds since 1970-01-01T00:00:00Z that a timestamp names, or what is wrong with it.
pub open spec fn stamp_seconds(raw: Seq<char>) -> Result<u64, Seq<char>> {
    if !has_stamp_shape(raw) {
        Err("invalid --replay-at timestamp (want YYYY-MM-DDTHH:MM:SSZ or ns): "@ + raw)
    } else if field(raw, 0, 4) is None {
        Err(not_digits("year"@, raw))
    } else if field(raw, 5, 7) is None {
        Err(not_digits("month"@, raw))
    } else if field(raw, 8, 10) is None {
        Err(not_digits("day"@, raw))
    } else if field(raw, 11, 13) is None {
        Err(not_digits("hour"@, raw))
    } else if field(raw, 14, 16) is None {
        Err(not_digits("minute"@, raw))
    } else if field(raw, 17, 19) is None {
        Err(not_digits("second"@, raw))
    } else {
        let year = field(raw, 0, 4)->0 as int;
        let month = field(raw, 5, 7)->0 as int;
        let day = field(raw, 8, 10)->0 as int;
        let hour = field(raw, 11, 13)->0 as int;
        let minute = field(raw, 14, 16)->0 as int;
        let second = field(raw, 17, 19)->0 as int;
        if !(1 <= month <= 12) {
            Err("--replay-at month out of range: "@ + raw)
        } else if !valid_date(year, month, day) {
            Err("--replay-at day out of range: "@ + raw)
        } else if hour > 23 {
            Err("--replay-at hour out of range: "@ + raw)
        } else if minute > 59 {
            Err("--replay-at minute out of range: "@ + raw)
        } else if second > 59 {
            Err("--replay-at second out of range: "@ + raw)
        } else if civil_day(year, month, day) < 0 {
            Err("--replay-at predates the Unix epoch: "@ + raw)
        } else {
            Ok(
                (civil_day(year, month, day) * 86_400 + hour * 3600 + minute * 60 + second) as u64,
            )
        }
    }
}

/// The nanoseconds since 1970-01-01T00:00:00Z that a `--replay-at` value names, or what is
/// wrong with it: digits alone are nanoseconds, anything else a timestamp.
pub open spec fn replay_at(raw: Seq<char>) -> Result<u64, Seq<char>> {
    if raw.len() == 0 {
        Err("empty --replay-at value"@)
    } else if all_digits(raw) {
        match unsigned_value(raw, 10, u64::MAX as nat) {
            Some(ns) => Ok(ns as u64),
            None => Err("invalid --replay-at nanoseconds: "@ + raw),
        }
    } else {
        match stamp_seconds(raw) {
            Ok(secs) => Ok(least(secs * 1_000_000_000, u64::MAX as int) as u64),
            Err(message) => Err(message),
        }
    }
}

/// A date of years with four digits is written in ten characters.
proof fn lemma_date_text(year: int, month: int, day: int)
    requires
        valid_date(year, month, day),
        0 <= year < 10_000,
    ensures
        date_text((year, month, day)).len() == 10,
        date_text((year, month, day)).subrange(0, 4) == padded(year as nat, 4),
        date_text((year, month, day))[4] == '-',
        date_text((year, month, day)).subrange(5, 7) == padded(month as nat, 2),
        date_text((year, month, day))[7] == '-',
        date_text((year, month, day)).subrange(8, 10) == padded(day as nat, 2),
{
    reveal_strlit("-");
    lemma_padded_len(year as nat);
    lemma_padded_len(month as nat);
    lemma_padded_len(day as nat);
    lemma_months(year);
    let text = date_text((year, month, day));
    assert(text.subrange(0, 4) =~= padded(year as nat, 4));
    assert(text.subrange(5, 7) =~= padded(month as nat, 2));
    assert(text.subrange(8, 10) =~= padded(day as nat, 2));
}

/// A second of a day is written in eight characters.
pub proof fn lemma_clock_text(second: int)
    requires
        0 <= second < 86_400,
    ensures
        clock_text(second).len() == 8,
        clock_text(second).subrange(0, 2) == padded((second / 3600) as nat, 2),
        clock_text(second)[2] == ':',
        clock_text(second).subrange(3, 5) == padded((second / 60 % 60) as nat, 2),
        clock_text(second)[5] == ':',
        clock_text(second).subrange(6, 8) == padded((second % 60) as nat, 2),
{
    reveal_strlit(":");
    lemma_padded_len((second / 3600) as nat);
    lemma_padded_len((second / 60 % 60) as nat);
    lemma_padded_len((second % 60) as nat);
    let text = clock_text(second);
    assert(text.subrange(0, 2) =~= padded((second / 3600) as nat, 2));
    assert(text.subrange(3, 5) =~= padded((second / 60 % 60) as nat, 2));
    assert(text.subrange(6, 8) =~= padded((second % 60) as nat, 2));
}

/// A timestamp reads back as the instant that it was written for, in every year of four digits.
#[verifier::rlimit(60)]
pub proof fn law_stamp_round_trip(year: int, month: int, day: int, second: int)
    requires
        valid_date(year, month, day),
        1970 <= year < 10_000,
        0 <= second < 86_400,
    ensures
        ({
            let secs = civil_day(year, month, day) * 86_400 + second;
            &&& 0 <= secs <= u64::MAX
            &&& stamp_seconds(stamp_text(secs)) == Ok::<u64, Seq<char>>(secs as u64)
            &&& replay_at(stamp_text(secs)) == Ok::<u64, Seq<char>>(
                least(secs * 1_000_000_000, u64::MAX as int) as u64,
            )
        }),
{
    let days = civil_day(year, month, day);
    let secs = days * 86_400 + second;
    assert(0 <= days < 4_000_000) by {
        lemma_months(1970);
        lemma_months(year);
        lemma_within_year(year, month, day);
        if (year, month, day) != (1970int, 1int, 1int) {
            law_dates_in_order(1970, 1, 1, year, month, day);
        }
    }
    assert(secs / 86_400 == days && secs % 86_400 == second);
    law_date_of(year, month, day);
    let date = date_text((year, month, day));
    let clock = clock_text(second);
    let text = stamp_text(secs);
    lemma_date_text(year, month, day);
    lemma_clock_text(second);
    lemma_stamp_parts(date, clock, text);
    law_padded_round_trip(year as nat, 4);
    law_padded_round_trip(month as nat, 2);
    law_padded_round_trip(day as nat, 2);
    law_padded_round_trip((second / 3600) as nat, 2);
    law_padded_round_trip((second / 60 % 60) as nat, 2);
    law_padded_round_trip((second % 60) as nat, 2);
    assert forall|i: int| 0 <= i < text.len() implies (#[trigger] text[i]) as u32 <= 0x7f by {
        lemma_stamp_char(text, year, month, day, second, i);
    }
    assert(digit_value(text[4], 10) is None);
    assert(second / 3600 * 3600 + second / 60 % 60 * 60 + second % 60 == second);
}

/// Every character of a timestamp is a digit or one of its separators.
proof fn lemma_stamp_char(
    text: Seq<char>,
    year: int,
    month: int,
    day: int,
    second: int,
    i: int,
)
    requires
        text.len() == 20,
        0 <= i < 20,
        text.subrange(0, 4) == padded(year as nat, 4),
        text.subrange(5, 7) == padded(month as nat, 2),
        text.subrange(8, 10) == padded(day as nat, 2),
        text.subrange(11, 13) == padded((second / 3600) as nat, 2),
        text.subrange(14, 16) == padded((second / 60 % 60) as nat, 2),
        text.subrange(17, 19) == padded((second % 60) as nat, 2),
        text[4] == '-' && text[7] == '-' && text[10] == 'T',
        text[13] == ':' && text[16] == ':' && text[19] == 'Z',
    ensures
        text[i] as u32 <= 0x7f,
{
    law_padded_round_trip(year as nat, 4);
    law_padded_round_trip(month as nat, 2);
    law_padded_round_trip(day as nat, 2);
    law_padded_round_trip((second / 3600) as nat, 2);
    law_padded_round_trip((second / 60 % 60) as nat, 2);
    law_padded_round_trip((second % 60) as nat, 2);
    if i < 4 {
        assert(text[i] == text.subrange(0, 4)[i]);
    } else if 5 <= i < 7 {
        assert(text[i] == text.subrange(5, 7)[i - 5]);
    } else if 8 <= i < 10 {
        assert(text[i] == text.subrange(8, 10)[i - 8]);
    } else if 11 <= i < 13 {
        assert(text[i] == text.subrange(11, 13)[i - 11]);
    } else if 14 <= i < 16 {
        assert(text[i] == text.subrange(14, 16)[i - 14]);
    } else if 17 <= i < 19 {
        assert(text[i] == text.subrange(17, 19)[i - 17]);
    }
}

/// A numeral reads back as its number of nanoseconds.
pub proof fn law_nanoseconds_round_trip(ns: u64)
    ensures
        replay_at(decimal(ns as nat)) == Ok::<u64, Seq<char>>(ns),
{
    let text = decimal(ns as nat);
    law_numeral_round_trip(ns as nat);
    assert forall|i: int| 0 <= i < text.len() implies digit_value(#[trigger] text[i], 10) is Some by {
        assert('0' <= text[i] <= '9');
    }
    assert('0' <= text[0] <= '9');
}

fn is_all_digits(v: &Vec<char>) -> (r: bool)
    ensures
        r == all_digits(v@),
{
    let mut i: usize = 0;
    while i < v.len()
        invariant
            i <= v.len(),
            forall|j: int| 0 <= j < i ==> digit_value(#[trigger] v@[j], 10) is Some,
        decreases v.len() - i,
    {
        if digit_of(v[i], 10).is_none() {
            assert(digit_value(v@[i as int], 10) is None);
            return false;
        }
        i += 1;
    }
    true
}

fn is_stamp_shape(v: &Vec<char>) -> (r: bool)
    ensures
        r == has_stamp_shape(v@),
{
    if v.len() != 20 {
        return false;
    }
    let mut i: usize = 0;
    while i < v.len()
        invariant
            i <= v.len(),
            forall|j: int| 0 <= j < i ==> (#[trigger] v@[j]) as u32 <= 0x7f,
        decreases v.len() - i,
    {
        if v[i] as u32 > 0x7f {
            assert(v@[i as int] as u32 > 0x7f);
            return false;
        }
        i += 1;
    }
    v[4] == '-' && v[7] == '-' && v[10] == 'T' && v[13] == ':' && v[16] == ':' && v[19] == 'Z'
}

/// The number that a short range of digits spells.
fn parse_fixed_u32(v: &Vec<char>, from: usize, to: usize) -> (r: Option<u32>)
    requires
        from < to <= v.len(),
        to - from <= 4,
    ensures
        r is Some <==> field(v@, from as int, to as int) is Some,
        r is Some ==> r->0 == field(v@, from as int, to as int)->0,
        r is Some ==> r->0 < 10_000,
{
    let mut value: u32 = 0;
    let mut i: usize = from;
    let mut bound: Ghost<int> = Ghost(1);
    assert(v@.subrange(from as int, from as int) =~= Seq::<char>::empty());
    while i < to
        invariant
            from <= i <= to <= v.len(),
            to - from <= 4,
            digits_value(v@.subrange(from as int, i as int), 10) == Some(value as nat),
            value < bound@,
            i == from ==> bound@ == 1,
            i == from + 1 ==> bound@ == 10,
            i == from + 2 ==> bound@ == 100,
            i == from + 3 ==> bound@ == 1000,
            i == from + 4 ==> bound@ == 10_000,
        decreases to - i,
    {
        let ghost upto = v@.subrange(from as int, i + 1);
        assert(upto.drop_last() =~= v@.subrange(from as int, i as int));
        assert(upto.last() == v@[i as int]);
        match digit_of(v[i], 10) {
            None => {
                proof {
                    let whole = v@.subrange(from as int, to as int);
                    lemma_digits_prefix(whole, i + 1 - from, 10);
                    assert(whole.take(i + 1 - from) =~= upto);
                }
                return None;
            },
            Some(d) => {
                value = value * 10 + d as u32;
            },
        }
        i += 1;
        proof {
            bound@ = bound@ * 10;
        }
    }
    Some(value)
}

/// The days of a month; zero when there is no such month.
fn days_in_month(year: u32, month: u32) -> (r: u32)
    ensures
        r == month_days(year as int, month as int),
{
    if month == 2 {
        if is_leap_year(year) {
            29
        } else {
            28
        }
    } else if month == 4 || month == 6 || month == 9 || month == 11 {
        30
    } else if 1 <= month && month <= 12 {
        31
    } else {
        0
    }
}

fn is_leap_year(year: u32) -> (r: bool)
    ensures
        r == leap(year as int),
{
    (year % 4 == 0 && year % 100 != 0) || year % 400 == 0
}

fn parse_rfc3339_utc_seconds(raw: &str, v: &Vec<char>) -> (r: Result<u64, String>)
    requires
        v@ == raw@,
    ensures
        same_outcome(r, stamp_seconds(raw@)),
{
    if !is_stamp_shape(v) {
        return Err(
            concat2("invalid --replay-at timestamp (want YYYY-MM-DDTHH:MM:SSZ or ns): ", raw),
        );
    }
    let year: u32 = match parse_fixed_u32(v, 0, 4) {
        Some(n) => n,
        None => return Err(concat4("--replay-at ", "year", " is not digits: ", raw)),
    };
    let month: u32 = match parse_fixed_u32(v, 5, 7) {
        Some(n) => n,
        None => return Err(concat4("--replay-at ", "month", " is not digits: ", raw)),
    };
    let day: u32 = match parse_fixed_u32(v, 8, 10) {
        Some(n) => n,
        None => return Err(concat4("--replay-at ", "day", " is not digits: ", raw)),
    };
    let hour: u32 = match parse_fixed_u32(v, 11, 13) {
        Some(n) => n,
        None => return Err(concat4("--replay-at ", "hour", " is not digits: ", raw)),
    };
    let minute: u32 = match parse_fixed_u32(v, 14, 16) {
        Some(n) => n,
        None => return Err(concat4("--replay-at ", "minute", " is not digits: ", raw)),
    };
    let second: u32 = match parse_fixed_u32(v, 17, 19) {
        Some(n) => n,
        None => return Err(concat4("--replay-at ", "second", " is not digits: ", raw)),
    };
    if month < 1 || month > 12 {
        return Err(concat2("--replay-at month out of range: ", raw));
    }
    if day < 1 || day > days_in_month(year, month) {
        return Err(concat2("--replay-at day out of range: ", raw));
    }
    if hour > 23 {
        return Err(concat2("--replay-at hour out of range: ", raw));
    }
    if minute > 59 {
        return Err(concat2("--replay-at minute out of range: ", raw));
    }
    if second > 59 {
        return Err(concat2("--replay-at second out of range: ", raw));
    }
    let days: i64 = days_from_civil(year as i64, month, day);
    if days < 0 {
        return Err(concat2("--replay-at predates the Unix epoch: ", raw));
    }
    Ok(days as u64 * 86_400 + hour as u64 * 3600 + minute as u64 * 60 + second as u64)
}

/// Reads a `--replay-at` value: digits alone are nanoseconds, `YYYY-MM-DDTHH:MM:SSZ` is an
/// instant in UTC.
pub fn parse_replay_at(raw: &str) -> (r: Result<u64, String>)
    ensures
        same_outcome(r, replay_at(raw@)),
{
    let v: Vec<char> = chars_of(raw);
    if v.len() == 0 {
        return Err("empty --replay-at value".to_owned());
    }
    if is_all_digits(&v) {
        assert(v@.skip(0) =~= v@);
        return match parse_unsigned(&v, 0, 10, u64::MAX) {
            Some(ns) => Ok(ns),
            None => Err(concat2("invalid --replay-at nanoseconds: ", raw)),
        };
    }
    match parse_rfc3339_utc_seconds(raw, &v) {
        Ok(secs) => Ok(
            match secs.checked_mul(1_000_000_000) {
                Some(ns) => ns,
                None => u64::MAX,
            },
        ),
        Err(message) => Err(message),
    }
}

/// The count of days begins at 1970-01-01, a year has a day more than three hundred and sixty-five
/// exactly where it is a leap year, and that is every fourth, but of the full centuries only every
/// fourth.
pub proof fn law_calendar(year: i64, r: i64, s: i64, epoch: i64)
    requires
        -100_000_000 < year < 100_000_000,
        call_ensures(days_from_civil, (year, 1, 1), r),
        call_ensures(days_from_civil, ((year + 1) as i64, 1, 1), s),
        call_ensures(days_from_civil, (1970, 1, 1), epoch),
    ensures
        epoch == 0,
        s - r == 365 || s - r == 366,
        s - r == 366 <==> year as int % 4 == 0 && (year as int % 100 != 0 || year as int % 400 == 0),
{
    lemma_months(year as int);
    lemma_months(year + 1);
    lemma_months(1970);
    lemma_year_length(year as int);
    lemma_leap_step(year as int);
}

/// A date is written as its year in four digits, its month and its day in two, with hyphens.
pub proof fn law_date_written(days: u32, year: int, month: int, day: int, r: String)
    requires
        call_ensures(ymd_from_unix_days, (days,), r),
        valid_date(year, month, day),
        0 <= year < 10_000,
        civil_day(year, month, day) == days,
    ensures
        r@.len() == 10,
        digits_value(r@.subrange(0, 4), 10) == Some(year as nat),
        r@[4] == '-',
        digits_value(r@.subrange(5, 7), 10) == Some(month as nat),
        r@[7] == '-',
        digits_value(r@.subrange(8, 10), 10) == Some(day as nat),
{
    law_date_of(year, month, day);
    lemma_date_text(year, month, day);
    law_padded_round_trip(year as nat, 4);
    law_padded_round_trip(month as nat, 2);
    law_padded_round_trip(day as nat, 2);
}

proof fn lemma_stamp_parts(date: Seq<char>, clock: Seq<char>, s: Seq<char>)
    requires
        date.len() == 10,
        clock.len() == 8,
        s == date + "T"@ + clock + "Z"@,
    ensures
        s.len() == 20,
        forall|i: int, j: int| 0 <= i <= j <= 10 ==> #[trigger] s.subrange(i, j) == date.subrange(i, j),
        s.subrange(11, 13) == clock.subrange(0, 2),
        s.subrange(14, 16) == clock.subrange(3, 5),
        s.subrange(17, 19) == clock.subrange(6, 8),
        forall|i: int| 0 <= i < 10 ==> #[trigger] s[i] == date[i],
        s[10] == 'T',
        s[13] == clock[2],
        s[16] == clock[5],
        s[19] == 'Z',
{
    reveal_strlit("T");
    reveal_strlit("Z");
    assert forall|i: int, j: int| 0 <= i <= j <= 10 implies #[trigger] s.subrange(i, j)
        == date.subrange(i, j) by {
        assert(s.subrange(i, j) =~= date.subrange(i, j));
    }
    assert(s.subrange(11, 13) =~= clock.subrange(0, 2));
    assert(s.subrange(14, 16) =~= clock.subrange(3, 5));
    assert(s.subrange(17, 19) =~= clock.subrange(6, 8));
}

proof fn lemma_time_of_day(secs: int)
    requires
        0 <= secs,
    ensures
        secs % 86_400 / 60 % 60 == secs % 3_600 / 60,
        secs % 86_400 % 60 == secs % 60,
        0 <= secs % 86_400 / 3_600 < 100,
{
    let second = secs % 86_400;
    lemma_mod_mod(secs, 3_600, 24);
    lemma_mod_mod(secs, 60, 1_440);
    assert(second % 3_600 == secs % 3_600);
    lemma_minute(second);
}

proof fn lemma_minute(second: int)
    requires
        0 <= second < 86_400,
    ensures
        second / 60 % 60 == second % 3_600 / 60,
{
    let hour = second / 3_600;
    let rest = second % 3_600;
    let minute = rest / 60;
    assert(second == 3_600 * hour + 60 * minute + rest % 60);
    assert(0 <= minute < 60);
    assert(second / 60 == 60 * hour + minute);
}

/// An instant is written as its date and its time of day, hours before minutes before seconds.
#[verifier::rlimit(80)]
pub proof fn law_instant_written(secs: u64, year: int, month: int, day: int, r: String)
    requires
        call_ensures(rfc3339_utc, (secs,), r),
        valid_date(year, month, day),
        0 <= year < 10_000,
        civil_day(year, month, day) == secs / 86_400,
    ensures
        r@.len() == 20,
        digits_value(r@.subrange(0, 4), 10) == Some(year as nat),
        digits_value(r@.subrange(5, 7), 10) == Some(month as nat),
        digits_value(r@.subrange(8, 10), 10) == Some(day as nat),
        digits_value(r@.subrange(11, 13), 10) == Some((secs % 86_400 / 3_600) as nat),
        digits_value(r@.subrange(14, 16), 10) == Some((secs % 3_600 / 60) as nat),
        digits_value(r@.subrange(17, 19), 10) == Some((secs % 60) as nat),
        r@[4] == '-' && r@[7] == '-' && r@[10] == 'T' && r@[13] == ':' && r@[16] == ':' && r@[19]
            == 'Z',
{
    let second = secs as int % 86_400;
    law_date_of(year, month, day);
    lemma_date_text(year, month, day);
    lemma_clock_text(second);
    lemma_time_of_day(secs as int);
    law_padded_round_trip(year as nat, 4);
    law_padded_round_trip(month as nat, 2);
    law_padded_round_trip(day as nat, 2);
    law_padded_round_trip((second / 3600) as nat, 2);
    law_padded_round_trip((second / 60 % 60) as nat, 2);
    law_padded_round_trip((second % 60) as nat, 2);
    lemma_stamp_parts(date_text((year, month, day)), clock_text(second), r@);
}

/// A place in time that is given as an instant reads back as what was written, in nanoseconds; one
/// that is given in digits is that many nanoseconds.
pub proof fn law_place_in_time(
    secs: u64,
    written: String,
    text: &'static str,
    r: Result<u64, String>,
    ns: u64,
    digits: &'static str,
    s: Result<u64, String>,
)
    requires
        secs <= 18_446_744_073,
        call_ensures(rfc3339_utc, (secs,), written),
        text@ == written@,
        call_ensures(parse_replay_at, (text,), r),
        digits@ == decimal(ns as nat),
        call_ensures(parse_replay_at, (digits,), s),
    ensures
        r is Ok && r->Ok_0 == secs * 1_000_000_000,
        s is Ok && s->Ok_0 == ns,
{
    law_nanoseconds_round_trip(ns);
    let days = secs as int / 86_400;
    let date = date_of(days);
    law_civil_round_trip(days as i64, 1970, 1, 1);
    lemma_months(1970);
    assert(date.0 < 10_000) by {
        if date.0 >= 10_000 {
            lemma_months(10_000);
            assert(civil_day(10_000, 1, 1) > 2_900_000);
            if date != (10_000int, 1int, 1int) {
                law_dates_in_order(10_000, 1, 1, date.0, date.1, date.2);
            }
        }
    }
    assert(date.0 >= 1970) by {
        if date.0 < 1970 {
            law_dates_in_order(date.0, date.1, date.2, 1970, 1, 1);
        }
    }
    law_stamp_round_trip(date.0, date.1, date.2, secs as int % 86_400);
    assert(days * 86_400 + secs as int % 86_400 == secs);
}

/// What is taken for an instant has a date of the calendar and a time of the day in its fields, and
/// names that many days and seconds since 1970.
pub proof fn law_instant_read(raw: &'static str, r: Result<u64, String>)
    requires
        call_ensures(parse_replay_at, (raw,), r),
        r is Ok,
        raw@.len() > 4,
        raw@[4] == '-',
    ensures
        ({
            let number = |from: int, to: int| digits_value(raw@.subrange(from, to), 10)->0 as int;
            &&& raw@.len() == 20
            &&& 1 <= number(5, 7) <= 12
            &&& 1 <= number(8, 10) <= 31
            &&& number(11, 13) <= 23
            &&& number(14, 16) <= 59
            &&& number(17, 19) <= 59
            &&& r->Ok_0 < u64::MAX ==> r->Ok_0 == (civil_day(number(0, 4), number(5, 7), number(
                8,
                10,
            )) * 86_400 + number(11, 13) * 3_600 + number(14, 16) * 60 + number(17, 19))
                * 1_000_000_000
        }),
{
    assert(digit_value(raw@[4], 10) is None);
    assert(!all_digits(raw@));
    let year = field(raw@, 0, 4)->0 as int;
    let month = field(raw@, 5, 7)->0 as int;
    let day = field(raw@, 8, 10)->0 as int;
    lemma_digits_prefix(raw@.subrange(0, 4), 0, 10);
    lemma_four_digits(raw@.subrange(0, 4));
    lemma_civil_bound(year, month, day);
}

proof fn lemma_four_digits(s: Seq<char>)
    requires
        s.len() == 4,
        digits_value(s, 10) is Some,
    ensures
        digits_value(s, 10)->0 <= 9_999,
{
    reveal_with_fuel(digits_value, 6);
}

proof fn lemma_civil_bound(year: int, month: int, day: int)
    requires
        valid_date(year, month, day),
        0 <= year <= 9_999,
    ensures
        civil_day(year, month, day) < 4_000_000,
{
    lemma_months(year);
    lemma_months(10_000);
    law_dates_in_order(year, month, day, 10_000, 1, 1);
}

} // verus!
