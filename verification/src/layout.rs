//! Ladder rows: which are visible, where a price lies, and how prices and sizes are written.

use crate::num::{greatest, least};
use crate::text::{decimal, decimal_string, padded, push_decimal, push_padded};
use vstd::arithmetic::power2::pow2;
use vstd::prelude::*;

verus! {

/// Column labels, from left to right.
pub const COL_LABELS: [&'static str; 6] = ["PRICE", "VOL", "BID", "cB", "cA", "ASK"];

/// The window of at most `max_rows` rows around `center`, kept inside the rows: its first row
/// and the one after its last.
pub open spec fn row_window(row_count: int, center: Option<usize>, max_rows: int) -> (int, int) {
    if row_count == 0 || max_rows == 0 {
        (0, 0)
    } else {
        let shown = least(max_rows, row_count);
        let middle = least(
            match center {
                Some(center) => center as int,
                None => row_count / 2,
            },
            row_count - 1,
        );
        let start = least(greatest(middle - shown / 2, 0), row_count - shown);
        (start, start + shown)
    }
}

/// The window of ascending rows around `center`, or around the middle, of at most `max_rows`.
pub fn visible_row_window(row_count: usize, center: Option<usize>, max_rows: usize) -> (r: (
    usize,
    usize,
))
    ensures
        (r.0 as int, r.1 as int) == row_window(row_count as int, center, max_rows as int),
        r.0 <= r.1 <= row_count,
{
    if row_count == 0 || max_rows == 0 {
        return (0, 0);
    }
    let shown: usize = if max_rows < row_count {
        max_rows
    } else {
        row_count
    };
    let asked: usize = match center {
        Some(center) => center,
        None => row_count / 2,
    };
    let middle: usize = if asked < row_count - 1 {
        asked
    } else {
        row_count - 1
    };
    let start: usize = middle.saturating_sub(shown / 2);
    if start > row_count - shown {
        (row_count - shown, row_count)
    } else {
        (start, start + shown)
    }
}

/// A window shows the center row, and as many rows as fit.
pub proof fn law_window_shows_center(row_count: int, center: usize, max_rows: int)
    requires
        0 < row_count,
        0 < max_rows,
        center < row_count,
    ensures
        ({
            let (start, end) = row_window(row_count, Some(center), max_rows);
            &&& 0 <= start <= center < end <= row_count
            &&& end - start == least(max_rows, row_count)
        }),
{
}

/// The row of a price in a descending ladder, counted from the top; none off the tick grid.
pub fn price_to_row_from_top(price: i64, top_price: i64, tick: i64) -> (r: Option<i64>)
    requires
        tick > 0 ==> i64::MIN <= top_price - price <= i64::MAX,
    ensures
        match r {
            Some(row) => tick > 0 && top_price - price == row * tick,
            None => tick <= 0 || (top_price - price) % (tick as int) != 0,
        },
{
    if tick <= 0 {
        return None;
    }
    let delta: i64 = top_price - price;
    let row: i64 = crate::num::floor_div(delta, tick);
    let rest: i64 = crate::num::floor_rem(delta, tick);
    proof {
        vstd::arithmetic::div_mod::lemma_fundamental_div_mod(delta as int, tick as int);
        vstd::arithmetic::mul::lemma_mul_is_commutative(tick as int, row as int);
    }
    if rest != 0 {
        return None;
    }
    Some(row)
}

/// The text of a size; a size of zero stays quiet.
pub open spec fn size_text(size: nat) -> Seq<char> {
    if size == 0 {
        Seq::empty()
    } else {
        decimal(size)
    }
}

/// Writes a size or a volume; nothing for zero.
pub fn format_size(size: u64) -> (r: String)
    ensures
        r@ == size_text(size as nat),
{
    if size == 0 {
        String::new()
    } else {
        decimal_string(size)
    }
}

/// Whether a price lies on the inside market, from the best bid to the best ask.
pub fn is_inside_market(price: i64, best_bid: Option<i64>, best_ask: Option<i64>) -> (r: bool)
    ensures
        r == match (best_bid, best_ask) {
            (Some(bid), Some(ask)) => bid <= price <= ask,
            (Some(bid), None) => price == bid,
            (None, Some(ask)) => price == ask,
            (None, None) => false,
        },
{
    match (best_bid, best_ask) {
        (Some(bid), Some(ask)) => price >= bid && price <= ask,
        (Some(bid), None) => price == bid,
        (None, Some(ask)) => price == ask,
        (None, None) => false,
    }
}

/// The quotient rounded to the nearest number; of two equally near, the even one.
pub open spec fn nearest_quotient(n: nat, d: nat) -> nat {
    let q = n / d;
    let rest = n % d;
    if 2 * rest < d {
        q
    } else if 2 * rest > d {
        q + 1
    } else {
        q + q % 2
    }
}

/// The smallest number of doublings from `s` on that brings `n` to `target`, and what it
/// then is.
pub open spec fn scaled_up(n: nat, s: nat, target: nat) -> (nat, nat)
    decreases
            if n >= target {
                0
            } else {
                target - n
            },
{
    if n == 0 || n >= target {
        (n, s)
    } else {
        scaled_up(2 * n, s + 1, target)
    }
}

/// The smallest number of halvings from `k` on that brings the weight of `n` in units of
/// `2^k` below `limit`.
pub open spec fn unit_for(n: nat, k: nat, limit: nat) -> nat
    decreases n,
{
    if n < limit || n == 0 {
        k
    } else {
        unit_for(n / 2, k + 1, limit)
    }
}

/// The amount as a binary number of fifty-three digits: exact below 2^53, the nearest above.
pub open spec fn in_53_digits(n: nat) -> nat {
    let k = unit_for(n, 0, 0x20_0000_0000_0000);
    nearest_quotient(n, pow2(k)) * pow2(k)
}

/// The hundredths that a price of thousand-millionths is written with. The price is first
/// taken as a binary fraction of fifty-three digits, then rounded to hundredths; of two
/// equally near, to the even one.
pub open spec fn hundredths(price: nat) -> nat {
    let (n, s) = scaled_up(in_53_digits(price), 0, 0x10_0000_0000_0000 * 1_000_000_000);
    let digits = nearest_quotient(n, 1_000_000_000);
    nearest_quotient(digits * 100, pow2(s))
}

/// A price as it is written: whole part, point and two digits, after a minus sign if the price
/// is below zero.
pub open spec fn price_text(price: int) -> Seq<char> {
    let cents = hundredths(
        if price < 0 {
            (-price) as nat
        } else {
            price as nat
        },
    );
    (if price < 0 {
        "-"@
    } else {
        Seq::empty()
    }) + decimal(cents / 100) + "."@ + padded(cents % 100, 2)
}

/// The quotient rounded to the nearest number; of two equally near, the even one.
fn round_quotient(n: u128, d: u128) -> (r: u128)
    requires
        0 < d <= 0x4000_0000_0000_0000_0000_0000_0000_0000,
        n <= 0x4000_0000_0000_0000_0000_0000_0000_0000,
    ensures
        r == nearest_quotient(n as nat, d as nat),
        r <= n / d + 1,
{
    let q: u128 = n / d;
    let rest: u128 = n % d;
    assert(q <= n) by (nonlinear_arith)
        requires
            q == n / d,
            d >= 1,
    ;
    if 2 * rest < d {
        q
    } else if 2 * rest > d {
        q + 1
    } else {
        q + q % 2
    }
}

/// The number as a binary number of fifty-three digits.
fn to_53_digits(n: u64) -> (r: u128)
    ensures
        r == in_53_digits(n as nat),
        n > 0 ==> r > 0,
        r <= 0x1_0000_0000_0001_0000,
{
    let mut unit: u64 = 1;
    let mut rest: u64 = n;
    let mut k: Ghost<nat> = Ghost(0);
    proof {
        vstd::arithmetic::power2::lemma2_to64();
        vstd::arithmetic::power2::lemma2_to64_rest();
    }
    while rest >= 0x20_0000_0000_0000
        invariant
            unit == pow2(k@),
            1 <= unit <= 0x1000,
            n > 0 ==> rest > 0,
            rest * unit <= n,
            unit_for(n as nat, 0, 0x20_0000_0000_0000) == unit_for(
                rest as nat,
                k@,
                0x20_0000_0000_0000,
            ),
        decreases rest,
    {
        proof {
            vstd::arithmetic::power2::lemma_pow2_unfold(k@ + 1);
            assert(unit <= 0x800) by (nonlinear_arith)
                requires
                    rest * unit <= n,
                    rest >= 0x20_0000_0000_0000,
                    n <= 0xffff_ffff_ffff_ffff,
                    unit >= 0,
            ;
            assert((rest / 2) * (unit * 2) <= n) by (nonlinear_arith)
                requires
                    rest * unit <= n,
                    unit >= 0,
                    rest / 2 * 2 <= rest,
            ;
        }
        rest = rest / 2;
        unit = unit * 2;
        proof {
            k@ = k@ + 1;
        }
    }
    let q: u128 = round_quotient(n as u128, unit as u128);
    proof {
        let u = unit as int;
        let m = n as int;
        vstd::arithmetic::div_mod::lemma_fundamental_div_mod(m, u);
        vstd::arithmetic::div_mod::lemma_mod_bound(m, u);
        assert(q * u <= m + u) by (nonlinear_arith)
            requires
                q <= m / u + 1,
                m == u * (m / u) + m % u,
                m % u >= 0,
                u >= 1,
        ;
        if n > 0 {
            assert(m >= u) by (nonlinear_arith)
                requires
                    rest * u <= m,
                    rest >= 1,
                    u >= 1,
            ;
            assert(m / u >= 1) by (nonlinear_arith)
                requires
                    m >= u,
                    u >= 1,
            ;
            assert(q * u >= 1) by (nonlinear_arith)
                requires
                    q >= 1,
                    u >= 1,
            ;
        }
    }
    q * unit as u128
}

/// What a number is doubled up to: `2^52 * 10^9`.
const SCALE_TARGET: u128 = 4_503_599_627_370_496_000_000_000;

/// The hundredths that a price is written with.
fn to_hundredths(price: u64) -> (r: u128)
    ensures
        r == hundredths(price as nat),
        r <= 0x1_0000_0000_0000_0000,
{
    let mut n: u128 = to_53_digits(price);
    let ghost start = n as nat;
    let mut power: u128 = 1;
    let mut s: Ghost<nat> = Ghost(0);
    proof {
        vstd::arithmetic::power2::lemma2_to64();
    }
    while n != 0 && n < SCALE_TARGET
        invariant
            power == pow2(s@),
            power >= 1,
            n == start * power,
            start == 0 ==> n == 0,
            start > 0 ==> n > 0,
            start <= 0x1_0000_0000_0001_0000,
            n < 2 * SCALE_TARGET,
            scaled_up(start, 0, SCALE_TARGET as nat) == scaled_up(
                n as nat,
                s@,
                SCALE_TARGET as nat,
            ),
        decreases 2 * SCALE_TARGET - n,
    {
        proof {
            vstd::arithmetic::power2::lemma_pow2_unfold(s@ + 1);
            assert(power <= n) by (nonlinear_arith)
                requires
                    n == start * power,
                    start >= 1,
                    power >= 0,
            ;
            assert(n * 2 == start * (power * 2)) by (nonlinear_arith)
                requires
                    n == start * power,
            ;
        }
        n = n * 2;
        power = power * 2;
        proof {
            s@ = s@ + 1;
        }
    }
    let digits: u128 = round_quotient(n, 1_000_000_000);
    assert(digits <= 0x20_0000_0000_0001);
    proof {
        assert(power <= n || n == 0) by (nonlinear_arith)
            requires
                n == start * power,
                power >= 1,
                start >= 0,
        ;
        if n == 0 {
            assert(start == 0);
        }
    }
    assert(n == 0 ==> power == 1);
    let cents: u128 = round_quotient(digits * 100, power);
    proof {
        let total = digits as int * 100;
        assert(total / power as int <= total) by (nonlinear_arith)
            requires
                total >= 0,
                power >= 1,
        ;
    }
    cents
}

/// Writes a price of thousand-millionths with two decimals.
pub fn format_price(price_1e9: i64) -> (r: String)
    ensures
        r@ == price_text(price_1e9 as int),
{
    let mut out: String = String::new();
    let amount: u64 = if price_1e9 >= 0 {
        price_1e9 as u64
    } else {
        out.append("-");
        (-(price_1e9 as i128)) as u64
    };
    let cents: u128 = to_hundredths(amount);
    push_decimal(&mut out, (cents / 100) as u64);
    out.append(".");
    push_padded(&mut out, (cents % 100) as u64, 2);
    out
}

proof fn lemma_nearest(n: nat, d: nat)
    requires
        d > 0,
    ensures
        -(d as int) <= 2 * (nearest_quotient(n, d) * d - n) <= d,
{
    let q = n / d;
    vstd::arithmetic::div_mod::lemma_fundamental_div_mod(n as int, d as int);
    vstd::arithmetic::div_mod::lemma_mod_bound(n as int, d as int);
    assert(d * q == q * d) by (nonlinear_arith);
    assert((q + 1) * d == q * d + d) by (nonlinear_arith);
    assert(q % 2 == 0 || q % 2 == 1);
}

proof fn lemma_nearest_is(n: nat, d: nat, c: nat)
    requires
        d > 0,
        -(d as int) < 2 * (c * d - n) < d,
    ensures
        nearest_quotient(n, d) == c,
{
    lemma_nearest(n, d);
    let r = nearest_quotient(n, d);
    if r > c {
        assert(r * d >= c * d + d) by (nonlinear_arith)
            requires
                r >= c + 1,
                d >= 0,
        ;
    } else if r < c {
        assert(c * d >= r * d + d) by (nonlinear_arith)
            requires
                c >= r + 1,
                d >= 0,
        ;
    }
}

proof fn lemma_scaled_up(start: nat, n: nat, s: nat, target: nat)
    requires
        n == start * pow2(s),
    ensures
        ({
            let (m, t) = scaled_up(n, s, target);
            &&& m == start * pow2(t)
            &&& t >= s
            &&& n > 0 ==> m >= target
        }),
    decreases
            if n >= target {
                0
            } else {
                target - n
            },
{
    if !(n == 0 || n >= target) {
        vstd::arithmetic::power2::lemma_pow2_unfold(s + 1);
        assert(2 * n == start * pow2(s + 1)) by (nonlinear_arith)
            requires
                n == start * pow2(s),
                pow2(s + 1) == 2 * pow2(s),
        ;
        lemma_scaled_up(start, 2 * n, s + 1, target);
    }
}

/// A price in whole hundredths below 2^53 is written as exactly those hundredths.
pub proof fn law_whole_hundredths_exact(cents: nat)
    requires
        cents * 10_000_000 < 0x20_0000_0000_0000,
    ensures
        hundredths(cents * 10_000_000) == cents,
{
    let price = cents * 10_000_000;
    let target = (0x10_0000_0000_0000 * 1_000_000_000) as nat;
    vstd::arithmetic::power2::lemma2_to64();
    assert(unit_for(price, 0, 0x20_0000_0000_0000) == 0);
    assert(nearest_quotient(price, 1) == price) by {
        lemma_nearest_is(price, 1, price);
    }
    assert(in_53_digits(price) == price);
    lemma_scaled_up(price, price, 0, target);
    let (n, s) = scaled_up(price, 0, target);
    let p = pow2(s);
    vstd::arithmetic::power2::lemma_pow2_pos(s);
    let digits = nearest_quotient(n, 1_000_000_000);
    if cents == 0 {
        assert(n == 0 && s == 0);
        lemma_nearest_is(0, 1_000_000_000, 0);
        lemma_nearest_is(0, 1, 0);
    } else {
        lemma_nearest(n, 1_000_000_000);
        assert(n == cents * p * 10_000_000) by (nonlinear_arith)
            requires
                n == price * p,
                price == cents * 10_000_000,
        ;
        // The binary fraction is off by at most half a unit, which is less than half a
        // hundredth because the unit is small.
        assert(-50 <= 100 * digits - cents * p <= 50);
        assert(p > 100) by (nonlinear_arith)
            requires
                price * p >= target,
                price < 0x20_0000_0000_0000,
                target == 0x10_0000_0000_0000 * 1_000_000_000,
                p >= 0,
        ;
        lemma_nearest_is(digits * 100, p, cents);
    }
}

/// A price is never written as nothing.
pub proof fn lemma_price_text_shown(price: int)
    ensures
        price_text(price).len() > 0,
{
    reveal_strlit(".");
}

/// A window has as many rows as fit; the row it is centered on, or the middle one, is in it, and in
/// its middle unless the rows end before.
pub proof fn law_row_window(
    row_count: usize,
    center: Option<usize>,
    max_rows: usize,
    r: (usize, usize),
)
    requires
        call_ensures(visible_row_window, (row_count, center, max_rows), r),
    ensures
        r.0 <= r.1 <= row_count,
        max_rows <= row_count ==> r.1 - r.0 == max_rows,
        0 < row_count < max_rows ==> r.0 == 0 && r.1 == row_count,
        row_count > 0 && max_rows > 0 ==> {
            let c = if center is None {
                row_count / 2
            } else if center->0 < row_count {
                center->0
            } else {
                (row_count - 1) as usize
            };
            let middle = r.0 + (r.1 - r.0) / 2;
            &&& r.0 <= c < r.1
            &&& c < middle ==> r.0 == 0
            &&& c > middle ==> r.1 == row_count
        },
{
}

/// The rows of a ladder count down from the top: a price that is one tick lower is one row further
/// down, the top itself is the first, and a price off the grid has none.
pub proof fn law_rows_count_down(
    price: i64,
    top: i64,
    tick: i64,
    r: Option<i64>,
    s: Option<i64>,
)
    requires
        tick > 0,
        price - tick >= i64::MIN,
        i64::MIN <= top - price + tick <= i64::MAX,
        call_ensures(price_to_row_from_top, (price, top, tick), r),
        call_ensures(price_to_row_from_top, ((price - tick) as i64, top, tick), s),
    ensures
        price == top ==> r == Some(0i64),
        r is Some ==> s is Some && s->0 == r->0 + 1,
        r is None ==> s is None,
{
    let t = tick as int;
    let d = top - price;
    if r is Some {
        let row = r->0 as int;
        assert(d + t == (row + 1) * t) by (nonlinear_arith)
            requires
                d == row * t,
        ;
        vstd::arithmetic::div_mod::lemma_mod_multiples_basic(row + 1, t);
        if s is Some {
            let next = s->0 as int;
            assert(next == row + 1) by (nonlinear_arith)
                requires
                    next * t == (row + 1) * t,
                    t > 0,
            ;
        }
        if price == top {
            assert(row == 0) by (nonlinear_arith)
                requires
                    row * t == 0,
                    t > 0,
            ;
        }
    } else {
        vstd::arithmetic::div_mod::lemma_mod_add_multiples_vanish(d, t);
        if s is Some {
            vstd::arithmetic::div_mod::lemma_mod_multiples_basic(s->0 as int, t);
        }
        if price == top {
            vstd::arithmetic::div_mod::lemma_small_mod(0, t as nat);
        }
    }
}

/// A size of zero is not written, and any other is written as its numeral.
pub proof fn law_size_spelled(size: u64, r: String)
    requires
        call_ensures(format_size, (size,), r),
    ensures
        r@.len() == 0 <==> size == 0,
        size > 0 ==> crate::text::digits_value(r@, 10) == Some(size as nat),
{
    crate::text::law_numeral_round_trip(size as nat);
}

/// The inside market reaches from the best bid to the best ask, both included; with one side it is
/// that price alone, and with none there is no inside.
pub proof fn law_inside_market(price: i64, bid: Option<i64>, ask: Option<i64>, r: bool)
    requires
        call_ensures(is_inside_market, (price, bid, ask), r),
    ensures
        bid is Some && ask is Some && (price < bid->0 || price > ask->0) ==> !r,
        bid is Some && ask is Some && bid->0 <= ask->0 && (price == bid->0 || price == ask->0)
            ==> r,
        bid is Some && ask is Some && bid->0 < price && price < ask->0 ==> r,
        bid is Some && ask is None ==> (r <==> price == bid->0),
        bid is None && ask is Some ==> (r <==> price == ask->0),
        bid is None && ask is None ==> !r,
{
}

/// The hundredths that a price is written with are less than one hundredth from it.
pub proof fn law_hundredths_close(price: nat)
    requires
        price < 0x20_0000_0000_0000,
    ensures
        -10_000_000 < hundredths(price) * 10_000_000 - price < 10_000_000,
{
    let target = (0x10_0000_0000_0000 * 1_000_000_000) as nat;
    vstd::arithmetic::power2::lemma2_to64();
    assert(unit_for(price, 0, 0x20_0000_0000_0000) == 0);
    lemma_nearest_is(price, 1, price);
    assert(in_53_digits(price) == price);
    lemma_scaled_up(price, price, 0, target);
    let (n, s) = scaled_up(price, 0, target);
    let p = pow2(s);
    vstd::arithmetic::power2::lemma_pow2_pos(s);
    let digits = nearest_quotient(n, 1_000_000_000);
    let h = nearest_quotient(digits * 100, p);
    assert(h == hundredths(price));
    lemma_nearest(n, 1_000_000_000);
    lemma_nearest(digits * 100, p);
    if price == 0 {
        assert(n == 0 && s == 0);
        lemma_nearest_is(0, 1_000_000_000, 0);
        lemma_nearest_is(0, 1, 0);
    } else {
        assert(p > 100) by (nonlinear_arith)
            requires
                price * p >= target,
                price < 0x20_0000_0000_0000,
                target == 0x10_0000_0000_0000 * 1_000_000_000,
                p >= 0,
        ;
        let off = h * 10_000_000 - price;
        assert(off * p == h * p * 10_000_000 - n) by (nonlinear_arith)
            requires
                off == h * 10_000_000 - price,
                n == price * p,
        ;
        assert(-10_000_000 < off < 10_000_000) by (nonlinear_arith)
            requires
                off * p == h * p * 10_000_000 - n,
                -(p as int) <= 2 * (h * p - digits * 100) <= p,
                -1_000_000_000 <= 2 * (digits * 1_000_000_000 - n) <= 1_000_000_000,
                p > 100,
        ;
    }
}

/// A price in whole hundredths is written as it is: its whole part, a point and two digits, with a
/// minus sign in front of one below zero.
pub proof fn law_price_written(price: i64, cents: nat, below: bool, r: String)
    requires
        call_ensures(format_price, (price,), r),
        cents * 10_000_000 < 0x20_0000_0000_0000,
        price == (if below {
            -(cents as int * 10_000_000)
        } else {
            cents as int * 10_000_000
        }),
        below ==> cents > 0,
    ensures
        !below ==> r@ == decimal(cents / 100) + "."@ + padded(cents % 100, 2),
        below ==> r@ == "-"@ + decimal(cents / 100) + "."@ + padded(cents % 100, 2),
{
    law_whole_hundredths_exact(cents);
    if !below {
        assert(Seq::<char>::empty() + decimal(cents / 100) =~= decimal(cents / 100));
    }
}

} // verus!
