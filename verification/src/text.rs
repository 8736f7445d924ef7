//! Text primitives: the decimal and hexadecimal numerals, the padding and the scanning
//! that every label, report line and parser of this library is built from.
//!
//! A string is modelled by the sequence of its characters.

use vstd::prelude::*;

verus! {

/// `String::push` appends the given character to the end of the string.
pub assume_specification[ String::push ](s: &mut String, c: char)
    ensures
        final(s)@ == old(s)@.push(c),
;

/// A result whose error is a message, compared with its model.
pub open spec fn same_outcome<T>(got: Result<T, String>, want: Result<T, Seq<char>>) -> bool {
    match (got, want) {
        (Ok(a), Ok(b)) => a == b,
        (Err(a), Err(b)) => a@ == b,
        _ => false,
    }
}

/// The text inside an optional string.
pub open spec fn text_of(s: Option<String>) -> Option<Seq<char>> {
    match s {
        Some(t) => Some(t@),
        None => None,
    }
}

/// The texts of a list of strings.
pub open spec fn texts_of(v: Seq<String>) -> Seq<Seq<char>> {
    Seq::new(v.len(), |i: int| v[i]@)
}

/// The character of a decimal digit.
pub open spec fn digit_char(d: nat) -> char {
    (48 + d) as char
}

/// The decimal numeral of `n`, without leading zeros.
pub open spec fn decimal(n: nat) -> Seq<char>
    decreases n,
{
    if n < 10 {
        seq![digit_char(n)]
    } else {
        decimal(n / 10).push(digit_char(n % 10))
    }
}

/// The decimal numeral of a signed number.
pub open spec fn signed_decimal(n: int) -> Seq<char> {
    if n < 0 {
        seq!['-'] + decimal((-n) as nat)
    } else {
        decimal(n as nat)
    }
}

/// `count` copies of `c`.
pub open spec fn repeated(c: char, count: int) -> Seq<char> {
    Seq::new(if count < 0 { 0 } else { count as nat }, |i: int| c)
}

/// The decimal numeral of `n`, filled up with zeros on the left to `width` characters.
pub open spec fn padded(n: nat, width: nat) -> Seq<char> {
    repeated('0', width - decimal(n).len()) + decimal(n)
}

/// Append one decimal digit.
fn push_digit(out: &mut String, d: u64)
    requires
        d < 10,
    ensures
        final(out)@ == old(out)@.push(digit_char(d as nat)),
{
    out.push((48u8 + d as u8) as char);
}

/// Append the decimal numeral of `n`.
pub fn push_decimal(out: &mut String, n: u64)
    ensures
        final(out)@ == old(out)@ + decimal(n as nat),
    decreases n,
{
    if n < 10 {
        push_digit(out, n);
        assert(out@ =~= old(out)@ + decimal(n as nat));
    } else {
        push_decimal(out, n / 10);
        push_digit(out, n % 10);
        assert(out@ =~= old(out)@ + decimal(n as nat));
    }
}

/// Append the decimal numeral of a signed number.
pub fn push_signed(out: &mut String, n: i64)
    ensures
        final(out)@ == old(out)@ + signed_decimal(n as int),
{
    if n < 0 {
        out.push('-');
        if n == i64::MIN {
            push_decimal(out, 9_223_372_036_854_775_808);
        } else {
            push_decimal(out, (-n) as u64);
        }
        assert(out@ =~= old(out)@ + signed_decimal(n as int));
    } else {
        push_decimal(out, n as u64);
    }
}

/// The decimal numeral of `n` as a string.
pub fn decimal_string(n: u64) -> (r: String)
    ensures
        r@ == decimal(n as nat),
{
    let mut out = String::new();
    push_decimal(&mut out, n);
    assert(out@ =~= decimal(n as nat));
    out
}

/// The number of digits of `n`.
fn decimal_len(n: u64) -> (r: u64)
    ensures
        r == decimal(n as nat).len(),
{
    let mut rest: u64 = n;
    let mut count: u64 = 1;
    while rest >= 10
        invariant
            count + decimal(rest as nat).len() == decimal(n as nat).len() + 1,
            count + rest <= n + 1,
        decreases rest,
    {
        rest = rest / 10;
        count = count + 1;
    }
    count
}

/// Append the decimal numeral of `n`, filled up with zeros to `width` characters.
pub fn push_padded(out: &mut String, n: u64, width: u64)
    ensures
        final(out)@ == old(out)@ + padded(n as nat, width as nat),
{
    let len: u64 = decimal_len(n);
    let mut have: u64 = len;
    while have < width
        invariant
            len == decimal(n as nat).len(),
            len <= have,
            have <= width || have == len,
            out@ == old(out)@ + repeated('0', have - len),
        decreases width - have,
    {
        out.push('0');
        have = have + 1;
        assert(out@ =~= old(out)@ + repeated('0', have - len));
    }
    push_decimal(out, n);
    assert(out@ =~= old(out)@ + padded(n as nat, width as nat));
}

/// The characters of a string.
pub fn chars_of(s: &str) -> (r: Vec<char>)
    ensures
        r@ == s@,
{
    let mut out: Vec<char> = Vec::new();
    for c in it: s.chars()
        invariant
            out@ == s@.take(it.index() as int),
            it.seq() == s@,
    {
        out.push(c);
    }
    assert(out@ =~= s@);
    out
}

/// The string that `v[from..to]` spells.
pub fn string_of(v: &Vec<char>, from: usize, to: usize) -> (r: String)
    requires
        from <= to <= v@.len(),
    ensures
        r@ == v@.subrange(from as int, to as int),
{
    let mut out = String::new();
    let mut i: usize = from;
    while i < to
        invariant
            from <= i <= to <= v@.len(),
            out@ == v@.subrange(from as int, i as int),
        decreases to - i,
    {
        out.push(v[i]);
        i = i + 1;
        assert(out@ =~= v@.subrange(from as int, i as int));
    }
    out
}

/// Equality of two strings.
pub fn str_eq(a: &str, b: &str) -> (r: bool)
    ensures
        r == (a@ == b@),
{
    let x: String = a.to_owned();
    let y: String = b.to_owned();
    x == y
}

/// The value of a digit in a radix of at most sixteen.
pub open spec fn digit_value(c: char, radix: nat) -> Option<nat> {
    let v = if '0' <= c && c <= '9' {
        c as nat - 48
    } else if 'a' <= c && c <= 'f' {
        c as nat - 87
    } else if 'A' <= c && c <= 'F' {
        c as nat - 55
    } else {
        16
    };
    if v < radix {
        Some(v as nat)
    } else {
        None
    }
}

/// The number that a nonempty run of digits denotes; no number when a character is not a digit.
pub open spec fn digits_value(s: Seq<char>, radix: nat) -> Option<nat>
    decreases s.len(),
{
    if s.len() == 0 {
        Some(0)
    } else {
        match (digits_value(s.drop_last(), radix), digit_value(s.last(), radix)) {
            (Some(v), Some(d)) => Some(v * radix + d),
            _ => None,
        }
    }
}

/// The unsigned numeral notation: digits, optionally behind one plus sign, for a number of at
/// most `max`.
pub open spec fn unsigned_value(s: Seq<char>, radix: nat, max: nat) -> Option<nat> {
    let body = if s.len() > 0 && s[0] == '+' {
        s.drop_first()
    } else {
        s
    };
    if body.len() == 0 {
        None
    } else {
        match digits_value(body, radix) {
            Some(v) => if v <= max {
                Some(v)
            } else {
                None
            },
            None => None,
        }
    }
}

/// The digits of a numeral spell its number, and nothing else stands in it.
pub proof fn law_numeral_round_trip(n: nat)
    ensures
        digits_value(decimal(n), 10) == Some(n),
        decimal(n).len() > 0,
        forall|i: int| 0 <= i < decimal(n).len() ==> '0' <= #[trigger] decimal(n)[i] <= '9',
    decreases n,
{
    if n < 10 {
        let s = decimal(n);
        assert(s.drop_last() =~= Seq::<char>::empty());
        assert(digits_value(s.drop_last(), 10) == Some(0nat));
        assert(digit_value(s.last(), 10) == Some(n));
    } else {
        law_numeral_round_trip(n / 10);
        assert(decimal(n).drop_last() =~= decimal(n / 10));
        assert(digit_value(digit_char(n % 10), 10) == Some(n % 10));
    }
}

/// A numeral filled up with zeros spells the same number.
pub proof fn law_padded_round_trip(n: nat, width: nat)
    ensures
        digits_value(padded(n, width), 10) == Some(n),
        forall|i: int|
            0 <= i < padded(n, width).len() ==> '0' <= #[trigger] padded(n, width)[i] <= '9',
{
    law_numeral_round_trip(n);
    lemma_zeros_in_front(decimal(n), width - decimal(n).len());
}

/// Zeros in front of digits do not change their number.
proof fn lemma_zeros_in_front(s: Seq<char>, count: int)
    requires
        digits_value(s, 10) is Some,
    ensures
        digits_value(repeated('0', count) + s, 10) == digits_value(s, 10),
    decreases s.len(), count,
{
    let zeros = repeated('0', count);
    if s.len() > 0 {
        lemma_zeros_in_front(s.drop_last(), count);
        assert((zeros + s).drop_last() =~= zeros + s.drop_last());
        assert((zeros + s).last() == s.last());
    } else if count > 0 {
        lemma_zeros_in_front(s, count - 1);
        assert((zeros + s).drop_last() =~= repeated('0', count - 1) + s);
        assert((zeros + s).last() == '0');
    } else {
        assert(zeros + s =~= s);
    }
}

/// How many digits a number has at most.
pub proof fn lemma_padded_len(n: nat)
    ensures
        n < 100 ==> padded(n, 2).len() == 2,
        n < 10_000 ==> padded(n, 4).len() == 4,
{
    reveal_with_fuel(decimal, 4);
}

/// The value of one digit.
pub fn digit_of(c: char, radix: u64) -> (r: Option<u64>)
    requires
        radix <= 16,
    ensures
        r is Some <==> digit_value(c, radix as nat) is Some,
        r is Some ==> r->0 == digit_value(c, radix as nat)->0,
{
    let v: u64 = if '0' <= c && c <= '9' {
        (c as u64) - 48
    } else if 'a' <= c && c <= 'f' {
        (c as u64) - 87
    } else if 'A' <= c && c <= 'F' {
        (c as u64) - 55
    } else {
        16
    };
    if v < radix {
        Some(v)
    } else {
        None
    }
}

/// A longer run of digits denotes at least as large a number.
pub proof fn lemma_digits_prefix(s: Seq<char>, k: int, radix: nat)
    requires
        0 <= k <= s.len(),
        radix >= 1,
    ensures
        digits_value(s, radix) is Some ==> digits_value(s.take(k), radix) is Some && digits_value(
            s.take(k),
            radix,
        )->0 <= digits_value(s, radix)->0,
    decreases s.len() - k,
{
    if k < s.len() {
        lemma_digits_prefix(s, k + 1, radix);
        assert(s.take(k + 1).drop_last() =~= s.take(k));
        if digits_value(s, radix) is Some {
            let v = digits_value(s.take(k), radix)->0;
            assert(v <= v * radix) by (nonlinear_arith)
                requires
                    radix >= 1,
                    v >= 0,
            ;
        }
    } else {
        assert(s.take(k) =~= s);
    }
}

/// Read `v[from..]` as an unsigned numeral of at most `max`.
pub fn parse_unsigned(v: &Vec<char>, from: usize, radix: u64, max: u64) -> (r: Option<u64>)
    requires
        from <= v@.len(),
        2 <= radix <= 16,
    ensures
        r is Some <==> unsigned_value(v@.skip(from as int), radix as nat, max as nat) is Some,
        r is Some ==> r->0 == unsigned_value(v@.skip(from as int), radix as nat, max as nat)->0,
{
    let ghost whole = v@.skip(from as int);
    let start: usize = if from < v.len() && v[from] == '+' {
        from + 1
    } else {
        from
    };
    let ghost body = v@.skip(start as int);
    assert(start == from + 1 ==> whole.drop_first() =~= body);
    if start == v.len() {
        return None;
    }
    let mut value: u64 = 0;
    let mut i: usize = start;
    assert(body.take(0).len() == 0);
    while i < v.len()
        invariant
            start <= i <= v@.len(),
            body == v@.skip(start as int),
            2 <= radix <= 16,
            digits_value(body.take(i - start), radix as nat) == Some(value as nat),
            value <= max,
            body.len() > 0,
            unsigned_value(whole, radix as nat, max as nat) == (match digits_value(
                body,
                radix as nat,
            ) {
                Some(n) => if n <= max {
                    Some(n)
                } else {
                    None
                },
                None => None,
            }),
            whole == v@.skip(from as int),
        decreases v@.len() - i,
    {
        let ghost k = i - start;
        proof {
            lemma_digits_prefix(body, k + 1, radix as nat);
            assert(body.take(k + 1).drop_last() =~= body.take(k));
            assert(body.take(k + 1).last() == v@[i as int]);
        }
        match digit_of(v[i], radix) {
            None => {
                return None;
            },
            Some(d) => {
                assert(0 <= value * radix <= 0xffff_ffff_ffff_ffff * 16) by (nonlinear_arith)
                    requires
                        0 <= value <= 0xffff_ffff_ffff_ffff,
                        2 <= radix <= 16,
                ;
                let next: u128 = (value as u128) * (radix as u128) + (d as u128);
                if next > max as u128 {
                    return None;
                }
                value = next as u64;
            },
        }
        i = i + 1;
    }
    assert(body.take(i - start) =~= body);
    Some(value)
}

/// The characters that Unicode classes as white space.
pub open spec fn is_space(c: char) -> bool {
    ||| '\u{9}' <= c <= '\u{d}'
    ||| c == ' '
    ||| c == '\u{85}'
    ||| c == '\u{a0}'
    ||| c == '\u{1680}'
    ||| '\u{2000}' <= c <= '\u{200a}'
    ||| c == '\u{2028}'
    ||| c == '\u{2029}'
    ||| c == '\u{202f}'
    ||| c == '\u{205f}'
    ||| c == '\u{3000}'
}

/// Whether Unicode classes `c` as white space.
pub fn space(c: char) -> (r: bool)
    ensures
        r == is_space(c),
{
    ('\u{9}' <= c && c <= '\u{d}') || c == ' ' || c == '\u{85}' || c == '\u{a0}' || c == '\u{1680}'
        || ('\u{2000}' <= c && c <= '\u{200a}') || c == '\u{2028}' || c == '\u{2029}' || c
        == '\u{202f}' || c == '\u{205f}' || c == '\u{3000}'
}

/// A text without the white space at its start.
pub open spec fn trim_start(s: Seq<char>) -> Seq<char>
    decreases s.len(),
{
    if s.len() > 0 && is_space(s[0]) {
        trim_start(s.drop_first())
    } else {
        s
    }
}

/// A text without the white space at its end.
pub open spec fn trim_end(s: Seq<char>) -> Seq<char>
    decreases s.len(),
{
    if s.len() > 0 && is_space(s.last()) {
        trim_end(s.drop_last())
    } else {
        s
    }
}

/// A text without the white space around it.
pub open spec fn trim(s: Seq<char>) -> Seq<char> {
    trim_end(trim_start(s))
}

/// The bounds of `v[from..to]` without the white space around it.
pub fn trim_range(v: &Vec<char>, from: usize, to: usize) -> (r: (usize, usize))
    requires
        from <= to <= v@.len(),
    ensures
        from <= r.0 <= r.1 <= to,
        v@.subrange(r.0 as int, r.1 as int) == trim(v@.subrange(from as int, to as int)),
{
    let ghost whole = v@.subrange(from as int, to as int);
    let mut a: usize = from;
    while a < to && space(v[a])
        invariant
            from <= a <= to <= v@.len(),
            trim_start(v@.subrange(a as int, to as int)) == trim_start(whole),
        decreases to - a,
    {
        assert(v@.subrange(a as int, to as int).drop_first() =~= v@.subrange(a + 1, to as int));
        a = a + 1;
    }
    let ghost left = v@.subrange(a as int, to as int);
    assert(left == trim_start(whole));
    let mut b: usize = to;
    while b > a && space(v[b - 1])
        invariant
            from <= a <= b <= to <= v@.len(),
            trim_end(v@.subrange(a as int, b as int)) == trim_end(left),
        decreases b - a,
    {
        assert(v@.subrange(a as int, b as int).drop_last() =~= v@.subrange(a as int, b - 1));
        b = b - 1;
    }
    (a, b)
}

/// A string without the white space around it.
pub fn trimmed(s: &str) -> (r: String)
    ensures
        r@ == trim(s@),
{
    let v: Vec<char> = chars_of(s);
    let (a, b): (usize, usize) = trim_range(&v, 0, v.len());
    assert(v@.subrange(0, v@.len() as int) =~= s@);
    string_of(&v, a, b)
}

/// The number of bytes that UTF-8 needs for `c`.
pub open spec fn utf8_width(c: char) -> nat {
    if c as u32 <= 0x7f {
        1
    } else if c as u32 <= 0x7ff {
        2
    } else if c as u32 <= 0xffff {
        3
    } else {
        4
    }
}

/// The number of bytes that UTF-8 needs for `s`.
pub open spec fn utf8_len(s: Seq<char>) -> nat
    decreases s.len(),
{
    if s.len() == 0 {
        0
    } else {
        utf8_len(s.drop_last()) + utf8_width(s.last())
    }
}

/// A text has at least as many bytes as each of its prefixes.
pub proof fn lemma_utf8_len_prefix(s: Seq<char>, k: int)
    requires
        0 <= k <= s.len(),
    ensures
        utf8_len(s.take(k)) + (s.len() - k) <= utf8_len(s),
    decreases s.len() - k,
{
    if k < s.len() {
        lemma_utf8_len_prefix(s, k + 1);
        assert(s.take(k + 1).drop_last() =~= s.take(k));
    } else {
        assert(s.take(k) =~= s);
    }
}

/// Whether `v[from..to]` takes exactly `want` bytes.
pub fn has_utf8_len(v: &Vec<char>, from: usize, to: usize, want: u64) -> (r: bool)
    requires
        from <= to <= v@.len(),
        want < u64::MAX - 4,
    ensures
        r == (utf8_len(v@.subrange(from as int, to as int)) == want),
{
    let ghost s = v@.subrange(from as int, to as int);
    let mut total: u64 = 0;
    let mut i: usize = from;
    while i < to
        invariant
            from <= i <= to <= v@.len(),
            s == v@.subrange(from as int, to as int),
            total == utf8_len(s.take(i - from)),
            total <= want,
            want < u64::MAX - 4,
        decreases to - i,
    {
        let c: u32 = v[i] as u32;
        let w: u64 = if c <= 0x7f {
            1
        } else if c <= 0x7ff {
            2
        } else if c <= 0xffff {
            3
        } else {
            4
        };
        proof {
            assert(s.take(i - from + 1).drop_last() =~= s.take(i - from));
            lemma_utf8_len_prefix(s, i - from + 1);
        }
        total = total + w;
        if total > want {
            return false;
        }
        i = i + 1;
    }
    assert(s.take(i - from) =~= s);
    total == want
}

/// The place of the first `c` in `s`; the length of `s` when there is none.
pub open spec fn first_index(s: Seq<char>, c: char) -> int
    decreases s.len(),
{
    if s.len() == 0 || s[0] == c {
        0
    } else {
        1 + first_index(s.drop_first(), c)
    }
}

/// The first `c` is where it is found, and nowhere before.
pub proof fn lemma_first_index(s: Seq<char>, c: char)
    ensures
        0 <= first_index(s, c) <= s.len(),
        first_index(s, c) < s.len() ==> s[first_index(s, c)] == c,
        forall|k: int| 0 <= k < first_index(s, c) ==> s[k] != c,
        first_index(s, c) < s.len() <==> s.contains(c),
    decreases s.len(),
{
    if s.len() > 0 && s[0] != c {
        let t = s.drop_first();
        lemma_first_index(t, c);
        assert forall|k: int| 0 <= k < first_index(s, c) implies s[k] != c by {
            if k > 0 {
                assert(s[k] == t[k - 1]);
            }
        }
        if s.contains(c) {
            let k = choose|k: int| 0 <= k < s.len() && s[k] == c;
            assert(t[k - 1] == c);
        }
    } else if s.len() > 0 {
        assert(s[0] == c);
    }
}

/// The place of the first `c` in `v[from..to]`, or `to`.
pub fn find_char(v: &Vec<char>, from: usize, to: usize, c: char) -> (r: usize)
    requires
        from <= to <= v@.len(),
    ensures
        from <= r <= to,
        r - from == first_index(v@.subrange(from as int, to as int), c),
{
    let ghost s = v@.subrange(from as int, to as int);
    let mut i: usize = from;
    while i < to && v[i] != c
        invariant
            from <= i <= to <= v@.len(),
            first_index(s, c) == (i - from) + first_index(v@.subrange(i as int, to as int), c),
        decreases to - i,
    {
        assert(v@.subrange(i as int, to as int).drop_first() =~= v@.subrange(i + 1, to as int));
        i = i + 1;
    }
    i
}

/// A line without the carriage return that may end it.
pub open spec fn chomp(s: Seq<char>) -> Seq<char> {
    if s.len() > 0 && s.last() == '\r' {
        s.drop_last()
    } else {
        s
    }
}

/// The lines of a text. A line ends at a line feed, or at a carriage return and a line feed;
/// the last one may end with the text.
pub open spec fn lines(s: Seq<char>) -> Seq<Seq<char>>
    decreases s.len(),
{
    if s.len() == 0 {
        Seq::empty()
    } else {
        let i = first_index(s, '\n');
        if 0 <= i < s.len() {
            seq![chomp(s.take(i))] + lines(s.skip(i + 1))
        } else {
            seq![s]
        }
    }
}

proof fn lemma_trim_start_push(s: Seq<char>, c: char)
    requires
        is_space(c),
    ensures
        trim_start(s.push(c)) == (if trim_start(s).len() == 0 {
            Seq::empty()
        } else {
            trim_start(s).push(c)
        }),
    decreases s.len(),
{
    if s.len() > 0 && is_space(s[0]) {
        assert(s.push(c).drop_first() =~= s.drop_first().push(c));
        lemma_trim_start_push(s.drop_first(), c);
    } else if s.len() == 0 {
        assert(s.push(c).drop_first() =~= Seq::<char>::empty());
        assert(trim_start(Seq::<char>::empty()) =~= Seq::<char>::empty());
    }
}

/// A carriage return at the end of a text is trimmed with the white space around it.
pub proof fn lemma_trim_chomp(s: Seq<char>)
    ensures
        trim(chomp(s)) == trim(s),
{
    if s.len() > 0 && s.last() == '\r' {
        let t = s.drop_last();
        assert(t.push('\r') =~= s);
        lemma_trim_start_push(t, '\r');
        if trim_start(t).len() > 0 {
            assert(trim_start(t).push('\r').drop_last() =~= trim_start(t));
        } else {
            assert(trim_start(t) =~= Seq::<char>::empty());
        }
    }
}

proof fn lemma_first_index_in(a: Seq<char>, b: Seq<char>, c: char)
    requires
        b.len() > 0,
        b[0] == c,
    ensures
        first_index(a + b, c) == first_index(a, c),
    decreases a.len(),
{
    if a.len() == 0 {
        assert(a + b =~= b);
    } else if a[0] != c {
        assert((a + b).drop_first() =~= a.drop_first() + b);
        lemma_first_index_in(a.drop_first(), b, c);
    }
}

/// The lines of a text that is cut behind a line feed are those of its parts.
pub proof fn lemma_lines_cut(a: Seq<char>, b: Seq<char>)
    ensures
        lines(a + seq!['\n'] + b) == lines(a + seq!['\n']) + lines(b),
    decreases a.len(),
{
    let feed = seq!['\n'];
    let i = first_index(a, '\n');
    lemma_first_index(a, '\n');
    lemma_first_index_in(a, feed, '\n');
    lemma_first_index_in(a, feed + b, '\n');
    assert(a + feed + b =~= a + (feed + b));
    assert((a + feed).take(i) =~= a.take(i));
    assert((a + feed + b).take(i) =~= a.take(i));
    if i < a.len() {
        let rest = a.skip(i + 1);
        assert((a + feed).skip(i + 1) =~= rest + feed);
        assert((a + feed + b).skip(i + 1) =~= rest + feed + b);
        lemma_lines_cut(rest, b);
        assert(seq![chomp(a.take(i))] + (lines(rest + feed) + lines(b)) =~= (seq![
            chomp(a.take(i)),
        ] + lines(rest + feed)) + lines(b));
    } else {
        assert((a + feed).skip(i + 1) =~= Seq::<char>::empty());
        assert((a + feed + b).skip(i + 1) =~= b);
        assert(lines(Seq::<char>::empty()) =~= Seq::<Seq<char>>::empty());
        assert(seq![chomp(a.take(i))] + Seq::<Seq<char>>::empty() =~= seq![chomp(a.take(i))]);
    }
}

/// A line feed at the end of a text leaves its lines as they are, but for a carriage return at
/// the end of the last one; where the last line was ended already, an empty one follows.
pub proof fn lemma_lines_closed(a: Seq<char>)
    ensures
        ({
            let before = lines(a);
            let after = lines(a + seq!['\n']);
            &&& before.len() <= after.len() <= before.len() + 1
            &&& forall|i: int|
                0 <= i < before.len() ==> trim(#[trigger] after[i]) == trim(before[i])
            &&& after.len() > before.len() ==> after.last() == Seq::<char>::empty()
        }),
    decreases a.len(),
{
    let feed = seq!['\n'];
    let i = first_index(a, '\n');
    lemma_first_index(a, '\n');
    lemma_first_index_in(a, feed, '\n');
    assert((a + feed).take(i) =~= a.take(i));
    if i < a.len() {
        let rest = a.skip(i + 1);
        assert((a + feed).skip(i + 1) =~= rest + feed);
        lemma_lines_closed(rest);
        let head = seq![chomp(a.take(i))];
        assert(lines(a) == head + lines(rest));
        assert(lines(a + feed) == head + lines(rest + feed));
        assert forall|j: int| 0 <= j < lines(a).len() implies trim(#[trigger] lines(a + feed)[j])
            == trim(lines(a)[j]) by {
            if j > 0 {
                assert(lines(a + feed)[j] == lines(rest + feed)[j - 1]);
            }
        }
    } else {
        assert((a + feed).skip(i + 1) =~= Seq::<char>::empty());
        assert(a.take(i) =~= a);
        assert(lines(Seq::<char>::empty()) =~= Seq::<Seq<char>>::empty());
        assert(lines(a + feed) =~= seq![chomp(a)]);
        lemma_trim_chomp(a);
        if a.len() == 0 {
            assert(chomp(a) =~= Seq::<char>::empty());
        }
    }
}

/// A text without a line feed is one line once it is ended.
pub proof fn lemma_one_line(s: Seq<char>)
    requires
        !s.contains('\n'),
    ensures
        lines(s + seq!['\n']) == seq![chomp(s)],
{
    let feed = seq!['\n'];
    lemma_first_index(s, '\n');
    lemma_first_index_in(s, feed, '\n');
    assert((s + feed).take(s.len() as int) =~= s);
    assert((s + feed).skip(s.len() as int + 1) =~= Seq::<char>::empty());
    assert(lines(Seq::<char>::empty()) =~= Seq::<Seq<char>>::empty());
    assert(lines(s + feed) =~= seq![chomp(s)]);
}

/// The bounds of the lines of a text.
pub fn line_ranges(v: &Vec<char>) -> (r: Vec<(usize, usize)>)
    ensures
        r@.len() == lines(v@).len(),
        forall|i: int|
            0 <= i < r@.len() ==> (#[trigger] r@[i]).0 <= r@[i].1 <= v@.len() && v@.subrange(
                r@[i].0 as int,
                r@[i].1 as int,
            ) == lines(v@)[i],
{
    let mut out: Vec<(usize, usize)> = Vec::new();
    let mut pos: usize = 0;
    let n: usize = v.len();
    let ghost done: Seq<Seq<char>> = Seq::empty();
    assert(v@.skip(0) =~= v@);
    assert(done + lines(v@) =~= lines(v@));
    while pos < n
        invariant
            pos <= n,
            n == v@.len(),
            lines(v@) == done + lines(v@.skip(pos as int)),
            out@.len() == done.len(),
            forall|i: int|
                0 <= i < out@.len() ==> (#[trigger] out@[i]).0 <= out@[i].1 <= v@.len()
                    && v@.subrange(out@[i].0 as int, out@[i].1 as int) == done[i],
        decreases n - pos,
    {
        let ghost rest = v@.skip(pos as int);
        let stop: usize = find_char(v, pos, n, '\n');
        assert(v@.subrange(pos as int, n as int) =~= rest);
        if stop == n {
            assert(v@.subrange(pos as int, n as int) =~= rest);
            out.push((pos, n));
            proof {
                done = done.push(rest);
                assert(v@.skip(n as int) =~= Seq::<char>::empty());
                assert(lines(v@) =~= done + lines(v@.skip(n as int)));
            }
            pos = n;
        } else {
            let end: usize = if stop > pos && v[stop - 1] == '\r' {
                stop - 1
            } else {
                stop
            };
            out.push((pos, end));
            proof {
                let line = chomp(rest.take(stop - pos));
                assert(rest.take(stop - pos) =~= v@.subrange(pos as int, stop as int));
                assert(line =~= v@.subrange(pos as int, end as int));
                assert(rest.skip(stop - pos + 1) =~= v@.skip(stop + 1));
                done = done.push(line);
                assert(lines(v@) =~= done + lines(v@.skip(stop + 1)));
            }
            pos = stop + 1;
        }
    }
    assert(v@.skip(pos as int) =~= Seq::<char>::empty());
    assert(lines(v@) =~= done);
    out
}

/// Texts joined with a separator between each two.
pub open spec fn joined(parts: Seq<Seq<char>>, sep: Seq<char>) -> Seq<char>
    decreases parts.len(),
{
    if parts.len() == 0 {
        Seq::empty()
    } else if parts.len() == 1 {
        parts[0]
    } else {
        joined(parts.drop_last(), sep) + sep + parts.last()
    }
}

/// Join strings with a separator between each two.
pub fn join(parts: &Vec<String>, sep: &str) -> (r: String)
    ensures
        r@ == joined(texts_of(parts@), sep@),
{
    let mut out = String::new();
    let ghost all = texts_of(parts@);
    let mut i: usize = 0;
    while i < parts.len()
        invariant
            i <= parts@.len(),
            all == texts_of(parts@),
            out@ == joined(all.take(i as int), sep@),
        decreases parts@.len() - i,
    {
        assert(all.take(i + 1).drop_last() =~= all.take(i as int));
        if i > 0 {
            out.append(sep);
            out.append(parts[i].as_str());
        } else {
            out.append(parts[i].as_str());
            assert(out@ =~= joined(all.take(1), sep@));
        }
        i = i + 1;
    }
    assert(all.take(i as int) =~= all);
    out
}

/// A copy of an optional string.
pub fn copied(s: &Option<String>) -> (r: Option<String>)
    ensures
        text_of(r) == text_of(*s),
{
    match s {
        Some(t) => Some(t.clone()),
        None => None,
    }
}

/// Two texts in a row.
pub fn concat2(a: &str, b: &str) -> (r: String)
    ensures
        r@ == a@ + b@,
{
    let mut out: String = a.to_owned();
    out.append(b);
    out
}

/// Three texts in a row.
pub fn concat3(a: &str, b: &str, c: &str) -> (r: String)
    ensures
        r@ == a@ + b@ + c@,
{
    let mut out: String = concat2(a, b);
    out.append(c);
    out
}

/// Four texts in a row.
pub fn concat4(a: &str, b: &str, c: &str, d: &str) -> (r: String)
    ensures
        r@ == a@ + b@ + c@ + d@,
{
    let mut out: String = concat3(a, b, c);
    out.append(d);
    out
}

/// A copy of `v[from..to]`.
pub fn slice(v: &Vec<char>, from: usize, to: usize) -> (r: Vec<char>)
    requires
        from <= to <= v@.len(),
    ensures
        r@ == v@.subrange(from as int, to as int),
{
    let mut out: Vec<char> = Vec::new();
    let mut i: usize = from;
    while i < to
        invariant
            from <= i <= to <= v@.len(),
            out@ == v@.subrange(from as int, i as int),
        decreases to - i,
    {
        out.push(v[i]);
        i += 1;
        assert(v@.subrange(from as int, i as int) =~= v@.subrange(from as int, i - 1).push(
            v@[i - 1],
        ));
    }
    out
}

/// A copy of the characters without the white space around them.
pub fn trim_chars(v: &Vec<char>) -> (r: Vec<char>)
    ensures
        r@ == trim(v@),
{
    let (a, b): (usize, usize) = trim_range(v, 0, v.len());
    assert(v@.subrange(0, v@.len() as int) =~= v@);
    slice(v, a, b)
}

/// The characters as a string.
pub fn spelled(v: &Vec<char>) -> (r: String)
    ensures
        r@ == v@,
{
    assert(v@.subrange(0, v@.len() as int) =~= v@);
    string_of(v, 0, v.len())
}

/// Whether the characters spell the text.
pub fn spells(v: &Vec<char>, s: &str) -> (r: bool)
    ensures
        r == (v@ == s@),
{
    let w: Vec<char> = chars_of(s);
    same_chars(v, &w)
}

/// Whether two runs of characters are the same.
pub fn same_chars(v: &Vec<char>, w: &Vec<char>) -> (r: bool)
    ensures
        r == (v@ == w@),
{
    if v.len() != w.len() {
        return false;
    }
    let mut i: usize = 0;
    while i < v.len()
        invariant
            i <= v.len(),
            v.len() == w.len(),
            v@.take(i as int) == w@.take(i as int),
        decreases v.len() - i,
    {
        if v[i] != w[i] {
            assert(v@[i as int] != w@[i as int]);
            return false;
        }
        assert(v@.take(i + 1) =~= v@.take(i as int).push(v@[i as int]));
        assert(w@.take(i + 1) =~= w@.take(i as int).push(w@[i as int]));
        i += 1;
    }
    assert(v@.take(i as int) =~= v@);
    assert(w@.take(i as int) =~= w@);
    true
}

/// Whether the text begins with the prefix.
pub open spec fn begins(s: Seq<char>, prefix: Seq<char>) -> bool {
    prefix.len() <= s.len() && s.take(prefix.len() as int) == prefix
}

/// Whether the characters begin with the prefix.
pub fn starts_with(v: &Vec<char>, prefix: &str) -> (r: bool)
    ensures
        r == begins(v@, prefix@),
{
    let w: Vec<char> = chars_of(prefix);
    if w.len() > v.len() {
        return false;
    }
    let head: Vec<char> = slice(v, 0, w.len());
    assert(head@ =~= v@.take(w@.len() as int));
    same_chars(&head, &w)
}

/// A number below a hundred takes two digits when it is filled up to two.
pub proof fn lemma_two_digits(n: nat)
    requires
        n < 100,
    ensures
        padded(n, 2).len() == 2,
{
    reveal_with_fuel(decimal, 3);
}

/// Joined texts stand one behind the other, with the separator between each two.
pub proof fn law_joined(parts: &Vec<String>, longer: &Vec<String>, sep: &'static str, r: String, s: String)
    requires
        parts.len() > 0,
        longer.len() == parts.len() + 1,
        forall|i: int| 0 <= i < parts.len() ==> (#[trigger] longer@[i])@ == parts@[i]@,
        call_ensures(join, (parts, sep), r),
        call_ensures(join, (longer, sep), s),
    ensures
        parts.len() == 1 ==> r@ == parts@[0]@,
        s@ == r@ + sep@ + longer@[parts.len() as int]@,
{
    assert(texts_of(longer@).drop_last() =~= texts_of(parts@));
}

/// A trimmed text is what lies between the spaces at the two ends of a text, and has none at its own.
pub proof fn law_trimmed(s: &'static str, r: String) -> (at: int)
    requires
        call_ensures(trimmed, (s,), r),
    ensures
        0 <= at <= at + r@.len() <= s@.len(),
        s@.subrange(at, at + r@.len()) == r@,
        forall|i: int| 0 <= i < at ==> is_space(#[trigger] s@[i]),
        forall|i: int| at + r@.len() <= i < s@.len() ==> is_space(#[trigger] s@[i]),
        r@.len() > 0 ==> !is_space(r@[0]) && !is_space(r@[r@.len() - 1]),
{
    let at = lemma_trim_start(s@);
    let t = trim_start(s@);
    lemma_trim_end(t);
    let n = trim_end(t).len() as int;
    assert(s@.subrange(at, at + n) =~= t.take(n));
    assert forall|i: int| at + n <= i < s@.len() implies is_space(#[trigger] s@[i]) by {
        assert(t[i - at] == s@[i]);
    }
    if n > 0 {
        assert(trim_end(t)[0] == t[0]);
    }
    at
}

proof fn lemma_trim_start(s: Seq<char>) -> (at: int)
    ensures
        0 <= at <= s.len(),
        trim_start(s) == s.skip(at),
        forall|i: int| 0 <= i < at ==> is_space(#[trigger] s[i]),
        at < s.len() ==> !is_space(s[at]),
    decreases s.len(),
{
    if s.len() > 0 && is_space(s[0]) {
        let rest = s.drop_first();
        let at = lemma_trim_start(rest);
        assert(rest.skip(at) =~= s.skip(at + 1));
        assert forall|i: int| 0 <= i < at + 1 implies is_space(#[trigger] s[i]) by {
            if i > 0 {
                assert(rest[i - 1] == s[i]);
            }
        }
        at + 1
    } else {
        assert(s.skip(0) =~= s);
        0
    }
}

proof fn lemma_trim_end(s: Seq<char>)
    ensures
        trim_end(s).len() <= s.len(),
        trim_end(s) == s.take(trim_end(s).len() as int),
        forall|i: int| trim_end(s).len() <= i < s.len() ==> is_space(#[trigger] s[i]),
        trim_end(s).len() > 0 ==> !is_space(trim_end(s).last()),
    decreases s.len(),
{
    if s.len() > 0 && is_space(s.last()) {
        let front = s.drop_last();
        lemma_trim_end(front);
        let n = trim_end(front).len() as int;
        assert(front.take(n) =~= s.take(n));
        assert forall|i: int| n <= i < s.len() implies is_space(#[trigger] s[i]) by {
            if i < front.len() {
                assert(front[i] == s[i]);
            }
        }
    } else {
        assert(s.take(s.len() as int) =~= s);
    }
}

/// A numeral is read as its number, in tens, unless that is too large.
pub proof fn law_numeral_read(v: &Vec<char>, n: nat, max: u64, r: Option<u64>)
    requires
        v@ == decimal(n),
        call_ensures(parse_unsigned, (v, 0, 10, max), r),
    ensures
        n <= max ==> r is Some && r->0 == n,
        n > max ==> r is None,
{
    law_numeral_round_trip(n);
    assert(v@.skip(0) =~= v@);
}

/// A number is written as the numeral that reads as it, with a minus sign in front of one below
/// zero.
pub proof fn law_numbers_written(
    out: &mut String,
    signed: &mut String,
    n: u64,
    m: i64,
)
    requires
        old(out)@.len() == 0,
        old(signed)@.len() == 0,
        call_ensures(push_decimal, (out, n), ()),
        call_ensures(push_signed, (signed, m), ()),
    ensures
        digits_value(final(out)@, 10) == Some(n as nat),
        m >= 0 ==> digits_value(final(signed)@, 10) == Some(m as nat),
        m < 0 ==> final(signed)@[0] == '-' && digits_value(final(signed)@.skip(1), 10) == Some(
            (-m) as nat,
        ),
{
    law_numeral_round_trip(n as nat);
    assert(old(out)@ + decimal(n as nat) =~= decimal(n as nat));
    let size = if m < 0 {
        (-m) as nat
    } else {
        m as nat
    };
    law_numeral_round_trip(size);
    assert(old(signed)@ + signed_decimal(m as int) =~= signed_decimal(m as int));
    if m < 0 {
        assert(signed_decimal(m as int).skip(1) =~= decimal(size));
    }
}

} // verus!
