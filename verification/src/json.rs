//! The pieces that evidence documents are written from: escaped strings, and members that
//! hold a number, a flag or a text.

use crate::text::{chars_of, decimal, push_decimal};
use vstd::prelude::*;

verus! {

/// Whether Unicode classes `c` as a control character.
pub open spec fn is_control(c: char) -> bool {
    c <= '\u{1f}' || '\u{7f}' <= c <= '\u{9f}'
}

/// The character of a hexadecimal digit.
pub open spec fn hex_char(d: nat) -> char {
    if d < 10 {
        (48 + d) as char
    } else {
        (87 + d) as char
    }
}

/// A character as a document spells it inside quotes.
pub open spec fn escaped_char(c: char) -> Seq<char> {
    if c == '"' {
        seq!['\\', '"']
    } else if c == '\\' {
        seq!['\\', '\\']
    } else if c == '\n' {
        seq!['\\', 'n']
    } else if c == '\r' {
        seq!['\\', 'r']
    } else if c == '\t' {
        seq!['\\', 't']
    } else if is_control(c) {
        seq!['\\', 'u', '0', '0', hex_char(c as nat / 16), hex_char(c as nat % 16)]
    } else {
        seq![c]
    }
}

/// A text as a document spells it inside quotes.
pub open spec fn escaped(s: Seq<char>) -> Seq<char>
    decreases s.len(),
{
    if s.len() == 0 {
        Seq::empty()
    } else {
        escaped(s.drop_last()) + escaped_char(s.last())
    }
}

/// The texts of two parts are escaped one by one.
pub proof fn law_escaped_parts(a: Seq<char>, b: Seq<char>)
    ensures
        escaped(a + b) == escaped(a) + escaped(b),
    decreases b.len(),
{
    if b.len() == 0 {
        assert(a + b =~= a);
        assert(escaped(a) + escaped(b) =~= escaped(a));
    } else {
        law_escaped_parts(a, b.drop_last());
        assert((a + b).drop_last() =~= a + b.drop_last());
        assert((a + b).last() == b.last());
        assert(escaped(a + b.drop_last()) + escaped_char(b.last()) =~= escaped(a) + escaped(b));
    }
}

/// An escaped text holds no line break, and a quote only behind a backslash.
pub proof fn law_escaped_stays_inside(s: Seq<char>, i: int)
    requires
        0 <= i < escaped(s).len(),
    ensures
        escaped(s)[i] != '\n',
        escaped(s)[i] == '"' ==> i > 0 && escaped(s)[i - 1] == '\\',
    decreases s.len(),
{
    let head = escaped(s.drop_last());
    let tail = escaped_char(s.last());
    if i < head.len() {
        law_escaped_stays_inside(s.drop_last(), i);
        assert(escaped(s)[i] == head[i]);
        if i > 0 {
            assert(escaped(s)[i - 1] == head[i - 1]);
        }
    } else {
        lemma_escaped_char(s.last(), i - head.len());
        assert(escaped(s)[i] == tail[i - head.len()]);
        if i > head.len() {
            assert(escaped(s)[i - 1] == tail[i - 1 - head.len()]);
        }
    }
}

proof fn lemma_escaped_char(c: char, i: int)
    requires
        0 <= i < escaped_char(c).len(),
    ensures
        escaped_char(c)[i] != '\n',
        escaped_char(c)[i] == '"' ==> i > 0 && escaped_char(c)[i - 1] == '\\',
{
    if is_control(c) {
        let hi = c as nat / 16;
        let lo = c as nat % 16;
        assert(hi < 16 && lo < 16);
        assert(hex_char(hi) as nat >= 48 && hex_char(lo) as nat >= 48);
    }
}

fn push_hex(out: &mut String, d: u32)
    requires
        d < 16,
    ensures
        final(out)@ == old(out)@.push(hex_char(d as nat)),
{
    if d < 10 {
        out.push((48u8 + d as u8) as char);
    } else {
        out.push((87u8 + d as u8) as char);
    }
}

/// Appends one character as a document spells it inside quotes.
fn push_escaped_char(out: &mut String, c: char)
    ensures
        final(out)@ == old(out)@ + escaped_char(c),
{
    let ghost before = out@;
    if c == '"' {
        out.push('\\');
        out.push('"');
    } else if c == '\\' {
        out.push('\\');
        out.push('\\');
    } else if c == '\n' {
        out.push('\\');
        out.push('n');
    } else if c == '\r' {
        out.push('\\');
        out.push('r');
    } else if c == '\t' {
        out.push('\\');
        out.push('t');
    } else if c <= '\u{1f}' || ('\u{7f}' <= c && c <= '\u{9f}') {
        let code: u32 = c as u32;
        out.push('\\');
        out.push('u');
        out.push('0');
        out.push('0');
        push_hex(out, code / 16);
        push_hex(out, code % 16);
    } else {
        out.push(c);
    }
    assert(out@ =~= before + escaped_char(c));
}

/// The text as a document spells it inside quotes.
pub fn json_escape(s: &str) -> (r: String)
    ensures
        r@ == escaped(s@),
{
    let v: Vec<char> = chars_of(s);
    let mut out: String = String::new();
    let mut i: usize = 0;
    assert(v@.take(0) =~= Seq::<char>::empty());
    while i < v.len()
        invariant
            i <= v.len(),
            out@ == escaped(v@.take(i as int)),
        decreases v.len() - i,
    {
        push_escaped_char(&mut out, v[i]);
        assert(v@.take(i + 1).drop_last() =~= v@.take(i as int));
        i += 1;
    }
    assert(v@.take(i as int) =~= v@);
    out
}

/// A member whose value is written as it stands.
pub open spec fn plain(label: Seq<char>, value: Seq<char>, end: Seq<char>) -> Seq<char> {
    label + value + end
}

/// A member that holds a text.
pub open spec fn quoted(label: Seq<char>, value: Seq<char>, end: Seq<char>) -> Seq<char> {
    label + seq!['"'] + escaped(value) + seq!['"'] + end
}

/// A member that holds a number.
pub open spec fn number(label: Seq<char>, value: nat, end: Seq<char>) -> Seq<char> {
    label + decimal(value) + end
}

/// The two truth values.
pub open spec fn truth(value: bool) -> Seq<char> {
    if value {
        "true"@
    } else {
        "false"@
    }
}

/// The two verdicts, with their quotes.
pub open spec fn verdict_word(pass: bool) -> Seq<char> {
    if pass {
        "\"PASS\""@
    } else {
        "\"FAIL\""@
    }
}

/// A member that holds a number or nothing.
pub open spec fn number_or_null(label: Seq<char>, value: Option<u64>, end: Seq<char>) -> Seq<char> {
    match value {
        Some(n) => number(label, n as nat, end),
        None => plain(label, "null"@, end),
    }
}

/// A member that holds a value written as it stands, or nothing.
pub open spec fn plain_or_null(
    label: Seq<char>,
    value: Option<Seq<char>>,
    end: Seq<char>,
) -> Seq<char> {
    match value {
        Some(text) => plain(label, text, end),
        None => plain(label, "null"@, end),
    }
}

/// A member that holds a text or nothing.
pub open spec fn quoted_or_null(
    label: Seq<char>,
    value: Option<Seq<char>>,
    end: Seq<char>,
) -> Seq<char> {
    match value {
        Some(text) => quoted(label, text, end),
        None => plain(label, "null"@, end),
    }
}

/// The items one below the other, a comma behind each but the last: the first `k` of them.
pub open spec fn listed(items: Seq<Seq<char>>, k: int) -> Seq<char>
    decreases k,
{
    if k <= 0 {
        Seq::empty()
    } else {
        listed(items, k - 1) + items[k - 1] + (if k < items.len() {
            ",\n"@
        } else {
            "\n"@
        })
    }
}

/// Appends a member whose value is written as it stands.
pub fn push_plain(out: &mut String, label: &str, value: &str, end: &str)
    ensures
        final(out)@ == old(out)@ + plain(label@, value@, end@),
{
    let ghost before = out@;
    out.append(label);
    out.append(value);
    out.append(end);
    assert(out@ =~= before + plain(label@, value@, end@));
}

/// Appends a member that holds a text.
pub fn push_quoted(out: &mut String, label: &str, value: &str, end: &str)
    ensures
        final(out)@ == old(out)@ + quoted(label@, value@, end@),
{
    let ghost before = out@;
    let text: String = json_escape(value);
    out.append(label);
    out.push('"');
    out.append(text.as_str());
    out.push('"');
    out.append(end);
    assert(out@ =~= before + quoted(label@, value@, end@));
}

/// Appends a member that holds a number.
pub fn push_number(out: &mut String, label: &str, value: u64, end: &str)
    ensures
        final(out)@ == old(out)@ + number(label@, value as nat, end@),
{
    let ghost before = out@;
    out.append(label);
    push_decimal(out, value);
    out.append(end);
    assert(out@ =~= before + number(label@, value as nat, end@));
}

/// Appends a member that holds a truth value.
pub fn push_truth(out: &mut String, label: &str, value: bool, end: &str)
    ensures
        final(out)@ == old(out)@ + plain(label@, truth(value), end@),
{
    push_plain(
        out,
        label,
        if value {
            "true"
        } else {
            "false"
        },
        end,
    );
}

/// Appends a member that holds a verdict.
pub fn push_verdict(out: &mut String, label: &str, pass: bool, end: &str)
    ensures
        final(out)@ == old(out)@ + plain(label@, verdict_word(pass), end@),
{
    push_plain(
        out,
        label,
        if pass {
            "\"PASS\""
        } else {
            "\"FAIL\""
        },
        end,
    );
}

/// Appends a member that holds a number or nothing.
pub fn push_number_or_null(out: &mut String, label: &str, value: Option<u64>, end: &str)
    ensures
        final(out)@ == old(out)@ + number_or_null(label@, value, end@),
{
    match value {
        Some(n) => push_number(out, label, n, end),
        None => push_plain(out, label, "null", end),
    }
}

/// Appends a member that holds a text or nothing.
pub fn push_quoted_or_null(out: &mut String, label: &str, value: &Option<String>, end: &str)
    ensures
        final(out)@ == old(out)@ + quoted_or_null(label@, crate::text::text_of(*value), end@),
{
    match value {
        Some(text) => push_quoted(out, label, text.as_str(), end),
        None => push_plain(out, label, "null", end),
    }
}

/// A text without quotes, backslashes and control characters is spelled as it is.
pub proof fn law_plain_text_unchanged(s: &'static str, r: String)
    requires
        call_ensures(json_escape, (s,), r),
        forall|i: int|
            0 <= i < s@.len() ==> (#[trigger] s@[i]) != '"' && s@[i] != '\\' && !is_control(s@[i]),
    ensures
        r@ == s@,
{
    lemma_plain(s@);
}

proof fn lemma_plain(s: Seq<char>)
    requires
        forall|i: int|
            0 <= i < s.len() ==> (#[trigger] s[i]) != '"' && s[i] != '\\' && !is_control(s[i]),
    ensures
        escaped(s) == s,
    decreases s.len(),
{
    if s.len() > 0 {
        let front = s.drop_last();
        assert forall|i: int| 0 <= i < front.len() implies (#[trigger] front[i]) != '"' && front[i]
            != '\\' && !is_control(front[i]) by {
            assert(front[i] == s[i]);
        }
        lemma_plain(front);
        assert(s[s.len() - 1] == s.last());
        assert(front + seq![s.last()] =~= s);
    }
}

proof fn lemma_control(c: char)
    requires
        is_control(c),
    ensures
        c as u32 <= 0x9f,
        c as nat == c as u32,
{
}

proof fn lemma_same_code(c: char, d: char)
    requires
        c as u32 == d as u32,
    ensures
        c == d,
{
}

proof fn lemma_hex_chars(a: nat, b: nat)
    requires
        a < 16,
        b < 16,
        hex_char(a) == hex_char(b),
    ensures
        a == b,
{
}

/// Two characters are never spelled alike.
pub proof fn law_characters_told_apart(a: &'static str, b: &'static str, r: String, s: String)
    requires
        a@.len() == 1,
        b@.len() == 1,
        call_ensures(json_escape, (a,), r),
        call_ensures(json_escape, (b,), s),
    ensures
        r@ == s@ ==> a@[0] == b@[0],
        r@.len() > 1 ==> r@[0] == '\\',
{
    let c = a@[0];
    let d = b@[0];
    assert(a@.drop_last() =~= Seq::<char>::empty());
    assert(b@.drop_last() =~= Seq::<char>::empty());
    assert(escaped(Seq::<char>::empty()) =~= Seq::<char>::empty());
    assert(a@.last() == c && b@.last() == d);
    assert(escaped(a@) =~= escaped_char(c));
    assert(escaped(b@) =~= escaped_char(d));
    if r@ == s@ {
        let x = escaped_char(c);
        let y = escaped_char(d);
        assert(x == y);
        if x.len() == 6 {
            assert(x[4] == y[4] && x[5] == y[5]);
            assert(is_control(c) && is_control(d));
            lemma_control(c);
            lemma_control(d);
            lemma_hex_chars(c as u32 as nat / 16, d as u32 as nat / 16);
            lemma_hex_chars(c as u32 as nat % 16, d as u32 as nat % 16);
            assert(c as u32 == d as u32);
            lemma_same_code(c, d);
        } else if x.len() == 2 {
            assert(x[1] == y[1]);
        } else {
            assert(x[0] == y[0]);
        }
    }
}

} // verus!
