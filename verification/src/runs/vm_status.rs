//! How much memory the process holds, read from the kernel's status text.

use crate::text::{
    begins, chars_of, concat2, concat3, concat4, decimal, is_space, law_numeral_round_trip,
    line_ranges, lines, parse_unsigned,
    slice, space, spelled, starts_with, trim_start, unsigned_value,
};
use vstd::prelude::*;

verus! {

/// The process's memory in kilobytes: the most it ever held, and what it holds now.
#[derive(Clone, Copy, Debug, PartialEq, Eq, Structural)]
pub struct VmStatus {
    pub hwm_kb: u64,
    pub rss_kb: u64,
}

/// The first word of a text that begins with one.
pub open spec fn leading_word(s: Seq<char>) -> Seq<char>
    decreases s.len(),
{
    if s.len() == 0 || is_space(s[0]) {
        Seq::empty()
    } else {
        seq![s[0]] + leading_word(s.drop_first())
    }
}

/// The first word of a text; empty where there is none.
pub open spec fn first_word(s: Seq<char>) -> Seq<char> {
    leading_word(trim_start(s))
}

/// The amount behind a label, or what is wrong with it.
pub open spec fn amount(program: Seq<char>, name: Seq<char>, rest: Seq<char>) -> Result<
    u64,
    Seq<char>,
> {
    if first_word(rest).len() == 0 {
        Err(program + ": empty "@ + name)
    } else {
        match unsigned_value(first_word(rest), 10, u64::MAX as nat) {
            Some(kb) => Ok(kb as u64),
            None => Err(program + ": bad "@ + name + ": "@ + rest),
        }
    }
}

/// The two amounts that the first `k` lines give, the last of each counting.
pub open spec fn scanned(program: Seq<char>, text: Seq<Seq<char>>, k: int) -> Result<
    (Option<u64>, Option<u64>),
    Seq<char>,
>
    decreases k,
{
    if k <= 0 {
        Ok((None, None))
    } else {
        match scanned(program, text, k - 1) {
            Err(message) => Err(message),
            Ok((hwm, rss)) => {
                let line = text[k - 1];
                if begins(line, "VmHWM:"@) {
                    match amount(program, "VmHWM"@, line.skip(6)) {
                        Ok(kb) => Ok((Some(kb), rss)),
                        Err(message) => Err(message),
                    }
                } else if begins(line, "VmRSS:"@) {
                    match amount(program, "VmRSS"@, line.skip(6)) {
                        Ok(kb) => Ok((hwm, Some(kb))),
                        Err(message) => Err(message),
                    }
                } else {
                    Ok((hwm, rss))
                }
            },
        }
    }
}

/// The process's memory, or what the status text lacks.
pub open spec fn status_of(program: Seq<char>, text: Seq<char>) -> Result<VmStatus, Seq<char>> {
    match scanned(program, lines(text), lines(text).len() as int) {
        Err(message) => Err(message),
        Ok((None, _)) => Err(program + ": VmHWM missing from /proc/self/status"@),
        Ok((Some(_), None)) => Err(program + ": VmRSS missing from /proc/self/status"@),
        Ok((Some(hwm_kb), Some(rss_kb))) => Ok(VmStatus { hwm_kb, rss_kb }),
    }
}

/// The first word between `from` and the end.
fn word_range(v: &Vec<char>) -> (r: Vec<char>)
    ensures
        r@ == first_word(v@),
{
    let mut from: usize = 0;
    assert(v@.skip(0) =~= v@);
    while from < v.len() && space(v[from])
        invariant
            from <= v.len(),
            trim_start(v@) == trim_start(v@.skip(from as int)),
        decreases v.len() - from,
    {
        assert(v@.skip(from as int).drop_first() =~= v@.skip(from + 1));
        from += 1;
    }
    assert(trim_start(v@) =~= v@.skip(from as int));
    let ghost s = v@.skip(from as int);
    let mut to: usize = from;
    assert(v@.subrange(from as int, from as int) + leading_word(s) =~= leading_word(s));
    while to < v.len() && !space(v[to])
        invariant
            from <= to <= v.len(),
            v@.subrange(from as int, to as int) + leading_word(v@.skip(to as int)) == leading_word(
                s,
            ),
        decreases v.len() - to,
    {
        assert(v@.skip(to as int).drop_first() =~= v@.skip(to + 1));
        assert(v@.subrange(from as int, to as int) + (seq![v@[to as int]] + leading_word(
            v@.skip(to + 1),
        )) =~= v@.subrange(from as int, to + 1) + leading_word(v@.skip(to + 1)));
        to += 1;
    }
    assert(v@.subrange(from as int, to as int) + Seq::<char>::empty() =~= v@.subrange(
        from as int,
        to as int,
    ));
    slice(v, from, to)
}

/// The amount behind a label, or what is wrong with it.
pub fn parse_kb(program: &str, name: &str, rest: &Vec<char>) -> (r: Result<u64, String>)
    ensures
        crate::text::same_outcome(r, amount(program@, name@, rest@)),
{
    let word: Vec<char> = word_range(rest);
    if word.len() == 0 {
        return Err(concat3(program, ": empty ", name));
    }
    assert(word@.skip(0) =~= word@);
    match parse_unsigned(&word, 0, 10, u64::MAX) {
        Some(kb) => Ok(kb),
        None => {
            let mut text: String = concat4(program, ": bad ", name, ": ");
            text.append(spelled(rest).as_str());
            Err(text)
        },
    }
}

/// The process's memory, or what the status text lacks.
pub fn read_vm_status(program: &str, text: &str) -> (r: Result<VmStatus, String>)
    ensures
        crate::text::same_outcome(r, status_of(program@, text@)),
{
    let v: Vec<char> = chars_of(text);
    let ranges: Vec<(usize, usize)> = line_ranges(&v);
    let ghost all = lines(text@);
    let mut hwm: Option<u64> = None;
    let mut rss: Option<u64> = None;
    let mut k: usize = 0;
    proof {
        reveal_strlit("VmHWM:");
        reveal_strlit("VmRSS:");
    }
    while k < ranges.len()
        invariant
            k <= ranges.len(),
            v@ == text@,
            all == lines(text@),
            ranges.len() == all.len(),
            forall|i: int|
                0 <= i < ranges.len() ==> (#[trigger] ranges@[i]).0 <= ranges@[i].1 <= v.len()
                    && v@.subrange(ranges@[i].0 as int, ranges@[i].1 as int) == all[i],
            scanned(program@, all, k as int) == Ok::<(Option<u64>, Option<u64>), Seq<char>>(
                (hwm, rss),
            ),
            "VmHWM:"@.len() == 6,
            "VmRSS:"@.len() == 6,
        decreases ranges.len() - k,
    {
        let (from, to) = ranges[k];
        let line: Vec<char> = slice(&v, from, to);
        let is_hwm: bool = starts_with(&line, "VmHWM:");
        if is_hwm || starts_with(&line, "VmRSS:") {
            let rest: Vec<char> = slice(&line, 6, line.len());
            assert(rest@ =~= line@.skip(6));
            match parse_kb(
                program,
                if is_hwm {
                    "VmHWM"
                } else {
                    "VmRSS"
                },
                &rest,
            ) {
                Ok(kb) => {
                    if is_hwm {
                        hwm = Some(kb);
                    } else {
                        rss = Some(kb);
                    }
                },
                Err(message) => {
                    proof {
                        lemma_scan_fails(program@, all, k as int + 1, all.len() as int);
                    }
                    return Err(message);
                },
            }
        }
        k += 1;
    }
    match (hwm, rss) {
        (Some(hwm_kb), Some(rss_kb)) => Ok(VmStatus { hwm_kb, rss_kb }),
        (None, _) => Err(concat2(program, ": VmHWM missing from /proc/self/status")),
        (_, None) => Err(concat2(program, ": VmRSS missing from /proc/self/status")),
    }
}

/// What is wrong with a line is what is wrong with the text.
proof fn lemma_scan_fails(program: Seq<char>, text: Seq<Seq<char>>, k: int, n: int)
    requires
        0 <= k <= n,
        scanned(program, text, k) is Err,
    ensures
        scanned(program, text, n) == scanned(program, text, k),
    decreases n - k,
{
    if k < n {
        lemma_scan_fails(program, text, k, n - 1);
    }
}

/// Whether the line gives the amount behind the label.
pub open spec fn gives(line: Seq<char>, label: Seq<char>, kb: u64) -> bool {
    &&& label.len() <= line.len()
    &&& line.take(label.len() as int) == label
    &&& unsigned_value(first_word(line.skip(label.len() as int)), 10, u64::MAX as nat) == Some(
        kb as nat,
    )
}

/// The first word of a text stands behind its leading spaces and ends before the next one.
pub proof fn law_first_word(s: Seq<char>) -> (at: int)
    ensures
        0 <= at <= at + first_word(s).len() <= s.len(),
        s.subrange(at, at + first_word(s).len()) == first_word(s),
        forall|i: int| 0 <= i < at ==> is_space(#[trigger] s[i]),
        forall|i: int| at <= i < at + first_word(s).len() ==> !is_space(#[trigger] s[i]),
        at + first_word(s).len() == s.len() || is_space(s[at + first_word(s).len()]),
        at == s.len() || !is_space(s[at]),
    decreases s.len(),
{
    if s.len() > 0 && is_space(s[0]) {
        let rest = s.drop_first();
        let at = law_first_word(rest);
        let n = first_word(rest).len();
        assert(first_word(s) == first_word(rest));
        assert(s.subrange(at + 1, at + 1 + n) =~= rest.subrange(at, at + n));
        assert forall|i: int| 0 <= i < at + 1 implies is_space(#[trigger] s[i]) by {
            if i > 0 {
                assert(rest[i - 1] == s[i]);
            }
        }
        assert forall|i: int| at + 1 <= i < at + 1 + n implies !is_space(#[trigger] s[i]) by {
            assert(rest[i - 1] == s[i]);
        }
        if at + n < rest.len() {
            assert(rest[(at + n) as int] == s[at + 1 + n]);
        }
        if at < rest.len() {
            assert(rest[at] == s[at + 1]);
        }
        at + 1
    } else {
        lemma_leading_word(s);
        assert(s.subrange(0, first_word(s).len() as int) =~= first_word(s));
        0
    }
}

proof fn lemma_leading_word(s: Seq<char>)
    ensures
        leading_word(s).len() <= s.len(),
        leading_word(s) == s.take(leading_word(s).len() as int),
        forall|i: int| 0 <= i < leading_word(s).len() ==> !is_space(#[trigger] s[i]),
        leading_word(s).len() == s.len() || is_space(s[leading_word(s).len() as int]),
    decreases s.len(),
{
    if s.len() > 0 && !is_space(s[0]) {
        let rest = s.drop_first();
        lemma_leading_word(rest);
        let n = leading_word(rest).len() as int;
        assert(leading_word(s) =~= s.take(n + 1));
        assert forall|i: int| 0 <= i < n + 1 implies !is_space(#[trigger] s[i]) by {
            if i > 0 {
                assert(rest[i - 1] == s[i]);
            }
        }
        if n < rest.len() {
            assert(rest[n] == s[n + 1]);
        }
    } else {
        assert(leading_word(s) =~= s.take(0));
    }
}

proof fn lemma_scanned(program: Seq<char>, text: Seq<Seq<char>>, k: int)
    requires
        0 <= k <= text.len(),
        scanned(program, text, k) is Ok,
    ensures
        ({
            let (hwm, rss) = scanned(program, text, k)->Ok_0;
            &&& hwm is Some ==> exists|i: int|
                0 <= i < k && gives(#[trigger] text[i], "VmHWM:"@, hwm->0)
            &&& rss is Some ==> exists|i: int|
                0 <= i < k && gives(#[trigger] text[i], "VmRSS:"@, rss->0)
        }),
    decreases k,
{
    reveal_strlit("VmHWM:");
    reveal_strlit("VmRSS:");
    if k > 0 {
        lemma_scanned(program, text, k - 1);
        let line = text[k - 1];
        let (hwm, rss) = scanned(program, text, k)->Ok_0;
        if begins(line, "VmHWM:"@) {
            assert(gives(text[k - 1], "VmHWM:"@, hwm->0));
        } else if begins(line, "VmRSS:"@) {
            assert(gives(text[k - 1], "VmRSS:"@, rss->0));
        }
    }
}

/// What the process held at most is what a line behind the label of the high-water mark gives, and
/// what it holds now is what one behind the label of the resident memory gives.
pub proof fn law_status_lines(
    program: &'static str,
    text: &'static str,
    r: Result<VmStatus, String>,
)
    requires
        call_ensures(read_vm_status, (program, text), r),
        r is Ok,
    ensures
        exists|i: int|
            0 <= i < lines(text@).len() && gives(
                #[trigger] lines(text@)[i],
                "VmHWM:"@,
                r->Ok_0.hwm_kb,
            ),
        exists|i: int|
            0 <= i < lines(text@).len() && gives(
                #[trigger] lines(text@)[i],
                "VmRSS:"@,
                r->Ok_0.rss_kb,
            ),
{
    lemma_scanned(program@, lines(text@), lines(text@).len() as int);
}

/// A numeral between white space is read as its number; what stands behind it does not matter.
pub proof fn law_amount_read(
    program: &'static str,
    name: &'static str,
    rest: &Vec<char>,
    before: Seq<char>,
    n: nat,
    after: Seq<char>,
    r: Result<u64, String>,
)
    requires
        call_ensures(parse_kb, (program, name, rest), r),
        rest@ == before + decimal(n) + after,
        forall|i: int| 0 <= i < before.len() ==> is_space(#[trigger] before[i]),
        after.len() > 0 ==> is_space(after[0]),
    ensures
        n <= u64::MAX ==> r is Ok && r->Ok_0 == n,
        n > u64::MAX ==> r is Err && r->Err_0@ == program@ + ": bad "@ + name@ + ": "@ + rest@,
{
    let s = rest@;
    let digits = decimal(n);
    law_numeral_round_trip(n);
    let at = law_first_word(s);
    let word = first_word(s);
    let b = before.len() as int;
    assert(s[b] == digits[0]);
    assert(at == b) by {
        if at < b {
            assert(s[at] == before[at]);
        }
    }
    let end = at + word.len();
    if end < b + digits.len() {
        assert(s[end] == digits[end - b]);
    } else if end > b + digits.len() {
        assert(s[b + digits.len()] == after[0]);
    }
    assert(word =~= digits);
    assert('0' <= digits[0] <= '9');
}

} // verus!
