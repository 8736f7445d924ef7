//! The revision that a lock file pins the display toolkit to.

use crate::text::{
    begins, chars_of, concat2, digit_of, digit_value, line_ranges, lines, slice, spelled, spells,
    starts_with, trim, trim_chars,
};
use vstd::prelude::*;

verus! {

/// Whether a text is a revision: forty hexadecimal digits.
pub open spec fn is_sha(s: Seq<char>) -> bool {
    s.len() == 40 && forall|i: int| 0 <= i < s.len() ==> digit_value(#[trigger] s[i], 16) is Some
}

/// Whether a text is a revision.
pub fn is_git_sha(v: &Vec<char>) -> (r: bool)
    ensures
        r == is_sha(v@),
{
    if v.len() != 40 {
        return false;
    }
    let mut i: usize = 0;
    while i < v.len()
        invariant
            i <= v.len(),
            forall|j: int| 0 <= j < i ==> digit_value(#[trigger] v@[j], 16) is Some,
        decreases v.len() - i,
    {
        if digit_of(v[i], 16).is_none() {
            assert(digit_value(v@[i as int], 16) is None);
            return false;
        }
        i += 1;
    }
    true
}

/// Where `part` begins first in a text, or the text's length.
pub open spec fn first_match(s: Seq<char>, part: Seq<char>) -> int
    decreases s.len(),
{
    if s.len() == 0 {
        0
    } else if begins(s, part) {
        0
    } else {
        1 + first_match(s.drop_first(), part)
    }
}

/// What stands behind the last `c` of a text, if there is one.
pub open spec fn behind_last(s: Seq<char>, c: char) -> Option<Seq<char>>
    decreases s.len(),
{
    if s.len() == 0 {
        None
    } else if s.last() == c {
        Some(Seq::empty())
    } else {
        match behind_last(s.drop_last(), c) {
            Some(rest) => Some(rest.push(s.last())),
            None => None,
        }
    }
}

/// A text up to the first hash or ampersand.
pub open spec fn up_to_mark(s: Seq<char>) -> Seq<char>
    decreases s.len(),
{
    if s.len() == 0 || s[0] == '#' || s[0] == '&' {
        Seq::empty()
    } else {
        seq![s[0]] + up_to_mark(s.drop_first())
    }
}

/// The revision that a source names: behind `?rev=`, else behind the last hash.
pub open spec fn git_rev(source: Seq<char>) -> Option<Seq<char>> {
    let at = first_match(source, "?rev="@);
    let asked = up_to_mark(source.skip(at + 5));
    if at < source.len() && is_sha(asked) {
        Some(asked)
    } else {
        match behind_last(source, '#') {
            Some(rest) => if is_sha(rest) {
                Some(rest)
            } else {
                None
            },
            None => None,
        }
    }
}

fn find_rev(v: &Vec<char>) -> (r: usize)
    ensures
        r == first_match(v@, "?rev="@),
        r < v.len() ==> begins(v@.skip(r as int), "?rev="@),
{
    let mut i: usize = 0;
    assert(v@.skip(0) =~= v@);
    while i < v.len()
        invariant
            i <= v.len(),
            first_match(v@, "?rev="@) == i + first_match(v@.skip(i as int), "?rev="@),
        decreases v.len() - i,
    {
        let rest: Vec<char> = slice(v, i, v.len());
        assert(rest@ =~= v@.skip(i as int));
        if starts_with(&rest, "?rev=") {
            return i;
        }
        assert(v@.skip(i as int).drop_first() =~= v@.skip(i + 1));
        i += 1;
    }
    i
}

fn cut_at_mark(v: &Vec<char>, from: usize) -> (r: Vec<char>)
    requires
        from <= v.len(),
    ensures
        r@ == up_to_mark(v@.skip(from as int)),
{
    let ghost s = v@.skip(from as int);
    let mut i: usize = from;
    assert(v@.subrange(from as int, from as int) + up_to_mark(s) =~= up_to_mark(s));
    while i < v.len() && v[i] != '#' && v[i] != '&'
        invariant
            from <= i <= v.len(),
            v@.subrange(from as int, i as int) + up_to_mark(v@.skip(i as int)) == up_to_mark(s),
        decreases v.len() - i,
    {
        assert(v@.skip(i as int).drop_first() =~= v@.skip(i + 1));
        assert(v@.subrange(from as int, i as int) + (seq![v@[i as int]] + up_to_mark(
            v@.skip(i + 1),
        )) =~= v@.subrange(from as int, i + 1) + up_to_mark(v@.skip(i + 1)));
        i += 1;
    }
    assert(v@.subrange(from as int, i as int) + Seq::<char>::empty() =~= v@.subrange(
        from as int,
        i as int,
    ));
    slice(v, from, i)
}

fn after_last(v: &Vec<char>, c: char) -> (r: Option<Vec<char>>)
    ensures
        match r {
            Some(rest) => behind_last(v@, c) == Some(rest@),
            None => behind_last(v@, c) is None,
        },
{
    let mut i: usize = v.len();
    assert(v@.take(i as int) =~= v@);
    while i > 0
        invariant
            i <= v.len(),
            behind_last(v@, c) == (match behind_last(v@.take(i as int), c) {
                Some(rest) => Some(rest + v@.skip(i as int)),
                None => None,
            }),
        decreases i,
    {
        let ghost part = v@.take(i as int);
        assert(part.drop_last() =~= v@.take(i - 1));
        assert(part.last() == v@[i - 1]);
        if v[i - 1] == c {
            assert(Seq::<char>::empty() + v@.skip(i as int) =~= v@.subrange(
                i as int,
                v@.len() as int,
            ));
            return Some(slice(v, i, v.len()));
        }
        proof {
            if behind_last(v@.take(i - 1), c) is Some {
                let rest = behind_last(v@.take(i - 1), c)->0;
                assert(rest.push(v@[i - 1]) + v@.skip(i as int) =~= rest + v@.skip(i - 1));
            }
        }
        i -= 1;
    }
    None
}

/// The revision that a source names.
pub fn extract_git_rev(source: &str) -> (r: Option<String>)
    ensures
        crate::text::text_of(r) == git_rev(source@),
{
    let v: Vec<char> = chars_of(source);
    proof {
        reveal_strlit("?rev=");
    }
    let at: usize = find_rev(&v);
    if at < v.len() {
        assert("?rev="@.len() == 5);
        let asked: Vec<char> = cut_at_mark(&v, at + 5);
        if is_git_sha(&asked) {
            return Some(spelled(&asked));
        }
    }
    match after_last(&v, '#') {
        Some(rest) => {
            if is_git_sha(&rest) {
                Some(spelled(&rest))
            } else {
                None
            }
        },
        None => None,
    }
}

/// What was read of the package that is looked for.
#[verifier::ext_equal]
pub struct Entry {
    pub in_package: bool,
    pub is_gpui: bool,
    pub source: Option<Seq<char>>,
}

/// The text between a label and the closing quote; `Err` where the quote is missing.
pub open spec fn quoted_value(line: Seq<char>, label: Seq<char>) -> Option<Seq<char>> {
    let rest = line.skip(label.len() as int);
    if rest.len() > 0 && rest.last() == '"' {
        Some(rest.drop_last())
    } else {
        None
    }
}

/// The entry after one line, and whether the package that is looked for ends there.
pub open spec fn read_line(entry: Entry, line: Seq<char>) -> Result<(Entry, bool), Seq<char>> {
    if line == "[[package]]"@ {
        if entry.is_gpui {
            Ok((entry, true))
        } else {
            Ok((Entry { in_package: true, is_gpui: false, source: None }, false))
        }
    } else if !entry.in_package {
        Ok((entry, false))
    } else if line.len() == 0 {
        if entry.is_gpui {
            Ok((entry, true))
        } else {
            Ok((Entry { in_package: false, ..entry }, false))
        }
    } else if begins(line, "name = \""@) {
        match quoted_value(line, "name = \""@) {
            None => Err("malformed package name line: "@ + line),
            Some(name) => Ok((Entry { is_gpui: name == "gpui"@, ..entry }, false)),
        }
    } else if begins(line, "source = \""@) {
        match quoted_value(line, "source = \""@) {
            None => Err("malformed package source line: "@ + line),
            Some(source) => Ok((Entry { source: Some(source), ..entry }, false)),
        }
    } else {
        Ok((entry, false))
    }
}

/// The entry after the lines from `i` on.
pub open spec fn read_lines(text: Seq<Seq<char>>, i: int, entry: Entry) -> Result<Entry, Seq<char>>
    decreases text.len() - i,
{
    if i >= text.len() {
        Ok(entry)
    } else {
        match read_line(entry, trim(text[i])) {
            Err(message) => Err(message),
            Ok((next, true)) => Ok(next),
            Ok((next, false)) => read_lines(text, i + 1, next),
        }
    }
}

/// The revision that the lock file pins, or why there is none.
pub open spec fn pinned(lock: Seq<char>) -> Result<Seq<char>, Seq<char>> {
    match read_lines(lines(lock), 0, Entry { in_package: false, is_gpui: false, source: None }) {
        Err(message) => Err(message),
        Ok(entry) => if !entry.is_gpui {
            Err("no [[package]] with name = \"gpui\""@)
        } else {
            match entry.source {
                None => Err("gpui package has no source line"@),
                Some(source) => match git_rev(source) {
                    Some(rev) => Ok(rev),
                    None => Err("gpui source has no 40-hex git rev: "@ + source),
                },
            }
        },
    }
}

fn unquote(line: &Vec<char>, label: &str) -> (r: Option<Vec<char>>)
    requires
        begins(line@, label@),
    ensures
        match r {
            Some(value) => quoted_value(line@, label@) == Some(value@),
            None => quoted_value(line@, label@) is None,
        },
{
    let w: Vec<char> = chars_of(label);
    let ghost rest = line@.skip(label@.len() as int);
    if line.len() > w.len() && line[line.len() - 1] == '"' {
        let value: Vec<char> = slice(line, w.len(), line.len() - 1);
        assert(value@ =~= rest.drop_last());
        assert(rest.last() == line@.last());
        Some(value)
    } else {
        assert(rest.len() > 0 ==> rest.last() == line@.last());
        None
    }
}

/// The revision that the lock file pins, or why there is none.
pub fn gpui_rev_from_lock(lock: &str) -> (r: Result<String, String>)
    ensures
        match (r, pinned(lock@)) {
            (Ok(rev), Ok(want)) => rev@ == want,
            (Err(text), Err(want)) => text@ == want,
            _ => false,
        },
{
    let v: Vec<char> = chars_of(lock);
    let ranges: Vec<(usize, usize)> = line_ranges(&v);
    let ghost all = lines(lock@);
    let mut in_package: bool = false;
    let mut is_gpui: bool = false;
    let mut source: Option<Vec<char>> = None;
    let mut i: usize = 0;
    let ghost whole = read_lines(
        all,
        0,
        Entry { in_package: false, is_gpui: false, source: None },
    );
    let mut done: bool = false;
    while i < ranges.len() && !done
        invariant
            i <= ranges.len(),
            v@ == lock@,
            all == lines(lock@),
            ranges.len() == all.len(),
            forall|k: int|
                0 <= k < ranges.len() ==> (#[trigger] ranges@[k]).0 <= ranges@[k].1 <= v.len()
                    && v@.subrange(ranges@[k].0 as int, ranges@[k].1 as int) == all[k],
            whole == read_lines(
                all,
                0,
                Entry { in_package: false, is_gpui: false, source: None },
            ),
            !done ==> whole == read_lines(
                all,
                i as int,
                Entry { in_package, is_gpui, source: held(source) },
            ),
            done ==> whole == Ok::<Entry, Seq<char>>(
                Entry { in_package, is_gpui, source: held(source) },
            ),
        decreases ranges.len() - i,
    {
        let (from, to) = ranges[i];
        let raw: Vec<char> = slice(&v, from, to);
        let line: Vec<char> = trim_chars(&raw);
        if spells(&line, "[[package]]") {
            if is_gpui {
                done = true;
            } else {
                in_package = true;
                is_gpui = false;
                source = None;
            }
        } else if !in_package {
        } else if line.len() == 0 {
            if is_gpui {
                done = true;
            } else {
                in_package = false;
            }
        } else if starts_with(&line, "name = \"") {
            match unquote(&line, "name = \"") {
                None => {
                    return Err(concat2("malformed package name line: ", spelled(&line).as_str()));
                },
                Some(name) => {
                    is_gpui = spells(&name, "gpui");
                },
            }
        } else if starts_with(&line, "source = \"") {
            match unquote(&line, "source = \"") {
                None => {
                    return Err(
                        concat2("malformed package source line: ", spelled(&line).as_str()),
                    );
                },
                Some(value) => {
                    source = Some(value);
                },
            }
        }
        i += 1;
    }
    if !is_gpui {
        return Err("no [[package]] with name = \"gpui\"".to_owned());
    }
    match source {
        None => Err("gpui package has no source line".to_owned()),
        Some(value) => {
            let text: String = spelled(&value);
            match extract_git_rev(text.as_str()) {
                Some(rev) => Ok(rev),
                None => Err(concat2("gpui source has no 40-hex git rev: ", text.as_str())),
            }
        },
    }
}

/// The text of an optional list of characters.
pub open spec fn held(source: Option<Vec<char>>) -> Option<Seq<char>> {
    match source {
        Some(v) => Some(v@),
        None => None,
    }
}

/// Whether a character is a hexadecimal digit, in small letters or capitals.
pub open spec fn hexadecimal(c: char) -> bool {
    '0' <= c <= '9' || 'a' <= c <= 'f' || 'A' <= c <= 'F'
}

/// A revision is forty hexadecimal digits, and nothing else is.
pub proof fn law_revision(v: &Vec<char>, r: bool)
    requires
        call_ensures(is_git_sha, (v,), r),
    ensures
        r <==> v@.len() == 40 && forall|i: int|
            0 <= i < 40 ==> hexadecimal(#[trigger] v@[i]),
{
    assert forall|i: int| 0 <= i < v@.len() implies (digit_value(#[trigger] v@[i], 16) is Some
        <==> hexadecimal(v@[i])) by {
        lemma_hexadecimal(v@[i]);
    }
}

proof fn lemma_hexadecimal(c: char)
    ensures
        digit_value(c, 16) is Some <==> hexadecimal(c),
{
}

proof fn lemma_first_match(before: Seq<char>, rest: Seq<char>)
    requires
        forall|i: int| 0 <= i < before.len() ==> #[trigger] before[i] != '?',
        begins(rest, "?rev="@),
    ensures
        first_match(before + rest, "?rev="@) == before.len(),
    decreases before.len(),
{
    reveal_strlit("?rev=");
    if before.len() > 0 {
        let whole = before + rest;
        assert(whole.drop_first() =~= before.drop_first() + rest);
        assert(whole[0] == before[0]);
        if begins(whole, "?rev="@) {
            assert(whole.take(5)[0] == "?rev="@[0]);
        }
        let tail = before.drop_first();
        assert forall|i: int| 0 <= i < tail.len() implies #[trigger] tail[i] != '?' by {
            assert(tail[i] == before[i + 1]);
        }
        lemma_first_match(tail, rest);
    } else {
        assert(before + rest =~= rest);
    }
}

proof fn lemma_up_to_mark(sha: Seq<char>, rest: Seq<char>)
    requires
        forall|i: int| 0 <= i < sha.len() ==> #[trigger] sha[i] != '#' && sha[i] != '&',
        rest.len() == 0 || rest[0] == '#' || rest[0] == '&',
    ensures
        up_to_mark(sha + rest) == sha,
    decreases sha.len(),
{
    let whole = sha + rest;
    if sha.len() > 0 {
        let tail = sha.drop_first();
        assert(whole.drop_first() =~= tail + rest);
        assert(whole[0] == sha[0]);
        assert forall|i: int| 0 <= i < tail.len() implies #[trigger] tail[i] != '#' && tail[i]
            != '&' by {
            assert(tail[i] == sha[i + 1]);
        }
        lemma_up_to_mark(tail, rest);
        assert(seq![sha[0]] + tail =~= sha);
    } else {
        assert(whole =~= rest);
    }
}

proof fn lemma_behind_last(before: Seq<char>, sha: Seq<char>)
    requires
        forall|i: int| 0 <= i < sha.len() ==> #[trigger] sha[i] != '#',
    ensures
        behind_last(before.push('#') + sha, '#') == Some(sha),
    decreases sha.len(),
{
    let whole = before.push('#') + sha;
    if sha.len() > 0 {
        let front = sha.drop_last();
        assert(whole.drop_last() =~= before.push('#') + front);
        assert(whole.last() == sha[sha.len() - 1]);
        assert forall|i: int| 0 <= i < front.len() implies #[trigger] front[i] != '#' by {
            assert(front[i] == sha[i]);
        }
        lemma_behind_last(before, front);
        assert(front.push(sha.last()) =~= sha);
    } else {
        assert(whole =~= before.push('#'));
        assert(sha =~= Seq::<char>::empty());
    }
}

proof fn lemma_sha_marks(sha: Seq<char>)
    requires
        is_sha(sha),
    ensures
        forall|i: int|
            0 <= i < sha.len() ==> #[trigger] sha[i] != '#' && sha[i] != '&' && sha[i] != '?',
{
    assert forall|i: int| 0 <= i < sha.len() implies #[trigger] sha[i] != '#' && sha[i] != '&'
        && sha[i] != '?' by {
        lemma_hexadecimal(sha[i]);
        assert(digit_value(sha[i], 16) is Some);
    }
}

/// The revision of a source is what it asks for behind `?rev=`, up to a hash or an ampersand; a
/// source that asks for none has it behind its last hash.
pub proof fn law_revision_of_a_source(
    url: Seq<char>,
    sha: Seq<char>,
    rest: Seq<char>,
    asking: &'static str,
    plain: &'static str,
    r: Option<String>,
    s: Option<String>,
)
    requires
        forall|i: int| 0 <= i < url.len() ==> #[trigger] url[i] != '?',
        is_sha(sha),
        rest.len() == 0 || rest[0] == '#' || rest[0] == '&',
        asking@ == url + "?rev="@ + sha + rest,
        plain@ == url.push('#') + sha,
        call_ensures(extract_git_rev, (asking,), r),
        call_ensures(extract_git_rev, (plain,), s),
    ensures
        r is Some && r->0@ == sha,
        s is Some && s->0@ == sha,
{
    reveal_strlit("?rev=");
    lemma_sha_marks(sha);
    let tail = "?rev="@ + sha + rest;
    assert(tail.take(5) =~= "?rev="@);
    lemma_first_match(url, tail);
    assert(asking@ =~= url + tail);
    assert(asking@.skip(url.len() as int + 5) =~= sha + rest);
    lemma_up_to_mark(sha, rest);
    lemma_behind_last(url, sha);
    let whole = plain@;
    assert forall|i: int| 0 <= i < whole.len() implies #[trigger] whole[i] != '?' by {
        if i < url.len() {
            assert(whole[i] == url[i]);
        } else if i > url.len() {
            assert(whole[i] == sha[i - url.len() - 1]);
        }
    }
    lemma_no_match(whole);
}

proof fn lemma_no_match(s: Seq<char>)
    requires
        forall|i: int| 0 <= i < s.len() ==> #[trigger] s[i] != '?',
    ensures
        first_match(s, "?rev="@) == s.len(),
    decreases s.len(),
{
    reveal_strlit("?rev=");
    if s.len() > 0 {
        assert(s[0] != '?');
        if begins(s, "?rev="@) {
            assert(s.take(5)[0] == "?rev="@[0]);
        }
        let tail = s.drop_first();
        assert forall|i: int| 0 <= i < tail.len() implies #[trigger] tail[i] != '?' by {
            assert(tail[i] == s[i + 1]);
        }
        lemma_no_match(tail);
    }
}

/// A lock file whose first package is the toolkit pins it to the revision of that package's source,
/// whatever stands behind that package.
pub proof fn law_pinned_to_its_source(
    lock: &'static str,
    source: Seq<char>,
    named: &'static str,
    rev: Option<String>,
    r: Result<String, String>,
)
    requires
        lines(lock@).len() > 3,
        trim(lines(lock@)[0]) == "[[package]]"@,
        trim(lines(lock@)[1]) == "name = \"gpui\""@,
        trim(lines(lock@)[2]) == "source = \""@ + source + "\""@,
        trim(lines(lock@)[3]) == "[[package]]"@ || trim(lines(lock@)[3]).len() == 0,
        named@ == source,
        call_ensures(extract_git_rev, (named,), rev),
        call_ensures(gpui_rev_from_lock, (lock,), r),
    ensures
        rev is Some ==> r is Ok && r->Ok_0@ == rev->0@,
        rev is None ==> r is Err,
{
    let all = lines(lock@);
    let e0 = Entry { in_package: false, is_gpui: false, source: None };
    let e1 = Entry { in_package: true, is_gpui: false, source: None };
    let e2 = Entry { in_package: true, is_gpui: true, source: None };
    let e3 = Entry { in_package: true, is_gpui: true, source: Some(source) };
    reveal_strlit("[[package]]");
    reveal_strlit("name = \"gpui\"");
    reveal_strlit("name = \"");
    reveal_strlit("source = \"");
    reveal_strlit("\"");
    reveal_strlit("gpui");
    let name = "name = \"gpui\""@;
    let line = "source = \""@ + source + "\""@;
    assert(name.take(8) =~= "name = \""@);
    assert(name.len() != "[[package]]"@.len());
    assert(name.skip(8).drop_last() =~= "gpui"@);
    assert(name.skip(8).last() == '"');
    assert(read_line(e1, name) == Ok::<(Entry, bool), Seq<char>>((e2, false)));
    assert(line.take(10) =~= "source = \""@);
    assert(line[0] != "[[package]]"@[0]);
    assert(line.take(8)[0] != "name = \""@[0]) by {
        assert(line.take(8)[0] == line[0]);
    }
    assert(line.skip(10).drop_last() =~= source);
    assert(line.skip(10).last() == '"');
    assert(read_line(e2, line) == Ok::<(Entry, bool), Seq<char>>((e3, false)));
    assert(read_line(e0, trim(all[0])) == Ok::<(Entry, bool), Seq<char>>((e1, false)));
    assert(read_line(e3, trim(all[3])) == Ok::<(Entry, bool), Seq<char>>((e3, true)));
    reveal_with_fuel(read_lines, 5);
    assert(read_lines(all, 3, e3) == Ok::<Entry, Seq<char>>(e3));
    assert(read_lines(all, 2, e2) == Ok::<Entry, Seq<char>>(e3));
    assert(read_lines(all, 1, e1) == Ok::<Entry, Seq<char>>(e3));
    assert(read_lines(all, 0, e0) == Ok::<Entry, Seq<char>>(e3));
}

} // verus!
