//! The command line of the data plane's evidence run.

use super::words::{
    all_texts, is_given, last_number, last_of, last_text, lemma_added, lemma_given_by_name,
    lemma_hexadecimal_worth, lemma_numeral_worth, lemma_option_with_value, lemma_single_word,
    number_given, option_of, read, read_words, text_given, texts_given, value_of, Kind,
    NumberRule, Opt, Positional, Refusal, Setting, ValueModel, Word,
};
use crate::text::{decimal, digits_value, text_of, texts_of};
use vstd::prelude::*;

verus! {

/// The trials of a run that does not say how many.
pub const DEFAULT_DIFF_TRIALS: u64 = 7;

/// The seed of a run that gives none.
pub const DEFAULT_SEED: u64 = 0xC0FF_EE42_A1A7_E011;

/// What a run was asked for.
#[derive(Debug)]
pub struct Args {
    pub out: String,
    pub smoke: bool,
    pub seed: u64,
    pub legacy_dir: Option<String>,
    pub diff_trials: u64,
    pub logs: Vec<String>,
}

/// The options of the run.
pub open spec fn options() -> Seq<Opt> {
    seq![
        Opt { name: "--out", kind: Kind::Text, missing: "missing --out path" },
        Opt { name: "--smoke", kind: Kind::Switch, missing: "" },
        Opt {
            name: "--seed",
            kind: Kind::Number(
                NumberRule {
                    max: u64::MAX,
                    modulus: 0,
                    least: 0,
                    hex: true,
                    refusal: Refusal::ByRadix("bad --seed: ", "bad --seed hex: "),
                    too_small: "",
                },
            ),
            missing: "missing --seed value",
        },
        Opt { name: "--legacy-dir", kind: Kind::Text, missing: "missing --legacy-dir path" },
        Opt {
            name: "--diff-trials",
            kind: Kind::Number(
                NumberRule {
                    max: u64::MAX,
                    modulus: 0,
                    least: 1,
                    hex: true,
                    refusal: Refusal::ByRadix("bad --diff-trials: ", "bad --diff-trials hex: "),
                    too_small: "--diff-trials must be ≥ 1",
                },
            ),
            missing: "missing --diff-trials value",
        },
        Opt { name: "-h", kind: Kind::Help, missing: "" },
        Opt { name: "--help", kind: Kind::Help, missing: "" },
    ]
}

fn option_table() -> (r: Vec<Opt>)
    ensures
        r@ == options(),
{
    let table: Vec<Opt> = vec![
        Opt { name: "--out", kind: Kind::Text, missing: "missing --out path" },
        Opt { name: "--smoke", kind: Kind::Switch, missing: "" },
        Opt {
            name: "--seed",
            kind: Kind::Number(
                NumberRule {
                    max: u64::MAX,
                    modulus: 0,
                    least: 0,
                    hex: true,
                    refusal: Refusal::ByRadix("bad --seed: ", "bad --seed hex: "),
                    too_small: "",
                },
            ),
            missing: "missing --seed value",
        },
        Opt { name: "--legacy-dir", kind: Kind::Text, missing: "missing --legacy-dir path" },
        Opt {
            name: "--diff-trials",
            kind: Kind::Number(
                NumberRule {
                    max: u64::MAX,
                    modulus: 0,
                    least: 1,
                    hex: true,
                    refusal: Refusal::ByRadix("bad --diff-trials: ", "bad --diff-trials hex: "),
                    too_small: "--diff-trials must be ≥ 1",
                },
            ),
            missing: "missing --diff-trials value",
        },
        Opt { name: "-h", kind: Kind::Help, missing: "" },
        Opt { name: "--help", kind: Kind::Help, missing: "" },
    ];
    assert(table@ =~= options());
    table
}

/// What the words ask for, or why they are refused.
pub open spec fn asks(words: Seq<Word>, r: Result<Args, String>) -> bool {
    match read_words(options(), Positional::Many("unknown flag "), words, 0, Seq::empty()) {
        Err(message) => r matches Err(text) && text@ == message,
        Ok(done) => {
            let logs = texts_given(done, options().len() as int);
            if text_given(done, 0) is None {
                r matches Err(text) && text@ == "missing --out"@
            } else if logs.len() == 0 {
                r matches Err(text) && text@ == "need at least one .fftlog path"@
            } else {
                &&& r is Ok
                &&& Some(r->Ok_0.out@) == text_given(done, 0)
                &&& r->Ok_0.smoke == (last_of(done, 1) is Some)
                &&& r->Ok_0.seed == number_given(done, 2).unwrap_or(DEFAULT_SEED)
                &&& text_of(r->Ok_0.legacy_dir) == text_given(done, 3)
                &&& r->Ok_0.diff_trials == number_given(done, 4).unwrap_or(DEFAULT_DIFF_TRIALS)
                &&& texts_of(r->Ok_0.logs@) == logs
            }
        },
    }
}

/// Reads the command line.
pub fn parse_args(words: &Vec<Word>) -> (r: Result<Args, String>)
    ensures
        asks(words@, r),
{
    let table: Vec<Opt> = option_table();
    let settings: Vec<Setting> = match read(&table, Positional::Many("unknown flag "), words) {
        Ok(settings) => settings,
        Err(message) => return Err(message),
    };
    let out: String = match last_text(&settings, 0) {
        Some(out) => out,
        None => return Err("missing --out".to_owned()),
    };
    let logs: Vec<String> = all_texts(&settings, table.len());
    if logs.len() == 0 {
        assert(texts_of(logs@).len() == 0);
        return Err("need at least one .fftlog path".to_owned());
    }
    assert(texts_of(logs@).len() == logs.len());
    Ok(
        Args {
            out,
            smoke: is_given(&settings, 1),
            seed: last_number(&settings, 2).unwrap_or(DEFAULT_SEED),
            legacy_dir: last_text(&settings, 3),
            diff_trials: last_number(&settings, 4).unwrap_or(DEFAULT_DIFF_TRIALS),
            logs,
        },
    )
}

proof fn lemma_places(name: Seq<char>)
    ensures
        name == "--out"@ ==> option_of(options(), name, 0) == 0,
        name == "--smoke"@ ==> option_of(options(), name, 0) == 1,
        name == "--seed"@ ==> option_of(options(), name, 0) == 2,
        name == "--legacy-dir"@ ==> option_of(options(), name, 0) == 3,
        name == "--diff-trials"@ ==> option_of(options(), name, 0) == 4,
        name == "-h"@ ==> option_of(options(), name, 0) == 5,
        name == "--help"@ ==> option_of(options(), name, 0) == 6,
        name != "--out"@
            && name != "--smoke"@
            && name != "--seed"@
            && name != "--legacy-dir"@
            && name != "--diff-trials"@
            && name != "-h"@
            && name != "--help"@ ==> option_of(
            options(),
            name,
            0,
        ) == 7,
{
    reveal_strlit("--out");
    reveal_strlit("--smoke");
    reveal_strlit("--seed");
    reveal_strlit("--legacy-dir");
    reveal_strlit("--diff-trials");
    reveal_strlit("-h");
    reveal_strlit("--help");
    assert("--out"@.len() != "--smoke"@.len());
    assert("--out"@.len() != "--seed"@.len());
    assert("--smoke"@.len() != "--seed"@.len());
    assert("--out"@.len() != "--legacy-dir"@.len());
    assert("--smoke"@.len() != "--legacy-dir"@.len());
    assert("--seed"@.len() != "--legacy-dir"@.len());
    assert("--out"@.len() != "--diff-trials"@.len());
    assert("--smoke"@.len() != "--diff-trials"@.len());
    assert("--seed"@.len() != "--diff-trials"@.len());
    assert("--legacy-dir"@.len() != "--diff-trials"@.len());
    assert("--out"@.len() != "-h"@.len());
    assert("--smoke"@.len() != "-h"@.len());
    assert("--seed"@.len() != "-h"@.len());
    assert("--legacy-dir"@.len() != "-h"@.len());
    assert("--diff-trials"@.len() != "-h"@.len());
    assert("--out"@.len() != "--help"@.len());
    assert("--smoke"@.len() != "--help"@.len());
    assert("--seed"@[2] != "--help"@[2]);
    assert("--legacy-dir"@.len() != "--help"@.len());
    assert("--diff-trials"@.len() != "--help"@.len());
    assert("-h"@.len() != "--help"@.len());
    let table = options();
    assert(option_of(table, name, 7) == 7);
    assert(option_of(table, name, 6) == if name == "--help"@ {
        6
    } else {
        option_of(table, name, 7)
    });
    assert(option_of(table, name, 5) == if name == "-h"@ {
        5
    } else {
        option_of(table, name, 6)
    });
    assert(option_of(table, name, 4) == if name == "--diff-trials"@ {
        4
    } else {
        option_of(table, name, 5)
    });
    assert(option_of(table, name, 3) == if name == "--legacy-dir"@ {
        3
    } else {
        option_of(table, name, 4)
    });
    assert(option_of(table, name, 2) == if name == "--seed"@ {
        2
    } else {
        option_of(table, name, 3)
    });
    assert(option_of(table, name, 1) == if name == "--smoke"@ {
        1
    } else {
        option_of(table, name, 2)
    });
    assert(option_of(table, name, 0) == if name == "--out"@ {
        0
    } else {
        option_of(table, name, 1)
    });
}

/// Whether a word is the name of an option that takes a value.
pub open spec fn wants_value(name: Seq<char>) -> bool {
    ||| name == "--out"@
    ||| name == "--seed"@
    ||| name == "--legacy-dir"@
    ||| name == "--diff-trials"@
}

/// An option with its value, behind a command line that is accepted, sets what it is named for
/// and leaves the rest as it was.
pub proof fn law_option_sets_its_own(
    words: &Vec<Word>,
    name: Word,
    value: Word,
    n: nat,
    longer: &Vec<Word>,
    first: Result<Args, String>,
    second: Result<Args, String>,
)
    requires
        call_ensures(parse_args, (words,), first),
        first is Ok,
        longer@ == words@ + seq![name, value],
        call_ensures(parse_args, (longer,), second),
    ensures
        name.text@ == "--out"@ ==> second is Ok && (second->Ok_0).out@ == value.text@,
        name.text@ == "--seed"@ && value.text@ == decimal(n) && n <= u64::MAX ==> second is Ok && (second->Ok_0).seed == n,
        name.text@ == "--seed"@ && value.text@ == decimal(n) && n > u64::MAX ==> second is Err,
        name.text@ == "--legacy-dir"@ ==> second is Ok && text_of((second->Ok_0).legacy_dir) == Some(value.text@),
        name.text@ == "--diff-trials"@ && value.text@ == decimal(n) && 1 <= n && n <= u64::MAX ==> second is Ok && (second->Ok_0).diff_trials == n,
        name.text@ == "--diff-trials"@ && value.text@ == decimal(n) && (n < 1 || n > u64::MAX) ==> second is Err,
        wants_value(name.text@) && second is Ok ==> ({
            let a = first->Ok_0;
            let b = second->Ok_0;
            &&& name.text@ == "--out"@ || b.out@ == a.out@
            &&& b.smoke == a.smoke
            &&& name.text@ == "--seed"@ || b.seed == a.seed
            &&& name.text@ == "--legacy-dir"@ || text_of(b.legacy_dir) == text_of(a.legacy_dir)
            &&& name.text@ == "--diff-trials"@ || b.diff_trials == a.diff_trials
            &&& texts_of(b.logs@) == texts_of(a.logs@)
        }),
{
    lemma_places(name.text@);
    let done = read_words(options(), Positional::Many("unknown flag "), words@, 0, Seq::empty())->Ok_0;
    let option = option_of(options(), name.text@, 0);
    if wants_value(name.text@) {
        lemma_option_with_value(options(), Positional::Many("unknown flag "), words@, name, value);
        lemma_numeral_worth(options()[2].kind->Number_0, n);
        lemma_numeral_worth(options()[4].kind->Number_0, n);
        if value_of(options()[option].kind, value) is Ok {
            lemma_added(done, option, value_of(options()[option].kind, value)->Ok_0);
        }
    }
}

/// A number may be written in hexadecimal behind `0x` where the option takes that.
pub proof fn law_hexadecimal_values(
    words: &Vec<Word>,
    name: Word,
    value: Word,
    n: nat,
    longer: &Vec<Word>,
    first: Result<Args, String>,
    second: Result<Args, String>,
)
    requires
        call_ensures(parse_args, (words,), first),
        first is Ok,
        longer@ == words@ + seq![name, value],
        call_ensures(parse_args, (longer,), second),
        value.text@.len() > 2,
        value.text@[0] == '0',
        value.text@[1] == 'x' || value.text@[1] == 'X',
        value.text@[2] != '+',
        digits_value(value.text@.skip(2), 16) == Some(n),
    ensures
        name.text@ == "--seed"@ && n <= u64::MAX ==> second is Ok && (second->Ok_0).seed == n,
        name.text@ == "--seed"@ && n > u64::MAX ==> second is Err,
        name.text@ == "--diff-trials"@ && 1 <= n && n <= u64::MAX ==> second is Ok && (second->Ok_0).diff_trials == n,
        name.text@ == "--diff-trials"@ && n > u64::MAX ==> second is Err,
{
    lemma_places(name.text@);
    let done = read_words(options(), Positional::Many("unknown flag "), words@, 0, Seq::empty())->Ok_0;
    let option = option_of(options(), name.text@, 0);
    if wants_value(name.text@) {
        lemma_option_with_value(options(), Positional::Many("unknown flag "), words@, name, value);
        lemma_hexadecimal_worth(options()[2].kind->Number_0, value.text@, n);
        lemma_hexadecimal_worth(options()[4].kind->Number_0, value.text@, n);
        if value_of(options()[option].kind, value) is Ok {
            lemma_added(done, option, value_of(options()[option].kind, value)->Ok_0);
        }
    }
}

/// A single word behind a command line that is accepted: a switch is on from then on, a word
/// that asks for help or is not known refuses the whole, and so does an option without its value.
pub proof fn law_single_word(
    words: &Vec<Word>,
    word: Word,
    longer: &Vec<Word>,
    first: Result<Args, String>,
    second: Result<Args, String>,
)
    requires
        call_ensures(parse_args, (words,), first),
        first is Ok,
        longer@ == words@ + seq![word],
        call_ensures(parse_args, (longer,), second),
    ensures
        word.text@ == "--out"@ ==> second is Err && second->Err_0@ == "missing --out path"@,
        word.text@ == "--smoke"@ ==> second is Ok && ({
            let a = first->Ok_0;
            let b = second->Ok_0;
            &&& b.smoke
            &&& b.out@ == a.out@
            &&& b.seed == a.seed
            &&& text_of(b.legacy_dir) == text_of(a.legacy_dir)
            &&& b.diff_trials == a.diff_trials
            &&& texts_of(b.logs@) == texts_of(a.logs@)
        }),
        word.text@ == "--seed"@ ==> second is Err && second->Err_0@ == "missing --seed value"@,
        word.text@ == "--legacy-dir"@ ==> second is Err && second->Err_0@ == "missing --legacy-dir path"@,
        word.text@ == "--diff-trials"@ ==> second is Err && second->Err_0@ == "missing --diff-trials value"@,
        word.text@ == "-h"@ ==> second is Err && second->Err_0@ == "help"@,
        word.text@ == "--help"@ ==> second is Err && second->Err_0@ == "help"@,
        word.text@ != "--out"@
            && word.text@ != "--smoke"@
            && word.text@ != "--seed"@
            && word.text@ != "--legacy-dir"@
            && word.text@ != "--diff-trials"@
            && word.text@ != "-h"@
            && word.text@ != "--help"@ && word.text@.len() > 0 && word.text@[0] == '-' ==> second is Err
            && second->Err_0@ == "unknown flag "@ + word.text@,
        (word.text@.len() == 0 || word.text@[0] != '-') ==> second is Ok && ({
            let a = first->Ok_0;
            let b = second->Ok_0;
            &&& texts_of(b.logs@) == texts_of(a.logs@).push(word.text@)
            &&& b.out@ == a.out@
            &&& b.smoke == a.smoke
            &&& b.seed == a.seed
            &&& text_of(b.legacy_dir) == text_of(a.legacy_dir)
            &&& b.diff_trials == a.diff_trials
        }),
{
    lemma_places(word.text@);
    lemma_single_word(options(), Positional::Many("unknown flag "), words@, word);
    let done = read_words(options(), Positional::Many("unknown flag "), words@, 0, Seq::empty())->Ok_0;
    reveal_strlit("-");
    if word.text@.len() > 0 && word.text@[0] == '-' {
        assert(word.text@.take(1) =~= "-"@);
    } else if word.text@.len() > 0 {
        assert(word.text@.take(1)[0] == word.text@[0]);
        assert("-"@[0] == '-');
    }
    reveal_strlit("--out");
    reveal_strlit("--smoke");
    reveal_strlit("--seed");
    reveal_strlit("--legacy-dir");
    reveal_strlit("--diff-trials");
    reveal_strlit("-h");
    reveal_strlit("--help");
    assert("--out"@[0] == '-');
    assert("--smoke"@[0] == '-');
    assert("--seed"@[0] == '-');
    assert("--legacy-dir"@[0] == '-');
    assert("--diff-trials"@[0] == '-');
    assert("-h"@[0] == '-');
    assert("--help"@[0] == '-');
    lemma_added(done, 1, ValueModel::On);
    lemma_added(done, 7, ValueModel::Text(word.text@, word.is_file));
}

/// A command line that is accepted names every option that a run cannot do without.
pub proof fn law_nothing_left_out(words: &Vec<Word>, r: Result<Args, String>)
    requires
        call_ensures(parse_args, (words,), r),
        r is Ok,
    ensures
        exists|i: int| 0 <= i < words@.len() && (#[trigger] words@[i]).text@ == "--out"@,
{
    let done = read_words(options(), Positional::Many("unknown flag "), words@, 0, Seq::empty())->Ok_0;
    lemma_given_by_name(options(), Positional::Many("unknown flag "), words@, 0, Seq::empty(), 0);
}

/// The shortest command line that is accepted asks for what a run does unless told otherwise.
pub proof fn law_shortest_command_line(words: &Vec<Word>, r: Result<Args, String>)
    requires
        call_ensures(parse_args, (words,), r),
        words@.len() == 3,
        words@[0].text@ == "--out"@,
        words@[2].text@.len() > 0,
        words@[2].text@[0] != '-',
    ensures
        r is Ok,
        (r->Ok_0).out@ == words@[1].text@,
        !(r->Ok_0).smoke,
        (r->Ok_0).seed == 0xc0ff_ee42_a1a7_e011,
        (r->Ok_0).legacy_dir is None,
        (r->Ok_0).diff_trials == 7,
        texts_of((r->Ok_0).logs@) == seq![words@[2].text@],
{
    let none = Seq::<Word>::empty();
    let given0 = Seq::<(int, ValueModel)>::empty();
    assert(read_words(options(), Positional::Many("unknown flag "), none, 0, Seq::empty()) == Ok::<Seq<(int, ValueModel)>, Seq<char>>(given0));
    lemma_places(words@[0].text@);
    lemma_option_with_value(options(), Positional::Many("unknown flag "), none, words@[0], words@[1]);
    let value0 = ValueModel::Text(words@[1].text@, words@[1].is_file);
    lemma_added(given0, 0, value0);
    let given1 = given0.push((0, value0));
    let begun1 = none + seq![words@[0], words@[1]];
    let word = words@[2];
    lemma_places(word.text@);
    reveal_strlit("-");
    assert("-"@[0] == '-');
    assert(word.text@.take(1)[0] == word.text@[0]);
    reveal_strlit("--out");
    reveal_strlit("--smoke");
    reveal_strlit("--seed");
    reveal_strlit("--legacy-dir");
    reveal_strlit("--diff-trials");
    reveal_strlit("-h");
    reveal_strlit("--help");
    assert("--out"@[0] == '-');
    assert("--smoke"@[0] == '-');
    assert("--seed"@[0] == '-');
    assert("--legacy-dir"@[0] == '-');
    assert("--diff-trials"@[0] == '-');
    assert("-h"@[0] == '-');
    assert("--help"@[0] == '-');
    lemma_single_word(options(), Positional::Many("unknown flag "), begun1, word);
    lemma_added(given1, 7, ValueModel::Text(word.text@, word.is_file));
    assert(words@ =~= begun1 + seq![word]);
}

} // verus!
