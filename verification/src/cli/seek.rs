//! The command line of the seek evidence run.

use super::words::{
    last_number, last_text, lemma_added, lemma_given_by_name, lemma_hexadecimal_worth,
    lemma_numeral_worth, lemma_option_with_value, lemma_single_word, number_given, option_of,
    read, read_words, text_given, value_of, Kind, NumberRule, Opt, Positional, Refusal, Setting,
    ValueModel, Word,
};
use crate::text::{decimal, digits_value, text_of};
use vstd::prelude::*;

verus! {

/// The seeks of a run that does not say how many.
pub const DEFAULT_SEEKS: u64 = 1000;

/// The seeks that such a run checks against a replay from the beginning.
pub const DEFAULT_VERIFY: u64 = 25;

/// The seed of a run that gives none.
pub const DEFAULT_SEED: u64 = 0x4d32_5345_454b;

/// What a run was asked for.
#[derive(Debug)]
pub struct Args {
    pub log: String,
    pub seeks: u64,
    pub verify: u64,
    pub seed: u64,
    pub out: Option<String>,
    pub label: Option<String>,
}

/// The options of the run.
pub open spec fn options() -> Seq<Opt> {
    seq![
        Opt { name: "--log", kind: Kind::Text, missing: "missing --log path" },
        Opt {
            name: "--seeks",
            kind: Kind::Number(
                NumberRule {
                    max: u64::MAX,
                    modulus: 0,
                    least: 1,
                    hex: false,
                    refusal: Refusal::Fixed("--seeks must be a positive integer"),
                    too_small: "--seeks must be ≥ 1",
                },
            ),
            missing: "missing --seeks value",
        },
        Opt {
            name: "--verify",
            kind: Kind::Number(
                NumberRule {
                    max: u64::MAX,
                    modulus: 0,
                    least: 0,
                    hex: false,
                    refusal: Refusal::Fixed("--verify must be a non-negative integer"),
                    too_small: "",
                },
            ),
            missing: "missing --verify value",
        },
        Opt {
            name: "--seed",
            kind: Kind::Number(
                NumberRule {
                    max: u64::MAX,
                    modulus: 0,
                    least: 0,
                    hex: true,
                    refusal: Refusal::Fixed("--seed must be u64 (dec or 0xhex)"),
                    too_small: "",
                },
            ),
            missing: "missing --seed value",
        },
        Opt { name: "--out", kind: Kind::Text, missing: "missing --out path" },
        Opt { name: "--label", kind: Kind::Text, missing: "missing --label value" },
        Opt { name: "-h", kind: Kind::Help, missing: "" },
        Opt { name: "--help", kind: Kind::Help, missing: "" },
    ]
}

fn option_table() -> (r: Vec<Opt>)
    ensures
        r@ == options(),
{
    let table: Vec<Opt> = vec![
        Opt { name: "--log", kind: Kind::Text, missing: "missing --log path" },
        Opt {
            name: "--seeks",
            kind: Kind::Number(
                NumberRule {
                    max: u64::MAX,
                    modulus: 0,
                    least: 1,
                    hex: false,
                    refusal: Refusal::Fixed("--seeks must be a positive integer"),
                    too_small: "--seeks must be ≥ 1",
                },
            ),
            missing: "missing --seeks value",
        },
        Opt {
            name: "--verify",
            kind: Kind::Number(
                NumberRule {
                    max: u64::MAX,
                    modulus: 0,
                    least: 0,
                    hex: false,
                    refusal: Refusal::Fixed("--verify must be a non-negative integer"),
                    too_small: "",
                },
            ),
            missing: "missing --verify value",
        },
        Opt {
            name: "--seed",
            kind: Kind::Number(
                NumberRule {
                    max: u64::MAX,
                    modulus: 0,
                    least: 0,
                    hex: true,
                    refusal: Refusal::Fixed("--seed must be u64 (dec or 0xhex)"),
                    too_small: "",
                },
            ),
            missing: "missing --seed value",
        },
        Opt { name: "--out", kind: Kind::Text, missing: "missing --out path" },
        Opt { name: "--label", kind: Kind::Text, missing: "missing --label value" },
        Opt { name: "-h", kind: Kind::Help, missing: "" },
        Opt { name: "--help", kind: Kind::Help, missing: "" },
    ];
    assert(table@ =~= options());
    table
}

/// What the words ask for, or why they are refused.
pub open spec fn asks(words: Seq<Word>, r: Result<Args, String>) -> bool {
    match read_words(options(), Positional::Refused("unknown argument: "), words, 0, Seq::empty()) {
        Err(message) => r matches Err(text) && text@ == message,
        Ok(done) => {
            if text_given(done, 0) is None {
                r matches Err(text) && text@ == "missing required --log"@
            } else {
                &&& r is Ok
                &&& Some(r->Ok_0.log@) == text_given(done, 0)
                &&& r->Ok_0.seeks == number_given(done, 1).unwrap_or(DEFAULT_SEEKS)
                &&& r->Ok_0.verify == number_given(done, 2).unwrap_or(DEFAULT_VERIFY)
                &&& r->Ok_0.seed == number_given(done, 3).unwrap_or(DEFAULT_SEED)
                &&& text_of(r->Ok_0.out) == text_given(done, 4)
                &&& text_of(r->Ok_0.label) == text_given(done, 5)
            }
        },
    }
}

/// Reads the command line.
pub fn parse_args(words: &Vec<Word>) -> (r: Result<Args, String>)
    ensures
        asks(words@, r),
{
    let table: Vec<Opt> = option_table();
    let settings: Vec<Setting> = match read(&table, Positional::Refused("unknown argument: "), words) {
        Ok(settings) => settings,
        Err(message) => return Err(message),
    };
    match last_text(&settings, 0) {
        None => Err("missing required --log".to_owned()),
        Some(log) => Ok(
            Args {
                log,
                seeks: last_number(&settings, 1).unwrap_or(DEFAULT_SEEKS),
                verify: last_number(&settings, 2).unwrap_or(DEFAULT_VERIFY),
                seed: last_number(&settings, 3).unwrap_or(DEFAULT_SEED),
                out: last_text(&settings, 4),
                label: last_text(&settings, 5),
            },
        ),
    }
}

proof fn lemma_places(name: Seq<char>)
    ensures
        name == "--log"@ ==> option_of(options(), name, 0) == 0,
        name == "--seeks"@ ==> option_of(options(), name, 0) == 1,
        name == "--verify"@ ==> option_of(options(), name, 0) == 2,
        name == "--seed"@ ==> option_of(options(), name, 0) == 3,
        name == "--out"@ ==> option_of(options(), name, 0) == 4,
        name == "--label"@ ==> option_of(options(), name, 0) == 5,
        name == "-h"@ ==> option_of(options(), name, 0) == 6,
        name == "--help"@ ==> option_of(options(), name, 0) == 7,
        name != "--log"@
            && name != "--seeks"@
            && name != "--verify"@
            && name != "--seed"@
            && name != "--out"@
            && name != "--label"@
            && name != "-h"@
            && name != "--help"@ ==> option_of(
            options(),
            name,
            0,
        ) == 8,
{
    reveal_strlit("--log");
    reveal_strlit("--seeks");
    reveal_strlit("--verify");
    reveal_strlit("--seed");
    reveal_strlit("--out");
    reveal_strlit("--label");
    reveal_strlit("-h");
    reveal_strlit("--help");
    assert("--log"@.len() != "--seeks"@.len());
    assert("--log"@.len() != "--verify"@.len());
    assert("--seeks"@.len() != "--verify"@.len());
    assert("--log"@.len() != "--seed"@.len());
    assert("--seeks"@.len() != "--seed"@.len());
    assert("--verify"@.len() != "--seed"@.len());
    assert("--log"@[2] != "--out"@[2]);
    assert("--seeks"@.len() != "--out"@.len());
    assert("--verify"@.len() != "--out"@.len());
    assert("--seed"@.len() != "--out"@.len());
    assert("--log"@.len() != "--label"@.len());
    assert("--seeks"@[2] != "--label"@[2]);
    assert("--verify"@.len() != "--label"@.len());
    assert("--seed"@.len() != "--label"@.len());
    assert("--out"@.len() != "--label"@.len());
    assert("--log"@.len() != "-h"@.len());
    assert("--seeks"@.len() != "-h"@.len());
    assert("--verify"@.len() != "-h"@.len());
    assert("--seed"@.len() != "-h"@.len());
    assert("--out"@.len() != "-h"@.len());
    assert("--label"@.len() != "-h"@.len());
    assert("--log"@.len() != "--help"@.len());
    assert("--seeks"@.len() != "--help"@.len());
    assert("--verify"@.len() != "--help"@.len());
    assert("--seed"@[2] != "--help"@[2]);
    assert("--out"@.len() != "--help"@.len());
    assert("--label"@.len() != "--help"@.len());
    assert("-h"@.len() != "--help"@.len());
    let table = options();
    assert(option_of(table, name, 8) == 8);
    assert(option_of(table, name, 7) == if name == "--help"@ {
        7
    } else {
        option_of(table, name, 8)
    });
    assert(option_of(table, name, 6) == if name == "-h"@ {
        6
    } else {
        option_of(table, name, 7)
    });
    assert(option_of(table, name, 5) == if name == "--label"@ {
        5
    } else {
        option_of(table, name, 6)
    });
    assert(option_of(table, name, 4) == if name == "--out"@ {
        4
    } else {
        option_of(table, name, 5)
    });
    assert(option_of(table, name, 3) == if name == "--seed"@ {
        3
    } else {
        option_of(table, name, 4)
    });
    assert(option_of(table, name, 2) == if name == "--verify"@ {
        2
    } else {
        option_of(table, name, 3)
    });
    assert(option_of(table, name, 1) == if name == "--seeks"@ {
        1
    } else {
        option_of(table, name, 2)
    });
    assert(option_of(table, name, 0) == if name == "--log"@ {
        0
    } else {
        option_of(table, name, 1)
    });
}

/// Whether a word is the name of an option that takes a value.
pub open spec fn wants_value(name: Seq<char>) -> bool {
    ||| name == "--log"@
    ||| name == "--seeks"@
    ||| name == "--verify"@
    ||| name == "--seed"@
    ||| name == "--out"@
    ||| name == "--label"@
}

/// An option with its value, behind a command line that is accepted, sets what it is named for
/// and leaves the rest as it was.
pub proof fn law_option_sets_its_own(
    words: &Vec<Word>,
    name: Word,
    value: Word,
    n: nat,
    longer: &Vec<Word>,
    first: Result<Args, String>,
    second: Result<Args, String>,
)
    requires
        call_ensures(parse_args, (words,), first),
        first is Ok,
        longer@ == words@ + seq![name, value],
        call_ensures(parse_args, (longer,), second),
    ensures
        name.text@ == "--log"@ ==> second is Ok && (second->Ok_0).log@ == value.text@,
        name.text@ == "--seeks"@ && value.text@ == decimal(n) && 1 <= n && n <= u64::MAX ==> second is Ok && (second->Ok_0).seeks == n,
        name.text@ == "--seeks"@ && value.text@ == decimal(n) && (n < 1 || n > u64::MAX) ==> second is Err,
        name.text@ == "--verify"@ && value.text@ == decimal(n) && n <= u64::MAX ==> second is Ok && (second->Ok_0).verify == n,
        name.text@ == "--verify"@ && value.text@ == decimal(n) && n > u64::MAX ==> second is Err,
        name.text@ == "--seed"@ && value.text@ == decimal(n) && n <= u64::MAX ==> second is Ok && (second->Ok_0).seed == n,
        name.text@ == "--seed"@ && value.text@ == decimal(n) && n > u64::MAX ==> second is Err,
        name.text@ == "--out"@ ==> second is Ok && text_of((second->Ok_0).out) == Some(value.text@),
        name.text@ == "--label"@ ==> second is Ok && text_of((second->Ok_0).label) == Some(value.text@),
        wants_value(name.text@) && second is Ok ==> ({
            let a = first->Ok_0;
            let b = second->Ok_0;
            &&& name.text@ == "--log"@ || b.log@ == a.log@
            &&& name.text@ == "--seeks"@ || b.seeks == a.seeks
            &&& name.text@ == "--verify"@ || b.verify == a.verify
            &&& name.text@ == "--seed"@ || b.seed == a.seed
            &&& name.text@ == "--out"@ || text_of(b.out) == text_of(a.out)
            &&& name.text@ == "--label"@ || text_of(b.label) == text_of(a.label)
        }),
{
    lemma_places(name.text@);
    let done = read_words(options(), Positional::Refused("unknown argument: "), words@, 0, Seq::empty())->Ok_0;
    let option = option_of(options(), name.text@, 0);
    if wants_value(name.text@) {
        lemma_option_with_value(options(), Positional::Refused("unknown argument: "), words@, name, value);
        lemma_numeral_worth(options()[1].kind->Number_0, n);
        lemma_numeral_worth(options()[2].kind->Number_0, n);
        lemma_numeral_worth(options()[3].kind->Number_0, n);
        if value_of(options()[option].kind, value) is Ok {
            lemma_added(done, option, value_of(options()[option].kind, value)->Ok_0);
        }
    }
}

/// A number may be written in hexadecimal behind `0x` where the option takes that.
pub proof fn law_hexadecimal_values(
    words: &Vec<Word>,
    name: Word,
    value: Word,
    n: nat,
    longer: &Vec<Word>,
    first: Result<Args, String>,
    second: Result<Args, String>,
)
    requires
        call_ensures(parse_args, (words,), first),
        first is Ok,
        longer@ == words@ + seq![name, value],
        call_ensures(parse_args, (longer,), second),
        value.text@.len() > 2,
        value.text@[0] == '0',
        value.text@[1] == 'x' || value.text@[1] == 'X',
        value.text@[2] != '+',
        digits_value(value.text@.skip(2), 16) == Some(n),
    ensures
        name.text@ == "--seed"@ && n <= u64::MAX ==> second is Ok && (second->Ok_0).seed == n,
        name.text@ == "--seed"@ && n > u64::MAX ==> second is Err,
{
    lemma_places(name.text@);
    let done = read_words(options(), Positional::Refused("unknown argument: "), words@, 0, Seq::empty())->Ok_0;
    let option = option_of(options(), name.text@, 0);
    if wants_value(name.text@) {
        lemma_option_with_value(options(), Positional::Refused("unknown argument: "), words@, name, value);
        lemma_hexadecimal_worth(options()[3].kind->Number_0, value.text@, n);
        if value_of(options()[option].kind, value) is Ok {
            lemma_added(done, option, value_of(options()[option].kind, value)->Ok_0);
        }
    }
}

/// A single word behind a command line that is accepted: a word that asks for help or is not
/// known refuses the whole, and so does an option without its value.
pub proof fn law_single_word(
    words: &Vec<Word>,
    word: Word,
    longer: &Vec<Word>,
    first: Result<Args, String>,
    second: Result<Args, String>,
)
    requires
        call_ensures(parse_args, (words,), first),
        first is Ok,
        longer@ == words@ + seq![word],
        call_ensures(parse_args, (longer,), second),
    ensures
        word.text@ == "--log"@ ==> second is Err && second->Err_0@ == "missing --log path"@,
        word.text@ == "--seeks"@ ==> second is Err && second->Err_0@ == "missing --seeks value"@,
        word.text@ == "--verify"@ ==> second is Err && second->Err_0@ == "missing --verify value"@,
        word.text@ == "--seed"@ ==> second is Err && second->Err_0@ == "missing --seed value"@,
        word.text@ == "--out"@ ==> second is Err && second->Err_0@ == "missing --out path"@,
        word.text@ == "--label"@ ==> second is Err && second->Err_0@ == "missing --label value"@,
        word.text@ == "-h"@ ==> second is Err && second->Err_0@ == "help"@,
        word.text@ == "--help"@ ==> second is Err && second->Err_0@ == "help"@,
        word.text@ != "--log"@
            && word.text@ != "--seeks"@
            && word.text@ != "--verify"@
            && word.text@ != "--seed"@
            && word.text@ != "--out"@
            && word.text@ != "--label"@
            && word.text@ != "-h"@
            && word.text@ != "--help"@ ==> second is Err && second->Err_0@ == "unknown argument: "@ + word.text@,
{
    lemma_places(word.text@);
    lemma_single_word(options(), Positional::Refused("unknown argument: "), words@, word);
    let done = read_words(options(), Positional::Refused("unknown argument: "), words@, 0, Seq::empty())->Ok_0;
}

/// A command line that is accepted names every option that a run cannot do without.
pub proof fn law_nothing_left_out(words: &Vec<Word>, r: Result<Args, String>)
    requires
        call_ensures(parse_args, (words,), r),
        r is Ok,
    ensures
        exists|i: int| 0 <= i < words@.len() && (#[trigger] words@[i]).text@ == "--log"@,
{
    let done = read_words(options(), Positional::Refused("unknown argument: "), words@, 0, Seq::empty())->Ok_0;
    lemma_given_by_name(options(), Positional::Refused("unknown argument: "), words@, 0, Seq::empty(), 0);
}

/// The shortest command line that is accepted asks for what a run does unless told otherwise.
pub proof fn law_shortest_command_line(words: &Vec<Word>, r: Result<Args, String>)
    requires
        call_ensures(parse_args, (words,), r),
        words@.len() == 2,
        words@[0].text@ == "--log"@,
    ensures
        r is Ok,
        (r->Ok_0).log@ == words@[1].text@,
        (r->Ok_0).seeks == 1_000,
        (r->Ok_0).verify == 25,
        (r->Ok_0).seed == 0x4d32_5345_454b,
        (r->Ok_0).out is None,
        (r->Ok_0).label is None,
{
    let none = Seq::<Word>::empty();
    let given0 = Seq::<(int, ValueModel)>::empty();
    assert(read_words(options(), Positional::Refused("unknown argument: "), none, 0, Seq::empty()) == Ok::<Seq<(int, ValueModel)>, Seq<char>>(given0));
    lemma_places(words@[0].text@);
    lemma_option_with_value(options(), Positional::Refused("unknown argument: "), none, words@[0], words@[1]);
    let value0 = ValueModel::Text(words@[1].text@, words@[1].is_file);
    lemma_added(given0, 0, value0);
    let given1 = given0.push((0, value0));
    let begun1 = none + seq![words@[0], words@[1]];
    assert(words@ =~= begun1);
}

} // verus!
