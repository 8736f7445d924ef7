//! The command line of the week's memory run.

use super::words::{
    all_texts, file_given, last_number, last_text, lemma_added, lemma_given_by_name,
    lemma_option_with_value, lemma_single_word, lemma_texts_are_given, names_file, number_given,
    option_of, read, read_words, text_given, texts_given, value_of, Kind, Opt, Positional,
    Setting, ValueModel, Word,
};
use crate::datetime::replay_at;
use crate::text::{concat2, text_of, texts_of};
use vstd::prelude::*;

verus! {

/// What a run was asked for.
#[derive(Debug)]
pub struct Args {
    pub current: String,
    pub out: String,
    pub priors: Vec<String>,
    pub label: Option<String>,
    pub replay_at: Option<u64>,
}

/// The options of the run.
pub open spec fn options() -> Seq<Opt> {
    seq![
        Opt { name: "--current", kind: Kind::Text, missing: "missing value for --current" },
        Opt { name: "--out", kind: Kind::Text, missing: "missing value for --out" },
        Opt { name: "--prior", kind: Kind::File("--prior not a file: "), missing: "missing value for --prior" },
        Opt { name: "--label", kind: Kind::Text, missing: "missing --label value" },
        Opt { name: "--replay-at", kind: Kind::Stamp, missing: "missing --replay-at value" },
        Opt { name: "-h", kind: Kind::Help, missing: "" },
        Opt { name: "--help", kind: Kind::Help, missing: "" },
    ]
}

fn option_table() -> (r: Vec<Opt>)
    ensures
        r@ == options(),
{
    let table: Vec<Opt> = vec![
        Opt { name: "--current", kind: Kind::Text, missing: "missing value for --current" },
        Opt { name: "--out", kind: Kind::Text, missing: "missing value for --out" },
        Opt { name: "--prior", kind: Kind::File("--prior not a file: "), missing: "missing value for --prior" },
        Opt { name: "--label", kind: Kind::Text, missing: "missing --label value" },
        Opt { name: "--replay-at", kind: Kind::Stamp, missing: "missing --replay-at value" },
        Opt { name: "-h", kind: Kind::Help, missing: "" },
        Opt { name: "--help", kind: Kind::Help, missing: "" },
    ];
    assert(table@ =~= options());
    table
}

/// What the words ask for, or why they are refused.
pub open spec fn asks(words: Seq<Word>, r: Result<Args, String>) -> bool {
    match read_words(options(), Positional::Refused("unknown argument "), words, 0, Seq::empty()) {
        Err(message) => r matches Err(text) && text@ == message,
        Ok(done) => {
            if text_given(done, 0) is None {
                r matches Err(text) && text@ == "missing --current"@
            } else if text_given(done, 1) is None {
                r matches Err(text) && text@ == "missing --out"@
            } else if !file_given(done, 0) {
                r matches Err(text) && text@ == "--current not a file: "@ + text_given(done, 0)->0
            } else if texts_given(done, 2).len() == 0 {
                r matches Err(text) && text@ == "need at least one --prior (full week wants four other days)"@
            } else {
                &&& r is Ok
                &&& Some(r->Ok_0.current@) == text_given(done, 0)
                &&& Some(r->Ok_0.out@) == text_given(done, 1)
                &&& texts_of(r->Ok_0.priors@) == texts_given(done, 2)
                &&& text_of(r->Ok_0.label) == text_given(done, 3)
                &&& r->Ok_0.replay_at == number_given(done, 4)
            }
        },
    }
}

/// Reads the command line.
pub fn parse_args(words: &Vec<Word>) -> (r: Result<Args, String>)
    ensures
        asks(words@, r),
{
    let table: Vec<Opt> = option_table();
    let settings: Vec<Setting> = match read(&table, Positional::Refused("unknown argument "), words) {
        Ok(settings) => settings,
        Err(message) => return Err(message),
    };
    let current: String = match last_text(&settings, 0) {
        Some(text) => text,
        None => return Err("missing --current".to_owned()),
    };
    let out: String = match last_text(&settings, 1) {
        Some(text) => text,
        None => return Err("missing --out".to_owned()),
    };
    if !names_file(&settings, 0) {
        return Err(concat2("--current not a file: ", current.as_str()));
    }
    let priors: Vec<String> = all_texts(&settings, 2);
    assert(texts_of(priors@).len() == priors.len());
    if priors.len() == 0 {
        return Err("need at least one --prior (full week wants four other days)".to_owned());
    }
    Ok(
        Args {
            current,
            out,
            priors,
            label: last_text(&settings, 3),
            replay_at: last_number(&settings, 4),
        },
    )
}

proof fn lemma_places(name: Seq<char>)
    ensures
        name == "--current"@ ==> option_of(options(), name, 0) == 0,
        name == "--out"@ ==> option_of(options(), name, 0) == 1,
        name == "--prior"@ ==> option_of(options(), name, 0) == 2,
        name == "--label"@ ==> option_of(options(), name, 0) == 3,
        name == "--replay-at"@ ==> option_of(options(), name, 0) == 4,
        name == "-h"@ ==> option_of(options(), name, 0) == 5,
        name == "--help"@ ==> option_of(options(), name, 0) == 6,
        name != "--current"@
            && name != "--out"@
            && name != "--prior"@
            && name != "--label"@
            && name != "--replay-at"@
            && name != "-h"@
            && name != "--help"@ ==> option_of(
            options(),
            name,
            0,
        ) == 7,
{
    reveal_strlit("--current");
    reveal_strlit("--out");
    reveal_strlit("--prior");
    reveal_strlit("--label");
    reveal_strlit("--replay-at");
    reveal_strlit("-h");
    reveal_strlit("--help");
    assert("--current"@.len() != "--out"@.len());
    assert("--current"@.len() != "--prior"@.len());
    assert("--out"@.len() != "--prior"@.len());
    assert("--current"@.len() != "--label"@.len());
    assert("--out"@.len() != "--label"@.len());
    assert("--prior"@[2] != "--label"@[2]);
    assert("--current"@.len() != "--replay-at"@.len());
    assert("--out"@.len() != "--replay-at"@.len());
    assert("--prior"@.len() != "--replay-at"@.len());
    assert("--label"@.len() != "--replay-at"@.len());
    assert("--current"@.len() != "-h"@.len());
    assert("--out"@.len() != "-h"@.len());
    assert("--prior"@.len() != "-h"@.len());
    assert("--label"@.len() != "-h"@.len());
    assert("--replay-at"@.len() != "-h"@.len());
    assert("--current"@.len() != "--help"@.len());
    assert("--out"@.len() != "--help"@.len());
    assert("--prior"@.len() != "--help"@.len());
    assert("--label"@.len() != "--help"@.len());
    assert("--replay-at"@.len() != "--help"@.len());
    assert("-h"@.len() != "--help"@.len());
    let table = options();
    assert(option_of(table, name, 7) == 7);
    assert(option_of(table, name, 6) == if name == "--help"@ {
        6
    } else {
        option_of(table, name, 7)
    });
    assert(option_of(table, name, 5) == if name == "-h"@ {
        5
    } else {
        option_of(table, name, 6)
    });
    assert(option_of(table, name, 4) == if name == "--replay-at"@ {
        4
    } else {
        option_of(table, name, 5)
    });
    assert(option_of(table, name, 3) == if name == "--label"@ {
        3
    } else {
        option_of(table, name, 4)
    });
    assert(option_of(table, name, 2) == if name == "--prior"@ {
        2
    } else {
        option_of(table, name, 3)
    });
    assert(option_of(table, name, 1) == if name == "--out"@ {
        1
    } else {
        option_of(table, name, 2)
    });
    assert(option_of(table, name, 0) == if name == "--current"@ {
        0
    } else {
        option_of(table, name, 1)
    });
}

/// Whether a word is the name of an option that takes a value.
pub open spec fn wants_value(name: Seq<char>) -> bool {
    ||| name == "--current"@
    ||| name == "--out"@
    ||| name == "--prior"@
    ||| name == "--label"@
    ||| name == "--replay-at"@
}

/// An option with its value, behind a command line that is accepted, sets what it is named for
/// and leaves the rest as it was.
pub proof fn law_option_sets_its_own(
    words: &Vec<Word>,
    name: Word,
    value: Word,
    longer: &Vec<Word>,
    first: Result<Args, String>,
    second: Result<Args, String>,
)
    requires
        call_ensures(parse_args, (words,), first),
        first is Ok,
        longer@ == words@ + seq![name, value],
        call_ensures(parse_args, (longer,), second),
    ensures
        name.text@ == "--current"@ && value.is_file ==> second is Ok && (second->Ok_0).current@ == value.text@,
        name.text@ == "--current"@ && !value.is_file ==> second is Err && second->Err_0@ == "--current not a file: "@ + value.text@,
        name.text@ == "--out"@ ==> second is Ok && (second->Ok_0).out@ == value.text@,
        name.text@ == "--prior"@ && value.is_file ==> second is Ok && texts_of((second->Ok_0).priors@) == texts_of((first->Ok_0).priors@).push(value.text@),
        name.text@ == "--prior"@ && !value.is_file ==> second is Err && second->Err_0@ == "--prior not a file: "@ + value.text@,
        name.text@ == "--label"@ ==> second is Ok && text_of((second->Ok_0).label) == Some(value.text@),
        name.text@ == "--replay-at"@ && replay_at(value.text@) is Ok ==> second is Ok && (second->Ok_0).replay_at == Some(replay_at(value.text@)->Ok_0),
        name.text@ == "--replay-at"@ && replay_at(value.text@) is Err ==> second is Err,
        wants_value(name.text@) && second is Ok ==> ({
            let a = first->Ok_0;
            let b = second->Ok_0;
            &&& name.text@ == "--current"@ || b.current@ == a.current@
            &&& name.text@ == "--out"@ || b.out@ == a.out@
            &&& name.text@ == "--prior"@ || texts_of(b.priors@) == texts_of(a.priors@)
            &&& name.text@ == "--label"@ || text_of(b.label) == text_of(a.label)
            &&& name.text@ == "--replay-at"@ || b.replay_at == a.replay_at
        }),
{
    lemma_places(name.text@);
    let done = read_words(options(), Positional::Refused("unknown argument "), words@, 0, Seq::empty())->Ok_0;
    let option = option_of(options(), name.text@, 0);
    if wants_value(name.text@) {
        lemma_option_with_value(options(), Positional::Refused("unknown argument "), words@, name, value);
        if value_of(options()[option].kind, value) is Ok {
            lemma_added(done, option, value_of(options()[option].kind, value)->Ok_0);
        }
    }
}

/// A single word behind a command line that is accepted: a word that asks for help or is not
/// known refuses the whole, and so does an option without its value.
pub proof fn law_single_word(
    words: &Vec<Word>,
    word: Word,
    longer: &Vec<Word>,
    first: Result<Args, String>,
    second: Result<Args, String>,
)
    requires
        call_ensures(parse_args, (words,), first),
        first is Ok,
        longer@ == words@ + seq![word],
        call_ensures(parse_args, (longer,), second),
    ensures
        word.text@ == "--current"@ ==> second is Err && second->Err_0@ == "missing value for --current"@,
        word.text@ == "--out"@ ==> second is Err && second->Err_0@ == "missing value for --out"@,
        word.text@ == "--prior"@ ==> second is Err && second->Err_0@ == "missing value for --prior"@,
        word.text@ == "--label"@ ==> second is Err && second->Err_0@ == "missing --label value"@,
        word.text@ == "--replay-at"@ ==> second is Err && second->Err_0@ == "missing --replay-at value"@,
        word.text@ == "-h"@ ==> second is Err && second->Err_0@ == "help"@,
        word.text@ == "--help"@ ==> second is Err && second->Err_0@ == "help"@,
        word.text@ != "--current"@
            && word.text@ != "--out"@
            && word.text@ != "--prior"@
            && word.text@ != "--label"@
            && word.text@ != "--replay-at"@
            && word.text@ != "-h"@
            && word.text@ != "--help"@ ==> second is Err && second->Err_0@ == "unknown argument "@ + word.text@,
{
    lemma_places(word.text@);
    lemma_single_word(options(), Positional::Refused("unknown argument "), words@, word);
    let done = read_words(options(), Positional::Refused("unknown argument "), words@, 0, Seq::empty())->Ok_0;
}

/// A command line that is accepted names every option that a run cannot do without.
pub proof fn law_nothing_left_out(words: &Vec<Word>, r: Result<Args, String>)
    requires
        call_ensures(parse_args, (words,), r),
        r is Ok,
    ensures
        exists|i: int| 0 <= i < words@.len() && (#[trigger] words@[i]).text@ == "--current"@,
        exists|i: int| 0 <= i < words@.len() && (#[trigger] words@[i]).text@ == "--out"@,
        exists|i: int| 0 <= i < words@.len() && (#[trigger] words@[i]).text@ == "--prior"@,
{
    let done = read_words(options(), Positional::Refused("unknown argument "), words@, 0, Seq::empty())->Ok_0;
    lemma_given_by_name(options(), Positional::Refused("unknown argument "), words@, 0, Seq::empty(), 0);
    lemma_given_by_name(options(), Positional::Refused("unknown argument "), words@, 0, Seq::empty(), 1);
    lemma_texts_are_given(done, 2);
    lemma_given_by_name(options(), Positional::Refused("unknown argument "), words@, 0, Seq::empty(), 2);
}

/// The shortest command line that is accepted asks for what a run does unless told otherwise.
#[verifier::rlimit(60)]
pub proof fn law_shortest_command_line(words: &Vec<Word>, r: Result<Args, String>)
    requires
        call_ensures(parse_args, (words,), r),
        words@.len() == 6,
        words@[0].text@ == "--current"@,
        words@[2].text@ == "--out"@,
        words@[4].text@ == "--prior"@,
        words@[1].is_file,
        words@[5].is_file,
    ensures
        r is Ok,
        (r->Ok_0).current@ == words@[1].text@,
        (r->Ok_0).out@ == words@[3].text@,
        texts_of((r->Ok_0).priors@) == seq![words@[5].text@],
        (r->Ok_0).label is None,
        (r->Ok_0).replay_at is None,
{
    let none = Seq::<Word>::empty();
    let given0 = Seq::<(int, ValueModel)>::empty();
    assert(read_words(options(), Positional::Refused("unknown argument "), none, 0, Seq::empty()) == Ok::<Seq<(int, ValueModel)>, Seq<char>>(given0));
    lemma_places(words@[0].text@);
    lemma_option_with_value(options(), Positional::Refused("unknown argument "), none, words@[0], words@[1]);
    let value0 = ValueModel::Text(words@[1].text@, words@[1].is_file);
    lemma_added(given0, 0, value0);
    let given1 = given0.push((0, value0));
    let begun1 = none + seq![words@[0], words@[1]];
    assert(read_words(options(), Positional::Refused("unknown argument "), begun1, 0, Seq::empty()) == Ok::<Seq<(int, ValueModel)>, Seq<char>>(given1));
    lemma_places(words@[2].text@);
    lemma_option_with_value(options(), Positional::Refused("unknown argument "), begun1, words@[2], words@[3]);
    let value1 = ValueModel::Text(words@[3].text@, words@[3].is_file);
    lemma_added(given1, 1, value1);
    let given2 = given1.push((1, value1));
    let begun2 = begun1 + seq![words@[2], words@[3]];
    assert(read_words(options(), Positional::Refused("unknown argument "), begun2, 0, Seq::empty()) == Ok::<Seq<(int, ValueModel)>, Seq<char>>(given2));
    lemma_places(words@[4].text@);
    lemma_option_with_value(options(), Positional::Refused("unknown argument "), begun2, words@[4], words@[5]);
    let value2 = ValueModel::Text(words@[5].text@, words@[5].is_file);
    lemma_added(given2, 2, value2);
    let given3 = given2.push((2, value2));
    let begun3 = begun2 + seq![words@[4], words@[5]];
    assert(read_words(options(), Positional::Refused("unknown argument "), begun3, 0, Seq::empty()) == Ok::<Seq<(int, ValueModel)>, Seq<char>>(given3));
    assert(words@ =~= begun3);
}

} // verus!
