//! The command line of the agreement run.

use super::words::{
    file_given, is_given, last_of, last_text, lemma_added, lemma_given_by_name,
    lemma_option_with_value, lemma_single_word, names_file, option_of, read, read_words,
    text_given, value_of, Kind, Opt, Positional, Setting, ValueModel, Word,
};
use crate::text::concat2;
use vstd::prelude::*;

verus! {

/// What a run was asked for.
#[derive(Debug)]
pub struct Args {
    pub replay: String,
    pub out: String,
    pub smoke: bool,
}

/// The options of the run.
pub open spec fn options() -> Seq<Opt> {
    seq![
        Opt { name: "--replay", kind: Kind::Text, missing: "missing value for --replay" },
        Opt { name: "--out", kind: Kind::Text, missing: "missing value for --out" },
        Opt { name: "--smoke", kind: Kind::Switch, missing: "" },
        Opt { name: "-h", kind: Kind::Help, missing: "" },
        Opt { name: "--help", kind: Kind::Help, missing: "" },
    ]
}

fn option_table() -> (r: Vec<Opt>)
    ensures
        r@ == options(),
{
    let table: Vec<Opt> = vec![
        Opt { name: "--replay", kind: Kind::Text, missing: "missing value for --replay" },
        Opt { name: "--out", kind: Kind::Text, missing: "missing value for --out" },
        Opt { name: "--smoke", kind: Kind::Switch, missing: "" },
        Opt { name: "-h", kind: Kind::Help, missing: "" },
        Opt { name: "--help", kind: Kind::Help, missing: "" },
    ];
    assert(table@ =~= options());
    table
}

/// What the words ask for, or why they are refused.
pub open spec fn asks(words: Seq<Word>, r: Result<Args, String>) -> bool {
    match read_words(options(), Positional::Refused("unknown argument "), words, 0, Seq::empty()) {
        Err(message) => r matches Err(text) && text@ == message,
        Ok(done) => {
            if text_given(done, 0) is None {
                r matches Err(text) && text@ == "missing --replay"@
            } else if text_given(done, 1) is None {
                r matches Err(text) && text@ == "missing --out"@
            } else if !file_given(done, 0) {
                r matches Err(text) && text@ == "replay log not found: "@ + text_given(done, 0)->0
            } else {
                &&& r is Ok
                &&& Some(r->Ok_0.replay@) == text_given(done, 0)
                &&& Some(r->Ok_0.out@) == text_given(done, 1)
                &&& r->Ok_0.smoke == (last_of(done, 2) is Some)
            }
        },
    }
}

/// Reads the command line.
pub fn parse_args(words: &Vec<Word>) -> (r: Result<Args, String>)
    ensures
        asks(words@, r),
{
    let table: Vec<Opt> = option_table();
    let settings: Vec<Setting> = match read(&table, Positional::Refused("unknown argument "), words) {
        Ok(settings) => settings,
        Err(message) => return Err(message),
    };
    let replay: String = match last_text(&settings, 0) {
        Some(text) => text,
        None => return Err("missing --replay".to_owned()),
    };
    let out: String = match last_text(&settings, 1) {
        Some(text) => text,
        None => return Err("missing --out".to_owned()),
    };
    if !names_file(&settings, 0) {
        return Err(concat2("replay log not found: ", replay.as_str()));
    }
    Ok(Args { replay, out, smoke: is_given(&settings, 2) })
}

proof fn lemma_places(name: Seq<char>)
    ensures
        name == "--replay"@ ==> option_of(options(), name, 0) == 0,
        name == "--out"@ ==> option_of(options(), name, 0) == 1,
        name == "--smoke"@ ==> option_of(options(), name, 0) == 2,
        name == "-h"@ ==> option_of(options(), name, 0) == 3,
        name == "--help"@ ==> option_of(options(), name, 0) == 4,
        name != "--replay"@
            && name != "--out"@
            && name != "--smoke"@
            && name != "-h"@
            && name != "--help"@ ==> option_of(
            options(),
            name,
            0,
        ) == 5,
{
    reveal_strlit("--replay");
    reveal_strlit("--out");
    reveal_strlit("--smoke");
    reveal_strlit("-h");
    reveal_strlit("--help");
    assert("--replay"@.len() != "--out"@.len());
    assert("--replay"@.len() != "--smoke"@.len());
    assert("--out"@.len() != "--smoke"@.len());
    assert("--replay"@.len() != "-h"@.len());
    assert("--out"@.len() != "-h"@.len());
    assert("--smoke"@.len() != "-h"@.len());
    assert("--replay"@.len() != "--help"@.len());
    assert("--out"@.len() != "--help"@.len());
    assert("--smoke"@.len() != "--help"@.len());
    assert("-h"@.len() != "--help"@.len());
    let table = options();
    assert(option_of(table, name, 5) == 5);
    assert(option_of(table, name, 4) == if name == "--help"@ {
        4
    } else {
        option_of(table, name, 5)
    });
    assert(option_of(table, name, 3) == if name == "-h"@ {
        3
    } else {
        option_of(table, name, 4)
    });
    assert(option_of(table, name, 2) == if name == "--smoke"@ {
        2
    } else {
        option_of(table, name, 3)
    });
    assert(option_of(table, name, 1) == if name == "--out"@ {
        1
    } else {
        option_of(table, name, 2)
    });
    assert(option_of(table, name, 0) == if name == "--replay"@ {
        0
    } else {
        option_of(table, name, 1)
    });
}

/// Whether a word is the name of an option that takes a value.
pub open spec fn wants_value(name: Seq<char>) -> bool {
    ||| name == "--replay"@
    ||| name == "--out"@
}

/// An option with its value, behind a command line that is accepted, sets what it is named for
/// and leaves the rest as it was.
pub proof fn law_option_sets_its_own(
    words: &Vec<Word>,
    name: Word,
    value: Word,
    longer: &Vec<Word>,
    first: Result<Args, String>,
    second: Result<Args, String>,
)
    requires
        call_ensures(parse_args, (words,), first),
        first is Ok,
        longer@ == words@ + seq![name, value],
        call_ensures(parse_args, (longer,), second),
    ensures
        name.text@ == "--replay"@ && value.is_file ==> second is Ok && (second->Ok_0).replay@ == value.text@,
        name.text@ == "--replay"@ && !value.is_file ==> second is Err && second->Err_0@ == "replay log not found: "@ + value.text@,
        name.text@ == "--out"@ ==> second is Ok && (second->Ok_0).out@ == value.text@,
        wants_value(name.text@) && second is Ok ==> ({
            let a = first->Ok_0;
            let b = second->Ok_0;
            &&& name.text@ == "--replay"@ || b.replay@ == a.replay@
            &&& name.text@ == "--out"@ || b.out@ == a.out@
            &&& b.smoke == a.smoke
        }),
{
    lemma_places(name.text@);
    let done = read_words(options(), Positional::Refused("unknown argument "), words@, 0, Seq::empty())->Ok_0;
    let option = option_of(options(), name.text@, 0);
    if wants_value(name.text@) {
        lemma_option_with_value(options(), Positional::Refused("unknown argument "), words@, name, value);
        if value_of(options()[option].kind, value) is Ok {
            lemma_added(done, option, value_of(options()[option].kind, value)->Ok_0);
        }
    }
}

/// A single word behind a command line that is accepted: a switch is on from then on, a word
/// that asks for help or is not known refuses the whole, and so does an option without its value.
pub proof fn law_single_word(
    words: &Vec<Word>,
    word: Word,
    longer: &Vec<Word>,
    first: Result<Args, String>,
    second: Result<Args, String>,
)
    requires
        call_ensures(parse_args, (words,), first),
        first is Ok,
        longer@ == words@ + seq![word],
        call_ensures(parse_args, (longer,), second),
    ensures
        word.text@ == "--replay"@ ==> second is Err && second->Err_0@ == "missing value for --replay"@,
        word.text@ == "--out"@ ==> second is Err && second->Err_0@ == "missing value for --out"@,
        word.text@ == "--smoke"@ ==> second is Ok && ({
            let a = first->Ok_0;
            let b = second->Ok_0;
            &&& b.smoke
            &&& b.replay@ == a.replay@
            &&& b.out@ == a.out@
        }),
        word.text@ == "-h"@ ==> second is Err && second->Err_0@ == "help"@,
        word.text@ == "--help"@ ==> second is Err && second->Err_0@ == "help"@,
        word.text@ != "--replay"@
            && word.text@ != "--out"@
            && word.text@ != "--smoke"@
            && word.text@ != "-h"@
            && word.text@ != "--help"@ ==> second is Err && second->Err_0@ == "unknown argument "@ + word.text@,
{
    lemma_places(word.text@);
    lemma_single_word(options(), Positional::Refused("unknown argument "), words@, word);
    let done = read_words(options(), Positional::Refused("unknown argument "), words@, 0, Seq::empty())->Ok_0;
    lemma_added(done, 2, ValueModel::On);
}

/// A command line that is accepted names every option that a run cannot do without.
pub proof fn law_nothing_left_out(words: &Vec<Word>, r: Result<Args, String>)
    requires
        call_ensures(parse_args, (words,), r),
        r is Ok,
    ensures
        exists|i: int| 0 <= i < words@.len() && (#[trigger] words@[i]).text@ == "--replay"@,
        exists|i: int| 0 <= i < words@.len() && (#[trigger] words@[i]).text@ == "--out"@,
{
    let done = read_words(options(), Positional::Refused("unknown argument "), words@, 0, Seq::empty())->Ok_0;
    lemma_given_by_name(options(), Positional::Refused("unknown argument "), words@, 0, Seq::empty(), 0);
    lemma_given_by_name(options(), Positional::Refused("unknown argument "), words@, 0, Seq::empty(), 1);
}

/// The shortest command line that is accepted asks for what a run does unless told otherwise.
pub proof fn law_shortest_command_line(words: &Vec<Word>, r: Result<Args, String>)
    requires
        call_ensures(parse_args, (words,), r),
        words@.len() == 4,
        words@[0].text@ == "--replay"@,
        words@[2].text@ == "--out"@,
        words@[1].is_file,
    ensures
        r is Ok,
        (r->Ok_0).replay@ == words@[1].text@,
        (r->Ok_0).out@ == words@[3].text@,
        !(r->Ok_0).smoke,
{
    let none = Seq::<Word>::empty();
    let given0 = Seq::<(int, ValueModel)>::empty();
    assert(read_words(options(), Positional::Refused("unknown argument "), none, 0, Seq::empty()) == Ok::<Seq<(int, ValueModel)>, Seq<char>>(given0));
    lemma_places(words@[0].text@);
    lemma_option_with_value(options(), Positional::Refused("unknown argument "), none, words@[0], words@[1]);
    let value0 = ValueModel::Text(words@[1].text@, words@[1].is_file);
    lemma_added(given0, 0, value0);
    let given1 = given0.push((0, value0));
    let begun1 = none + seq![words@[0], words@[1]];
    lemma_places(words@[2].text@);
    lemma_option_with_value(options(), Positional::Refused("unknown argument "), begun1, words@[2], words@[3]);
    let value1 = ValueModel::Text(words@[3].text@, words@[3].is_file);
    lemma_added(given1, 1, value1);
    let given2 = given1.push((1, value1));
    let begun2 = begun1 + seq![words@[2], words@[3]];
    assert(words@ =~= begun2);
}

} // verus!
