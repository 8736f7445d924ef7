//! The command line of the census.

use super::words::{
    file_given, last_text, lemma_added, lemma_option_with_value, lemma_single_word, names_file,
    option_of, read, read_words, text_given, value_of, Kind, Opt, Positional, Setting, ValueModel,
    Word,
};
use crate::text::{concat2, text_of};
use vstd::prelude::*;

verus! {

/// What a census was asked for.
#[derive(Debug)]
pub struct Args {
    pub log: String,
    pub out: Option<String>,
}

/// The options of the census.
pub open spec fn options() -> Seq<Opt> {
    seq![
        Opt { name: "--out", kind: Kind::Text, missing: "missing --out path" },
        Opt { name: "-h", kind: Kind::Help, missing: "" },
        Opt { name: "--help", kind: Kind::Help, missing: "" },
    ]
}

fn option_table() -> (r: Vec<Opt>)
    ensures
        r@ == options(),
{
    let table: Vec<Opt> = vec![
        Opt { name: "--out", kind: Kind::Text, missing: "missing --out path" },
        Opt { name: "-h", kind: Kind::Help, missing: "" },
        Opt { name: "--help", kind: Kind::Help, missing: "" },
    ];
    assert(table@ =~= options());
    table
}

/// What the words ask for, or why they are refused.
pub open spec fn asks(words: Seq<Word>, r: Result<Args, String>) -> bool {
    match read_words(options(), Positional::One("unknown flag ", "multiple log paths"), words, 0, Seq::empty()) {
        Err(message) => r matches Err(text) && text@ == message,
        Ok(done) => {
            let count = options().len() as int;
            if text_given(done, count) is None {
                r matches Err(text) && text@ == "missing <path.fftlog>"@
            } else if !file_given(done, count) {
                r matches Err(text) && text@ == "log not found: "@ + text_given(done, count)->0
            } else {
                &&& r is Ok
                &&& Some(r->Ok_0.log@) == text_given(done, count)
                &&& text_of(r->Ok_0.out) == text_given(done, 0)
            }
        },
    }
}

/// Reads the command line.
pub fn parse_args(words: &Vec<Word>) -> (r: Result<Args, String>)
    ensures
        asks(words@, r),
{
    let table: Vec<Opt> = option_table();
    let settings: Vec<Setting> = match read(&table, Positional::One("unknown flag ", "multiple log paths"), words) {
        Ok(settings) => settings,
        Err(message) => return Err(message),
    };
    let count: usize = table.len();
    match last_text(&settings, count) {
        None => Err("missing <path.fftlog>".to_owned()),
        Some(log) => {
            if !names_file(&settings, count) {
                return Err(concat2("log not found: ", log.as_str()));
            }
            Ok(Args { log, out: last_text(&settings, 0) })
        },
    }
}

proof fn lemma_places(name: Seq<char>)
    ensures
        name == "--out"@ ==> option_of(options(), name, 0) == 0,
        name == "-h"@ ==> option_of(options(), name, 0) == 1,
        name == "--help"@ ==> option_of(options(), name, 0) == 2,
        name != "--out"@
            && name != "-h"@
            && name != "--help"@ ==> option_of(
            options(),
            name,
            0,
        ) == 3,
{
    reveal_strlit("--out");
    reveal_strlit("-h");
    reveal_strlit("--help");
    assert("--out"@.len() != "-h"@.len());
    assert("--out"@.len() != "--help"@.len());
    assert("-h"@.len() != "--help"@.len());
    let table = options();
    assert(option_of(table, name, 3) == 3);
    assert(option_of(table, name, 2) == if name == "--help"@ {
        2
    } else {
        option_of(table, name, 3)
    });
    assert(option_of(table, name, 1) == if name == "-h"@ {
        1
    } else {
        option_of(table, name, 2)
    });
    assert(option_of(table, name, 0) == if name == "--out"@ {
        0
    } else {
        option_of(table, name, 1)
    });
}

/// Whether a word is the name of an option that takes a value.
pub open spec fn wants_value(name: Seq<char>) -> bool {
    ||| name == "--out"@
}

/// An option with its value, behind a command line that is accepted, sets what it is named for
/// and leaves the rest as it was.
pub proof fn law_option_sets_its_own(
    words: &Vec<Word>,
    name: Word,
    value: Word,
    longer: &Vec<Word>,
    first: Result<Args, String>,
    second: Result<Args, String>,
)
    requires
        call_ensures(parse_args, (words,), first),
        first is Ok,
        longer@ == words@ + seq![name, value],
        call_ensures(parse_args, (longer,), second),
    ensures
        name.text@ == "--out"@ ==> second is Ok && text_of((second->Ok_0).out) == Some(value.text@),
        wants_value(name.text@) && second is Ok ==> ({
            let a = first->Ok_0;
            let b = second->Ok_0;
            &&& name.text@ == "--out"@ || text_of(b.out) == text_of(a.out)
            &&& b.log@ == a.log@
        }),
{
    lemma_places(name.text@);
    let done = read_words(options(), Positional::One("unknown flag ", "multiple log paths"), words@, 0, Seq::empty())->Ok_0;
    let option = option_of(options(), name.text@, 0);
    if wants_value(name.text@) {
        lemma_option_with_value(options(), Positional::One("unknown flag ", "multiple log paths"), words@, name, value);
        if value_of(options()[option].kind, value) is Ok {
            lemma_added(done, option, value_of(options()[option].kind, value)->Ok_0);
        }
    }
}

/// A single word behind a command line that is accepted: a word that asks for help or is not
/// known refuses the whole, and so does an option without its value.
pub proof fn law_single_word(
    words: &Vec<Word>,
    word: Word,
    longer: &Vec<Word>,
    first: Result<Args, String>,
    second: Result<Args, String>,
)
    requires
        call_ensures(parse_args, (words,), first),
        first is Ok,
        longer@ == words@ + seq![word],
        call_ensures(parse_args, (longer,), second),
    ensures
        word.text@ == "--out"@ ==> second is Err && second->Err_0@ == "missing --out path"@,
        word.text@ == "-h"@ ==> second is Err && second->Err_0@ == "help"@,
        word.text@ == "--help"@ ==> second is Err && second->Err_0@ == "help"@,
        word.text@ != "--out"@
            && word.text@ != "-h"@
            && word.text@ != "--help"@ && word.text@.len() > 0 && word.text@[0] == '-' ==> second is Err
            && second->Err_0@ == "unknown flag "@ + word.text@,
        (word.text@.len() == 0 || word.text@[0] != '-') ==> second is Err && second->Err_0@ == "multiple log paths"@,
{
    lemma_places(word.text@);
    lemma_single_word(options(), Positional::One("unknown flag ", "multiple log paths"), words@, word);
    let done = read_words(options(), Positional::One("unknown flag ", "multiple log paths"), words@, 0, Seq::empty())->Ok_0;
    reveal_strlit("-");
    if word.text@.len() > 0 && word.text@[0] == '-' {
        assert(word.text@.take(1) =~= "-"@);
    } else if word.text@.len() > 0 {
        assert(word.text@.take(1)[0] == word.text@[0]);
        assert("-"@[0] == '-');
    }
    reveal_strlit("--out");
    reveal_strlit("-h");
    reveal_strlit("--help");
    assert("--out"@[0] == '-');
    assert("-h"@[0] == '-');
    assert("--help"@[0] == '-');
}

/// The shortest command line that is accepted asks for what a run does unless told otherwise.
pub proof fn law_shortest_command_line(words: &Vec<Word>, r: Result<Args, String>)
    requires
        call_ensures(parse_args, (words,), r),
        words@.len() == 1,
        words@[0].text@.len() > 0,
        words@[0].text@[0] != '-',
        words@[0].is_file,
    ensures
        r is Ok,
        (r->Ok_0).out is None,
        (r->Ok_0).log@ == words@[0].text@,
{
    let none = Seq::<Word>::empty();
    let given0 = Seq::<(int, ValueModel)>::empty();
    assert(read_words(options(), Positional::One("unknown flag ", "multiple log paths"), none, 0, Seq::empty()) == Ok::<Seq<(int, ValueModel)>, Seq<char>>(given0));
    let word = words@[0];
    lemma_places(word.text@);
    reveal_strlit("-");
    assert("-"@[0] == '-');
    assert(word.text@.take(1)[0] == word.text@[0]);
    reveal_strlit("--out");
    reveal_strlit("-h");
    reveal_strlit("--help");
    assert("--out"@[0] == '-');
    assert("-h"@[0] == '-');
    assert("--help"@[0] == '-');
    lemma_single_word(options(), Positional::One("unknown flag ", "multiple log paths"), none, word);
    lemma_added(given0, 3, ValueModel::Text(word.text@, word.is_file));
    assert(words@ =~= none + seq![word]);
}

} // verus!
