//! Words of a command line, read against a table of options.

use crate::datetime::{parse_replay_at, replay_at};
use crate::text::{
    begins, chars_of, concat2, decimal, digits_value, law_numeral_round_trip, parse_unsigned,
    starts_with, str_eq, unsigned_value,
};
use vstd::prelude::*;

verus! {

/// What a word is as a decimal fraction.
#[derive(Debug)]
pub struct Fraction {
    /// The bits of the number.
    pub bits: u64,
    /// The number as a time in seconds, in nanoseconds.
    pub nanos: u64,
    /// Whether it is finite and above zero.
    pub positive: bool,
    /// Whether it is below zero.
    pub negative: bool,
    /// The number as it is displayed.
    pub text: String,
}

/// A word of the command line, with what was found out about it.
#[derive(Debug)]
pub struct Word {
    pub text: String,
    /// Whether a file of that name exists.
    pub is_file: bool,
    /// Whether a directory of that name exists.
    pub is_dir: bool,
    /// The word as a decimal fraction, where it is one.
    pub fraction: Option<Fraction>,
}

/// How a value that does not parse is reported.
#[derive(Clone, Copy, Debug)]
pub enum Refusal {
    /// By a message.
    Fixed(&'static str),
    /// By a message with the value behind it.
    Quoting(&'static str),
    /// By the first message with the value behind it, or the second where the value is
    /// hexadecimal.
    ByRadix(&'static str, &'static str),
}

/// What values a number option takes.
#[derive(Clone, Copy, Debug)]
pub struct NumberRule {
    /// The largest number that parses.
    pub max: u64,
    /// The number is taken modulo this, where it is not zero.
    pub modulus: u64,
    /// The smallest number accepted.
    pub least: u64,
    /// Whether `0x` introduces a hexadecimal number.
    pub hex: bool,
    pub refusal: Refusal,
    /// How a number that is too small is reported.
    pub too_small: &'static str,
}

/// What values an option for decimal fractions takes.
#[derive(Clone, Copy, Debug)]
pub struct FractionRule {
    /// Whether the number has to be finite and above zero, and not merely not below zero.
    pub positive: bool,
    pub refusal: Refusal,
    /// How a number out of range is reported.
    pub out_of_range: &'static str,
    /// Whether the number stands behind that report.
    pub quoting: bool,
}

/// What an option takes.
#[derive(Clone, Copy, Debug)]
pub enum Kind {
    /// No value.
    Switch,
    /// No value: the command line is refused with "help".
    Help,
    /// Any text.
    Text,
    /// The name of a file; otherwise the message with the value behind it.
    File(&'static str),
    /// The name of a directory; otherwise the message with the value behind it.
    Dir(&'static str),
    Number(NumberRule),
    Fraction(FractionRule),
    /// A timestamp.
    Stamp,
    /// A timestamp, reported under this option's own name.
    HeadStamp,
}

/// An option: its name, what it takes, and how a missing value is reported.
#[derive(Clone, Copy, Debug)]
pub struct Opt {
    pub name: &'static str,
    pub kind: Kind,
    pub missing: &'static str,
}

/// What a word that is no option is.
#[derive(Clone, Copy, Debug)]
pub enum Positional {
    /// Refused, with the message and the word.
    Refused(&'static str),
    /// A value of the command line; but a word that begins with a dash is refused with the
    /// message and the word.
    Many(&'static str),
    /// The same, once: a second one is refused with the second message.
    One(&'static str, &'static str),
}

/// A value that was given.
#[derive(Debug)]
pub enum Value {
    On,
    /// A text, and whether a file of that name exists.
    Text(String, bool),
    Number(u64),
    /// The bits of a decimal fraction, and it as nanoseconds.
    Fraction(u64, u64),
    /// A timestamp and how it was written.
    Stamp(u64, String),
}

/// A value, as a mathematical value.
#[verifier::ext_equal]
pub enum ValueModel {
    On,
    Text(Seq<char>, bool),
    Number(u64),
    Fraction(u64, u64),
    Stamp(u64, Seq<char>),
}

impl View for Value {
    type V = ValueModel;

    open spec fn view(&self) -> ValueModel {
        match self {
            Value::On => ValueModel::On,
            Value::Text(text, is_file) => ValueModel::Text(text@, *is_file),
            Value::Number(n) => ValueModel::Number(*n),
            Value::Fraction(bits, nanos) => ValueModel::Fraction(*bits, *nanos),
            Value::Stamp(ts, text) => ValueModel::Stamp(*ts, text@),
        }
    }
}

/// A value and the option that it was given for: an index into the table, or the table's length
/// for a word that is no option.
#[derive(Debug)]
pub struct Setting {
    pub option: usize,
    pub value: Value,
}

/// The given values, as mathematical values.
pub open spec fn given(settings: Seq<Setting>) -> Seq<(int, ValueModel)> {
    Seq::new(settings.len(), |i: int| (settings[i].option as int, settings[i].value@))
}

/// The texts with every occurrence of `from`, from the left, replaced by `to`.
pub open spec fn replaced(s: Seq<char>, from: Seq<char>, to: Seq<char>) -> Seq<char>
    decreases s.len(),
{
    if s.len() == 0 || from.len() == 0 {
        s
    } else if begins(s, from) {
        to + replaced(s.skip(from.len() as int), from, to)
    } else {
        seq![s[0]] + replaced(s.drop_first(), from, to)
    }
}

/// Replaces every occurrence of `from`.
pub fn replace(s: &str, from: &str, to: &str) -> (r: String)
    requires
        from@.len() > 0,
    ensures
        r@ == replaced(s@, from@, to@),
{
    let v: Vec<char> = chars_of(s);
    let w: Vec<char> = chars_of(from);
    let mut out: String = String::new();
    let mut i: usize = 0;
    assert(v@.skip(0) =~= v@);
    assert(out@ + replaced(v@, from@, to@) =~= replaced(v@, from@, to@));
    while i < v.len()
        invariant
            i <= v.len(),
            w@ == from@,
            w@.len() > 0,
            out@ + replaced(v@.skip(i as int), from@, to@) == replaced(s@, from@, to@),
        decreases v.len() - i,
    {
        let ghost rest = v@.skip(i as int);
        let ghost before = out@;
        let found: bool = if w.len() <= v.len() - i {
            let part: Vec<char> = crate::text::slice(&v, i, i + w.len());
            assert(part@ =~= rest.take(w@.len() as int));
            crate::text::same_chars(&part, &w)
        } else {
            false
        };
        assert(found == begins(rest, from@));
        if found {
            out.append(to);
            i += w.len();
            assert(rest.skip(w@.len() as int) =~= v@.skip(i as int));
            assert(before + (to@ + replaced(v@.skip(i as int), from@, to@)) =~= out@ + replaced(
                v@.skip(i as int),
                from@,
                to@,
            ));
        } else {
            out.push(v[i]);
            i += 1;
            assert(rest.drop_first() =~= v@.skip(i as int));
            assert(before + (seq![rest[0]] + replaced(v@.skip(i as int), from@, to@)) =~= out@
                + replaced(v@.skip(i as int), from@, to@));
        }
    }
    assert(v@.skip(i as int) =~= Seq::<char>::empty());
    assert(out@ + Seq::<char>::empty() =~= out@);
    out
}

/// Whether the word is written as a hexadecimal number.
pub open spec fn is_hex(s: Seq<char>) -> bool {
    begins(s, "0x"@) || begins(s, "0X"@)
}

/// The number that a word is.
pub open spec fn number_value(s: Seq<char>, rule: NumberRule) -> Option<nat> {
    if rule.hex && is_hex(s) {
        unsigned_value(s.skip(2), 16, rule.max as nat)
    } else {
        unsigned_value(s, 10, rule.max as nat)
    }
}

/// The report on a value that does not parse.
pub open spec fn refusal_text(refusal: Refusal, s: Seq<char>) -> Seq<char> {
    match refusal {
        Refusal::Fixed(text) => text@,
        Refusal::Quoting(text) => text@ + s,
        Refusal::ByRadix(decimal, hex) => if is_hex(s) {
            hex@ + s
        } else {
            decimal@ + s
        },
    }
}

/// What a word is worth to an option.
pub open spec fn value_of(kind: Kind, word: Word) -> Result<ValueModel, Seq<char>> {
    let s = word.text@;
    match kind {
        Kind::Switch => Ok(ValueModel::On),
        Kind::Help => Err("help"@),
        Kind::Text => Ok(ValueModel::Text(s, word.is_file)),
        Kind::File(message) => if word.is_file {
            Ok(ValueModel::Text(s, word.is_file))
        } else {
            Err(message@ + s)
        },
        Kind::Dir(message) => if word.is_dir {
            Ok(ValueModel::Text(s, word.is_file))
        } else {
            Err(message@ + s)
        },
        Kind::Number(rule) => match number_value(s, rule) {
            None => Err(refusal_text(rule.refusal, s)),
            Some(n) => {
                let taken = if rule.modulus == 0 {
                    n
                } else {
                    n % (rule.modulus as nat)
                };
                if taken < rule.least {
                    Err(rule.too_small@)
                } else {
                    Ok(ValueModel::Number(taken as u64))
                }
            },
        },
        Kind::Fraction(rule) => match word.fraction {
            None => Err(refusal_text(rule.refusal, s)),
            Some(fraction) => if if rule.positive {
                !fraction.positive
            } else {
                fraction.negative
            } {
                Err(
                    if rule.quoting {
                        rule.out_of_range@ + fraction.text@
                    } else {
                        rule.out_of_range@
                    },
                )
            } else {
                Ok(ValueModel::Fraction(fraction.bits, fraction.nanos))
            },
        },
        Kind::Stamp => match replay_at(s) {
            Ok(ts) => Ok(ValueModel::Stamp(ts, s)),
            Err(message) => Err(message),
        },
        Kind::HeadStamp => match replay_at(s) {
            Ok(ts) => Ok(ValueModel::Stamp(ts, s)),
            Err(message) => Err(replaced(message, "--replay-at"@, "--head"@)),
        },
    }
}

/// Whether an option takes no value.
pub open spec fn stands_alone(kind: Kind) -> bool {
    kind is Switch || kind is Help
}

/// The first option of that name from `from` on, or the table's length.
pub open spec fn option_of(table: Seq<Opt>, name: Seq<char>, from: int) -> int
    decreases table.len() - from,
{
    if from >= table.len() || table[from].name@ == name {
        from
    } else {
        option_of(table, name, from + 1)
    }
}

/// What a word that is no option is worth, after what was given before it.
pub open spec fn positional_of(
    positional: Positional,
    count: int,
    done: Seq<(int, ValueModel)>,
    word: Word,
) -> Result<ValueModel, Seq<char>> {
    match positional {
        Positional::Refused(message) => Err(message@ + word.text@),
        Positional::Many(message) => if begins(word.text@, "-"@) {
            Err(message@ + word.text@)
        } else {
            Ok(ValueModel::Text(word.text@, word.is_file))
        },
        Positional::One(message, second) => if begins(word.text@, "-"@) {
            Err(message@ + word.text@)
        } else if last_of(done, count) is Some {
            Err(second@)
        } else {
            Ok(ValueModel::Text(word.text@, word.is_file))
        },
    }
}

/// What the words from `at` on give, behind what was given before: the values, or the report on
/// the first word that is refused.
pub open spec fn read_words(
    table: Seq<Opt>,
    positional: Positional,
    words: Seq<Word>,
    at: int,
    done: Seq<(int, ValueModel)>,
) -> Result<Seq<(int, ValueModel)>, Seq<char>>
    decreases words.len() - at,
{
    if at >= words.len() {
        Ok(done)
    } else {
        let option = option_of(table, words[at].text@, 0);
        if option >= table.len() {
            match positional_of(positional, table.len() as int, done, words[at]) {
                Err(message) => Err(message),
                Ok(value) => read_words(table, positional, words, at + 1, done.push((option, value))),
            }
        } else if stands_alone(table[option].kind) {
            match value_of(table[option].kind, words[at]) {
                Err(message) => Err(message),
                Ok(value) => read_words(table, positional, words, at + 1, done.push((option, value))),
            }
        } else if at + 1 >= words.len() {
            Err(table[option].missing@)
        } else {
            match value_of(table[option].kind, words[at + 1]) {
                Err(message) => Err(message),
                Ok(value) => read_words(table, positional, words, at + 2, done.push((option, value))),
            }
        }
    }
}

/// The value given last for an option.
pub open spec fn last_of(done: Seq<(int, ValueModel)>, option: int) -> Option<ValueModel>
    decreases done.len(),
{
    if done.len() == 0 {
        None
    } else if done.last().0 == option {
        Some(done.last().1)
    } else {
        last_of(done.drop_last(), option)
    }
}

/// The text given last for an option.
pub open spec fn text_given(done: Seq<(int, ValueModel)>, option: int) -> Option<Seq<char>> {
    match last_of(done, option) {
        Some(ValueModel::Text(text, _)) => Some(text),
        Some(ValueModel::Stamp(_, text)) => Some(text),
        _ => None,
    }
}

/// Whether the text given last for an option names a file.
pub open spec fn file_given(done: Seq<(int, ValueModel)>, option: int) -> bool {
    last_of(done, option) matches Some(ValueModel::Text(_, true))
}

/// The number or the timestamp given last for an option.
pub open spec fn number_given(done: Seq<(int, ValueModel)>, option: int) -> Option<u64> {
    match last_of(done, option) {
        Some(ValueModel::Number(n)) => Some(n),
        Some(ValueModel::Stamp(n, _)) => Some(n),
        _ => None,
    }
}

/// The decimal fraction given last for an option: its bits and its nanoseconds.
pub open spec fn fraction_given(done: Seq<(int, ValueModel)>, option: int) -> Option<(u64, u64)> {
    match last_of(done, option) {
        Some(ValueModel::Fraction(bits, nanos)) => Some((bits, nanos)),
        _ => None,
    }
}

/// The texts given for an option, in order.
pub open spec fn texts_given(done: Seq<(int, ValueModel)>, option: int) -> Seq<Seq<char>>
    decreases done.len(),
{
    if done.len() == 0 {
        Seq::empty()
    } else {
        let before = texts_given(done.drop_last(), option);
        match done.last().1 {
            ValueModel::Text(text, _) => if done.last().0 == option {
                before.push(text)
            } else {
                before
            },
            _ => before,
        }
    }
}

/// An option that is given again holds what it was given last, and the others keep what they
/// held.
pub proof fn law_last_wins(done: Seq<(int, ValueModel)>, option: int, value: ValueModel, other: int)
    ensures
        last_of(done.push((option, value)), option) == Some(value),
        other != option ==> last_of(done.push((option, value)), other) == last_of(done, other),
{
    assert(done.push((option, value)).drop_last() =~= done);
}

fn begins_hex(v: &Vec<char>) -> (r: bool)
    ensures
        r == is_hex(v@),
        r ==> v@.len() >= 2,
{
    proof {
        reveal_strlit("0x");
        reveal_strlit("0X");
    }
    starts_with(v, "0x") || starts_with(v, "0X")
}

fn refuse(refusal: Refusal, s: &str) -> (r: String)
    ensures
        r@ == refusal_text(refusal, s@),
{
    match refusal {
        Refusal::Fixed(text) => text.to_owned(),
        Refusal::Quoting(text) => concat2(text, s),
        Refusal::ByRadix(decimal, hex) => {
            let v: Vec<char> = chars_of(s);
            if begins_hex(&v) {
                concat2(hex, s)
            } else {
                concat2(decimal, s)
            }
        },
    }
}

/// Whether a value, or its refusal, is what the model says.
pub open spec fn value_matches(
    r: Result<Value, String>,
    model: Result<ValueModel, Seq<char>>,
) -> bool {
    match (r, model) {
        (Ok(value), Ok(want)) => value@ == want,
        (Err(text), Err(want)) => text@ == want,
        _ => false,
    }
}

fn read_number(rule: NumberRule, s: &str) -> (r: Result<Value, String>)
    ensures
        forall|word: Word| #[trigger]
            word.text@ == s@ ==> value_matches(r, value_of(Kind::Number(rule), word)),
{
    let v: Vec<char> = chars_of(s);
    let parsed: Option<u64> = if rule.hex && begins_hex(&v) {
        parse_unsigned(&v, 2, 16, rule.max)
    } else {
        assert(v@.skip(0) =~= v@);
        parse_unsigned(&v, 0, 10, rule.max)
    };
    match parsed {
        None => Err(refuse(rule.refusal, s)),
        Some(n) => {
            let taken: u64 = if rule.modulus == 0 {
                n
            } else {
                n % rule.modulus
            };
            if taken < rule.least {
                Err(rule.too_small.to_owned())
            } else {
                Ok(Value::Number(taken))
            }
        },
    }
}

/// What a word is worth to an option.
fn read_value(kind: Kind, word: &Word) -> (r: Result<Value, String>)
    ensures
        value_matches(r, value_of(kind, *word)),
{
    match kind {
        Kind::Switch => Ok(Value::On),
        Kind::Help => Err("help".to_owned()),
        Kind::Text => Ok(Value::Text(word.text.clone(), word.is_file)),
        Kind::File(message) => {
            if word.is_file {
                Ok(Value::Text(word.text.clone(), word.is_file))
            } else {
                Err(concat2(message, word.text.as_str()))
            }
        },
        Kind::Dir(message) => {
            if word.is_dir {
                Ok(Value::Text(word.text.clone(), word.is_file))
            } else {
                Err(concat2(message, word.text.as_str()))
            }
        },
        Kind::Number(rule) => read_number(rule, word.text.as_str()),
        Kind::Fraction(rule) => match &word.fraction {
            None => Err(refuse(rule.refusal, word.text.as_str())),
            Some(fraction) => {
                let out: bool = if rule.positive {
                    !fraction.positive
                } else {
                    fraction.negative
                };
                if out {
                    if rule.quoting {
                        Err(concat2(rule.out_of_range, fraction.text.as_str()))
                    } else {
                        Err(rule.out_of_range.to_owned())
                    }
                } else {
                    Ok(Value::Fraction(fraction.bits, fraction.nanos))
                }
            },
        },
        Kind::Stamp => match parse_replay_at(word.text.as_str()) {
            Ok(ts) => Ok(Value::Stamp(ts, word.text.clone())),
            Err(message) => Err(message),
        },
        Kind::HeadStamp => match parse_replay_at(word.text.as_str()) {
            Ok(ts) => Ok(Value::Stamp(ts, word.text.clone())),
            Err(message) => {
                proof {
                    reveal_strlit("--replay-at");
                }
                Err(replace(message.as_str(), "--replay-at", "--head"))
            },
        },
    }
}

fn find_option(table: &Vec<Opt>, name: &str) -> (r: usize)
    ensures
        r == option_of(table@, name@, 0),
        r <= table.len(),
{
    let mut i: usize = 0;
    while i < table.len()
        invariant
            i <= table.len(),
            option_of(table@, name@, 0) == option_of(table@, name@, i as int),
        decreases table.len() - i,
    {
        if str_eq(table[i].name, name) {
            return i;
        }
        i += 1;
    }
    i
}

/// Whether a value was given for an option.
pub fn is_given(settings: &Vec<Setting>, option: usize) -> (r: bool)
    ensures
        r == (last_of(given(settings@), option as int) is Some),
{
    let mut i: usize = settings.len();
    assert(settings@.take(i as int) =~= settings@);
    while i > 0
        invariant
            i <= settings.len(),
            last_of(given(settings@), option as int) == last_of(
                given(settings@.take(i as int)),
                option as int,
            ),
        decreases i,
    {
        assert(given(settings@.take(i as int)).drop_last() =~= given(settings@.take(i - 1)));
        if settings[i - 1].option == option {
            return true;
        }
        i -= 1;
    }
    assert(given(settings@.take(0)) =~= Seq::<(int, ValueModel)>::empty());
    false
}

/// Where the value given last for an option stands.
fn last_setting(settings: &Vec<Setting>, option: usize) -> (r: Option<usize>)
    ensures
        match r {
            Some(i) => i < settings.len() && last_of(given(settings@), option as int) == Some(
                settings@[i as int].value@,
            ),
            None => last_of(given(settings@), option as int) is None,
        },
{
    let mut i: usize = settings.len();
    assert(settings@.take(i as int) =~= settings@);
    while i > 0
        invariant
            i <= settings.len(),
            last_of(given(settings@), option as int) == last_of(
                given(settings@.take(i as int)),
                option as int,
            ),
        decreases i,
    {
        assert(given(settings@.take(i as int)).drop_last() =~= given(settings@.take(i - 1)));
        if settings[i - 1].option == option {
            return Some(i - 1);
        }
        i -= 1;
    }
    assert(given(settings@.take(0)) =~= Seq::<(int, ValueModel)>::empty());
    None
}

/// The text given last for an option.
pub fn last_text(settings: &Vec<Setting>, option: usize) -> (r: Option<String>)
    ensures
        crate::text::text_of(r) == text_given(given(settings@), option as int),
{
    match last_setting(settings, option) {
        None => None,
        Some(i) => match &settings[i].value {
            Value::Text(text, _) => Some(text.clone()),
            Value::Stamp(_, text) => Some(text.clone()),
            _ => None,
        },
    }
}

/// Whether the text given last for an option names a file.
pub fn names_file(settings: &Vec<Setting>, option: usize) -> (r: bool)
    ensures
        r == file_given(given(settings@), option as int),
{
    match last_setting(settings, option) {
        None => false,
        Some(i) => match &settings[i].value {
            Value::Text(_, is_file) => *is_file,
            _ => false,
        },
    }
}

/// The number or the timestamp given last for an option.
pub fn last_number(settings: &Vec<Setting>, option: usize) -> (r: Option<u64>)
    ensures
        r == number_given(given(settings@), option as int),
{
    match last_setting(settings, option) {
        None => None,
        Some(i) => match &settings[i].value {
            Value::Number(n) => Some(*n),
            Value::Stamp(n, _) => Some(*n),
            _ => None,
        },
    }
}

/// The decimal fraction given last for an option: its bits and its nanoseconds.
pub fn last_fraction(settings: &Vec<Setting>, option: usize) -> (r: Option<(u64, u64)>)
    ensures
        r == fraction_given(given(settings@), option as int),
{
    match last_setting(settings, option) {
        None => None,
        Some(i) => match &settings[i].value {
            Value::Fraction(bits, nanos) => Some((*bits, *nanos)),
            _ => None,
        },
    }
}

/// The texts given for an option, in order.
pub fn all_texts(settings: &Vec<Setting>, option: usize) -> (r: Vec<String>)
    ensures
        crate::text::texts_of(r@) == texts_given(given(settings@), option as int),
{
    let mut out: Vec<String> = Vec::new();
    let mut i: usize = 0;
    assert(given(settings@.take(0)) =~= Seq::<(int, ValueModel)>::empty());
    assert(crate::text::texts_of(out@) =~= Seq::<Seq<char>>::empty());
    while i < settings.len()
        invariant
            i <= settings.len(),
            crate::text::texts_of(out@) == texts_given(given(settings@.take(i as int)), option as int),
        decreases settings.len() - i,
    {
        let ghost before = out@;
        assert(given(settings@.take(i + 1)).drop_last() =~= given(settings@.take(i as int)));
        assert(given(settings@.take(i + 1)).last() == (
            settings@[i as int].option as int,
            settings@[i as int].value@,
        ));
        if settings[i].option == option {
            if let Value::Text(text, _) = &settings[i].value {
                out.push(text.clone());
                assert(crate::text::texts_of(out@) =~= crate::text::texts_of(before).push(text@));
            }
        }
        i += 1;
    }
    assert(settings@.take(i as int) =~= settings@);
    out
}

/// Whether what was read, or its refusal, is what the model says.
pub open spec fn words_match(
    r: Result<Vec<Setting>, String>,
    model: Result<Seq<(int, ValueModel)>, Seq<char>>,
) -> bool {
    match (r, model) {
        (Ok(settings), Ok(want)) => given(settings@) == want,
        (Err(text), Err(want)) => text@ == want,
        _ => false,
    }
}

fn read_positional(
    positional: Positional,
    count: usize,
    settings: &Vec<Setting>,
    word: &Word,
) -> (r: Result<Value, String>)
    ensures
        value_matches(r, positional_of(positional, count as int, given(settings@), *word)),
{
    let v: Vec<char> = chars_of(word.text.as_str());
    match positional {
        Positional::Refused(message) => Err(concat2(message, word.text.as_str())),
        Positional::Many(message) => {
            if starts_with(&v, "-") {
                Err(concat2(message, word.text.as_str()))
            } else {
                Ok(Value::Text(word.text.clone(), word.is_file))
            }
        },
        Positional::One(message, second) => {
            if starts_with(&v, "-") {
                Err(concat2(message, word.text.as_str()))
            } else if is_given(settings, count) {
                Err(second.to_owned())
            } else {
                Ok(Value::Text(word.text.clone(), word.is_file))
            }
        },
    }
}

/// Reads the words from left to right.
pub fn read(table: &Vec<Opt>, positional: Positional, words: &Vec<Word>) -> (r: Result<
    Vec<Setting>,
    String,
>)
    ensures
        words_match(r, read_words(table@, positional, words@, 0, Seq::empty())),
{
    let mut settings: Vec<Setting> = Vec::new();
    let mut at: usize = 0;
    assert(given(settings@) =~= Seq::<(int, ValueModel)>::empty());
    let ghost whole = read_words(table@, positional, words@, 0, Seq::empty());
    while at < words.len()
        invariant
            at <= words.len(),
            whole == read_words(table@, positional, words@, 0, Seq::empty()),
            whole == read_words(table@, positional, words@, at as int, given(settings@)),
        decreases words.len() - at,
    {
        let ghost before = given(settings@);
        let option: usize = find_option(table, words[at].text.as_str());
        let outcome: Result<Value, String> = if option >= table.len() {
            read_positional(positional, table.len(), &settings, &words[at])
        } else {
            let kind: Kind = table[option].kind;
            let alone: bool = match kind {
                Kind::Switch => true,
                Kind::Help => true,
                _ => false,
            };
            if alone {
                read_value(kind, &words[at])
            } else {
                at += 1;
                if at >= words.len() {
                    return Err(table[option].missing.to_owned());
                }
                read_value(kind, &words[at])
            }
        };
        match outcome {
            Err(message) => {
                return Err(message);
            },
            Ok(value) => {
                let ghost model = value@;
                settings.push(Setting { option, value });
                at += 1;
                assert(given(settings@) =~= before.push((option as int, model)));
            },
        }
    }
    Ok(settings)
}

proof fn lemma_option_of(table: Seq<Opt>, name: Seq<char>, from: int)
    requires
        0 <= from <= table.len(),
    ensures
        from <= option_of(table, name, from) <= table.len(),
        option_of(table, name, from) < table.len() ==> table[option_of(table, name, from)].name@
            == name,
    decreases table.len() - from,
{
    if from < table.len() && table[from].name@ != name {
        lemma_option_of(table, name, from + 1);
    }
}

/// Words that are accepted give the same values where more words follow them.
proof fn lemma_more_words(
    table: Seq<Opt>,
    positional: Positional,
    words: Seq<Word>,
    more: Seq<Word>,
    at: int,
    done: Seq<(int, ValueModel)>,
)
    requires
        0 <= at <= words.len(),
        read_words(table, positional, words, at, done) is Ok,
    ensures
        read_words(table, positional, words + more, at, done) == read_words(
            table,
            positional,
            words + more,
            words.len() as int,
            read_words(table, positional, words, at, done)->Ok_0,
        ),
    decreases words.len() - at,
{
    if at < words.len() {
        assert((words + more)[at] == words[at]);
        let option = option_of(table, words[at].text@, 0);
        if option >= table.len() {
            let value = positional_of(positional, table.len() as int, done, words[at])->Ok_0;
            lemma_more_words(table, positional, words, more, at + 1, done.push((option, value)));
        } else if stands_alone(table[option].kind) {
            let value = value_of(table[option].kind, words[at])->Ok_0;
            lemma_more_words(table, positional, words, more, at + 1, done.push((option, value)));
        } else {
            assert((words + more)[at + 1] == words[at + 1]);
            let value = value_of(table[option].kind, words[at + 1])->Ok_0;
            lemma_more_words(table, positional, words, more, at + 2, done.push((option, value)));
        }
    }
}

/// An option and its value behind words that are accepted add that value, or are refused for it.
pub proof fn lemma_option_with_value(
    table: Seq<Opt>,
    positional: Positional,
    words: Seq<Word>,
    name: Word,
    value: Word,
)
    requires
        read_words(table, positional, words, 0, Seq::empty()) is Ok,
        option_of(table, name.text@, 0) < table.len(),
        !stands_alone(table[option_of(table, name.text@, 0)].kind),
    ensures
        ({
            let option = option_of(table, name.text@, 0);
            let done = read_words(table, positional, words, 0, Seq::empty())->Ok_0;
            read_words(table, positional, words + seq![name, value], 0, Seq::empty()) == (
            match value_of(table[option].kind, value) {
                Ok(v) => Ok::<Seq<(int, ValueModel)>, Seq<char>>(done.push((option, v))),
                Err(message) => Err(message),
            })
        }),
{
    let more = seq![name, value];
    let done = read_words(table, positional, words, 0, Seq::empty())->Ok_0;
    lemma_more_words(table, positional, words, more, 0, Seq::empty());
    lemma_option_of(table, name.text@, 0);
    assert((words + more)[words.len() as int] == name);
    assert((words + more)[(words.len() + 1) as int] == value);
    let option = option_of(table, name.text@, 0);
    if value_of(table[option].kind, value) is Ok {
        let v = value_of(table[option].kind, value)->Ok_0;
        assert(read_words(
            table,
            positional,
            words + more,
            (words.len() + 2) as int,
            done.push((option, v)),
        ) == Ok::<Seq<(int, ValueModel)>, Seq<char>>(done.push((option, v))));
    }
}

/// A word behind words that are accepted: an option that stands alone adds its value, one that
/// wants a value is refused, and a word that is no option is judged by itself.
pub proof fn lemma_single_word(
    table: Seq<Opt>,
    positional: Positional,
    words: Seq<Word>,
    word: Word,
)
    requires
        read_words(table, positional, words, 0, Seq::empty()) is Ok,
    ensures
        ({
            let option = option_of(table, word.text@, 0);
            let done = read_words(table, positional, words, 0, Seq::empty())->Ok_0;
            read_words(table, positional, words + seq![word], 0, Seq::empty()) == (
            if option < table.len() && !stands_alone(table[option].kind) {
                Err::<Seq<(int, ValueModel)>, Seq<char>>(table[option].missing@)
            } else {
                match if option < table.len() {
                    value_of(table[option].kind, word)
                } else {
                    positional_of(positional, table.len() as int, done, word)
                } {
                    Ok(v) => Ok(done.push((option, v))),
                    Err(message) => Err(message),
                }
            })
        }),
{
    let more = seq![word];
    let done = read_words(table, positional, words, 0, Seq::empty())->Ok_0;
    lemma_more_words(table, positional, words, more, 0, Seq::empty());
    lemma_option_of(table, word.text@, 0);
    assert((words + more)[words.len() as int] == word);
    let option = option_of(table, word.text@, 0);
    assert forall|v: ValueModel|
        read_words(
            table,
            positional,
            words + more,
            (words.len() + 1) as int,
            #[trigger] done.push((option, v)),
        ) == Ok::<Seq<(int, ValueModel)>, Seq<char>>(done.push((option, v))) by {}
}

/// A value that is added becomes the last one of its option and one more of its texts; the other
/// options keep what they held.
pub proof fn lemma_added(done: Seq<(int, ValueModel)>, option: int, value: ValueModel)
    ensures
        last_of(done.push((option, value)), option) == Some(value),
        forall|other: int|
            other != option ==> #[trigger] last_of(done.push((option, value)), other) == last_of(
                done,
                other,
            ),
        forall|other: int|
            other != option ==> #[trigger] texts_given(done.push((option, value)), other)
                == texts_given(done, other),
        texts_given(done.push((option, value)), option) == (match value {
            ValueModel::Text(text, _) => texts_given(done, option).push(text),
            _ => texts_given(done, option),
        }),
{
    assert(done.push((option, value)).drop_last() =~= done);
}

/// What was given for an option was given under its name.
pub proof fn lemma_given_by_name(
    table: Seq<Opt>,
    positional: Positional,
    words: Seq<Word>,
    at: int,
    done: Seq<(int, ValueModel)>,
    option: int,
)
    requires
        0 <= at <= words.len(),
        0 <= option < table.len(),
        read_words(table, positional, words, at, done) is Ok,
        last_of(read_words(table, positional, words, at, done)->Ok_0, option) is Some,
    ensures
        last_of(done, option) is Some || exists|i: int|
            at <= i < words.len() && (#[trigger] words[i]).text@ == table[option].name@,
    decreases words.len() - at,
{
    if at < words.len() {
        let found = option_of(table, words[at].text@, 0);
        lemma_option_of(table, words[at].text@, 0);
        let alone = found >= table.len() || stands_alone(table[found].kind);
        let value = if found >= table.len() {
            positional_of(positional, table.len() as int, done, words[at])->Ok_0
        } else if alone {
            value_of(table[found].kind, words[at])->Ok_0
        } else {
            value_of(table[found].kind, words[at + 1])->Ok_0
        };
        lemma_added(done, found, value);
        lemma_given_by_name(
            table,
            positional,
            words,
            if alone {
                at + 1
            } else {
                at + 2
            },
            done.push((found, value)),
            option,
        );
    }
}

/// Texts that were given for an option are values that were given for it.
pub proof fn lemma_texts_are_given(done: Seq<(int, ValueModel)>, option: int)
    requires
        texts_given(done, option).len() > 0,
    ensures
        last_of(done, option) is Some,
    decreases done.len(),
{
    if done.last().0 != option {
        lemma_texts_are_given(done.drop_last(), option);
    }
}

/// A numeral is worth its number, also to an option that takes hexadecimal numbers.
pub proof fn lemma_numeral_worth(rule: NumberRule, n: nat)
    ensures
        number_value(decimal(n), rule) == (if n <= rule.max {
            Some(n)
        } else {
            None
        }),
{
    law_numeral_round_trip(n);
    reveal_strlit("0x");
    reveal_strlit("0X");
    let s = decimal(n);
    if s.len() >= 2 {
        assert('0' <= s[1] <= '9');
        assert("0x"@[1] == 'x');
        assert("0X"@[1] == 'X');
        assert(s.take(2)[1] == s[1]);
    }
    assert('0' <= s[0] <= '9');
}

/// A word of hexadecimal digits behind `0x` is worth what the digits spell in sixteens, to an
/// option that takes hexadecimal numbers.
pub proof fn lemma_hexadecimal_worth(rule: NumberRule, s: Seq<char>, n: nat)
    requires
        rule.hex,
        s.len() > 2,
        s[0] == '0',
        s[1] == 'x' || s[1] == 'X',
        s[2] != '+',
        digits_value(s.skip(2), 16) == Some(n),
    ensures
        number_value(s, rule) == (if n <= rule.max {
            Some(n)
        } else {
            None
        }),
{
    reveal_strlit("0x");
    reveal_strlit("0X");
    if s[1] == 'x' {
        assert(s.take(2) =~= "0x"@);
    } else {
        assert(s.take(2) =~= "0X"@);
    }
}

/// A word that stands once in a text, with none of it begun before, is exchanged for another, and
/// the text around it stays.
pub proof fn law_word_exchanged(
    before: Seq<char>,
    after: Seq<char>,
    s: &str,
    from: &str,
    to: &str,
    r: String,
)
    requires
        from@.len() > 0,
        s@ == before + from@ + after,
        forall|i: int|
            0 <= i < s@.len() && i != before.len() ==> !(#[trigger] begins(s@.skip(i), from@)),
        call_ensures(replace, (s, from, to), r),
    ensures
        r@ == before + to@ + after,
{
    lemma_exchanged(before, after, s@, from@, to@, 0);
    assert(s@.skip(0) =~= s@);
    assert(before.skip(0) =~= before);
}

proof fn lemma_unchanged(s: Seq<char>, from: Seq<char>, to: Seq<char>, at: int)
    requires
        from.len() > 0,
        0 <= at <= s.len(),
        forall|i: int| at <= i < s.len() ==> !(#[trigger] begins(s.skip(i), from)),
    ensures
        replaced(s.skip(at), from, to) == s.skip(at),
    decreases s.len() - at,
{
    if at < s.len() {
        assert(s.skip(at).drop_first() =~= s.skip(at + 1));
        lemma_unchanged(s, from, to, at + 1);
        assert(seq![s[at]] + s.skip(at + 1) =~= s.skip(at));
    }
}

proof fn lemma_exchanged(
    before: Seq<char>,
    after: Seq<char>,
    s: Seq<char>,
    from: Seq<char>,
    to: Seq<char>,
    at: int,
)
    requires
        from.len() > 0,
        0 <= at <= before.len(),
        s == before + from + after,
        forall|i: int|
            0 <= i < s.len() && i != before.len() ==> !(#[trigger] begins(s.skip(i), from)),
    ensures
        replaced(s.skip(at), from, to) == before.skip(at) + to + after,
    decreases before.len() - at,
{
    let rest = s.skip(at);
    if at < before.len() {
        assert(rest.drop_first() =~= s.skip(at + 1));
        lemma_exchanged(before, after, s, from, to, at + 1);
        assert(seq![s[at]] + (before.skip(at + 1) + to + after) =~= before.skip(at) + to + after);
    } else {
        assert(rest.take(from.len() as int) =~= from);
        let behind: int = (before.len() + from.len()) as int;
        assert(rest.skip(from.len() as int) =~= s.skip(behind));
        lemma_unchanged(s, from, to, behind);
        assert(s.skip(behind) =~= after);
        assert(to + after =~= before.skip(at) + to + after);
    }
}

} // verus!
