//! The command line of the soak.

use super::words::{
    all_texts, file_given, fraction_given, given, last_fraction, last_number, last_text,
    lemma_added, lemma_given_by_name, lemma_numeral_worth, lemma_option_with_value,
    lemma_single_word, lemma_texts_are_given, names_file, number_given, option_of, read,
    read_words, text_given, texts_given, value_of, FractionRule, Kind, NumberRule, Opt,
    Positional, Refusal, Setting, ValueModel, Word,
};
use crate::text::{concat2, decimal, text_of, texts_of};
use vstd::prelude::*;

verus! {

/// The speed of a soak that gives none: the bits of 64.
pub const DEFAULT_SPEED_BITS: u64 = 0x4050_0000_0000_0000;

/// The scrub seeks of a soak that does not say how many.
pub const DEFAULT_SCRUB_SEEKS: u64 = 24;

/// The cycles that are looked at for a leak, unless given.
pub const DEFAULT_LEAK_WINDOW: u64 = 10;

/// The growth that counts as a leak, unless given: the bits of 10 percent.
pub const DEFAULT_LEAK_PCT_BITS: u64 = 0x4024_0000_0000_0000;

/// What a soak was asked for. Decimal fractions are given by their bits.
#[derive(Debug)]
pub struct Args {
    pub replay: String,
    pub out: String,
    pub priors: Vec<String>,
    pub speed_bits: u64,
    pub cycle_secs: u64,
    pub max_cycles: u64,
    pub max_hours_bits: u64,
    pub scrub_seeks: u64,
    pub leak_window: u64,
    pub leak_pct_bits: u64,
    pub label: Option<String>,
}

/// The options of the soak.
pub open spec fn options() -> Seq<Opt> {
    seq![
        Opt { name: "--replay", kind: Kind::Text, missing: "missing value for --replay" },
        Opt { name: "--out", kind: Kind::Text, missing: "missing value for --out" },
        Opt { name: "--prior", kind: Kind::File("--prior not a file: "), missing: "missing value for --prior" },
        Opt {
            name: "--speed",
            kind: Kind::Fraction(
                FractionRule { positive: true, refusal: Refusal::Fixed("--speed must be a finite f64 > 0"), out_of_range: "--speed must be finite and > 0", quoting: false },
            ),
            missing: "missing --speed value",
        },
        Opt {
            name: "--cycle-secs",
            kind: Kind::Number(
                NumberRule {
                    max: u64::MAX,
                    modulus: 0,
                    least: 0,
                    hex: false,
                    refusal: Refusal::Fixed("--cycle-secs must be a non-negative integer"),
                    too_small: "",
                },
            ),
            missing: "missing --cycle-secs value",
        },
        Opt {
            name: "--max-cycles",
            kind: Kind::Number(
                NumberRule {
                    max: u64::MAX,
                    modulus: 0,
                    least: 0,
                    hex: false,
                    refusal: Refusal::Fixed("--max-cycles must be a non-negative integer"),
                    too_small: "",
                },
            ),
            missing: "missing --max-cycles value",
        },
        Opt {
            name: "--max-hours",
            kind: Kind::Fraction(
                FractionRule { positive: false, refusal: Refusal::Fixed("--max-hours must be a non-negative f64"), out_of_range: "--max-hours must be >= 0", quoting: false },
            ),
            missing: "missing --max-hours value",
        },
        Opt {
            name: "--scrub-seeks",
            kind: Kind::Number(
                NumberRule {
                    max: u64::MAX,
                    modulus: 0x1_0000_0000,
                    least: 1,
                    hex: false,
                    refusal: Refusal::Fixed("--scrub-seeks must be a non-negative integer"),
                    too_small: "--scrub-seeks must be > 0",
                },
            ),
            missing: "missing --scrub-seeks value",
        },
        Opt {
            name: "--leak-window",
            kind: Kind::Number(
                NumberRule {
                    max: u64::MAX,
                    modulus: 0,
                    least: 2,
                    hex: false,
                    refusal: Refusal::Fixed("--leak-window must be a non-negative integer"),
                    too_small: "--leak-window must be >= 2",
                },
            ),
            missing: "missing --leak-window value",
        },
        Opt {
            name: "--leak-pct",
            kind: Kind::Fraction(
                FractionRule { positive: false, refusal: Refusal::Fixed("--leak-pct must be a non-negative f64"), out_of_range: "--leak-pct must be >= 0", quoting: false },
            ),
            missing: "missing --leak-pct value",
        },
        Opt { name: "--label", kind: Kind::Text, missing: "missing --label value" },
        Opt { name: "-h", kind: Kind::Help, missing: "" },
        Opt { name: "--help", kind: Kind::Help, missing: "" },
    ]
}

fn option_table() -> (r: Vec<Opt>)
    ensures
        r@ == options(),
{
    let table: Vec<Opt> = vec![
        Opt { name: "--replay", kind: Kind::Text, missing: "missing value for --replay" },
        Opt { name: "--out", kind: Kind::Text, missing: "missing value for --out" },
        Opt { name: "--prior", kind: Kind::File("--prior not a file: "), missing: "missing value for --prior" },
        Opt {
            name: "--speed",
            kind: Kind::Fraction(
                FractionRule { positive: true, refusal: Refusal::Fixed("--speed must be a finite f64 > 0"), out_of_range: "--speed must be finite and > 0", quoting: false },
            ),
            missing: "missing --speed value",
        },
        Opt {
            name: "--cycle-secs",
            kind: Kind::Number(
                NumberRule {
                    max: u64::MAX,
                    modulus: 0,
                    least: 0,
                    hex: false,
                    refusal: Refusal::Fixed("--cycle-secs must be a non-negative integer"),
                    too_small: "",
                },
            ),
            missing: "missing --cycle-secs value",
        },
        Opt {
            name: "--max-cycles",
            kind: Kind::Number(
                NumberRule {
                    max: u64::MAX,
                    modulus: 0,
                    least: 0,
                    hex: false,
                    refusal: Refusal::Fixed("--max-cycles must be a non-negative integer"),
                    too_small: "",
                },
            ),
            missing: "missing --max-cycles value",
        },
        Opt {
            name: "--max-hours",
            kind: Kind::Fraction(
                FractionRule { positive: false, refusal: Refusal::Fixed("--max-hours must be a non-negative f64"), out_of_range: "--max-hours must be >= 0", quoting: false },
            ),
            missing: "missing --max-hours value",
        },
        Opt {
            name: "--scrub-seeks",
            kind: Kind::Number(
                NumberRule {
                    max: u64::MAX,
                    modulus: 0x1_0000_0000,
                    least: 1,
                    hex: false,
                    refusal: Refusal::Fixed("--scrub-seeks must be a non-negative integer"),
                    too_small: "--scrub-seeks must be > 0",
                },
            ),
            missing: "missing --scrub-seeks value",
        },
        Opt {
            name: "--leak-window",
            kind: Kind::Number(
                NumberRule {
                    max: u64::MAX,
                    modulus: 0,
                    least: 2,
                    hex: false,
                    refusal: Refusal::Fixed("--leak-window must be a non-negative integer"),
                    too_small: "--leak-window must be >= 2",
                },
            ),
            missing: "missing --leak-window value",
        },
        Opt {
            name: "--leak-pct",
            kind: Kind::Fraction(
                FractionRule { positive: false, refusal: Refusal::Fixed("--leak-pct must be a non-negative f64"), out_of_range: "--leak-pct must be >= 0", quoting: false },
            ),
            missing: "missing --leak-pct value",
        },
        Opt { name: "--label", kind: Kind::Text, missing: "missing --label value" },
        Opt { name: "-h", kind: Kind::Help, missing: "" },
        Opt { name: "--help", kind: Kind::Help, missing: "" },
    ];
    assert(table@ =~= options());
    table
}

/// The bits of the decimal fraction given last for an option, or the others.
pub open spec fn bits_or(given: Option<(u64, u64)>, other: u64) -> u64 {
    match given {
        Some(fraction) => fraction.0,
        None => other,
    }
}

fn pick_bits(given: Option<(u64, u64)>, other: u64) -> (r: u64)
    ensures
        r == bits_or(given, other),
{
    match given {
        Some((bits, _)) => bits,
        None => other,
    }
}

/// What the words ask for, or why they are refused.
pub open spec fn asks(words: Seq<Word>, r: Result<Args, String>) -> bool {
    match read_words(options(), Positional::Refused("unknown argument "), words, 0, Seq::empty()) {
        Err(message) => r matches Err(text) && text@ == message,
        Ok(done) => {
            if text_given(done, 0) is None {
                r matches Err(text) && text@ == "missing --replay"@
            } else if text_given(done, 1) is None {
                r matches Err(text) && text@ == "missing --out"@
            } else if !file_given(done, 0) {
                r matches Err(text) && text@ == "replay log not found: "@ + text_given(done, 0)->0
            } else if texts_given(done, 2).len() == 0 {
                r matches Err(text) && text@ == "need at least one --prior (full week: four other days)"@
            } else {
                &&& r is Ok
                &&& Some(r->Ok_0.replay@) == text_given(done, 0)
                &&& Some(r->Ok_0.out@) == text_given(done, 1)
                &&& texts_of(r->Ok_0.priors@) == texts_given(done, 2)
                &&& r->Ok_0.speed_bits == bits_or(fraction_given(done, 3), DEFAULT_SPEED_BITS)
                &&& r->Ok_0.cycle_secs == number_given(done, 4).unwrap_or(0)
                &&& r->Ok_0.max_cycles == number_given(done, 5).unwrap_or(0)
                &&& r->Ok_0.max_hours_bits == bits_or(fraction_given(done, 6), 0)
                &&& r->Ok_0.scrub_seeks == number_given(done, 7).unwrap_or(DEFAULT_SCRUB_SEEKS)
                &&& r->Ok_0.leak_window == number_given(done, 8).unwrap_or(DEFAULT_LEAK_WINDOW)
                &&& r->Ok_0.leak_pct_bits == bits_or(fraction_given(done, 9), DEFAULT_LEAK_PCT_BITS)
                &&& text_of(r->Ok_0.label) == text_given(done, 10)
            }
        },
    }
}

/// Reads the command line.
pub fn parse_args(words: &Vec<Word>) -> (r: Result<Args, String>)
    ensures
        asks(words@, r),
{
    let table: Vec<Opt> = option_table();
    let settings: Vec<Setting> = match read(&table, Positional::Refused("unknown argument "), words) {
        Ok(settings) => settings,
        Err(message) => return Err(message),
    };
    let replay: String = match last_text(&settings, 0) {
        Some(text) => text,
        None => return Err("missing --replay".to_owned()),
    };
    let out: String = match last_text(&settings, 1) {
        Some(text) => text,
        None => return Err("missing --out".to_owned()),
    };
    if !names_file(&settings, 0) {
        return Err(concat2("replay log not found: ", replay.as_str()));
    }
    let priors: Vec<String> = all_texts(&settings, 2);
    assert(texts_of(priors@).len() == priors.len());
    if priors.len() == 0 {
        return Err("need at least one --prior (full week: four other days)".to_owned());
    }
    Ok(
        Args {
            replay,
            out,
            priors,
            speed_bits: pick_bits(last_fraction(&settings, 3), DEFAULT_SPEED_BITS),
            cycle_secs: last_number(&settings, 4).unwrap_or(0),
            max_cycles: last_number(&settings, 5).unwrap_or(0),
            max_hours_bits: pick_bits(last_fraction(&settings, 6), 0),
            scrub_seeks: last_number(&settings, 7).unwrap_or(DEFAULT_SCRUB_SEEKS),
            leak_window: last_number(&settings, 8).unwrap_or(DEFAULT_LEAK_WINDOW),
            leak_pct_bits: pick_bits(last_fraction(&settings, 9), DEFAULT_LEAK_PCT_BITS),
            label: last_text(&settings, 10),
        },
    )
}

proof fn lemma_places(name: Seq<char>)
    ensures
        name == "--replay"@ ==> option_of(options(), name, 0) == 0,
        name == "--out"@ ==> option_of(options(), name, 0) == 1,
        name == "--prior"@ ==> option_of(options(), name, 0) == 2,
        name == "--speed"@ ==> option_of(options(), name, 0) == 3,
        name == "--cycle-secs"@ ==> option_of(options(), name, 0) == 4,
        name == "--max-cycles"@ ==> option_of(options(), name, 0) == 5,
        name == "--max-hours"@ ==> option_of(options(), name, 0) == 6,
        name == "--scrub-seeks"@ ==> option_of(options(), name, 0) == 7,
        name == "--leak-window"@ ==> option_of(options(), name, 0) == 8,
        name == "--leak-pct"@ ==> option_of(options(), name, 0) == 9,
        name == "--label"@ ==> option_of(options(), name, 0) == 10,
        name == "-h"@ ==> option_of(options(), name, 0) == 11,
        name == "--help"@ ==> option_of(options(), name, 0) == 12,
        name != "--replay"@
            && name != "--out"@
            && name != "--prior"@
            && name != "--speed"@
            && name != "--cycle-secs"@
            && name != "--max-cycles"@
            && name != "--max-hours"@
            && name != "--scrub-seeks"@
            && name != "--leak-window"@
            && name != "--leak-pct"@
            && name != "--label"@
            && name != "-h"@
            && name != "--help"@ ==> option_of(
            options(),
            name,
            0,
        ) == 13,
{
    reveal_strlit("--replay");
    reveal_strlit("--out");
    reveal_strlit("--prior");
    reveal_strlit("--speed");
    reveal_strlit("--cycle-secs");
    reveal_strlit("--max-cycles");
    reveal_strlit("--max-hours");
    reveal_strlit("--scrub-seeks");
    reveal_strlit("--leak-window");
    reveal_strlit("--leak-pct");
    reveal_strlit("--label");
    reveal_strlit("-h");
    reveal_strlit("--help");
    assert("--replay"@.len() != "--out"@.len());
    assert("--replay"@.len() != "--prior"@.len());
    assert("--out"@.len() != "--prior"@.len());
    assert("--replay"@.len() != "--speed"@.len());
    assert("--out"@.len() != "--speed"@.len());
    assert("--prior"@[2] != "--speed"@[2]);
    assert("--replay"@.len() != "--cycle-secs"@.len());
    assert("--out"@.len() != "--cycle-secs"@.len());
    assert("--prior"@.len() != "--cycle-secs"@.len());
    assert("--speed"@.len() != "--cycle-secs"@.len());
    assert("--replay"@.len() != "--max-cycles"@.len());
    assert("--out"@.len() != "--max-cycles"@.len());
    assert("--prior"@.len() != "--max-cycles"@.len());
    assert("--speed"@.len() != "--max-cycles"@.len());
    assert("--cycle-secs"@[2] != "--max-cycles"@[2]);
    assert("--replay"@.len() != "--max-hours"@.len());
    assert("--out"@.len() != "--max-hours"@.len());
    assert("--prior"@.len() != "--max-hours"@.len());
    assert("--speed"@.len() != "--max-hours"@.len());
    assert("--cycle-secs"@.len() != "--max-hours"@.len());
    assert("--max-cycles"@.len() != "--max-hours"@.len());
    assert("--replay"@.len() != "--scrub-seeks"@.len());
    assert("--out"@.len() != "--scrub-seeks"@.len());
    assert("--prior"@.len() != "--scrub-seeks"@.len());
    assert("--speed"@.len() != "--scrub-seeks"@.len());
    assert("--cycle-secs"@.len() != "--scrub-seeks"@.len());
    assert("--max-cycles"@.len() != "--scrub-seeks"@.len());
    assert("--max-hours"@.len() != "--scrub-seeks"@.len());
    assert("--replay"@.len() != "--leak-window"@.len());
    assert("--out"@.len() != "--leak-window"@.len());
    assert("--prior"@.len() != "--leak-window"@.len());
    assert("--speed"@.len() != "--leak-window"@.len());
    assert("--cycle-secs"@.len() != "--leak-window"@.len());
    assert("--max-cycles"@.len() != "--leak-window"@.len());
    assert("--max-hours"@.len() != "--leak-window"@.len());
    assert("--scrub-seeks"@[2] != "--leak-window"@[2]);
    assert("--replay"@.len() != "--leak-pct"@.len());
    assert("--out"@.len() != "--leak-pct"@.len());
    assert("--prior"@.len() != "--leak-pct"@.len());
    assert("--speed"@.len() != "--leak-pct"@.len());
    assert("--cycle-secs"@.len() != "--leak-pct"@.len());
    assert("--max-cycles"@.len() != "--leak-pct"@.len());
    assert("--max-hours"@.len() != "--leak-pct"@.len());
    assert("--scrub-seeks"@.len() != "--leak-pct"@.len());
    assert("--leak-window"@.len() != "--leak-pct"@.len());
    assert("--replay"@.len() != "--label"@.len());
    assert("--out"@.len() != "--label"@.len());
    assert("--prior"@[2] != "--label"@[2]);
    assert("--speed"@[2] != "--label"@[2]);
    assert("--cycle-secs"@.len() != "--label"@.len());
    assert("--max-cycles"@.len() != "--label"@.len());
    assert("--max-hours"@.len() != "--label"@.len());
    assert("--scrub-seeks"@.len() != "--label"@.len());
    assert("--leak-window"@.len() != "--label"@.len());
    assert("--leak-pct"@.len() != "--label"@.len());
    assert("--replay"@.len() != "-h"@.len());
    assert("--out"@.len() != "-h"@.len());
    assert("--prior"@.len() != "-h"@.len());
    assert("--speed"@.len() != "-h"@.len());
    assert("--cycle-secs"@.len() != "-h"@.len());
    assert("--max-cycles"@.len() != "-h"@.len());
    assert("--max-hours"@.len() != "-h"@.len());
    assert("--scrub-seeks"@.len() != "-h"@.len());
    assert("--leak-window"@.len() != "-h"@.len());
    assert("--leak-pct"@.len() != "-h"@.len());
    assert("--label"@.len() != "-h"@.len());
    assert("--replay"@.len() != "--help"@.len());
    assert("--out"@.len() != "--help"@.len());
    assert("--prior"@.len() != "--help"@.len());
    assert("--speed"@.len() != "--help"@.len());
    assert("--cycle-secs"@.len() != "--help"@.len());
    assert("--max-cycles"@.len() != "--help"@.len());
    assert("--max-hours"@.len() != "--help"@.len());
    assert("--scrub-seeks"@.len() != "--help"@.len());
    assert("--leak-window"@.len() != "--help"@.len());
    assert("--leak-pct"@.len() != "--help"@.len());
    assert("--label"@.len() != "--help"@.len());
    assert("-h"@.len() != "--help"@.len());
    let table = options();
    assert(option_of(table, name, 13) == 13);
    assert(option_of(table, name, 12) == if name == "--help"@ {
        12
    } else {
        option_of(table, name, 13)
    });
    assert(option_of(table, name, 11) == if name == "-h"@ {
        11
    } else {
        option_of(table, name, 12)
    });
    assert(option_of(table, name, 10) == if name == "--label"@ {
        10
    } else {
        option_of(table, name, 11)
    });
    assert(option_of(table, name, 9) == if name == "--leak-pct"@ {
        9
    } else {
        option_of(table, name, 10)
    });
    assert(option_of(table, name, 8) == if name == "--leak-window"@ {
        8
    } else {
        option_of(table, name, 9)
    });
    assert(option_of(table, name, 7) == if name == "--scrub-seeks"@ {
        7
    } else {
        option_of(table, name, 8)
    });
    assert(option_of(table, name, 6) == if name == "--max-hours"@ {
        6
    } else {
        option_of(table, name, 7)
    });
    assert(option_of(table, name, 5) == if name == "--max-cycles"@ {
        5
    } else {
        option_of(table, name, 6)
    });
    assert(option_of(table, name, 4) == if name == "--cycle-secs"@ {
        4
    } else {
        option_of(table, name, 5)
    });
    assert(option_of(table, name, 3) == if name == "--speed"@ {
        3
    } else {
        option_of(table, name, 4)
    });
    assert(option_of(table, name, 2) == if name == "--prior"@ {
        2
    } else {
        option_of(table, name, 3)
    });
    assert(option_of(table, name, 1) == if name == "--out"@ {
        1
    } else {
        option_of(table, name, 2)
    });
    assert(option_of(table, name, 0) == if name == "--replay"@ {
        0
    } else {
        option_of(table, name, 1)
    });
}

/// Whether a word is the name of an option that takes a value.
pub open spec fn wants_value(name: Seq<char>) -> bool {
    ||| name == "--replay"@
    ||| name == "--out"@
    ||| name == "--prior"@
    ||| name == "--speed"@
    ||| name == "--cycle-secs"@
    ||| name == "--max-cycles"@
    ||| name == "--max-hours"@
    ||| name == "--scrub-seeks"@
    ||| name == "--leak-window"@
    ||| name == "--leak-pct"@
    ||| name == "--label"@
}

/// An option with its value, behind a command line that is accepted, sets what it is named for
/// and leaves the rest as it was.
#[verifier::rlimit(60)]
pub proof fn law_option_sets_its_own(
    words: &Vec<Word>,
    name: Word,
    value: Word,
    n: nat,
    longer: &Vec<Word>,
    first: Result<Args, String>,
    second: Result<Args, String>,
)
    requires
        call_ensures(parse_args, (words,), first),
        first is Ok,
        longer@ == words@ + seq![name, value],
        call_ensures(parse_args, (longer,), second),
    ensures
        name.text@ == "--replay"@ && value.is_file ==> second is Ok && (second->Ok_0).replay@ == value.text@,
        name.text@ == "--replay"@ && !value.is_file ==> second is Err && second->Err_0@ == "replay log not found: "@ + value.text@,
        name.text@ == "--out"@ ==> second is Ok && (second->Ok_0).out@ == value.text@,
        name.text@ == "--prior"@ && value.is_file ==> second is Ok && texts_of((second->Ok_0).priors@) == texts_of((first->Ok_0).priors@).push(value.text@),
        name.text@ == "--prior"@ && !value.is_file ==> second is Err && second->Err_0@ == "--prior not a file: "@ + value.text@,
        name.text@ == "--speed"@ && value.fraction is Some && (value.fraction->0).positive ==> second is Ok && (second->Ok_0).speed_bits == (value.fraction->0).bits,
        name.text@ == "--speed"@ && (value.fraction is None || !(value.fraction->0).positive) ==> second is Err,
        name.text@ == "--cycle-secs"@ && value.text@ == decimal(n) && n <= u64::MAX ==> second is Ok && (second->Ok_0).cycle_secs == n,
        name.text@ == "--cycle-secs"@ && value.text@ == decimal(n) && n > u64::MAX ==> second is Err,
        name.text@ == "--max-cycles"@ && value.text@ == decimal(n) && n <= u64::MAX ==> second is Ok && (second->Ok_0).max_cycles == n,
        name.text@ == "--max-cycles"@ && value.text@ == decimal(n) && n > u64::MAX ==> second is Err,
        name.text@ == "--max-hours"@ && value.fraction is Some && !(value.fraction->0).negative ==> second is Ok && (second->Ok_0).max_hours_bits == (value.fraction->0).bits,
        name.text@ == "--max-hours"@ && (value.fraction is None || (value.fraction->0).negative) ==> second is Err,
        name.text@ == "--scrub-seeks"@ && value.text@ == decimal(n) && 1 <= n % 0x1_0000_0000 && n <= u64::MAX ==> second is Ok && (second->Ok_0).scrub_seeks == n % 0x1_0000_0000,
        name.text@ == "--scrub-seeks"@ && value.text@ == decimal(n) && (n % 0x1_0000_0000 < 1 || n > u64::MAX) ==> second is Err,
        name.text@ == "--leak-window"@ && value.text@ == decimal(n) && 2 <= n && n <= u64::MAX ==> second is Ok && (second->Ok_0).leak_window == n,
        name.text@ == "--leak-window"@ && value.text@ == decimal(n) && (n < 2 || n > u64::MAX) ==> second is Err,
        name.text@ == "--leak-pct"@ && value.fraction is Some && !(value.fraction->0).negative ==> second is Ok && (second->Ok_0).leak_pct_bits == (value.fraction->0).bits,
        name.text@ == "--leak-pct"@ && (value.fraction is None || (value.fraction->0).negative) ==> second is Err,
        name.text@ == "--label"@ ==> second is Ok && text_of((second->Ok_0).label) == Some(value.text@),
        wants_value(name.text@) && second is Ok ==> ({
            let a = first->Ok_0;
            let b = second->Ok_0;
            &&& name.text@ == "--replay"@ || b.replay@ == a.replay@
            &&& name.text@ == "--out"@ || b.out@ == a.out@
            &&& name.text@ == "--prior"@ || texts_of(b.priors@) == texts_of(a.priors@)
            &&& name.text@ == "--speed"@ || b.speed_bits == a.speed_bits
            &&& name.text@ == "--cycle-secs"@ || b.cycle_secs == a.cycle_secs
            &&& name.text@ == "--max-cycles"@ || b.max_cycles == a.max_cycles
            &&& name.text@ == "--max-hours"@ || b.max_hours_bits == a.max_hours_bits
            &&& name.text@ == "--scrub-seeks"@ || b.scrub_seeks == a.scrub_seeks
            &&& name.text@ == "--leak-window"@ || b.leak_window == a.leak_window
            &&& name.text@ == "--leak-pct"@ || b.leak_pct_bits == a.leak_pct_bits
            &&& name.text@ == "--label"@ || text_of(b.label) == text_of(a.label)
        }),
{
    lemma_places(name.text@);
    let done = read_words(options(), Positional::Refused("unknown argument "), words@, 0, Seq::empty())->Ok_0;
    let option = option_of(options(), name.text@, 0);
    if wants_value(name.text@) {
        lemma_option_with_value(options(), Positional::Refused("unknown argument "), words@, name, value);
        if option == 4 {
            lemma_numeral_worth(options()[4].kind->Number_0, n);
        }
        if option == 5 {
            lemma_numeral_worth(options()[5].kind->Number_0, n);
        }
        if option == 7 {
            lemma_numeral_worth(options()[7].kind->Number_0, n);
        }
        if option == 8 {
            lemma_numeral_worth(options()[8].kind->Number_0, n);
        }
        if value_of(options()[option].kind, value) is Ok {
            lemma_added(done, option, value_of(options()[option].kind, value)->Ok_0);
        }
    }
}

/// A single word behind a command line that is accepted: a word that asks for help or is not
/// known refuses the whole, and so does an option without its value.
pub proof fn law_single_word(
    words: &Vec<Word>,
    word: Word,
    longer: &Vec<Word>,
    first: Result<Args, String>,
    second: Result<Args, String>,
)
    requires
        call_ensures(parse_args, (words,), first),
        first is Ok,
        longer@ == words@ + seq![word],
        call_ensures(parse_args, (longer,), second),
    ensures
        word.text@ == "--replay"@ ==> second is Err && second->Err_0@ == "missing value for --replay"@,
        word.text@ == "--out"@ ==> second is Err && second->Err_0@ == "missing value for --out"@,
        word.text@ == "--prior"@ ==> second is Err && second->Err_0@ == "missing value for --prior"@,
        word.text@ == "--speed"@ ==> second is Err && second->Err_0@ == "missing --speed value"@,
        word.text@ == "--cycle-secs"@ ==> second is Err && second->Err_0@ == "missing --cycle-secs value"@,
        word.text@ == "--max-cycles"@ ==> second is Err && second->Err_0@ == "missing --max-cycles value"@,
        word.text@ == "--max-hours"@ ==> second is Err && second->Err_0@ == "missing --max-hours value"@,
        word.text@ == "--scrub-seeks"@ ==> second is Err && second->Err_0@ == "missing --scrub-seeks value"@,
        word.text@ == "--leak-window"@ ==> second is Err && second->Err_0@ == "missing --leak-window value"@,
        word.text@ == "--leak-pct"@ ==> second is Err && second->Err_0@ == "missing --leak-pct value"@,
        word.text@ == "--label"@ ==> second is Err && second->Err_0@ == "missing --label value"@,
        word.text@ == "-h"@ ==> second is Err && second->Err_0@ == "help"@,
        word.text@ == "--help"@ ==> second is Err && second->Err_0@ == "help"@,
        word.text@ != "--replay"@
            && word.text@ != "--out"@
            && word.text@ != "--prior"@
            && word.text@ != "--speed"@
            && word.text@ != "--cycle-secs"@
            && word.text@ != "--max-cycles"@
            && word.text@ != "--max-hours"@
            && word.text@ != "--scrub-seeks"@
            && word.text@ != "--leak-window"@
            && word.text@ != "--leak-pct"@
            && word.text@ != "--label"@
            && word.text@ != "-h"@
            && word.text@ != "--help"@ ==> second is Err && second->Err_0@ == "unknown argument "@ + word.text@,
{
    lemma_places(word.text@);
    lemma_single_word(options(), Positional::Refused("unknown argument "), words@, word);
    let done = read_words(options(), Positional::Refused("unknown argument "), words@, 0, Seq::empty())->Ok_0;
}

/// A command line that is accepted names every option that a run cannot do without.
pub proof fn law_nothing_left_out(words: &Vec<Word>, r: Result<Args, String>)
    requires
        call_ensures(parse_args, (words,), r),
        r is Ok,
    ensures
        exists|i: int| 0 <= i < words@.len() && (#[trigger] words@[i]).text@ == "--replay"@,
        exists|i: int| 0 <= i < words@.len() && (#[trigger] words@[i]).text@ == "--out"@,
        exists|i: int| 0 <= i < words@.len() && (#[trigger] words@[i]).text@ == "--prior"@,
{
    let done = read_words(options(), Positional::Refused("unknown argument "), words@, 0, Seq::empty())->Ok_0;
    lemma_given_by_name(options(), Positional::Refused("unknown argument "), words@, 0, Seq::empty(), 0);
    lemma_given_by_name(options(), Positional::Refused("unknown argument "), words@, 0, Seq::empty(), 1);
    lemma_texts_are_given(done, 2);
    lemma_given_by_name(options(), Positional::Refused("unknown argument "), words@, 0, Seq::empty(), 2);
}

/// The shortest command line that is accepted asks for what a run does unless told otherwise.
#[verifier::rlimit(60)]
pub proof fn law_shortest_command_line(words: &Vec<Word>, r: Result<Args, String>)
    requires
        call_ensures(parse_args, (words,), r),
        words@.len() == 6,
        words@[0].text@ == "--replay"@,
        words@[2].text@ == "--out"@,
        words@[4].text@ == "--prior"@,
        words@[1].is_file,
        words@[5].is_file,
    ensures
        r is Ok,
        (r->Ok_0).replay@ == words@[1].text@,
        (r->Ok_0).out@ == words@[3].text@,
        texts_of((r->Ok_0).priors@) == seq![words@[5].text@],
        (r->Ok_0).speed_bits == 0x4050_0000_0000_0000,
        (r->Ok_0).cycle_secs == 0,
        (r->Ok_0).max_cycles == 0,
        (r->Ok_0).max_hours_bits == 0,
        (r->Ok_0).scrub_seeks == 24,
        (r->Ok_0).leak_window == 10,
        (r->Ok_0).leak_pct_bits == 0x4024_0000_0000_0000,
        (r->Ok_0).label is None,
{
    let none = Seq::<Word>::empty();
    let given0 = Seq::<(int, ValueModel)>::empty();
    assert(read_words(options(), Positional::Refused("unknown argument "), none, 0, Seq::empty()) == Ok::<Seq<(int, ValueModel)>, Seq<char>>(given0));
    lemma_places(words@[0].text@);
    lemma_option_with_value(options(), Positional::Refused("unknown argument "), none, words@[0], words@[1]);
    let value0 = ValueModel::Text(words@[1].text@, words@[1].is_file);
    lemma_added(given0, 0, value0);
    let given1 = given0.push((0, value0));
    let begun1 = none + seq![words@[0], words@[1]];
    assert(read_words(options(), Positional::Refused("unknown argument "), begun1, 0, Seq::empty()) == Ok::<Seq<(int, ValueModel)>, Seq<char>>(given1));
    lemma_places(words@[2].text@);
    lemma_option_with_value(options(), Positional::Refused("unknown argument "), begun1, words@[2], words@[3]);
    let value1 = ValueModel::Text(words@[3].text@, words@[3].is_file);
    lemma_added(given1, 1, value1);
    let given2 = given1.push((1, value1));
    let begun2 = begun1 + seq![words@[2], words@[3]];
    assert(read_words(options(), Positional::Refused("unknown argument "), begun2, 0, Seq::empty()) == Ok::<Seq<(int, ValueModel)>, Seq<char>>(given2));
    lemma_places(words@[4].text@);
    lemma_option_with_value(options(), Positional::Refused("unknown argument "), begun2, words@[4], words@[5]);
    let value2 = ValueModel::Text(words@[5].text@, words@[5].is_file);
    lemma_added(given2, 2, value2);
    let given3 = given2.push((2, value2));
    let begun3 = begun2 + seq![words@[4], words@[5]];
    assert(read_words(options(), Positional::Refused("unknown argument "), begun3, 0, Seq::empty()) == Ok::<Seq<(int, ValueModel)>, Seq<char>>(given3));
    assert(words@ =~= begun3);
}

} // verus!
