//! The command line of the display, and the description of a run.

use super::words::{
    all_texts, fraction_given, given, is_given, last_fraction, last_number, last_of, last_text,
    lemma_added, lemma_numeral_worth, lemma_option_with_value, lemma_single_word, number_given,
    option_of, read, read_words, text_given, texts_given, value_of, FractionRule, Kind,
    NumberRule, Opt, Positional, Refusal, Setting, ValueModel, Word,
};
use crate::datetime::replay_at;
use crate::text::{
    chars_of, concat3, decimal, find_char, first_index, lemma_first_index, push_decimal,
    same_chars, slice, text_of, texts_of,
};
use vstd::prelude::*;

verus! {

/// Where the market data comes from.
#[derive(Debug)]
pub enum StartupSource {
    /// From nowhere: a blank window.
    Blank,
    /// From a log, from the given time on.
    Replay { path: String, replay_at: Option<u64> },
    /// From a log that stands in for a feed: history up to the head, then as if live.
    SimLive { path: String, head_ts: u64, live_out: String },
}

/// A source, as a mathematical value.
#[verifier::ext_equal]
pub enum SourceModel {
    Blank,
    Replay { path: Seq<char>, replay_at: Option<u64> },
    SimLive { path: Seq<char>, head_ts: u64, live_out: Seq<char> },
}

impl View for StartupSource {
    type V = SourceModel;

    open spec fn view(&self) -> SourceModel {
        match self {
            StartupSource::Blank => SourceModel::Blank,
            StartupSource::Replay { path, replay_at } => SourceModel::Replay {
                path: path@,
                replay_at: *replay_at,
            },
            StartupSource::SimLive { path, head_ts, live_out } => SourceModel::SimLive {
                path: path@,
                head_ts: *head_ts,
                live_out: live_out@,
            },
        }
    }
}

impl StartupSource {
    /// Whether the source needs an engine.
    pub fn starts_engine(&self) -> (r: bool)
        ensures
            r == !(self@ is Blank),
    {
        match self {
            StartupSource::Blank => false,
            _ => true,
        }
    }

    fn is_replay(&self) -> (r: bool)
        ensures
            r == (self@ is Replay),
    {
        match self {
            StartupSource::Replay { .. } => true,
            _ => false,
        }
    }

    fn is_sim_live(&self) -> (r: bool)
        ensures
            r == (self@ is SimLive),
    {
        match self {
            StartupSource::SimLive { .. } => true,
            _ => false,
        }
    }
}

/// What the display was asked for.
#[derive(Debug)]
pub struct Args {
    /// How long frames are measured for, in nanoseconds.
    pub gate: Option<u64>,
    pub trace: Option<String>,
    pub startup: StartupSource,
    /// How the time to start at was written.
    pub anchor_arg: Option<String>,
    /// Logs of earlier days, oldest first.
    pub prior: Vec<String>,
    /// Neither existing logs nor sources of earlier days are looked for.
    pub no_prior_discovery: bool,
    /// Existing logs of earlier days are looked for, but no sources.
    pub no_auto_ingest: bool,
    pub dbn_dir: Option<String>,
    pub gate_out: Option<String>,
    pub manifest: Option<String>,
    pub conditions: Option<String>,
    pub startup_trace: bool,
    pub scrub_latency_gate: Option<u64>,
    pub scrub_latency_out: Option<String>,
    pub scrub_latency_seed: u64,
}

/// The options of the display.
pub open spec fn options() -> Seq<Opt> {
    seq![
        Opt {
            name: "--gate",
            kind: Kind::Fraction(
                FractionRule { positive: true, refusal: Refusal::Quoting("invalid --gate value: "), out_of_range: "--gate must be a positive number, got ", quoting: true },
            ),
            missing: "--gate requires <seconds>",
        },
        Opt { name: "--trace", kind: Kind::Text, missing: "--trace requires <path>" },
        Opt { name: "--replay", kind: Kind::Text, missing: "--replay requires <fftlog>" },
        Opt { name: "--replay-at", kind: Kind::Stamp, missing: "--replay-at requires <ts>" },
        Opt { name: "--sim-live", kind: Kind::Text, missing: "--sim-live requires <fftlog>" },
        Opt { name: "--head", kind: Kind::HeadStamp, missing: "--head requires <ts>" },
        Opt { name: "--live-out", kind: Kind::Text, missing: "--live-out requires <path>" },
        Opt { name: "--prior", kind: Kind::File("--prior file does not exist: "), missing: "--prior requires <fftlog>" },
        Opt { name: "--no-prior-discovery", kind: Kind::Switch, missing: "" },
        Opt { name: "--no-auto-ingest", kind: Kind::Switch, missing: "" },
        Opt { name: "--dbn-dir", kind: Kind::Dir("--dbn-dir is not a directory: "), missing: "--dbn-dir requires <path>" },
        Opt { name: "--gate-out", kind: Kind::Text, missing: "--gate-out requires <path>" },
        Opt { name: "--manifest", kind: Kind::File("--manifest file does not exist: "), missing: "--manifest requires <path>" },
        Opt { name: "--conditions", kind: Kind::Text, missing: "--conditions requires <text>" },
        Opt { name: "--startup-trace", kind: Kind::Switch, missing: "" },
        Opt {
            name: "--scrub-latency-gate",
            kind: Kind::Number(
                NumberRule {
                    max: 0xffff_ffff,
                    modulus: 0,
                    least: 0,
                    hex: false,
                    refusal: Refusal::Quoting("invalid --scrub-latency-gate: "),
                    too_small: "",
                },
            ),
            missing: "--scrub-latency-gate requires <N>",
        },
        Opt { name: "--scrub-latency-out", kind: Kind::Text, missing: "--scrub-latency-out requires <path>" },
        Opt {
            name: "--scrub-latency-seed",
            kind: Kind::Number(
                NumberRule {
                    max: u64::MAX,
                    modulus: 0,
                    least: 0,
                    hex: false,
                    refusal: Refusal::Quoting("invalid --scrub-latency-seed: "),
                    too_small: "",
                },
            ),
            missing: "--scrub-latency-seed requires <u64>",
        },
    ]
}

fn option_table() -> (r: Vec<Opt>)
    ensures
        r@ == options(),
{
    let table: Vec<Opt> = vec![
        Opt {
            name: "--gate",
            kind: Kind::Fraction(
                FractionRule { positive: true, refusal: Refusal::Quoting("invalid --gate value: "), out_of_range: "--gate must be a positive number, got ", quoting: true },
            ),
            missing: "--gate requires <seconds>",
        },
        Opt { name: "--trace", kind: Kind::Text, missing: "--trace requires <path>" },
        Opt { name: "--replay", kind: Kind::Text, missing: "--replay requires <fftlog>" },
        Opt { name: "--replay-at", kind: Kind::Stamp, missing: "--replay-at requires <ts>" },
        Opt { name: "--sim-live", kind: Kind::Text, missing: "--sim-live requires <fftlog>" },
        Opt { name: "--head", kind: Kind::HeadStamp, missing: "--head requires <ts>" },
        Opt { name: "--live-out", kind: Kind::Text, missing: "--live-out requires <path>" },
        Opt { name: "--prior", kind: Kind::File("--prior file does not exist: "), missing: "--prior requires <fftlog>" },
        Opt { name: "--no-prior-discovery", kind: Kind::Switch, missing: "" },
        Opt { name: "--no-auto-ingest", kind: Kind::Switch, missing: "" },
        Opt { name: "--dbn-dir", kind: Kind::Dir("--dbn-dir is not a directory: "), missing: "--dbn-dir requires <path>" },
        Opt { name: "--gate-out", kind: Kind::Text, missing: "--gate-out requires <path>" },
        Opt { name: "--manifest", kind: Kind::File("--manifest file does not exist: "), missing: "--manifest requires <path>" },
        Opt { name: "--conditions", kind: Kind::Text, missing: "--conditions requires <text>" },
        Opt { name: "--startup-trace", kind: Kind::Switch, missing: "" },
        Opt {
            name: "--scrub-latency-gate",
            kind: Kind::Number(
                NumberRule {
                    max: 0xffff_ffff,
                    modulus: 0,
                    least: 0,
                    hex: false,
                    refusal: Refusal::Quoting("invalid --scrub-latency-gate: "),
                    too_small: "",
                },
            ),
            missing: "--scrub-latency-gate requires <N>",
        },
        Opt { name: "--scrub-latency-out", kind: Kind::Text, missing: "--scrub-latency-out requires <path>" },
        Opt {
            name: "--scrub-latency-seed",
            kind: Kind::Number(
                NumberRule {
                    max: u64::MAX,
                    modulus: 0,
                    least: 0,
                    hex: false,
                    refusal: Refusal::Quoting("invalid --scrub-latency-seed: "),
                    too_small: "",
                },
            ),
            missing: "--scrub-latency-seed requires <u64>",
        },
    ];
    assert(table@ =~= options());
    table
}

/// The parts of a path between the slashes.
pub open spec fn segments(s: Seq<char>) -> Seq<Seq<char>>
    decreases s.len(),
    via segments_end
{
    let at = first_index(s, '/');
    if at >= s.len() {
        seq![s]
    } else {
        seq![s.take(at)] + segments(s.skip(at + 1))
    }
}

#[via_fn]
proof fn segments_end(s: Seq<char>) {
    lemma_first_index(s, '/');
}

/// The parts that tell paths apart, from the part `j` on: not those that are empty, nor a dot
/// that does not stand at the start.
pub open spec fn telling(parts: Seq<Seq<char>>, j: int) -> Seq<Seq<char>>
    decreases parts.len() - j,
{
    if j >= parts.len() {
        Seq::empty()
    } else if parts[j].len() == 0 || (parts[j] == seq!['.'] && j > 0) {
        telling(parts, j + 1)
    } else {
        seq![parts[j]] + telling(parts, j + 1)
    }
}

/// Whether two paths are the same, part by part.
pub open spec fn same_path(a: Seq<char>, b: Seq<char>) -> bool {
    &&& (a.len() > 0 && a[0] == '/') == (b.len() > 0 && b[0] == '/')
    &&& telling(segments(a), 0) == telling(segments(b), 0)
}

/// The texts of a list.
pub open spec fn spelling(v: Seq<Vec<char>>) -> Seq<Seq<char>> {
    Seq::new(v.len(), |i: int| v[i]@)
}

fn split_path(v: &Vec<char>) -> (r: Vec<Vec<char>>)
    ensures
        spelling(r@) == segments(v@),
{
    let mut out: Vec<Vec<char>> = Vec::new();
    let mut from: usize = 0;
    assert(v@.skip(0) =~= v@);
    assert(spelling(out@) + segments(v@) =~= segments(v@));
    loop
        invariant
            from <= v.len(),
            spelling(out@) + segments(v@.skip(from as int)) == segments(v@),
        decreases v.len() - from,
    {
        let ghost rest = v@.skip(from as int);
        let ghost before = out@;
        assert(v@.subrange(from as int, v@.len() as int) =~= rest);
        proof {
            lemma_first_index(rest, '/');
        }
        let at: usize = find_char(v, from, v.len(), '/');
        let part: Vec<char> = slice(v, from, at);
        out.push(part);
        assert(spelling(out@) =~= spelling(before).push(part@));
        if at == v.len() {
            assert(part@ =~= rest);
            assert(spelling(out@) =~= spelling(before) + seq![rest]);
            return out;
        }
        assert(part@ =~= rest.take(at - from));
        assert(rest.skip(at - from + 1) =~= v@.skip(at + 1));
        assert(spelling(before) + (seq![part@] + segments(v@.skip(at + 1))) =~= spelling(out@)
            + segments(v@.skip(at + 1)));
        from = at + 1;
    }
}

fn telling_parts(parts: Vec<Vec<char>>) -> (r: Vec<Vec<char>>)
    ensures
        spelling(r@) == telling(spelling(parts@), 0),
{
    let ghost all = spelling(parts@);
    let mut out: Vec<Vec<char>> = Vec::new();
    let mut j: usize = 0;
    assert(spelling(out@) + telling(all, 0) =~= telling(all, 0));
    while j < parts.len()
        invariant
            j <= parts.len(),
            all == spelling(parts@),
            spelling(out@) + telling(all, j as int) == telling(all, 0),
        decreases parts.len() - j,
    {
        let ghost before = out@;
        let dot: bool = parts[j].len() == 1 && parts[j][0] == '.';
        assert(dot == (all[j as int] =~= seq!['.']));
        if !(parts[j].len() == 0 || (dot && j > 0)) {
            let part: Vec<char> = slice(&parts[j], 0, parts[j].len());
            assert(part@ =~= all[j as int]);
            out.push(part);
            assert(spelling(out@) =~= spelling(before).push(part@));
            assert(spelling(before) + (seq![part@] + telling(all, j + 1)) =~= spelling(out@)
                + telling(all, j + 1));
        }
        j += 1;
    }
    assert(spelling(out@) + telling(all, j as int) =~= spelling(out@));
    out
}

/// Whether two paths are the same, part by part.
pub fn paths_equal(a: &str, b: &str) -> (r: bool)
    ensures
        r == same_path(a@, b@),
{
    let v: Vec<char> = chars_of(a);
    let w: Vec<char> = chars_of(b);
    let rooted: bool = v.len() > 0 && v[0] == '/';
    let other: bool = w.len() > 0 && w[0] == '/';
    if rooted != other {
        return false;
    }
    let x: Vec<Vec<char>> = telling_parts(split_path(&v));
    let y: Vec<Vec<char>> = telling_parts(split_path(&w));
    let ghost p = spelling(x@);
    let ghost q = spelling(y@);
    if x.len() != y.len() {
        assert(p.len() != q.len());
        return false;
    }
    let mut i: usize = 0;
    while i < x.len()
        invariant
            i <= x.len(),
            x.len() == y.len(),
            p == spelling(x@),
            q == spelling(y@),
            p == telling(segments(a@), 0),
            q == telling(segments(b@), 0),
            forall|j: int| 0 <= j < i ==> #[trigger] p[j] == q[j],
        decreases x.len() - i,
    {
        if !same_chars(&x[i], &y[i]) {
            assert(p[i as int] != q[i as int]);
            return false;
        }
        i += 1;
    }
    assert(p =~= q);
    true
}

/// The source that the options make, or why they do not go together.
pub open spec fn source_of(
    replay: Option<Seq<char>>,
    sim_live: Option<Seq<char>>,
    replay_at: Option<u64>,
    head: Option<u64>,
    live_out: Option<Seq<char>>,
) -> Result<SourceModel, Seq<char>> {
    if sim_live is Some && (replay is Some || replay_at is Some) {
        Err("--sim-live is mutually exclusive with --replay / --replay-at"@)
    } else if sim_live is Some {
        if head is None || live_out is None {
            Err("--sim-live requires --head and --live-out"@)
        } else if same_path(sim_live->0, live_out->0) {
            Err("--live-out must be distinct from the --sim-live source"@)
        } else {
            Ok(
                SourceModel::SimLive {
                    path: sim_live->0,
                    head_ts: head->0,
                    live_out: live_out->0,
                },
            )
        }
    } else if replay is None && replay_at is Some {
        Err("--replay-at requires --replay"@)
    } else if live_out is Some && replay is Some && replay_at is None && head is None {
        Err("--live-out requires --sim-live"@)
    } else if head is Some || live_out is Some {
        Err("--head / --live-out require --sim-live"@)
    } else if replay is Some {
        Ok(SourceModel::Replay { path: replay->0, replay_at })
    } else {
        Ok(SourceModel::Blank)
    }
}

/// Whether the source, or the refusal, is what the model says.
pub open spec fn source_matches(
    r: Result<StartupSource, String>,
    model: Result<SourceModel, Seq<char>>,
) -> bool {
    match (r, model) {
        (Ok(source), Ok(want)) => source@ == want,
        (Err(text), Err(want)) => text@ == want,
        _ => false,
    }
}

/// The source that the options make, or why they do not go together.
pub fn startup_source(
    replay: Option<String>,
    sim_live: Option<String>,
    replay_at: Option<u64>,
    head: Option<u64>,
    live_out: Option<String>,
) -> (r: Result<StartupSource, String>)
    ensures
        source_matches(
            r,
            source_of(text_of(replay), text_of(sim_live), replay_at, head, text_of(live_out)),
        ),
{
    match (replay, sim_live, replay_at, head, live_out) {
        (Some(_), Some(_), _, _, _) | (None, Some(_), Some(_), _, _) => Err(
            "--sim-live is mutually exclusive with --replay / --replay-at".to_owned(),
        ),
        (None, Some(path), None, Some(head_ts), Some(live_out)) => {
            if paths_equal(path.as_str(), live_out.as_str()) {
                return Err("--live-out must be distinct from the --sim-live source".to_owned());
            }
            Ok(StartupSource::SimLive { path, head_ts, live_out })
        },
        (None, Some(_), None, _, _) => Err("--sim-live requires --head and --live-out".to_owned()),
        (None, None, Some(_), _, _) => Err("--replay-at requires --replay".to_owned()),
        (Some(_), None, None, None, Some(_)) => Err("--live-out requires --sim-live".to_owned()),
        (_, None, _, Some(_), _) | (_, None, _, None, Some(_)) => Err(
            "--head / --live-out require --sim-live".to_owned(),
        ),
        (Some(path), None, replay_at, None, None) => Ok(StartupSource::Replay { path, replay_at }),
        (None, None, None, None, None) => Ok(StartupSource::Blank),
    }
}

/// The options that do not go with a source, in the order in which they are reported.
pub open spec fn misplaced(done: Seq<(int, ValueModel)>, source: SourceModel) -> Option<Seq<char>> {
    if texts_given(done, 7).len() > 0 && !(source is Replay) {
        Some("--prior requires --replay"@)
    } else if source is SimLive && (last_of(done, 8) is Some || last_of(done, 9) is Some
        || text_given(done, 10) is Some) {
        Some(
            "--no-prior-discovery / --no-auto-ingest / --dbn-dir are replay-only (not with --sim-live)"@,
        )
    } else if last_of(done, 14) is Some && source is Blank {
        Some(
            "--startup-trace requires --replay or --sim-live (interactive mark needs a snapshot)"@,
        )
    } else {
        None
    }
}

/// What is checked of the options for the scrub latency run.
#[derive(Debug)]
pub struct ScrubCheck {
    pub samples: Option<u64>,
    pub out: Option<String>,
    pub startup_trace: bool,
    pub gated: bool,
    pub replaying: bool,
}

/// Whether the check is on these options.
pub open spec fn checks(check: ScrubCheck, done: Seq<(int, ValueModel)>, source: SourceModel) -> bool {
    &&& check.samples == number_given(done, 15)
    &&& text_of(check.out) == text_given(done, 16)
    &&& check.startup_trace == (last_of(done, 14) is Some)
    &&& check.gated == (fraction_given(done, 0) is Some)
    &&& check.replaying == (source is Replay)
}

/// Whether the options are those that were given.
pub open spec fn holds(
    args: Args,
    done: Seq<(int, ValueModel)>,
    source: SourceModel,
    default_seed: u64,
) -> bool {
    &&& args.gate == (match fraction_given(done, 0) {
        Some(fraction) => Some(fraction.1),
        None => None,
    })
    &&& text_of(args.trace) == text_given(done, 1)
    &&& args.startup@ == source
    &&& text_of(args.anchor_arg) == (match source {
        SourceModel::Blank => None,
        SourceModel::Replay { .. } => text_given(done, 3),
        SourceModel::SimLive { .. } => text_given(done, 5),
    })
    &&& texts_of(args.prior@) == texts_given(done, 7)
    &&& args.no_prior_discovery == (last_of(done, 8) is Some)
    &&& args.no_auto_ingest == (last_of(done, 9) is Some)
    &&& text_of(args.dbn_dir) == text_given(done, 10)
    &&& text_of(args.gate_out) == text_given(done, 11)
    &&& text_of(args.manifest) == text_given(done, 12)
    &&& text_of(args.conditions) == text_given(done, 13)
    &&& args.startup_trace == (last_of(done, 14) is Some)
    &&& args.scrub_latency_gate == number_given(done, 15)
    &&& text_of(args.scrub_latency_out) == text_given(done, 16)
    &&& args.scrub_latency_seed == number_given(done, 17).unwrap_or(default_seed)
}

/// What the words ask for, or why they are refused: by the first word that is refused, else by
/// the source, else by an option out of place, else by the check of the scrub latency options.
pub open spec fn asks<V: Fn(&ScrubCheck) -> Option<String>>(
    words: Seq<Word>,
    default_seed: u64,
    validate: V,
    r: Result<Args, String>,
) -> bool {
    match read_words(options(), Positional::Refused("unknown argument: "), words, 0, Seq::empty()) {
        Err(message) => r matches Err(text) && text@ == message,
        Ok(done) => match source_of(
            text_given(done, 2),
            text_given(done, 4),
            number_given(done, 3),
            number_given(done, 5),
            text_given(done, 6),
        ) {
            Err(message) => r matches Err(text) && text@ == message,
            Ok(source) => match misplaced(done, source) {
                Some(message) => r matches Err(text) && text@ == message,
                None => exists|check: ScrubCheck, answer: Option<String>|
                    {
                        &&& #[trigger] call_ensures(validate, (&check,), answer)
                        &&& checks(check, done, source)
                        &&& match answer {
                            Some(message) => r == Err::<Args, String>(message),
                            None => r is Ok && holds(r->Ok_0, done, source, default_seed),
                        }
                    },
            },
        },
    }
}

/// Reads the command line. `validate` answers why the scrub latency options are refused, if they
/// are.
pub fn parse_args<V: Fn(&ScrubCheck) -> Option<String>>(
    words: &Vec<Word>,
    default_seed: u64,
    validate: V,
) -> (r: Result<Args, String>)
    requires
        forall|check: &ScrubCheck| #[trigger] call_requires(validate, (check,)),
    ensures
        asks(words@, default_seed, validate, r),
{
    let table: Vec<Opt> = option_table();
    let settings: Vec<Setting> = match read(
        &table,
        Positional::Refused("unknown argument: "),
        words,
    ) {
        Ok(settings) => settings,
        Err(message) => return Err(message),
    };
    let ghost done = given(settings@);
    let startup: StartupSource = match startup_source(
        last_text(&settings, 2),
        last_text(&settings, 4),
        last_number(&settings, 3),
        last_number(&settings, 5),
        last_text(&settings, 6),
    ) {
        Ok(startup) => startup,
        Err(message) => return Err(message),
    };
    let ghost source = startup@;
    let prior: Vec<String> = all_texts(&settings, 7);
    assert(texts_of(prior@).len() == prior.len());
    let no_prior_discovery: bool = is_given(&settings, 8);
    let no_auto_ingest: bool = is_given(&settings, 9);
    let dbn_dir: Option<String> = last_text(&settings, 10);
    let startup_trace: bool = is_given(&settings, 14);
    if prior.len() > 0 && !startup.is_replay() {
        return Err("--prior requires --replay".to_owned());
    }
    if startup.is_sim_live() && (no_prior_discovery || no_auto_ingest || dbn_dir.is_some()) {
        return Err(
            "--no-prior-discovery / --no-auto-ingest / --dbn-dir are replay-only (not with --sim-live)".to_owned(),
        );
    }
    if startup_trace && !startup.starts_engine() {
        return Err(
            "--startup-trace requires --replay or --sim-live (interactive mark needs a snapshot)".to_owned(),
        );
    }
    assert(misplaced(done, source) is None);
    let gate: Option<u64> = match last_fraction(&settings, 0) {
        Some((_, nanos)) => Some(nanos),
        None => None,
    };
    let check: ScrubCheck = ScrubCheck {
        samples: last_number(&settings, 15),
        out: last_text(&settings, 16),
        startup_trace,
        gated: gate.is_some(),
        replaying: startup.is_replay(),
    };
    assert(checks(check, done, source));
    let answer: Option<String> = validate(&check);
    if let Some(message) = answer {
        return Err(message);
    }
    let anchor_arg: Option<String> = match &startup {
        StartupSource::Blank => None,
        StartupSource::Replay { .. } => last_text(&settings, 3),
        StartupSource::SimLive { .. } => last_text(&settings, 5),
    };
    let args: Args = Args {
        gate,
        trace: last_text(&settings, 1),
        startup,
        anchor_arg,
        prior,
        no_prior_discovery,
        no_auto_ingest,
        dbn_dir,
        gate_out: last_text(&settings, 11),
        manifest: last_text(&settings, 12),
        conditions: last_text(&settings, 13),
        startup_trace,
        scrub_latency_gate: last_number(&settings, 15),
        scrub_latency_out: last_text(&settings, 16),
        scrub_latency_seed: last_number(&settings, 17).unwrap_or(default_seed),
    };
    assert(holds(args, done, source, default_seed));
    let r: Result<Args, String> = Ok(args);
    assert(asks(words@, default_seed, validate, r));
    r
}

/// What a run measured, in words. The length of the measured window is a numeral with three
/// decimals.
pub open spec fn description(args: Args, window: Option<Seq<char>>) -> Seq<char> {
    let measured = match window {
        Some(seconds) => "fft frame gate — "@ + seconds + " s"@,
        None => "fft frame harness (ungated)"@,
    };
    let anchor = text_of(args.anchor_arg);
    let base = match args.startup@ {
        SourceModel::Blank => measured + ", blank window"@,
        SourceModel::Replay { path, .. } => match anchor {
            Some(at) => measured + ", replay "@ + path + " @ "@ + at,
            None => measured + ", replay "@ + path,
        },
        SourceModel::SimLive { path, live_out, .. } => match anchor {
            Some(head) => measured + ", sim-live "@ + path + " head "@ + head + " live-out "@
                + live_out,
            None => measured + ", sim-live "@ + path + " live-out "@ + live_out,
        },
    };
    if args.prior.len() > 0 {
        base + " +"@ + decimal(args.prior.len() as nat) + " priors"@
    } else {
        base
    }
}

/// What a run measured, in words.
pub fn gate_description(args: &Args, window: Option<&str>) -> (r: String)
    ensures
        r@ == description(
            *args,
            match window {
                Some(text) => Some(text@),
                None => None,
            },
        ),
{
    let mut out: String = match window {
        Some(seconds) => concat3("fft frame gate — ", seconds, " s"),
        None => "fft frame harness (ungated)".to_owned(),
    };
    match &args.startup {
        StartupSource::Blank => out.append(", blank window"),
        StartupSource::Replay { path, .. } => {
            out.append(", replay ");
            out.append(path.as_str());
            if let Some(at) = &args.anchor_arg {
                out.append(" @ ");
                out.append(at.as_str());
            }
        },
        StartupSource::SimLive { path, live_out, .. } => {
            out.append(", sim-live ");
            out.append(path.as_str());
            if let Some(head) = &args.anchor_arg {
                out.append(" head ");
                out.append(head.as_str());
            }
            out.append(" live-out ");
            out.append(live_out.as_str());
        },
    }
    if args.prior.len() > 0 {
        out.append(" +");
        push_decimal(&mut out, args.prior.len() as u64);
        out.append(" priors");
    }
    out
}

proof fn lemma_places(name: Seq<char>)
    ensures
        name == "--gate"@ ==> option_of(options(), name, 0) == 0,
        name == "--trace"@ ==> option_of(options(), name, 0) == 1,
        name == "--replay"@ ==> option_of(options(), name, 0) == 2,
        name == "--replay-at"@ ==> option_of(options(), name, 0) == 3,
        name == "--sim-live"@ ==> option_of(options(), name, 0) == 4,
        name == "--head"@ ==> option_of(options(), name, 0) == 5,
        name == "--live-out"@ ==> option_of(options(), name, 0) == 6,
        name == "--prior"@ ==> option_of(options(), name, 0) == 7,
        name == "--no-prior-discovery"@ ==> option_of(options(), name, 0) == 8,
        name == "--no-auto-ingest"@ ==> option_of(options(), name, 0) == 9,
        name == "--dbn-dir"@ ==> option_of(options(), name, 0) == 10,
        name == "--gate-out"@ ==> option_of(options(), name, 0) == 11,
        name == "--manifest"@ ==> option_of(options(), name, 0) == 12,
        name == "--conditions"@ ==> option_of(options(), name, 0) == 13,
        name == "--startup-trace"@ ==> option_of(options(), name, 0) == 14,
        name == "--scrub-latency-gate"@ ==> option_of(options(), name, 0) == 15,
        name == "--scrub-latency-out"@ ==> option_of(options(), name, 0) == 16,
        name == "--scrub-latency-seed"@ ==> option_of(options(), name, 0) == 17,
        name != "--gate"@
            && name != "--trace"@
            && name != "--replay"@
            && name != "--replay-at"@
            && name != "--sim-live"@
            && name != "--head"@
            && name != "--live-out"@
            && name != "--prior"@
            && name != "--no-prior-discovery"@
            && name != "--no-auto-ingest"@
            && name != "--dbn-dir"@
            && name != "--gate-out"@
            && name != "--manifest"@
            && name != "--conditions"@
            && name != "--startup-trace"@
            && name != "--scrub-latency-gate"@
            && name != "--scrub-latency-out"@
            && name != "--scrub-latency-seed"@ ==> option_of(
            options(),
            name,
            0,
        ) == 18,
{
    reveal_strlit("--gate");
    reveal_strlit("--trace");
    reveal_strlit("--replay");
    reveal_strlit("--replay-at");
    reveal_strlit("--sim-live");
    reveal_strlit("--head");
    reveal_strlit("--live-out");
    reveal_strlit("--prior");
    reveal_strlit("--no-prior-discovery");
    reveal_strlit("--no-auto-ingest");
    reveal_strlit("--dbn-dir");
    reveal_strlit("--gate-out");
    reveal_strlit("--manifest");
    reveal_strlit("--conditions");
    reveal_strlit("--startup-trace");
    reveal_strlit("--scrub-latency-gate");
    reveal_strlit("--scrub-latency-out");
    reveal_strlit("--scrub-latency-seed");
    assert("--gate"@.len() != "--trace"@.len());
    assert("--gate"@.len() != "--replay"@.len());
    assert("--trace"@.len() != "--replay"@.len());
    assert("--gate"@.len() != "--replay-at"@.len());
    assert("--trace"@.len() != "--replay-at"@.len());
    assert("--replay"@.len() != "--replay-at"@.len());
    assert("--gate"@.len() != "--sim-live"@.len());
    assert("--trace"@.len() != "--sim-live"@.len());
    assert("--replay"@.len() != "--sim-live"@.len());
    assert("--replay-at"@.len() != "--sim-live"@.len());
    assert("--gate"@[2] != "--head"@[2]);
    assert("--trace"@.len() != "--head"@.len());
    assert("--replay"@.len() != "--head"@.len());
    assert("--replay-at"@.len() != "--head"@.len());
    assert("--sim-live"@.len() != "--head"@.len());
    assert("--gate"@.len() != "--live-out"@.len());
    assert("--trace"@.len() != "--live-out"@.len());
    assert("--replay"@.len() != "--live-out"@.len());
    assert("--replay-at"@.len() != "--live-out"@.len());
    assert("--sim-live"@[2] != "--live-out"@[2]);
    assert("--head"@.len() != "--live-out"@.len());
    assert("--gate"@.len() != "--prior"@.len());
    assert("--trace"@[2] != "--prior"@[2]);
    assert("--replay"@.len() != "--prior"@.len());
    assert("--replay-at"@.len() != "--prior"@.len());
    assert("--sim-live"@.len() != "--prior"@.len());
    assert("--head"@.len() != "--prior"@.len());
    assert("--live-out"@.len() != "--prior"@.len());
    assert("--gate"@.len() != "--no-prior-discovery"@.len());
    assert("--trace"@.len() != "--no-prior-discovery"@.len());
    assert("--replay"@.len() != "--no-prior-discovery"@.len());
    assert("--replay-at"@.len() != "--no-prior-discovery"@.len());
    assert("--sim-live"@.len() != "--no-prior-discovery"@.len());
    assert("--head"@.len() != "--no-prior-discovery"@.len());
    assert("--live-out"@.len() != "--no-prior-discovery"@.len());
    assert("--prior"@.len() != "--no-prior-discovery"@.len());
    assert("--gate"@.len() != "--no-auto-ingest"@.len());
    assert("--trace"@.len() != "--no-auto-ingest"@.len());
    assert("--replay"@.len() != "--no-auto-ingest"@.len());
    assert("--replay-at"@.len() != "--no-auto-ingest"@.len());
    assert("--sim-live"@.len() != "--no-auto-ingest"@.len());
    assert("--head"@.len() != "--no-auto-ingest"@.len());
    assert("--live-out"@.len() != "--no-auto-ingest"@.len());
    assert("--prior"@.len() != "--no-auto-ingest"@.len());
    assert("--no-prior-discovery"@.len() != "--no-auto-ingest"@.len());
    assert("--gate"@.len() != "--dbn-dir"@.len());
    assert("--trace"@.len() != "--dbn-dir"@.len());
    assert("--replay"@.len() != "--dbn-dir"@.len());
    assert("--replay-at"@.len() != "--dbn-dir"@.len());
    assert("--sim-live"@.len() != "--dbn-dir"@.len());
    assert("--head"@.len() != "--dbn-dir"@.len());
    assert("--live-out"@.len() != "--dbn-dir"@.len());
    assert("--prior"@.len() != "--dbn-dir"@.len());
    assert("--no-prior-discovery"@.len() != "--dbn-dir"@.len());
    assert("--no-auto-ingest"@.len() != "--dbn-dir"@.len());
    assert("--gate"@.len() != "--gate-out"@.len());
    assert("--trace"@.len() != "--gate-out"@.len());
    assert("--replay"@.len() != "--gate-out"@.len());
    assert("--replay-at"@.len() != "--gate-out"@.len());
    assert("--sim-live"@[2] != "--gate-out"@[2]);
    assert("--head"@.len() != "--gate-out"@.len());
    assert("--live-out"@[2] != "--gate-out"@[2]);
    assert("--prior"@.len() != "--gate-out"@.len());
    assert("--no-prior-discovery"@.len() != "--gate-out"@.len());
    assert("--no-auto-ingest"@.len() != "--gate-out"@.len());
    assert("--dbn-dir"@.len() != "--gate-out"@.len());
    assert("--gate"@.len() != "--manifest"@.len());
    assert("--trace"@.len() != "--manifest"@.len());
    assert("--replay"@.len() != "--manifest"@.len());
    assert("--replay-at"@.len() != "--manifest"@.len());
    assert("--sim-live"@[2] != "--manifest"@[2]);
    assert("--head"@.len() != "--manifest"@.len());
    assert("--live-out"@[2] != "--manifest"@[2]);
    assert("--prior"@.len() != "--manifest"@.len());
    assert("--no-prior-discovery"@.len() != "--manifest"@.len());
    assert("--no-auto-ingest"@.len() != "--manifest"@.len());
    assert("--dbn-dir"@.len() != "--manifest"@.len());
    assert("--gate-out"@[2] != "--manifest"@[2]);
    assert("--gate"@.len() != "--conditions"@.len());
    assert("--trace"@.len() != "--conditions"@.len());
    assert("--replay"@.len() != "--conditions"@.len());
    assert("--replay-at"@.len() != "--conditions"@.len());
    assert("--sim-live"@.len() != "--conditions"@.len());
    assert("--head"@.len() != "--conditions"@.len());
    assert("--live-out"@.len() != "--conditions"@.len());
    assert("--prior"@.len() != "--conditions"@.len());
    assert("--no-prior-discovery"@.len() != "--conditions"@.len());
    assert("--no-auto-ingest"@.len() != "--conditions"@.len());
    assert("--dbn-dir"@.len() != "--conditions"@.len());
    assert("--gate-out"@.len() != "--conditions"@.len());
    assert("--manifest"@.len() != "--conditions"@.len());
    assert("--gate"@.len() != "--startup-trace"@.len());
    assert("--trace"@.len() != "--startup-trace"@.len());
    assert("--replay"@.len() != "--startup-trace"@.len());
    assert("--replay-at"@.len() != "--startup-trace"@.len());
    assert("--sim-live"@.len() != "--startup-trace"@.len());
    assert("--head"@.len() != "--startup-trace"@.len());
    assert("--live-out"@.len() != "--startup-trace"@.len());
    assert("--prior"@.len() != "--startup-trace"@.len());
    assert("--no-prior-discovery"@.len() != "--startup-trace"@.len());
    assert("--no-auto-ingest"@.len() != "--startup-trace"@.len());
    assert("--dbn-dir"@.len() != "--startup-trace"@.len());
    assert("--gate-out"@.len() != "--startup-trace"@.len());
    assert("--manifest"@.len() != "--startup-trace"@.len());
    assert("--conditions"@.len() != "--startup-trace"@.len());
    assert("--gate"@.len() != "--scrub-latency-gate"@.len());
    assert("--trace"@.len() != "--scrub-latency-gate"@.len());
    assert("--replay"@.len() != "--scrub-latency-gate"@.len());
    assert("--replay-at"@.len() != "--scrub-latency-gate"@.len());
    assert("--sim-live"@.len() != "--scrub-latency-gate"@.len());
    assert("--head"@.len() != "--scrub-latency-gate"@.len());
    assert("--live-out"@.len() != "--scrub-latency-gate"@.len());
    assert("--prior"@.len() != "--scrub-latency-gate"@.len());
    assert("--no-prior-discovery"@[2] != "--scrub-latency-gate"@[2]);
    assert("--no-auto-ingest"@.len() != "--scrub-latency-gate"@.len());
    assert("--dbn-dir"@.len() != "--scrub-latency-gate"@.len());
    assert("--gate-out"@.len() != "--scrub-latency-gate"@.len());
    assert("--manifest"@.len() != "--scrub-latency-gate"@.len());
    assert("--conditions"@.len() != "--scrub-latency-gate"@.len());
    assert("--startup-trace"@.len() != "--scrub-latency-gate"@.len());
    assert("--gate"@.len() != "--scrub-latency-out"@.len());
    assert("--trace"@.len() != "--scrub-latency-out"@.len());
    assert("--replay"@.len() != "--scrub-latency-out"@.len());
    assert("--replay-at"@.len() != "--scrub-latency-out"@.len());
    assert("--sim-live"@.len() != "--scrub-latency-out"@.len());
    assert("--head"@.len() != "--scrub-latency-out"@.len());
    assert("--live-out"@.len() != "--scrub-latency-out"@.len());
    assert("--prior"@.len() != "--scrub-latency-out"@.len());
    assert("--no-prior-discovery"@.len() != "--scrub-latency-out"@.len());
    assert("--no-auto-ingest"@.len() != "--scrub-latency-out"@.len());
    assert("--dbn-dir"@.len() != "--scrub-latency-out"@.len());
    assert("--gate-out"@.len() != "--scrub-latency-out"@.len());
    assert("--manifest"@.len() != "--scrub-latency-out"@.len());
    assert("--conditions"@.len() != "--scrub-latency-out"@.len());
    assert("--startup-trace"@.len() != "--scrub-latency-out"@.len());
    assert("--scrub-latency-gate"@.len() != "--scrub-latency-out"@.len());
    assert("--gate"@.len() != "--scrub-latency-seed"@.len());
    assert("--trace"@.len() != "--scrub-latency-seed"@.len());
    assert("--replay"@.len() != "--scrub-latency-seed"@.len());
    assert("--replay-at"@.len() != "--scrub-latency-seed"@.len());
    assert("--sim-live"@.len() != "--scrub-latency-seed"@.len());
    assert("--head"@.len() != "--scrub-latency-seed"@.len());
    assert("--live-out"@.len() != "--scrub-latency-seed"@.len());
    assert("--prior"@.len() != "--scrub-latency-seed"@.len());
    assert("--no-prior-discovery"@[2] != "--scrub-latency-seed"@[2]);
    assert("--no-auto-ingest"@.len() != "--scrub-latency-seed"@.len());
    assert("--dbn-dir"@.len() != "--scrub-latency-seed"@.len());
    assert("--gate-out"@.len() != "--scrub-latency-seed"@.len());
    assert("--manifest"@.len() != "--scrub-latency-seed"@.len());
    assert("--conditions"@.len() != "--scrub-latency-seed"@.len());
    assert("--startup-trace"@.len() != "--scrub-latency-seed"@.len());
    assert("--scrub-latency-gate"@[16] != "--scrub-latency-seed"@[16]);
    assert("--scrub-latency-out"@.len() != "--scrub-latency-seed"@.len());
    let table = options();
    assert(option_of(table, name, 18) == 18);
    assert(option_of(table, name, 17) == if name == "--scrub-latency-seed"@ {
        17
    } else {
        option_of(table, name, 18)
    });
    assert(option_of(table, name, 16) == if name == "--scrub-latency-out"@ {
        16
    } else {
        option_of(table, name, 17)
    });
    assert(option_of(table, name, 15) == if name == "--scrub-latency-gate"@ {
        15
    } else {
        option_of(table, name, 16)
    });
    assert(option_of(table, name, 14) == if name == "--startup-trace"@ {
        14
    } else {
        option_of(table, name, 15)
    });
    assert(option_of(table, name, 13) == if name == "--conditions"@ {
        13
    } else {
        option_of(table, name, 14)
    });
    assert(option_of(table, name, 12) == if name == "--manifest"@ {
        12
    } else {
        option_of(table, name, 13)
    });
    assert(option_of(table, name, 11) == if name == "--gate-out"@ {
        11
    } else {
        option_of(table, name, 12)
    });
    assert(option_of(table, name, 10) == if name == "--dbn-dir"@ {
        10
    } else {
        option_of(table, name, 11)
    });
    assert(option_of(table, name, 9) == if name == "--no-auto-ingest"@ {
        9
    } else {
        option_of(table, name, 10)
    });
    assert(option_of(table, name, 8) == if name == "--no-prior-discovery"@ {
        8
    } else {
        option_of(table, name, 9)
    });
    assert(option_of(table, name, 7) == if name == "--prior"@ {
        7
    } else {
        option_of(table, name, 8)
    });
    assert(option_of(table, name, 6) == if name == "--live-out"@ {
        6
    } else {
        option_of(table, name, 7)
    });
    assert(option_of(table, name, 5) == if name == "--head"@ {
        5
    } else {
        option_of(table, name, 6)
    });
    assert(option_of(table, name, 4) == if name == "--sim-live"@ {
        4
    } else {
        option_of(table, name, 5)
    });
    assert(option_of(table, name, 3) == if name == "--replay-at"@ {
        3
    } else {
        option_of(table, name, 4)
    });
    assert(option_of(table, name, 2) == if name == "--replay"@ {
        2
    } else {
        option_of(table, name, 3)
    });
    assert(option_of(table, name, 1) == if name == "--trace"@ {
        1
    } else {
        option_of(table, name, 2)
    });
    assert(option_of(table, name, 0) == if name == "--gate"@ {
        0
    } else {
        option_of(table, name, 1)
    });
}

/// Whether a word is the name of an option that takes a value.
pub open spec fn wants_value(name: Seq<char>) -> bool {
    ||| name == "--gate"@
    ||| name == "--trace"@
    ||| name == "--replay"@
    ||| name == "--replay-at"@
    ||| name == "--sim-live"@
    ||| name == "--head"@
    ||| name == "--live-out"@
    ||| name == "--prior"@
    ||| name == "--dbn-dir"@
    ||| name == "--gate-out"@
    ||| name == "--manifest"@
    ||| name == "--conditions"@
    ||| name == "--scrub-latency-gate"@
    ||| name == "--scrub-latency-out"@
    ||| name == "--scrub-latency-seed"@
}

/// An option with its value, behind a command line that is accepted, sets what it is named for
/// and leaves the rest as it was.
#[verifier::rlimit(90)]
#[verifier::spinoff_prover]
pub proof fn law_option_sets_its_own<V: Fn(&ScrubCheck) -> Option<String>>(
    words: &Vec<Word>,
    default_seed: u64,
    validate: V,
    name: Word,
    value: Word,
    n: nat,
    longer: &Vec<Word>,
    first: Result<Args, String>,
    second: Result<Args, String>,
)
    requires
        call_ensures(parse_args::<V>, (words, default_seed, validate), first),
        first is Ok,
        longer@ == words@ + seq![name, value],
        call_ensures(parse_args::<V>, (longer, default_seed, validate), second),
        second is Ok,
        wants_value(name.text@),
    ensures
        ({
            let a = first->Ok_0;
            let b = second->Ok_0;
            let t = name.text@;
            let v = value.text@;
            &&& t == "--gate"@ ==> value.fraction is Some && (value.fraction->0).positive && b.gate
                == Some((value.fraction->0).nanos)
            &&& t == "--replay"@ ==> (b.startup@ matches SourceModel::Replay { path, .. } && path == v)
            &&& t == "--replay-at"@ ==> (b.startup@ matches SourceModel::Replay { replay_at: at, .. }
                && at is Some && replay_at(v) == Ok::<u64, Seq<char>>(at->0)) && text_of(b.anchor_arg)
                == Some(v)
            &&& t == "--sim-live"@ ==> (b.startup@ matches SourceModel::SimLive { path, .. } && path
                == v)
            &&& t == "--head"@ ==> (b.startup@ matches SourceModel::SimLive { head_ts, .. }
                && replay_at(v) == Ok::<u64, Seq<char>>(head_ts)) && text_of(b.anchor_arg) == Some(v)
            &&& t == "--live-out"@ ==> (b.startup@ matches SourceModel::SimLive { live_out, .. }
                && live_out == v)
            &&& t == "--prior"@ ==> value.is_file && texts_of(b.prior@) == texts_of(a.prior@).push(v)
            &&& t == "--dbn-dir"@ ==> value.is_dir && text_of(b.dbn_dir) == Some(v)
            &&& t == "--manifest"@ ==> value.is_file && text_of(b.manifest) == Some(v)
            &&& t == "--trace"@ ==> text_of(b.trace) == Some(v)
            &&& t == "--gate-out"@ ==> text_of(b.gate_out) == Some(v)
            &&& t == "--conditions"@ ==> text_of(b.conditions) == Some(v)
            &&& t == "--scrub-latency-out"@ ==> text_of(b.scrub_latency_out) == Some(v)
            &&& t == "--scrub-latency-gate"@ && v == decimal(n) ==> n <= 0xffff_ffff
                && b.scrub_latency_gate == Some(n as u64)
            &&& t == "--scrub-latency-seed"@ && v == decimal(n) ==> n <= u64::MAX
                && b.scrub_latency_seed == n
            &&& t == "--replay"@ || t == "--replay-at"@ || t == "--sim-live"@ || t == "--head"@ || t
                == "--live-out"@ || (b.startup@ == a.startup@ && text_of(b.anchor_arg) == text_of(
                a.anchor_arg,
            ))
            &&& t == "--gate"@ || b.gate == a.gate
            &&& t == "--trace"@ || text_of(b.trace) == text_of(a.trace)
            &&& t == "--dbn-dir"@ || text_of(b.dbn_dir) == text_of(a.dbn_dir)
            &&& t == "--gate-out"@ || text_of(b.gate_out) == text_of(a.gate_out)
            &&& t == "--manifest"@ || text_of(b.manifest) == text_of(a.manifest)
            &&& t == "--conditions"@ || text_of(b.conditions) == text_of(a.conditions)
            &&& t == "--scrub-latency-out"@ || text_of(b.scrub_latency_out) == text_of(a.scrub_latency_out)
            &&& t == "--scrub-latency-gate"@ || b.scrub_latency_gate == a.scrub_latency_gate
            &&& t == "--scrub-latency-seed"@ || b.scrub_latency_seed == a.scrub_latency_seed
            &&& t == "--prior"@ || texts_of(b.prior@) == texts_of(a.prior@)
            &&& b.no_prior_discovery == a.no_prior_discovery
            &&& b.no_auto_ingest == a.no_auto_ingest
            &&& b.startup_trace == a.startup_trace
        }),
{
    lemma_places(name.text@);
    let done = read_words(options(), Positional::Refused("unknown argument: "), words@, 0, Seq::empty())->Ok_0;
    let option = option_of(options(), name.text@, 0);
    lemma_option_with_value(options(), Positional::Refused("unknown argument: "), words@, name, value);
    if option == 15 || option == 17 {
        lemma_numeral_worth(options()[option].kind->Number_0, n);
    }
    lemma_added(done, option, value_of(options()[option].kind, value)->Ok_0);
}

/// A single word behind a command line that is accepted: a switch is on from then on, a word that
/// is not known refuses the whole, and so does an option without its value.
#[verifier::rlimit(60)]
#[verifier::spinoff_prover]
pub proof fn law_single_word<V: Fn(&ScrubCheck) -> Option<String>>(
    words: &Vec<Word>,
    default_seed: u64,
    validate: V,
    word: Word,
    longer: &Vec<Word>,
    first: Result<Args, String>,
    second: Result<Args, String>,
)
    requires
        call_ensures(parse_args::<V>, (words, default_seed, validate), first),
        first is Ok,
        longer@ == words@ + seq![word],
        call_ensures(parse_args::<V>, (longer, default_seed, validate), second),
    ensures
        word.text@ == "--gate"@ ==> second is Err && second->Err_0@ == "--gate requires <seconds>"@,
        word.text@ == "--trace"@ ==> second is Err && second->Err_0@ == "--trace requires <path>"@,
        word.text@ == "--replay"@ ==> second is Err && second->Err_0@ == "--replay requires <fftlog>"@,
        word.text@ == "--replay-at"@ ==> second is Err && second->Err_0@ == "--replay-at requires <ts>"@,
        word.text@ == "--sim-live"@ ==> second is Err && second->Err_0@ == "--sim-live requires <fftlog>"@,
        word.text@ == "--head"@ ==> second is Err && second->Err_0@ == "--head requires <ts>"@,
        word.text@ == "--live-out"@ ==> second is Err && second->Err_0@ == "--live-out requires <path>"@,
        word.text@ == "--prior"@ ==> second is Err && second->Err_0@ == "--prior requires <fftlog>"@,
        word.text@ == "--no-prior-discovery"@ && second is Ok ==> ({
            let a = first->Ok_0;
            let b = second->Ok_0;
            &&& b.no_prior_discovery
            &&& b.startup@ == a.startup@
            &&& text_of(b.anchor_arg) == text_of(a.anchor_arg)
            &&& b.gate == a.gate
            &&& text_of(b.trace) == text_of(a.trace)
            &&& text_of(b.dbn_dir) == text_of(a.dbn_dir)
            &&& text_of(b.gate_out) == text_of(a.gate_out)
            &&& text_of(b.manifest) == text_of(a.manifest)
            &&& text_of(b.conditions) == text_of(a.conditions)
            &&& text_of(b.scrub_latency_out) == text_of(a.scrub_latency_out)
            &&& b.scrub_latency_gate == a.scrub_latency_gate
            &&& b.scrub_latency_seed == a.scrub_latency_seed
            &&& texts_of(b.prior@) == texts_of(a.prior@)
            &&& b.no_auto_ingest == a.no_auto_ingest
            &&& b.startup_trace == a.startup_trace
        }),
        word.text@ == "--no-auto-ingest"@ && second is Ok ==> ({
            let a = first->Ok_0;
            let b = second->Ok_0;
            &&& b.no_auto_ingest
            &&& b.startup@ == a.startup@
            &&& text_of(b.anchor_arg) == text_of(a.anchor_arg)
            &&& b.gate == a.gate
            &&& text_of(b.trace) == text_of(a.trace)
            &&& text_of(b.dbn_dir) == text_of(a.dbn_dir)
            &&& text_of(b.gate_out) == text_of(a.gate_out)
            &&& text_of(b.manifest) == text_of(a.manifest)
            &&& text_of(b.conditions) == text_of(a.conditions)
            &&& text_of(b.scrub_latency_out) == text_of(a.scrub_latency_out)
            &&& b.scrub_latency_gate == a.scrub_latency_gate
            &&& b.scrub_latency_seed == a.scrub_latency_seed
            &&& texts_of(b.prior@) == texts_of(a.prior@)
            &&& b.no_prior_discovery == a.no_prior_discovery
            &&& b.startup_trace == a.startup_trace
        }),
        word.text@ == "--dbn-dir"@ ==> second is Err && second->Err_0@ == "--dbn-dir requires <path>"@,
        word.text@ == "--gate-out"@ ==> second is Err && second->Err_0@ == "--gate-out requires <path>"@,
        word.text@ == "--manifest"@ ==> second is Err && second->Err_0@ == "--manifest requires <path>"@,
        word.text@ == "--conditions"@ ==> second is Err && second->Err_0@ == "--conditions requires <text>"@,
        word.text@ == "--startup-trace"@ && second is Ok ==> ({
            let a = first->Ok_0;
            let b = second->Ok_0;
            &&& b.startup_trace
            &&& b.startup@ == a.startup@
            &&& text_of(b.anchor_arg) == text_of(a.anchor_arg)
            &&& b.gate == a.gate
            &&& text_of(b.trace) == text_of(a.trace)
            &&& text_of(b.dbn_dir) == text_of(a.dbn_dir)
            &&& text_of(b.gate_out) == text_of(a.gate_out)
            &&& text_of(b.manifest) == text_of(a.manifest)
            &&& text_of(b.conditions) == text_of(a.conditions)
            &&& text_of(b.scrub_latency_out) == text_of(a.scrub_latency_out)
            &&& b.scrub_latency_gate == a.scrub_latency_gate
            &&& b.scrub_latency_seed == a.scrub_latency_seed
            &&& texts_of(b.prior@) == texts_of(a.prior@)
            &&& b.no_prior_discovery == a.no_prior_discovery
            &&& b.no_auto_ingest == a.no_auto_ingest
        }),
        word.text@ == "--scrub-latency-gate"@ ==> second is Err && second->Err_0@ == "--scrub-latency-gate requires <N>"@,
        word.text@ == "--scrub-latency-out"@ ==> second is Err && second->Err_0@ == "--scrub-latency-out requires <path>"@,
        word.text@ == "--scrub-latency-seed"@ ==> second is Err && second->Err_0@ == "--scrub-latency-seed requires <u64>"@,
        word.text@ != "--gate"@
            && word.text@ != "--trace"@
            && word.text@ != "--replay"@
            && word.text@ != "--replay-at"@
            && word.text@ != "--sim-live"@
            && word.text@ != "--head"@
            && word.text@ != "--live-out"@
            && word.text@ != "--prior"@
            && word.text@ != "--no-prior-discovery"@
            && word.text@ != "--no-auto-ingest"@
            && word.text@ != "--dbn-dir"@
            && word.text@ != "--gate-out"@
            && word.text@ != "--manifest"@
            && word.text@ != "--conditions"@
            && word.text@ != "--startup-trace"@
            && word.text@ != "--scrub-latency-gate"@
            && word.text@ != "--scrub-latency-out"@
            && word.text@ != "--scrub-latency-seed"@ ==> second is Err
            && second->Err_0@ == "unknown argument: "@ + word.text@,
{
    lemma_places(word.text@);
    lemma_single_word(options(), Positional::Refused("unknown argument: "), words@, word);
    let done = read_words(options(), Positional::Refused("unknown argument: "), words@, 0, Seq::empty())->Ok_0;
    lemma_added(done, option_of(options(), word.text@, 0), ValueModel::On);
}

/// Without a word the display is blank and is asked for nothing.
pub proof fn law_nothing_asked<V: Fn(&ScrubCheck) -> Option<String>>(
    words: &Vec<Word>,
    default_seed: u64,
    validate: V,
    r: Result<Args, String>,
)
    requires
        call_ensures(parse_args::<V>, (words, default_seed, validate), r),
        words@.len() == 0,
        forall|check: &ScrubCheck, answer: Option<String>|
            call_ensures(validate, (check,), answer) ==> answer is None,
    ensures
        r is Ok,
        (r->Ok_0).startup@ is Blank,
        (r->Ok_0).gate is None,
        (r->Ok_0).trace is None,
        (r->Ok_0).anchor_arg is None,
        (r->Ok_0).prior@.len() == 0,
        !(r->Ok_0).no_prior_discovery,
        !(r->Ok_0).no_auto_ingest,
        (r->Ok_0).dbn_dir is None,
        (r->Ok_0).gate_out is None,
        (r->Ok_0).manifest is None,
        (r->Ok_0).conditions is None,
        !(r->Ok_0).startup_trace,
        (r->Ok_0).scrub_latency_gate is None,
        (r->Ok_0).scrub_latency_out is None,
        (r->Ok_0).scrub_latency_seed == default_seed,
{
    assert(texts_of((r->Ok_0).prior@).len() == (r->Ok_0).prior@.len());
}

/// What an accepted command line asks for goes together: earlier days only with a replay, no
/// search for them in a simulation, marks of the startup only with a source, and the scrub
/// latency options as they were found in order.
pub proof fn law_options_go_together<V: Fn(&ScrubCheck) -> Option<String>>(
    words: &Vec<Word>,
    default_seed: u64,
    validate: V,
    r: Result<Args, String>,
)
    requires
        call_ensures(parse_args::<V>, (words, default_seed, validate), r),
        r is Ok,
    ensures
        (r->Ok_0).prior@.len() > 0 ==> (r->Ok_0).startup@ is Replay,
        (r->Ok_0).startup@ is SimLive ==> !(r->Ok_0).no_prior_discovery
            && !(r->Ok_0).no_auto_ingest && (r->Ok_0).dbn_dir is None,
        (r->Ok_0).startup_trace ==> !((r->Ok_0).startup@ is Blank),
        exists|check: ScrubCheck|
            {
                &&& #[trigger] call_ensures(validate, (&check,), None)
                &&& check.samples == (r->Ok_0).scrub_latency_gate
                &&& text_of(check.out) == text_of((r->Ok_0).scrub_latency_out)
                &&& check.startup_trace == (r->Ok_0).startup_trace
                &&& check.gated == ((r->Ok_0).gate is Some)
                &&& check.replaying == ((r->Ok_0).startup@ is Replay)
            },
{
    assert(texts_of((r->Ok_0).prior@).len() == (r->Ok_0).prior@.len());
}

/// The options of the source make one: none of them a blank display, a log with or without a
/// time a replay, and a log, a head and another file to write a simulation. Nothing else does.
pub proof fn law_sources(
    replay: Option<String>,
    sim_live: Option<String>,
    at: Option<u64>,
    head: Option<u64>,
    live_out: Option<String>,
    r: Result<StartupSource, String>,
)
    requires
        call_ensures(startup_source, (replay, sim_live, at, head, live_out), r),
    ensures
        (r is Ok && r->Ok_0@ is Blank) <==> (replay is None && sim_live is None && at is None
            && head is None && live_out is None),
        (r is Ok && r->Ok_0@ is Replay) <==> (replay is Some && sim_live is None && head is None
            && live_out is None),
        (r is Ok && r->Ok_0@ is SimLive) <==> (sim_live is Some && head is Some && live_out is Some
            && replay is None && at is None && !same_path((sim_live->0)@, (live_out->0)@)),
        r is Ok ==> (r->Ok_0@ matches SourceModel::Replay { path, replay_at } ==> path == (replay->0)@
            && replay_at == at),
        r is Ok ==> (r->Ok_0@ matches SourceModel::SimLive { path, head_ts, live_out: out } ==> path
            == (sim_live->0)@ && head_ts == head->0 && out == (live_out->0)@),
        sim_live is Some && (replay is Some || at is Some) ==> r->Err_0@
            == "--sim-live is mutually exclusive with --replay / --replay-at"@,
        sim_live is Some && replay is None && at is None && (head is None || live_out is None)
            ==> r->Err_0@ == "--sim-live requires --head and --live-out"@,
        sim_live is None && replay is None && at is Some ==> r->Err_0@
            == "--replay-at requires --replay"@,
        sim_live is None && head is Some && (replay is Some || at is None) ==> r->Err_0@
            == "--head / --live-out require --sim-live"@,
{
}

/// Only a display without a source does without an engine.
pub proof fn law_engine(source: &StartupSource, r: bool)
    requires
        call_ensures(StartupSource::starts_engine, (source,), r),
    ensures
        !r <==> *source == StartupSource::Blank,
{
}

/// The words about a run name its window, its source and where that starts, and how many earlier
/// days were given.
pub proof fn law_described(
    args: &Args,
    window: &str,
    path: Seq<char>,
    out: Seq<char>,
    gated: String,
    ungated: String,
)
    requires
        call_ensures(gate_description, (args, Some(window)), gated),
        call_ensures(gate_description, (args, None), ungated),
    ensures
        args.startup is Blank && args.prior.len() == 0 ==> gated@ == "fft frame gate — "@ + window@
            + " s"@ + ", blank window"@ && ungated@ == "fft frame harness (ungated)"@
            + ", blank window"@,
        (args.startup@ matches SourceModel::Replay { path: p, .. } && p == path) && args.prior.len()
            == 0 && args.anchor_arg is None ==> gated@ == "fft frame gate — "@ + window@ + " s"@
            + ", replay "@ + path && ungated@ == "fft frame harness (ungated)"@ + ", replay "@
            + path,
        (args.startup@ matches SourceModel::Replay { path: p, .. } && p == path) && args.prior.len()
            == 0 && args.anchor_arg is Some ==> gated@ == "fft frame gate — "@ + window@ + " s"@
            + ", replay "@ + path + " @ "@ + (args.anchor_arg->0)@,
        (args.startup@ matches SourceModel::Replay { path: p, .. } && p == path) && args.prior.len()
            > 0 && args.anchor_arg is Some ==> gated@ == "fft frame gate — "@ + window@ + " s"@
            + ", replay "@ + path + " @ "@ + (args.anchor_arg->0)@ + " +"@ + decimal(
            args.prior.len() as nat,
        ) + " priors"@,
        (args.startup@ matches SourceModel::SimLive { path: p, live_out, .. } && p == path && live_out
            == out) && args.prior.len() == 0 && args.anchor_arg is Some ==> gated@
            == "fft frame gate — "@ + window@ + " s"@ + ", sim-live "@ + path + " head "@ + (
        args.anchor_arg->0)@ + " live-out "@ + out,
{
}

/// Options that do not touch the source are accepted with any source, where their values are
/// sound and the scrub latency options are found in order.
#[verifier::rlimit(60)]
#[verifier::spinoff_prover]
pub proof fn law_options_accepted<V: Fn(&ScrubCheck) -> Option<String>>(
    words: &Vec<Word>,
    default_seed: u64,
    validate: V,
    name: Word,
    value: Word,
    n: nat,
    longer: &Vec<Word>,
    first: Result<Args, String>,
    second: Result<Args, String>,
)
    requires
        call_ensures(parse_args::<V>, (words, default_seed, validate), first),
        first is Ok,
        longer@ == words@ + seq![name, value],
        call_ensures(parse_args::<V>, (longer, default_seed, validate), second),
        forall|check: &ScrubCheck, answer: Option<String>|
            call_ensures(validate, (check,), answer) ==> answer is None,
    ensures
        name.text@ == "--trace"@ ==> second is Ok,
        name.text@ == "--gate-out"@ ==> second is Ok,
        name.text@ == "--conditions"@ ==> second is Ok,
        name.text@ == "--scrub-latency-out"@ ==> second is Ok,
        name.text@ == "--manifest"@ && value.is_file ==> second is Ok,
        name.text@ == "--manifest"@ && !value.is_file ==> second is Err && second->Err_0@
            == "--manifest file does not exist: "@ + value.text@,
        name.text@ == "--prior"@ && !value.is_file ==> second is Err && second->Err_0@
            == "--prior file does not exist: "@ + value.text@,
        name.text@ == "--prior"@ && value.is_file && (first->Ok_0).startup@ is Replay ==> second is Ok,
        name.text@ == "--dbn-dir"@ && !value.is_dir ==> second is Err && second->Err_0@
            == "--dbn-dir is not a directory: "@ + value.text@,
        name.text@ == "--dbn-dir"@ && value.is_dir && !((first->Ok_0).startup@ is SimLive)
            ==> second is Ok,
        name.text@ == "--gate"@ && value.fraction is Some && (value.fraction->0).positive
            ==> second is Ok,
        name.text@ == "--replay"@ && !((first->Ok_0).startup@ is SimLive) ==> second is Ok,
        name.text@ == "--scrub-latency-gate"@ && value.text@ == decimal(n) && n <= 0xffff_ffff
            ==> second is Ok,
        name.text@ == "--scrub-latency-seed"@ && value.text@ == decimal(n) && n <= u64::MAX
            ==> second is Ok,
{
    lemma_places(name.text@);
    let done = read_words(
        options(),
        Positional::Refused("unknown argument: "),
        words@,
        0,
        Seq::empty(),
    )->Ok_0;
    let option = option_of(options(), name.text@, 0);
    if wants_value(name.text@) {
        lemma_option_with_value(
            options(),
            Positional::Refused("unknown argument: "),
            words@,
            name,
            value,
        );
        if option == 15 || option == 17 {
            lemma_numeral_worth(options()[option].kind->Number_0, n);
        }
        if value_of(options()[option].kind, value) is Ok {
            lemma_added(done, option, value_of(options()[option].kind, value)->Ok_0);
        }
    }
}

/// A text cut at a slash has the parts of both sides.
proof fn lemma_segments_cut(a: Seq<char>, b: Seq<char>)
    ensures
        segments(a + seq!['/'] + b) == segments(a) + segments(b),
    decreases a.len(),
{
    let whole = a + seq!['/'] + b;
    lemma_first_index(a, '/');
    lemma_first_index(whole, '/');
    let at = first_index(a, '/');
    let found = first_index(whole, '/');
    if at >= a.len() {
        assert(whole[a.len() as int] == '/');
        assert(whole.contains('/'));
        if found < a.len() {
            assert(a[found] == '/');
            assert(a.contains('/'));
        }
        assert(found == a.len());
        assert(whole.take(found) =~= a);
        assert(whole.skip(found + 1) =~= b);
    } else {
        assert(whole[at] == '/');
        assert(whole.contains('/'));
        if found < at {
            assert(a[found] == whole[found]);
        }
        assert(found == at);
        assert(whole.take(found) =~= a.take(at));
        assert(whole.skip(found + 1) =~= a.skip(at + 1) + seq!['/'] + b);
        lemma_segments_cut(a.skip(at + 1), b);
        assert(seq![a.take(at)] + (segments(a.skip(at + 1)) + segments(b)) =~= (seq![a.take(at)]
            + segments(a.skip(at + 1))) + segments(b));
    }
}

proof fn lemma_telling_from(p: Seq<Seq<char>>, q: Seq<Seq<char>>, j: int)
    requires
        0 <= j <= p.len(),
    ensures
        telling(p + q, j) == telling(p, j) + telling(p + q, p.len() as int),
    decreases p.len() - j,
{
    if j < p.len() {
        assert((p + q)[j] == p[j]);
        lemma_telling_from(p, q, j + 1);
        assert(seq![p[j]] + (telling(p, j + 1) + telling(p + q, p.len() as int)) =~= (seq![p[j]]
            + telling(p, j + 1)) + telling(p + q, p.len() as int));
    }
}

/// Whether a text is the name of a file: one part of a path, and not the dot.
pub open spec fn plain_name(s: Seq<char>) -> bool {
    s.len() > 0 && !s.contains('/') && s != seq!['.']
}

proof fn lemma_plain_name(x: Seq<char>)
    requires
        plain_name(x),
    ensures
        segments(x) == seq![x],
        telling(segments(x), 0) == seq![x],
        x[0] != '/',
{
    lemma_first_index(x, '/');
    assert(segments(x) =~= seq![x]);
    reveal_with_fuel(telling, 2);
    if x[0] == '/' {
        assert(x.contains('/'));
    }
}

proof fn lemma_name_in_directory(d: Seq<char>, x: Seq<char>)
    requires
        plain_name(x),
    ensures
        telling(segments(d + seq!['/'] + x), 0) == telling(segments(d), 0) + seq![x],
        telling(segments(d + seq!['/', '/'] + x), 0) == telling(segments(d), 0) + seq![x],
        telling(segments(d + seq!['/', '.', '/'] + x), 0) == telling(segments(d), 0) + seq![x],
        telling(segments(d + seq!['/'] + x + seq!['/']), 0) == telling(segments(d), 0) + seq![x],
{
    let slash = seq!['/'];
    let none = Seq::<char>::empty();
    let dot = seq!['.'];
    let parts = segments(d);
    lemma_plain_name(x);
    assert(segments(none) =~= seq![none]);
    lemma_first_index(dot, '/');
    assert(segments(dot) =~= seq![dot]);
    assert(parts.len() > 0);
    lemma_segments_cut(d, x);
    lemma_telling_from(parts, seq![x], 0);
    reveal_with_fuel(telling, 3);
    assert(telling(parts + seq![x], parts.len() as int) =~= seq![x]);

    lemma_segments_cut(none, x);
    lemma_segments_cut(d, none + slash + x);
    assert(d + slash + (none + slash + x) =~= d + seq!['/', '/'] + x);
    let two = seq![none] + seq![x];
    lemma_telling_from(parts, two, 0);
    assert((parts + two)[parts.len() as int] == none);
    assert((parts + two)[(parts.len() + 1) as int] == x);
    assert(telling(parts + two, parts.len() as int) =~= seq![x]);

    lemma_segments_cut(dot, x);
    lemma_segments_cut(d, dot + slash + x);
    assert(d + slash + (dot + slash + x) =~= d + seq!['/', '.', '/'] + x);
    let dotted = seq![dot] + seq![x];
    lemma_telling_from(parts, dotted, 0);
    assert((parts + dotted)[parts.len() as int] == dot);
    assert((parts + dotted)[(parts.len() + 1) as int] == x);
    assert(telling(parts + dotted, parts.len() as int) =~= seq![x]);

    lemma_segments_cut(x, none);
    lemma_segments_cut(d, x + slash + none);
    assert(d + slash + (x + slash + none) =~= d + slash + x + slash);
    let closed = seq![x] + seq![none];
    lemma_telling_from(parts, closed, 0);
    assert((parts + closed)[parts.len() as int] == x);
    assert((parts + closed)[(parts.len() + 1) as int] == none);
    assert(telling(parts + closed, parts.len() as int) =~= seq![x]);
}

/// Two files of one directory are told apart by their names alone; a slash more, a dot between
/// slashes or a slash at the end changes nothing. A path from the root is no relative one.
pub proof fn law_paths(d: Seq<char>, x: Seq<char>, y: Seq<char>, a: &str, b: &str, r: bool)
    requires
        plain_name(x),
        plain_name(y),
        call_ensures(paths_equal, (a, b), r),
    ensures
        a@ == x && b@ == y ==> r == (x == y),
        a@ == d + seq!['/'] + x && b@ == d + seq!['/'] + y ==> r == (x == y),
        a@ == d + seq!['/'] + x && b@ == d + seq!['/', '/'] + y ==> r == (x == y),
        a@ == d + seq!['/'] + x && b@ == d + seq!['/', '.', '/'] + y ==> r == (x == y),
        a@ == d + seq!['/'] + x && b@ == d + seq!['/'] + y + seq!['/'] ==> r == (x == y),
        a@ == seq!['/'] + x && b@ == x ==> !r,
{
    lemma_plain_name(x);
    lemma_plain_name(y);
    lemma_name_in_directory(d, x);
    lemma_name_in_directory(d, y);
    let before = telling(segments(d), 0);
    assert((before + seq![x])[before.len() as int] == x);
    assert((before + seq![y])[before.len() as int] == y);
    assert(seq![x][0] == x && seq![y][0] == y);
}

} // verus!
