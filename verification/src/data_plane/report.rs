//! The evidence document and the rules behind its verdicts.

use super::sections::StateSections;
use crate::json::{
    escaped, listed, number, number_or_null, plain, plain_or_null, push_number,
    push_number_or_null, push_plain, push_quoted, push_quoted_or_null,
    push_truth, push_verdict, quoted, quoted_or_null, truth, verdict_word,
};
use crate::text::{concat2, concat3, concat4, decimal, push_decimal, text_of};
use vstd::prelude::*;

verus! {

/// What the comparison with an older log of the same day needs to know of it.
#[derive(Debug)]
pub enum LegacyLookup {
    /// No directory of older logs was given.
    NotRequested,
    /// There is no such log.
    Missing(String),
    /// The log cannot be read, with the reason.
    Unreadable(String, String),
    /// The log and its size.
    Found(String, u64),
}

/// The size of a log over that of the older one: its numeral, and whether it is at most a half.
#[derive(Debug)]
pub struct LegacyRatio {
    pub numeral: String,
    pub at_most_half: bool,
}

/// One day that was read. Quotients are numerals with six decimals.
#[derive(Debug)]
pub struct DayStat {
    pub path: String,
    pub trade_date: u32,
    pub trade_date_ymd: String,
    pub symbol: String,
    pub event_count: u64,
    pub file_bytes: u64,
    pub bytes_per_event: String,
    pub legacy_bytes: Option<u64>,
    pub legacy_ratio: Option<LegacyRatio>,
    pub legacy_status: String,
}

/// The result of one replay to the end. The time is a numeral with nine decimals.
#[derive(Debug)]
pub struct ApplyResult {
    pub events: u64,
    pub seconds: String,
    pub sections: StateSections,
    pub applied_seq: u64,
    pub applied_ts: u64,
}

/// One replay in chunks, compared with the replay in one go.
#[derive(Debug)]
pub struct DiffTrial {
    pub trial: usize,
    pub n_chunks: usize,
    pub chunk_sizes: Vec<usize>,
    pub match_oneshot: bool,
    pub seconds: String,
    pub fail_reason: Option<String>,
}

/// What identifies the run and what was decided of it.
#[derive(Debug)]
pub struct RunFacts {
    pub git_sha: String,
    pub date_utc: String,
    pub smoke: bool,
    pub seed: u64,
    pub apply_pass: bool,
    /// The budget of the replay in seconds, as a numeral.
    pub apply_budget: String,
}

/// How the timings of a run are labelled.
pub open spec fn timing_label(smoke: bool) -> Seq<char> {
    if smoke {
        "SMOKE"@
    } else {
        "QUIET_BOX"@
    }
}

/// The name of an older log.
pub fn legacy_name(ymd: &str, symbol: &str) -> (r: String)
    ensures
        r@ == ymd@ + "-"@ + symbol@ + ".fftlog"@,
{
    concat4(ymd, "-", symbol, ".fftlog")
}

/// The status that a lookup is reported with.
pub open spec fn status_text(lookup: LegacyLookup) -> Seq<char> {
    match lookup {
        LegacyLookup::NotRequested => "not_requested"@,
        LegacyLookup::Missing(path) => "missing:"@ + path@,
        LegacyLookup::Unreadable(path, error) => "unreadable:"@ + path@ + ":"@ + error@,
        LegacyLookup::Found(path, bytes) => "ok:"@ + path@ + ":"@ + decimal(bytes as nat) + "B"@,
    }
}

/// The size of the older log, where there is one, and the status of the lookup.
pub fn legacy_fields(lookup: &LegacyLookup) -> (r: (Option<u64>, String))
    ensures
        r.0 == (match *lookup {
            LegacyLookup::Found(_, bytes) => Some(bytes),
            _ => None,
        }),
        r.1@ == status_text(*lookup),
{
    match lookup {
        LegacyLookup::NotRequested => (None, "not_requested".to_owned()),
        LegacyLookup::Missing(path) => (None, concat2("missing:", path.as_str())),
        LegacyLookup::Unreadable(path, error) => (
            None,
            concat4("unreadable:", path.as_str(), ":", error.as_str()),
        ),
        LegacyLookup::Found(path, bytes) => {
            let mut out: String = concat3("ok:", path.as_str(), ":");
            push_decimal(&mut out, *bytes);
            out.append("B");
            (Some(*bytes), out)
        },
    }
}

/// The day with the most events, the last of them where several have as many.
pub fn busiest(days: &Vec<DayStat>) -> (r: Option<usize>)
    ensures
        r is None <==> days.len() == 0,
        r is Some ==> ({
            let at = r->0 as int;
            &&& at < days.len()
            &&& forall|i: int|
                0 <= i < days.len() ==> (#[trigger] days@[i]).event_count <= days@[at].event_count
            &&& forall|i: int|
                at < i < days.len() ==> (#[trigger] days@[i]).event_count < days@[at].event_count
        }),
{
    if days.len() == 0 {
        return None;
    }
    let mut at: usize = 0;
    let mut i: usize = 1;
    while i < days.len()
        invariant
            at < i <= days.len(),
            forall|j: int|
                0 <= j < i ==> (#[trigger] days@[j]).event_count <= days@[at as int].event_count,
            forall|j: int|
                at < j < i ==> (#[trigger] days@[j]).event_count < days@[at as int].event_count,
        decreases days.len() - i,
    {
        if days[i].event_count >= days[at].event_count {
            at = i;
        }
        i += 1;
    }
    Some(at)
}

/// Whether some day has no older log to compare with.
pub open spec fn unverified(days: Seq<DayStat>) -> bool {
    exists|i: int| 0 <= i < days.len() && (#[trigger] days[i]).legacy_ratio is None
}

/// Whether a day is at most half as large as its older log.
pub open spec fn is_halved(d: DayStat) -> bool {
    d.legacy_ratio is Some && d.legacy_ratio->0.at_most_half
}

/// Whether every day is at most half as large as its older log.
pub open spec fn all_halved(days: Seq<DayStat>) -> bool {
    forall|i: int| 0 <= i < days.len() ==> is_halved(#[trigger] days[i])
}

/// What is claimed of the sizes: nothing, unless every day could be compared.
pub open spec fn size_claim_word(days: Seq<DayStat>) -> Seq<char> {
    if unverified(days) {
        "UNVERIFIED"@
    } else if all_halved(days) {
        "PASS"@
    } else {
        "FAIL"@
    }
}

/// Whether the sizes could not all be compared, and what is claimed of them.
pub fn size_claim(days: &Vec<DayStat>) -> (r: (bool, &'static str))
    ensures
        r.0 == unverified(days@),
        r.1@ == size_claim_word(days@),
{
    let mut missing: bool = false;
    let mut halved: bool = true;
    let mut i: usize = 0;
    while i < days.len()
        invariant
            i <= days.len(),
            missing == exists|j: int| 0 <= j < i && (#[trigger] days@[j]).legacy_ratio is None,
            halved == forall|j: int| 0 <= j < i ==> is_halved(#[trigger] days@[j]),
        decreases days.len() - i,
    {
        match &days[i].legacy_ratio {
            None => {
                assert(!is_halved(days@[i as int]));
                missing = true;
                halved = false;
            },
            Some(ratio) => {
                if !ratio.at_most_half {
                    assert(!is_halved(days@[i as int]));
                    halved = false;
                }
            },
        }
        i += 1;
    }
    if missing {
        (true, "UNVERIFIED")
    } else if halved {
        (false, "PASS")
    } else {
        (false, "FAIL")
    }
}

/// Whether every trial matched.
pub open spec fn all_match(trials: Seq<DiffTrial>) -> bool {
    forall|i: int| 0 <= i < trials.len() ==> (#[trigger] trials[i]).match_oneshot
}

/// Whether every trial matched.
pub fn trials_match(trials: &Vec<DiffTrial>) -> (r: bool)
    ensures
        r == all_match(trials@),
{
    let mut i: usize = 0;
    while i < trials.len()
        invariant
            i <= trials.len(),
            forall|j: int| 0 <= j < i ==> (#[trigger] trials@[j]).match_oneshot,
        decreases trials.len() - i,
    {
        if !trials[i].match_oneshot {
            assert(!trials@[i as int].match_oneshot);
            return false;
        }
        i += 1;
    }
    true
}

/// Whether the run ends with a failure. A smoke run never does: its timings claim nothing.
pub fn run_fails(smoke: bool, apply_pass: bool, all_match: bool) -> (r: bool)
    ensures
        r == (!smoke && !(apply_pass && all_match)),
{
    !smoke && (!apply_pass || !all_match)
}

/// The numeral of a ratio, where there is one.
pub open spec fn numeral_of(ratio: Option<LegacyRatio>) -> Option<Seq<char>> {
    match ratio {
        Some(ratio) => Some(ratio.numeral@),
        None => None,
    }
}

/// Appends a member that holds a ratio or nothing.
fn push_ratio(out: &mut String, label: &str, ratio: &Option<LegacyRatio>, end: &str)
    ensures
        final(out)@ == old(out)@ + plain_or_null(label@, numeral_of(*ratio), end@),
{
    match ratio {
        Some(ratio) => push_plain(out, label, ratio.numeral.as_str(), end),
        None => push_plain(out, label, "null", end),
    }
}

/// A day in the list of days.
pub open spec fn day_text(d: DayStat) -> Seq<char> {
    "    {\n"@ + quoted("      \"path\": "@, d.path@, ",\n"@) + number(
        "      \"trade_date\": "@,
        d.trade_date as nat,
        ",\n"@,
    ) + quoted("      \"trade_date_ymd\": "@, d.trade_date_ymd@, ",\n"@) + quoted(
        "      \"symbol\": "@,
        d.symbol@,
        ",\n"@,
    ) + number("      \"event_count\": "@, d.event_count as nat, ",\n"@) + number(
        "      \"file_bytes\": "@,
        d.file_bytes as nat,
        ",\n"@,
    ) + plain("      \"bytes_per_event\": "@, d.bytes_per_event@, ",\n"@) + number_or_null(
        "      \"legacy_bytes\": "@,
        d.legacy_bytes,
        ",\n"@,
    ) + plain_or_null("      \"legacy_ratio\": "@, numeral_of(d.legacy_ratio), ",\n"@) + quoted(
        "      \"legacy_status\": "@,
        d.legacy_status@,
        "\n"@,
    ) + "    }"@
}

fn day_json(d: &DayStat) -> (r: String)
    ensures
        r@ == day_text(*d),
{
    let mut s: String = "    {\n".to_owned();
    push_quoted(&mut s, "      \"path\": ", d.path.as_str(), ",\n");
    push_number(&mut s, "      \"trade_date\": ", d.trade_date as u64, ",\n");
    push_quoted(&mut s, "      \"trade_date_ymd\": ", d.trade_date_ymd.as_str(), ",\n");
    push_quoted(&mut s, "      \"symbol\": ", d.symbol.as_str(), ",\n");
    push_number(&mut s, "      \"event_count\": ", d.event_count, ",\n");
    push_number(&mut s, "      \"file_bytes\": ", d.file_bytes, ",\n");
    push_plain(&mut s, "      \"bytes_per_event\": ", d.bytes_per_event.as_str(), ",\n");
    push_number_or_null(&mut s, "      \"legacy_bytes\": ", d.legacy_bytes, ",\n");
    push_ratio(&mut s, "      \"legacy_ratio\": ", &d.legacy_ratio, ",\n");
    push_quoted(&mut s, "      \"legacy_status\": ", d.legacy_status.as_str(), "\n");
    s.append("    }");
    s
}

/// A day in the table of sizes.
pub open spec fn size_text(d: DayStat) -> Seq<char> {
    "      {\n"@ + quoted("        \"trade_date_ymd\": "@, d.trade_date_ymd@, ",\n"@) + number(
        "        \"event_count\": "@,
        d.event_count as nat,
        ",\n"@,
    ) + number("        \"v2_bytes\": "@, d.file_bytes as nat, ",\n"@) + plain(
        "        \"v2_bytes_per_event\": "@,
        d.bytes_per_event@,
        ",\n"@,
    ) + number_or_null("        \"legacy_bytes\": "@, d.legacy_bytes, ",\n"@) + plain_or_null(
        "        \"v2_over_legacy\": "@,
        numeral_of(d.legacy_ratio),
        ",\n"@,
    ) + quoted("        \"legacy_status\": "@, d.legacy_status@, "\n"@) + "      }"@
}

fn size_json(d: &DayStat) -> (r: String)
    ensures
        r@ == size_text(*d),
{
    let mut s: String = "      {\n".to_owned();
    push_quoted(&mut s, "        \"trade_date_ymd\": ", d.trade_date_ymd.as_str(), ",\n");
    push_number(&mut s, "        \"event_count\": ", d.event_count, ",\n");
    push_number(&mut s, "        \"v2_bytes\": ", d.file_bytes, ",\n");
    push_plain(&mut s, "        \"v2_bytes_per_event\": ", d.bytes_per_event.as_str(), ",\n");
    push_number_or_null(&mut s, "        \"legacy_bytes\": ", d.legacy_bytes, ",\n");
    push_ratio(&mut s, "        \"v2_over_legacy\": ", &d.legacy_ratio, ",\n");
    push_quoted(&mut s, "        \"legacy_status\": ", d.legacy_status.as_str(), "\n");
    s.append("      }");
    s
}

/// The sizes with a comma and a blank between them: the first `k`.
pub open spec fn sizes_text(sizes: Seq<usize>, k: int) -> Seq<char>
    decreases k,
{
    if k <= 0 {
        Seq::empty()
    } else {
        sizes_text(sizes, k - 1) + (if k > 1 {
            ", "@
        } else {
            Seq::empty()
        }) + decimal(sizes[k - 1] as nat)
    }
}

fn sizes_json(sizes: &Vec<usize>) -> (r: String)
    ensures
        r@ == sizes_text(sizes@, sizes.len() as int),
{
    let mut s: String = String::new();
    let mut i: usize = 0;
    while i < sizes.len()
        invariant
            i <= sizes.len(),
            s@ == sizes_text(sizes@, i as int),
        decreases sizes.len() - i,
    {
        if i > 0 {
            s.append(", ");
        } else {
            assert(s@ + Seq::<char>::empty() =~= s@);
        }
        push_decimal(&mut s, sizes[i] as u64);
        i += 1;
    }
    s
}

/// A trial in the list of trials.
pub open spec fn trial_text(t: DiffTrial) -> Seq<char> {
    "      {\n"@ + number("        \"trial\": "@, t.trial as nat, ",\n"@) + number(
        "        \"n_chunks\": "@,
        t.n_chunks as nat,
        ",\n"@,
    ) + plain(
        "        \"chunk_sizes\": ["@,
        sizes_text(t.chunk_sizes@, t.chunk_sizes.len() as int),
        "],\n"@,
    ) + plain("        \"match_oneshot\": "@, truth(t.match_oneshot), ",\n"@) + plain(
        "        \"seconds\": "@,
        t.seconds@,
        ",\n"@,
    ) + quoted_or_null("        \"fail_reason\": "@, text_of(t.fail_reason), "\n"@) + "      }"@
}

fn trial_json(t: &DiffTrial) -> (r: String)
    ensures
        r@ == trial_text(*t),
{
    let mut s: String = "      {\n".to_owned();
    push_number(&mut s, "        \"trial\": ", t.trial as u64, ",\n");
    push_number(&mut s, "        \"n_chunks\": ", t.n_chunks as u64, ",\n");
    let sizes: String = sizes_json(&t.chunk_sizes);
    push_plain(&mut s, "        \"chunk_sizes\": [", sizes.as_str(), "],\n");
    push_truth(&mut s, "        \"match_oneshot\": ", t.match_oneshot, ",\n");
    push_plain(&mut s, "        \"seconds\": ", t.seconds.as_str(), ",\n");
    push_quoted_or_null(&mut s, "        \"fail_reason\": ", &t.fail_reason, "\n");
    s.append("      }");
    s
}

/// Appends the comma and the line break behind an item of a list.
fn push_item(out: &mut String, item: &str, last: bool)
    ensures
        final(out)@ == old(out)@ + item@ + (if last {
            "\n"@
        } else {
            ",\n"@
        }),
{
    out.append(item);
    if last {
        out.append("\n");
    } else {
        out.append(",\n");
    }
}

/// The days of the list of days.
pub open spec fn day_texts(days: Seq<DayStat>) -> Seq<Seq<char>> {
    Seq::new(days.len(), |i: int| day_text(days[i]))
}

/// The days of the table of sizes.
pub open spec fn size_texts(days: Seq<DayStat>) -> Seq<Seq<char>> {
    Seq::new(days.len(), |i: int| size_text(days[i]))
}

/// The trials of the list of trials.
pub open spec fn trial_texts(trials: Seq<DiffTrial>) -> Seq<Seq<char>> {
    Seq::new(trials.len(), |i: int| trial_text(trials[i]))
}

fn days_json(days: &Vec<DayStat>) -> (r: String)
    ensures
        r@ == listed(day_texts(days@), days.len() as int),
{
    let mut s: String = String::new();
    let mut i: usize = 0;
    while i < days.len()
        invariant
            i <= days.len(),
            s@ == listed(day_texts(days@), i as int),
        decreases days.len() - i,
    {
        let item: String = day_json(&days[i]);
        i += 1;
        push_item(&mut s, item.as_str(), i == days.len());
    }
    s
}

fn sizes_table(days: &Vec<DayStat>) -> (r: String)
    ensures
        r@ == listed(size_texts(days@), days.len() as int),
{
    let mut s: String = String::new();
    let mut i: usize = 0;
    while i < days.len()
        invariant
            i <= days.len(),
            s@ == listed(size_texts(days@), i as int),
        decreases days.len() - i,
    {
        let item: String = size_json(&days[i]);
        i += 1;
        push_item(&mut s, item.as_str(), i == days.len());
    }
    s
}

fn trials_json(trials: &Vec<DiffTrial>) -> (r: String)
    ensures
        r@ == listed(trial_texts(trials@), trials.len() as int),
{
    let mut s: String = String::new();
    let mut i: usize = 0;
    while i < trials.len()
        invariant
            i <= trials.len(),
            s@ == listed(trial_texts(trials@), i as int),
        decreases trials.len() - i,
    {
        let item: String = trial_json(&trials[i]);
        i += 1;
        push_item(&mut s, item.as_str(), i == trials.len());
    }
    s
}

/// The members that identify the run.
pub open spec fn head_text(facts: RunFacts) -> Seq<char> {
    "{\n  \"gate\": \"M1-data-plane\",\n"@ + quoted("  \"git_sha\": "@, facts.git_sha@, ",\n"@)
        + quoted("  \"date\": "@, facts.date_utc@, ",\n"@) + quoted(
        "  \"timing_label\": "@,
        timing_label(facts.smoke),
        ",\n"@,
    ) + plain("  \"smoke\": "@, truth(facts.smoke), ",\n"@) + number(
        "  \"seed\": "@,
        facts.seed as nat,
        ",\n"@,
    )
        + "  \"note\": \"SMOKE timings are not claimable; only QUIET_BOX runs on an idle host count as gate evidence\",\n"@
}

fn label_of(smoke: bool) -> (r: &'static str)
    ensures
        r@ == timing_label(smoke),
{
    if smoke {
        "SMOKE"
    } else {
        "QUIET_BOX"
    }
}

fn head_json(facts: &RunFacts) -> (r: String)
    ensures
        r@ == head_text(*facts),
{
    let mut s: String = "{\n  \"gate\": \"M1-data-plane\",\n".to_owned();
    push_quoted(&mut s, "  \"git_sha\": ", facts.git_sha.as_str(), ",\n");
    push_quoted(&mut s, "  \"date\": ", facts.date_utc.as_str(), ",\n");
    push_quoted(&mut s, "  \"timing_label\": ", label_of(facts.smoke), ",\n");
    push_truth(&mut s, "  \"smoke\": ", facts.smoke, ",\n");
    push_number(&mut s, "  \"seed\": ", facts.seed, ",\n");
    s.append(
        "  \"note\": \"SMOKE timings are not claimable; only QUIET_BOX runs on an idle host count as gate evidence\",\n",
    );
    s
}

/// The member on the busiest day.
pub open spec fn busiest_text(d: DayStat) -> Seq<char> {
    "  \"busiest_day\": {\n"@ + quoted("    \"trade_date_ymd\": "@, d.trade_date_ymd@, ",\n"@)
        + number("    \"event_count\": "@, d.event_count as nat, ",\n"@) + quoted(
        "    \"path\": "@,
        d.path@,
        "\n"@,
    ) + "  },\n"@
}

fn busiest_json(d: &DayStat) -> (r: String)
    ensures
        r@ == busiest_text(*d),
{
    let mut s: String = "  \"busiest_day\": {\n".to_owned();
    push_quoted(&mut s, "    \"trade_date_ymd\": ", d.trade_date_ymd.as_str(), ",\n");
    push_number(&mut s, "    \"event_count\": ", d.event_count, ",\n");
    push_quoted(&mut s, "    \"path\": ", d.path.as_str(), "\n");
    s.append("  },\n");
    s
}

/// The member on the replay in one go.
pub open spec fn forward_text(facts: RunFacts, oneshot: ApplyResult) -> Seq<char> {
    "  \"forward_apply\": {\n"@ + number("    \"events\": "@, oneshot.events as nat, ",\n"@) + plain(
        "    \"seconds\": "@,
        oneshot.seconds@,
        ",\n"@,
    ) + plain("    \"budget_seconds\": "@, facts.apply_budget@, ",\n"@) + plain(
        "    \"verdict\": "@,
        verdict_word(facts.apply_pass),
        ",\n"@,
    ) + quoted("    \"timing_label\": "@, timing_label(facts.smoke), ",\n"@) + number(
        "    \"applied_seq\": "@,
        oneshot.applied_seq as nat,
        ",\n"@,
    ) + number("    \"applied_ts\": "@, oneshot.applied_ts as nat, ",\n"@) + number(
        "    \"serialize_book_bytes\": "@,
        oneshot.sections.book.len() as nat,
        ",\n"@,
    ) + number("    \"serialize_flow_bytes\": "@, oneshot.sections.flow.len() as nat, ",\n"@)
        + number(
        "    \"serialize_refresh_bytes\": "@,
        oneshot.sections.refresh.len() as nat,
        ",\n"@,
    ) + number("    \"profile_section_bytes\": "@, oneshot.sections.profile.len() as nat, ",\n"@)
        + number("    \"cvd_section_bytes\": "@, oneshot.sections.cvd.len() as nat, ",\n"@)
        + number("    \"session_section_bytes\": "@, oneshot.sections.session.len() as nat, "\n"@)
        + "  },\n"@
}

fn forward_json(facts: &RunFacts, oneshot: &ApplyResult) -> (r: String)
    ensures
        r@ == forward_text(*facts, *oneshot),
{
    let mut s: String = "  \"forward_apply\": {\n".to_owned();
    push_number(&mut s, "    \"events\": ", oneshot.events, ",\n");
    push_plain(&mut s, "    \"seconds\": ", oneshot.seconds.as_str(), ",\n");
    push_plain(&mut s, "    \"budget_seconds\": ", facts.apply_budget.as_str(), ",\n");
    push_verdict(&mut s, "    \"verdict\": ", facts.apply_pass, ",\n");
    push_quoted(&mut s, "    \"timing_label\": ", label_of(facts.smoke), ",\n");
    push_number(&mut s, "    \"applied_seq\": ", oneshot.applied_seq, ",\n");
    push_number(&mut s, "    \"applied_ts\": ", oneshot.applied_ts, ",\n");
    let sections: &StateSections = &oneshot.sections;
    push_number(&mut s, "    \"serialize_book_bytes\": ", sections.book.len() as u64, ",\n");
    push_number(&mut s, "    \"serialize_flow_bytes\": ", sections.flow.len() as u64, ",\n");
    push_number(&mut s, "    \"serialize_refresh_bytes\": ", sections.refresh.len() as u64, ",\n");
    push_number(&mut s, "    \"profile_section_bytes\": ", sections.profile.len() as u64, ",\n");
    push_number(&mut s, "    \"cvd_section_bytes\": ", sections.cvd.len() as u64, ",\n");
    push_number(&mut s, "    \"session_section_bytes\": ", sections.session.len() as u64, "\n");
    s.append("  },\n");
    s
}

/// The member on the trials.
pub open spec fn differential_text(trials: Seq<DiffTrial>) -> Seq<char> {
    "  \"differential\": {\n"@ + plain("    \"verdict\": "@, verdict_word(all_match(trials)), ",\n"@)
        + number("    \"trials\": "@, trials.len(), ",\n"@) + "    \"results\": [\n"@ + listed(
        trial_texts(trials),
        trials.len() as int,
    ) + "    ]\n  },\n"@
}

fn differential_json(trials: &Vec<DiffTrial>) -> (r: String)
    ensures
        r@ == differential_text(trials@),
{
    let mut s: String = "  \"differential\": {\n".to_owned();
    push_verdict(&mut s, "    \"verdict\": ", trials_match(trials), ",\n");
    push_number(&mut s, "    \"trials\": ", trials.len() as u64, ",\n");
    s.append("    \"results\": [\n");
    let list: String = trials_json(trials);
    s.append(list.as_str());
    s.append("    ]\n  },\n");
    s
}

/// The member on the sizes.
pub open spec fn log_size_text(days: Seq<DayStat>) -> Seq<char> {
    "  \"log_size\": {\n"@ + quoted(
        "    \"claim_leq_half_legacy\": "@,
        size_claim_word(days),
        ",\n"@,
    ) + plain("    \"ratio_unverified\": "@, truth(unverified(days)), ",\n"@)
        + "    \"bytes_per_event_table\": [\n"@ + listed(size_texts(days), days.len() as int)
        + "    ]\n  }\n}\n"@
}

fn log_size_json(days: &Vec<DayStat>) -> (r: String)
    ensures
        r@ == log_size_text(days@),
{
    let (missing, claim) = size_claim(days);
    let mut s: String = "  \"log_size\": {\n".to_owned();
    push_quoted(&mut s, "    \"claim_leq_half_legacy\": ", claim, ",\n");
    push_truth(&mut s, "    \"ratio_unverified\": ", missing, ",\n");
    s.append("    \"bytes_per_event_table\": [\n");
    let list: String = sizes_table(days);
    s.append(list.as_str());
    s.append("    ]\n  }\n}\n");
    s
}

/// The whole document.
pub open spec fn document(
    facts: RunFacts,
    days: Seq<DayStat>,
    busiest: int,
    oneshot: ApplyResult,
    trials: Seq<DiffTrial>,
) -> Seq<char> {
    head_text(facts) + "  \"days\": [\n"@ + listed(day_texts(days), days.len() as int) + "  ],\n"@
        + busiest_text(days[busiest]) + forward_text(facts, oneshot) + differential_text(trials)
        + log_size_text(days)
}

/// The evidence document of a run: the days, the busiest of them, the replay of that day in one
/// go and in chunks, and what is claimed of the sizes.
pub fn render_json(
    facts: &RunFacts,
    days: &Vec<DayStat>,
    busiest: usize,
    oneshot: &ApplyResult,
    trials: &Vec<DiffTrial>,
) -> (r: String)
    requires
        busiest < days.len(),
    ensures
        r@ == document(*facts, days@, busiest as int, *oneshot, trials@),
{
    let mut s: String = head_json(facts);
    s.append("  \"days\": [\n");
    let list: String = days_json(days);
    s.append(list.as_str());
    s.append("  ],\n");
    let day: String = busiest_json(&days[busiest]);
    s.append(day.as_str());
    let forward: String = forward_json(facts, oneshot);
    s.append(forward.as_str());
    let differential: String = differential_json(trials);
    s.append(differential.as_str());
    let sizes: String = log_size_json(days);
    s.append(sizes.as_str());
    s
}

/// The busiest day has the most events, and of several with as many it is the last.
pub proof fn law_busiest_day(days: &Vec<DayStat>, r: Option<usize>, i: int)
    requires
        call_ensures(busiest, (days,), r),
        0 <= i < days.len(),
    ensures
        r is Some && r->0 < days.len(),
        days@[i].event_count <= days@[r->0 as int].event_count,
        i > r->0 ==> days@[i].event_count < days@[r->0 as int].event_count,
{
}

/// The sizes pass when every day has an older log and is at most half as large; a day without one
/// leaves them unverified, and a day that is larger fails them.
pub proof fn law_size_claim(days: &Vec<DayStat>, r: (bool, &'static str))
    requires
        call_ensures(size_claim, (days,), r),
    ensures
        r.0 <==> exists|i: int| 0 <= i < days.len() && (#[trigger] days@[i]).legacy_ratio is None,
        r.1@ == "UNVERIFIED"@ <==> r.0,
        r.1@ == "PASS"@ <==> forall|i: int|
            0 <= i < days.len() ==> (#[trigger] days@[i]).legacy_ratio is Some
                && days@[i].legacy_ratio->0.at_most_half,
        r.1@ == "UNVERIFIED"@ || r.1@ == "PASS"@ || r.1@ == "FAIL"@,
{
    reveal_strlit("UNVERIFIED");
    reveal_strlit("PASS");
    reveal_strlit("FAIL");
    assert("PASS"@[0] != "FAIL"@[0]);
    if all_halved(days@) {
        assert forall|i: int| 0 <= i < days.len() implies (#[trigger] days@[i]).legacy_ratio is Some
            && days@[i].legacy_ratio->0.at_most_half by {
            assert(is_halved(days@[i]));
        }
    }
    if forall|i: int|
        0 <= i < days.len() ==> (#[trigger] days@[i]).legacy_ratio is Some
            && days@[i].legacy_ratio->0.at_most_half {
        assert(all_halved(days@));
        assert(!unverified(days@));
    }
}

/// A run fails when it was no smoke run and was too slow, or some trial did not match.
pub proof fn law_run_fails(
    smoke: bool,
    apply_pass: bool,
    trials: &Vec<DiffTrial>,
    matched: bool,
    r: bool,
)
    requires
        call_ensures(trials_match, (trials,), matched),
        call_ensures(run_fails, (smoke, apply_pass, matched), r),
    ensures
        matched <==> forall|i: int| 0 <= i < trials.len() ==> (#[trigger] trials@[i]).match_oneshot,
        smoke ==> !r,
        !smoke ==> (r <==> !apply_pass || !matched),
{
}

/// An older log is looked for under its date and symbol; it has a size only where it was found, and
/// what became of the lookup is told apart.
pub proof fn law_older_log(
    ymd: &'static str,
    symbol: &'static str,
    name: String,
    lookup: &LegacyLookup,
    r: (Option<u64>, String),
)
    requires
        call_ensures(legacy_name, (ymd, symbol), name),
        call_ensures(legacy_fields, (lookup,), r),
    ensures
        name@ == ymd@ + "-"@ + symbol@ + ".fftlog"@,
        *lookup matches LegacyLookup::Found(path, bytes) ==> r.0 == Some(bytes) && r.1@ == "ok:"@
            + path@ + ":"@ + decimal(bytes as nat) + "B"@,
        !(*lookup is Found) ==> r.0 is None,
        *lookup matches LegacyLookup::Missing(path) ==> r.1@ == "missing:"@ + path@,
        *lookup is NotRequested ==> r.1@ == "not_requested"@,
{
}

/// Whether a part stands in a text at the place `i`.
pub open spec fn stands_at(s: Seq<char>, part: Seq<char>, i: int) -> bool {
    &&& 0 <= i <= s.len() - part.len()
    &&& s.subrange(i, i + part.len()) == part
}

/// Whether a part stands somewhere in a text.
pub open spec fn occurs(s: Seq<char>, part: Seq<char>) -> bool {
    exists|i: int| stands_at(s, part, i)
}

broadcast proof fn lemma_occurs_in_sum(a: Seq<char>, b: Seq<char>, part: Seq<char>)
    ensures
        occurs(a, part) || occurs(b, part) ==> #[trigger] occurs(a + b, part),
{
    if occurs(a, part) {
        let i = choose|i: int| stands_at(a, part, i);
        assert((a + b).subrange(i, i + part.len()) =~= a.subrange(i, i + part.len()));
        assert(stands_at(a + b, part, i));
    } else if occurs(b, part) {
        let i = choose|i: int| stands_at(b, part, i);
        let j = i + a.len();
        assert((a + b).subrange(j, j + part.len()) =~= b.subrange(i, i + part.len()));
        assert(stands_at(a + b, part, j));
    }
}

proof fn lemma_occurs_whole(s: Seq<char>)
    ensures
        occurs(s, s),
{
    assert(s.subrange(0, s.len() as int) =~= s);
    assert(stands_at(s, s, 0));
}

proof fn lemma_occurs_through(s: Seq<char>, middle: Seq<char>, part: Seq<char>)
    requires
        occurs(s, middle),
        occurs(middle, part),
    ensures
        occurs(s, part),
{
    let i = choose|i: int| stands_at(s, middle, i);
    let j = choose|j: int| stands_at(middle, part, j);
    assert(s.subrange(i + j, i + j + part.len()) =~= s.subrange(i, i + middle.len()).subrange(
        j,
        j + part.len(),
    ));
    assert(stands_at(s, part, i + j));
}

proof fn lemma_occurs_listed(items: Seq<Seq<char>>, k: int, i: int)
    requires
        0 <= i < k <= items.len(),
    ensures
        occurs(listed(items, k), items[i]),
    decreases k,
{
    broadcast use lemma_occurs_in_sum;

    lemma_occurs_whole(items[i]);
    if i < k - 1 {
        lemma_occurs_listed(items, k - 1, i);
    }
    let end = if k < items.len() {
        ",\n"@
    } else {
        "\n"@
    };
    assert(occurs(listed(items, k - 1) + items[k - 1], items[i]));
    assert(occurs(listed(items, k - 1) + items[k - 1] + end, items[i]));
}

/// The document names the run: its commit, its date, its label and its seed.
pub proof fn law_document_names_the_run(
    facts: &RunFacts,
    days: &Vec<DayStat>,
    busiest: usize,
    oneshot: &ApplyResult,
    trials: &Vec<DiffTrial>,
    r: String,
)
    requires
        busiest < days.len(),
        call_ensures(render_json, (facts, days, busiest, oneshot, trials), r),
    ensures
        occurs(r@, "  \"git_sha\": "@ + seq!['"'] + escaped(facts.git_sha@) + seq!['"'] + ",\n"@),
        occurs(r@, "  \"date\": "@ + seq!['"'] + escaped(facts.date_utc@) + seq!['"'] + ",\n"@),
        occurs(r@, "  \"seed\": "@ + decimal(facts.seed as nat) + ",\n"@),
        facts.smoke ==> occurs(r@, "  \"smoke\": "@ + "true"@ + ",\n"@),
        !facts.smoke ==> occurs(r@, "  \"smoke\": "@ + "false"@ + ",\n"@),
        facts.smoke ==> occurs(
            r@,
            "  \"timing_label\": "@ + seq!['"'] + escaped("SMOKE"@) + seq!['"'] + ",\n"@,
        ),
        !facts.smoke ==> occurs(
            r@,
            "  \"timing_label\": "@ + seq!['"'] + escaped("QUIET_BOX"@) + seq!['"'] + ",\n"@,
        ),
{
    broadcast use lemma_occurs_in_sum;

    lemma_document_parts(*facts, days@, busiest as int, *oneshot, trials@);
    let text = head_text(*facts);
    let sha = quoted("  \"git_sha\": "@, facts.git_sha@, ",\n"@);
    let date = quoted("  \"date\": "@, facts.date_utc@, ",\n"@);
    let label = quoted("  \"timing_label\": "@, timing_label(facts.smoke), ",\n"@);
    let smoke = plain("  \"smoke\": "@, truth(facts.smoke), ",\n"@);
    let seed = number("  \"seed\": "@, facts.seed as nat, ",\n"@);
    lemma_member(r@, text, sha);
    lemma_member(r@, text, date);
    lemma_member(r@, text, label);
    lemma_member(r@, text, smoke);
    lemma_member(r@, text, seed);
}

/// A member of a part of the document stands in the document.
proof fn lemma_member(document: Seq<char>, text: Seq<char>, member: Seq<char>)
    requires
        occurs(document, text),
        occurs(member, member) ==> occurs(text, member),
    ensures
        occurs(document, member),
{
    lemma_occurs_whole(member);
    lemma_occurs_through(document, text, member);
}

proof fn lemma_document_parts(
    facts: RunFacts,
    days: Seq<DayStat>,
    busiest: int,
    oneshot: ApplyResult,
    trials: Seq<DiffTrial>,
)
    ensures
        ({
            let text = document(facts, days, busiest, oneshot, trials);
            &&& occurs(text, head_text(facts))
            &&& occurs(text, listed(day_texts(days), days.len() as int))
            &&& occurs(text, busiest_text(days[busiest]))
            &&& occurs(text, forward_text(facts, oneshot))
            &&& occurs(text, differential_text(trials))
            &&& occurs(text, log_size_text(days))
        }),
{
    broadcast use lemma_occurs_in_sum;

    let text = document(facts, days, busiest, oneshot, trials);
    let list = listed(day_texts(days), days.len() as int);
    lemma_occurs_whole(head_text(facts));
    lemma_occurs_whole(list);
    lemma_occurs_whole(busiest_text(days[busiest]));
    lemma_occurs_whole(forward_text(facts, oneshot));
    lemma_occurs_whole(differential_text(trials));
    lemma_occurs_whole(log_size_text(days));
    assert(occurs(text, head_text(facts)));
    assert(occurs(text, list));
    assert(occurs(text, busiest_text(days[busiest])));
    assert(occurs(text, forward_text(facts, oneshot)));
    assert(occurs(text, differential_text(trials)));
    assert(occurs(text, log_size_text(days)));
}

/// The document gives every day under its own names, in the list of days and in the table of
/// sizes, and names the busiest.
#[verifier::rlimit(60)]
pub proof fn law_document_gives_the_days(
    facts: &RunFacts,
    days: &Vec<DayStat>,
    busiest: usize,
    oneshot: &ApplyResult,
    trials: &Vec<DiffTrial>,
    r: String,
    i: int,
)
    requires
        busiest < days.len(),
        0 <= i < days.len(),
        call_ensures(render_json, (facts, days, busiest, oneshot, trials), r),
    ensures
        ({
            let d = days@[i];
            let quote = seq!['"'];
            &&& occurs(r@, "      \"path\": "@ + quote + escaped(d.path@) + quote + ",\n"@)
            &&& occurs(r@, "      \"trade_date\": "@ + decimal(d.trade_date as nat) + ",\n"@)
            &&& occurs(
                r@,
                "      \"trade_date_ymd\": "@ + quote + escaped(d.trade_date_ymd@) + quote + ",\n"@,
            )
            &&& occurs(r@, "      \"symbol\": "@ + quote + escaped(d.symbol@) + quote + ",\n"@)
            &&& occurs(r@, "      \"event_count\": "@ + decimal(d.event_count as nat) + ",\n"@)
            &&& occurs(r@, "      \"file_bytes\": "@ + decimal(d.file_bytes as nat) + ",\n"@)
            &&& occurs(r@, "      \"bytes_per_event\": "@ + d.bytes_per_event@ + ",\n"@)
            &&& d.legacy_bytes is Some ==> occurs(
                r@,
                "      \"legacy_bytes\": "@ + decimal(d.legacy_bytes->0 as nat) + ",\n"@,
            )
            &&& d.legacy_bytes is None ==> occurs(r@, "      \"legacy_bytes\": "@ + "null"@ + ",\n"@)
            &&& d.legacy_ratio is Some ==> occurs(
                r@,
                "      \"legacy_ratio\": "@ + d.legacy_ratio->0.numeral@ + ",\n"@,
            )
            &&& d.legacy_ratio is None ==> occurs(r@, "      \"legacy_ratio\": "@ + "null"@ + ",\n"@)
            &&& occurs(
                r@,
                "      \"legacy_status\": "@ + quote + escaped(d.legacy_status@) + quote + "\n"@,
            )
        }),
{
    broadcast use lemma_occurs_in_sum;

    let d = days@[i];
    let text = day_text(d);
    lemma_document_parts(*facts, days@, busiest as int, *oneshot, trials@);
    lemma_occurs_listed(day_texts(days@), days.len() as int, i);
    lemma_occurs_through(r@, listed(day_texts(days@), days.len() as int), text);
    lemma_member(r@, text, quoted("      \"path\": "@, d.path@, ",\n"@));
    lemma_member(r@, text, number("      \"trade_date\": "@, d.trade_date as nat, ",\n"@));
    lemma_member(r@, text, quoted("      \"trade_date_ymd\": "@, d.trade_date_ymd@, ",\n"@));
    lemma_member(r@, text, quoted("      \"symbol\": "@, d.symbol@, ",\n"@));
    lemma_member(r@, text, number("      \"event_count\": "@, d.event_count as nat, ",\n"@));
    lemma_member(r@, text, number("      \"file_bytes\": "@, d.file_bytes as nat, ",\n"@));
    lemma_member(r@, text, plain("      \"bytes_per_event\": "@, d.bytes_per_event@, ",\n"@));
    lemma_member(r@, text, number_or_null("      \"legacy_bytes\": "@, d.legacy_bytes, ",\n"@));
    lemma_member(
        r@,
        text,
        plain_or_null("      \"legacy_ratio\": "@, numeral_of(d.legacy_ratio), ",\n"@),
    );
    lemma_member(r@, text, quoted("      \"legacy_status\": "@, d.legacy_status@, "\n"@));
}

/// The table of sizes gives every day under its own names, and the document says what is claimed
/// of them and which day is the busiest.
#[verifier::rlimit(60)]
pub proof fn law_document_gives_the_sizes(
    facts: &RunFacts,
    days: &Vec<DayStat>,
    busiest: usize,
    oneshot: &ApplyResult,
    trials: &Vec<DiffTrial>,
    r: String,
    claim: (bool, &'static str),
    i: int,
)
    requires
        busiest < days.len(),
        0 <= i < days.len(),
        call_ensures(render_json, (facts, days, busiest, oneshot, trials), r),
        call_ensures(size_claim, (days,), claim),
    ensures
        ({
            let d = days@[i];
            let b = days@[busiest as int];
            let quote = seq!['"'];
            &&& occurs(
                r@,
                "        \"trade_date_ymd\": "@ + quote + escaped(d.trade_date_ymd@) + quote + ",\n"@,
            )
            &&& occurs(r@, "        \"event_count\": "@ + decimal(d.event_count as nat) + ",\n"@)
            &&& occurs(r@, "        \"v2_bytes\": "@ + decimal(d.file_bytes as nat) + ",\n"@)
            &&& occurs(r@, "        \"v2_bytes_per_event\": "@ + d.bytes_per_event@ + ",\n"@)
            &&& d.legacy_bytes is Some ==> occurs(
                r@,
                "        \"legacy_bytes\": "@ + decimal(d.legacy_bytes->0 as nat) + ",\n"@,
            )
            &&& d.legacy_ratio is Some ==> occurs(
                r@,
                "        \"v2_over_legacy\": "@ + d.legacy_ratio->0.numeral@ + ",\n"@,
            )
            &&& occurs(
                r@,
                "        \"legacy_status\": "@ + quote + escaped(d.legacy_status@) + quote + "\n"@,
            )
            &&& occurs(
                r@,
                "    \"claim_leq_half_legacy\": "@ + quote + escaped(claim.1@) + quote + ",\n"@,
            )
            &&& occurs(
                r@,
                "    \"ratio_unverified\": "@ + (if claim.0 {
                    "true"@
                } else {
                    "false"@
                }) + ",\n"@,
            )
            &&& occurs(
                r@,
                "  \"busiest_day\": {\n"@ + ("    \"trade_date_ymd\": "@ + quote + escaped(
                    b.trade_date_ymd@,
                ) + quote + ",\n"@) + ("    \"event_count\": "@ + decimal(b.event_count as nat)
                    + ",\n"@) + ("    \"path\": "@ + quote + escaped(b.path@) + quote + "\n"@)
                    + "  },\n"@,
            )
        }),
{
    broadcast use lemma_occurs_in_sum;

    let d = days@[i];
    let text = size_text(d);
    let table = log_size_text(days@);
    let list = listed(size_texts(days@), days.len() as int);
    lemma_document_parts(*facts, days@, busiest as int, *oneshot, trials@);
    lemma_occurs_whole(list);
    lemma_occurs_listed(size_texts(days@), days.len() as int, i);
    lemma_occurs_through(r@, table, list);
    lemma_occurs_through(r@, list, text);
    lemma_member(r@, text, quoted("        \"trade_date_ymd\": "@, d.trade_date_ymd@, ",\n"@));
    lemma_member(r@, text, number("        \"event_count\": "@, d.event_count as nat, ",\n"@));
    lemma_member(r@, text, number("        \"v2_bytes\": "@, d.file_bytes as nat, ",\n"@));
    lemma_member(r@, text, plain("        \"v2_bytes_per_event\": "@, d.bytes_per_event@, ",\n"@));
    lemma_member(r@, text, number_or_null("        \"legacy_bytes\": "@, d.legacy_bytes, ",\n"@));
    lemma_member(
        r@,
        text,
        plain_or_null("        \"v2_over_legacy\": "@, numeral_of(d.legacy_ratio), ",\n"@),
    );
    lemma_member(r@, text, quoted("        \"legacy_status\": "@, d.legacy_status@, "\n"@));
    lemma_member(
        r@,
        table,
        quoted("    \"claim_leq_half_legacy\": "@, size_claim_word(days@), ",\n"@),
    );
    lemma_member(r@, table, plain("    \"ratio_unverified\": "@, truth(unverified(days@)), ",\n"@));
}

/// The document gives the replay in one go under its own names, with the size of every section.
#[verifier::rlimit(60)]
pub proof fn law_document_gives_the_replay(
    facts: &RunFacts,
    days: &Vec<DayStat>,
    busiest: usize,
    oneshot: &ApplyResult,
    trials: &Vec<DiffTrial>,
    r: String,
)
    requires
        busiest < days.len(),
        call_ensures(render_json, (facts, days, busiest, oneshot, trials), r),
    ensures
        occurs(r@, "    \"events\": "@ + decimal(oneshot.events as nat) + ",\n"@),
        occurs(r@, "    \"seconds\": "@ + oneshot.seconds@ + ",\n"@),
        occurs(r@, "    \"budget_seconds\": "@ + facts.apply_budget@ + ",\n"@),
        facts.apply_pass ==> occurs(r@, "    \"verdict\": "@ + "\"PASS\""@ + ",\n"@),
        !facts.apply_pass ==> occurs(r@, "    \"verdict\": "@ + "\"FAIL\""@ + ",\n"@),
        occurs(r@, "    \"applied_seq\": "@ + decimal(oneshot.applied_seq as nat) + ",\n"@),
        occurs(r@, "    \"applied_ts\": "@ + decimal(oneshot.applied_ts as nat) + ",\n"@),
        occurs(
            r@,
            "    \"serialize_book_bytes\": "@ + decimal(oneshot.sections.book@.len()) + ",\n"@,
        ),
        occurs(
            r@,
            "    \"serialize_flow_bytes\": "@ + decimal(oneshot.sections.flow@.len()) + ",\n"@,
        ),
        occurs(
            r@,
            "    \"serialize_refresh_bytes\": "@ + decimal(oneshot.sections.refresh@.len()) + ",\n"@,
        ),
        occurs(
            r@,
            "    \"profile_section_bytes\": "@ + decimal(oneshot.sections.profile@.len()) + ",\n"@,
        ),
        occurs(r@, "    \"cvd_section_bytes\": "@ + decimal(oneshot.sections.cvd@.len()) + ",\n"@),
        occurs(
            r@,
            "    \"session_section_bytes\": "@ + decimal(oneshot.sections.session@.len()) + "\n"@,
        ),
{
    broadcast use lemma_occurs_in_sum;

    let text = forward_text(*facts, *oneshot);
    let parts = oneshot.sections;
    lemma_document_parts(*facts, days@, busiest as int, *oneshot, trials@);
    lemma_member(r@, text, number("    \"events\": "@, oneshot.events as nat, ",\n"@));
    lemma_member(r@, text, plain("    \"seconds\": "@, oneshot.seconds@, ",\n"@));
    lemma_member(r@, text, plain("    \"budget_seconds\": "@, facts.apply_budget@, ",\n"@));
    lemma_member(r@, text, plain("    \"verdict\": "@, verdict_word(facts.apply_pass), ",\n"@));
    lemma_member(r@, text, number("    \"applied_seq\": "@, oneshot.applied_seq as nat, ",\n"@));
    lemma_member(r@, text, number("    \"applied_ts\": "@, oneshot.applied_ts as nat, ",\n"@));
    lemma_member(r@, text, number("    \"serialize_book_bytes\": "@, parts.book@.len(), ",\n"@));
    lemma_member(r@, text, number("    \"serialize_flow_bytes\": "@, parts.flow@.len(), ",\n"@));
    lemma_member(
        r@,
        text,
        number("    \"serialize_refresh_bytes\": "@, parts.refresh@.len(), ",\n"@),
    );
    lemma_member(
        r@,
        text,
        number("    \"profile_section_bytes\": "@, parts.profile@.len(), ",\n"@),
    );
    lemma_member(r@, text, number("    \"cvd_section_bytes\": "@, parts.cvd@.len(), ",\n"@));
    lemma_member(
        r@,
        text,
        number("    \"session_section_bytes\": "@, parts.session@.len(), "\n"@),
    );
}

/// The document gives every trial under its own names and says whether all of them matched.
#[verifier::rlimit(60)]
pub proof fn law_document_gives_the_trials(
    facts: &RunFacts,
    days: &Vec<DayStat>,
    busiest: usize,
    oneshot: &ApplyResult,
    trials: &Vec<DiffTrial>,
    r: String,
    i: int,
)
    requires
        busiest < days.len(),
        0 <= i < trials.len(),
        call_ensures(render_json, (facts, days, busiest, oneshot, trials), r),
    ensures
        ({
            let t = trials@[i];
            let quote = seq!['"'];
            &&& occurs(r@, "    \"trials\": "@ + decimal(trials@.len()) + ",\n"@)
            &&& occurs(r@, "        \"trial\": "@ + decimal(t.trial as nat) + ",\n"@)
            &&& occurs(r@, "        \"n_chunks\": "@ + decimal(t.n_chunks as nat) + ",\n"@)
            &&& t.chunk_sizes.len() == 2 ==> occurs(
                r@,
                "        \"chunk_sizes\": ["@ + (decimal(t.chunk_sizes@[0] as nat) + ", "@ + decimal(
                    t.chunk_sizes@[1] as nat,
                )) + "],\n"@,
            )
            &&& t.match_oneshot ==> occurs(r@, "        \"match_oneshot\": "@ + "true"@ + ",\n"@)
            &&& !t.match_oneshot ==> occurs(r@, "        \"match_oneshot\": "@ + "false"@ + ",\n"@)
            &&& occurs(r@, "        \"seconds\": "@ + t.seconds@ + ",\n"@)
            &&& t.fail_reason is Some ==> occurs(
                r@,
                "        \"fail_reason\": "@ + quote + escaped(t.fail_reason->0@) + quote + "\n"@,
            )
            &&& t.fail_reason is None ==> occurs(r@, "        \"fail_reason\": "@ + "null"@ + "\n"@)
        }),
{
    broadcast use lemma_occurs_in_sum;

    let t = trials@[i];
    let text = trial_text(t);
    let whole = differential_text(trials@);
    let list = listed(trial_texts(trials@), trials.len() as int);
    lemma_document_parts(*facts, days@, busiest as int, *oneshot, trials@);
    lemma_occurs_whole(list);
    lemma_occurs_listed(trial_texts(trials@), trials.len() as int, i);
    lemma_occurs_through(r@, whole, list);
    lemma_occurs_through(r@, list, text);
    lemma_member(r@, whole, number("    \"trials\": "@, trials@.len(), ",\n"@));
    lemma_member(r@, text, number("        \"trial\": "@, t.trial as nat, ",\n"@));
    lemma_member(r@, text, number("        \"n_chunks\": "@, t.n_chunks as nat, ",\n"@));
    let sizes = sizes_text(t.chunk_sizes@, t.chunk_sizes.len() as int);
    lemma_member(r@, text, plain("        \"chunk_sizes\": ["@, sizes, "],\n"@));
    if t.chunk_sizes.len() == 2 {
        reveal_with_fuel(sizes_text, 3);
        assert(sizes =~= decimal(t.chunk_sizes@[0] as nat) + ", "@ + decimal(
            t.chunk_sizes@[1] as nat,
        ));
    }
    lemma_member(r@, text, plain("        \"match_oneshot\": "@, truth(t.match_oneshot), ",\n"@));
    lemma_member(r@, text, plain("        \"seconds\": "@, t.seconds@, ",\n"@));
    lemma_member(
        r@,
        text,
        quoted_or_null("        \"fail_reason\": "@, text_of(t.fail_reason), "\n"@),
    );
}

} // verus!
