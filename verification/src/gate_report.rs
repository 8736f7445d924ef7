//! Gate evidence: what a run is identified by, what it measured, and the rules that decide
//! whether it passed.

use crate::text::{
    chars_of, concat2, concat3, copied, decimal, join, joined, push_decimal, slice,
    spelled, spells, text_of, texts_of, trim, trim_chars, trimmed,
};
use vstd::prelude::*;

verus! {

/// Outcome of a run, by the rules of `verdict`. Whether a failure is fatal is another matter.
#[derive(Clone, Copy, Debug, PartialEq, Eq, Structural)]
pub enum Verdict {
    Pass,
    Fail,
}

/// Event coverage of one replay run.
#[derive(Clone, Copy, Debug, PartialEq, Eq, Structural)]
pub struct CoverageReport {
    pub events_read: u64,
    pub events_applied: u64,
    /// Events read and not applied; a gate requires none.
    pub dropped: u64,
    /// Gap events met: reported, and no drop.
    pub gap_records: u64,
}

impl CoverageReport {
    /// The coverage of a run. More applied than read counts as no drop.
    pub fn new(events_read: u64, events_applied: u64, gap_records: u64) -> (r: CoverageReport)
        ensures
            r.events_read == events_read,
            r.events_applied == events_applied,
            r.gap_records == gap_records,
            r.dropped == if events_read >= events_applied {
                events_read - events_applied
            } else {
                0
            },
    {
        CoverageReport {
            events_read,
            events_applied,
            dropped: events_read.saturating_sub(events_applied),
            gap_records,
        }
    }

    /// The coverage as one line.
    pub open spec fn text(self) -> Seq<char> {
        "coverage events_read="@ + decimal(self.events_read as nat) + " events_applied="@ + decimal(
            self.events_applied as nat,
        ) + " dropped="@ + decimal(self.dropped as nat) + " gap_records="@ + decimal(
            self.gap_records as nat,
        )
    }

    /// The coverage as one line.
    pub fn to_string(&self) -> (r: String)
        ensures
            r@ == self.text(),
    {
        let mut out: String = "coverage events_read=".to_owned();
        push_decimal(&mut out, self.events_read);
        out.append(" events_applied=");
        push_decimal(&mut out, self.events_applied);
        out.append(" dropped=");
        push_decimal(&mut out, self.dropped);
        out.append(" gap_records=");
        push_decimal(&mut out, self.gap_records);
        out
    }
}

/// Measured frame times, in nanoseconds.
#[derive(Clone, Copy, Debug, PartialEq, Eq, Structural)]
pub struct FrameResult {
    pub refresh_interval_ns: u64,
    pub deadline_ns: u128,
    /// How long the warmup took, not how long it was meant to take.
    pub warmup_ns: u64,
    /// Frame gaps seen during warmup.
    pub warmup_samples: u64,
    pub frames: u64,
    pub missed: u64,
    pub p50_ns: u64,
    pub p95_ns: u64,
    pub p99_ns: u64,
    pub max_ns: u64,
}

/// Source control state. An unknown commit is the only degradation, and is warned of.
#[derive(Debug)]
pub struct GitInfo {
    pub sha: String,
    pub dirty: Option<bool>,
}

impl GitInfo {
    /// The state that the outputs of the two queries, or their failures, amount to, and what to
    /// warn of.
    pub fn capture(head: Result<String, String>, status: Result<String, String>) -> (r: (
        GitInfo,
        Option<String>,
    ))
        ensures
            match (head, status) {
                (Ok(sha), Ok(changes)) => {
                    &&& r.0.sha@ == trim(sha@)
                    &&& r.0.dirty == Some(trim(changes@).len() > 0)
                    &&& r.1 is None
                },
                (Err(problem), _) => unknown_commit(r, problem@),
                (_, Err(problem)) => unknown_commit(r, problem@),
            },
    {
        match (head, status) {
            (Ok(sha), Ok(changes)) => {
                let left: Vec<char> = chars_of(changes.as_str());
                let dirty: bool = trim_chars(&left).len() > 0;
                (GitInfo { sha: trimmed(sha.as_str()), dirty: Some(dirty) }, None)
            },
            (Err(problem), _) => unknown(problem.as_str()),
            (_, Err(problem)) => unknown(problem.as_str()),
        }
    }
}

/// Whether the commit is recorded as unknown, with a warning that says why.
pub open spec fn unknown_commit(r: (GitInfo, Option<String>), problem: Seq<char>) -> bool {
    &&& r.0.sha@ == "unknown"@
    &&& r.0.dirty is None
    &&& text_of(r.1) == Some(
        "fft: WARNING no git provenance ("@ + problem
            + "); gate evidence records sha \"unknown\""@,
    )
}

fn unknown(problem: &str) -> (r: (GitInfo, Option<String>))
    ensures
        unknown_commit(r, problem@),
{
    (
        GitInfo { sha: "unknown".to_owned(), dirty: None },
        Some(
            concat3(
                "fft: WARNING no git provenance (",
                problem,
                "); gate evidence records sha \"unknown\"",
            ),
        ),
    )
}

/// What identifies a run, taken before it starts.
#[derive(Debug)]
pub struct RunMeta {
    pub gate: String,
    pub binary: String,
    pub git: GitInfo,
    pub replay: Option<String>,
    pub trace: Option<String>,
    pub manifest: Option<String>,
    pub conditions: Option<String>,
}

/// The evidence document of a run. What the run cannot know is left out, never guessed.
#[derive(Debug)]
pub struct GateReport {
    pub gate: String,
    pub date: String,
    pub binary: String,
    pub git_sha: String,
    /// None where the commit is unknown.
    pub git_dirty: Option<bool>,
    pub replay: Option<String>,
    pub trace: Option<String>,
    pub manifest: Option<String>,
    pub gpui_rev: Option<String>,
    pub conditions: Option<String>,
    pub notes: Option<String>,
    /// None where no frame was measured, which fails the run.
    pub result: Option<FrameResult>,
    /// None where nothing was replayed.
    pub coverage: Option<CoverageReport>,
    pub verdict: Verdict,
}

/// Whether the run measured frames and missed no deadline.
pub open spec fn frames_clean(result: Option<FrameResult>) -> bool {
    result is Some && result->0.frames > 0 && result->0.missed == 0
}

/// Whether the run dropped no event.
pub open spec fn coverage_clean(coverage: Option<CoverageReport>) -> bool {
    coverage is Some ==> coverage->0.dropped == 0
}

/// The rule: a run passes with frames measured, no deadline missed and no event dropped.
pub open spec fn judged(
    result: Option<FrameResult>,
    coverage: Option<CoverageReport>,
) -> Verdict {
    if frames_clean(result) && coverage_clean(coverage) {
        Verdict::Pass
    } else {
        Verdict::Fail
    }
}

impl GateReport {
    /// The report of a run that ended by itself.
    pub fn new(
        meta: &RunMeta,
        date: String,
        gpui_rev: &str,
        result: Option<FrameResult>,
        coverage: Option<CoverageReport>,
    ) -> (r: GateReport)
        ensures
            r.gate@ == meta.gate@,
            r.date@ == date@,
            r.binary@ == meta.binary@,
            r.git_sha@ == meta.git.sha@,
            r.git_dirty == meta.git.dirty,
            text_of(r.replay) == text_of(meta.replay),
            text_of(r.trace) == text_of(meta.trace),
            text_of(r.manifest) == text_of(meta.manifest),
            text_of(r.gpui_rev) == Some(gpui_rev@),
            text_of(r.conditions) == text_of(meta.conditions),
            r.notes is None,
            r.result == result,
            r.coverage == coverage,
            r.verdict == judged(result, coverage),
    {
        GateReport {
            gate: meta.gate.clone(),
            date,
            binary: meta.binary.clone(),
            git_sha: meta.git.sha.clone(),
            git_dirty: meta.git.dirty,
            replay: copied(&meta.replay),
            trace: copied(&meta.trace),
            manifest: copied(&meta.manifest),
            gpui_rev: Some(gpui_rev.to_owned()),
            conditions: copied(&meta.conditions),
            notes: None,
            verdict: verdict(result.as_ref(), coverage.as_ref()),
            result,
            coverage,
        }
    }

    /// Records that the engine died. What was measured before is kept; the run fails whatever
    /// it says, and the notes say why.
    pub fn record_engine_panic(&mut self, detail: &str)
        ensures
            final(self).verdict == Verdict::Fail,
            text_of(final(self).notes) == Some("engine thread panicked: "@ + detail@),
            final(self).gate == old(self).gate,
            final(self).date == old(self).date,
            final(self).binary == old(self).binary,
            final(self).git_sha == old(self).git_sha,
            final(self).git_dirty == old(self).git_dirty,
            final(self).replay == old(self).replay,
            final(self).trace == old(self).trace,
            final(self).manifest == old(self).manifest,
            final(self).gpui_rev == old(self).gpui_rev,
            final(self).conditions == old(self).conditions,
            final(self).result == old(self).result,
            final(self).coverage == old(self).coverage,
    {
        self.verdict = Verdict::Fail;
        self.notes = Some(concat2("engine thread panicked: ", detail));
    }
}

/// The rule of a gate, in one place. Gap records never fail a run.
pub fn verdict(result: Option<&FrameResult>, coverage: Option<&CoverageReport>) -> (r: Verdict)
    ensures
        r == judged(
            match result {
                Some(result) => Some(*result),
                None => None,
            },
            match coverage {
                Some(coverage) => Some(*coverage),
                None => None,
            },
        ),
{
    let frames: bool = match result {
        Some(result) => result.frames > 0 && result.missed == 0,
        None => false,
    };
    let covered: bool = match coverage {
        Some(coverage) => coverage.dropped == 0,
        None => true,
    };
    if frames && covered {
        Verdict::Pass
    } else {
        Verdict::Fail
    }
}

/// Whether the process fails: a failing verdict is fatal in a gated run alone.
pub fn gate_failed(gating: bool, verdict: Verdict) -> (r: bool)
    ensures
        r == (gating && verdict == Verdict::Fail),
{
    gating && verdict == Verdict::Fail
}

/// Where the last of the given character stands; before the beginning where there is none.
pub open spec fn last_index(s: Seq<char>, c: char) -> int
    decreases s.len(),
{
    if s.len() == 0 {
        -1
    } else if s.last() == c {
        s.len() - 1
    } else {
        last_index(s.drop_last(), c)
    }
}

/// The last component of a path that names a file. Slashes at the end and components that are
/// a single dot do not count; a path that ends in a double dot, or has no component, has no
/// file name.
pub open spec fn file_name(path: Seq<char>) -> Option<Seq<char>>
    decreases path.len(),
{
    let slash = last_index(path, '/');
    if path.len() == 0 || !(-1 <= slash < path.len()) {
        None
    } else {
        let component = path.skip(slash + 1);
        if component == ".."@ {
            None
        } else if component.len() == 0 || component == "."@ {
            if slash < 0 {
                None
            } else {
                file_name(path.take(slash))
            }
        } else {
            Some(component)
        }
    }
}

fn find_last(v: &Vec<char>, end: usize, c: char) -> (r: Option<usize>)
    requires
        end <= v.len(),
    ensures
        match r {
            Some(i) => i < end && last_index(v@.take(end as int), c) == i,
            None => last_index(v@.take(end as int), c) == -1,
        },
{
    let mut i: usize = end;
    while i > 0
        invariant
            i <= end <= v.len(),
            last_index(v@.take(end as int), c) == last_index(v@.take(i as int), c),
        decreases i,
    {
        assert(v@.take(i as int).drop_last() =~= v@.take(i - 1));
        if v[i - 1] == c {
            return Some(i - 1);
        }
        i -= 1;
    }
    None
}

/// The file name of a program's path.
fn program_name(path: &str) -> (r: Option<String>)
    ensures
        text_of(r) == file_name(path@),
{
    let v: Vec<char> = chars_of(path);
    let mut end: usize = v.len();
    assert(v@.take(end as int) =~= path@);
    while end > 0
        invariant
            end <= v.len(),
            file_name(path@) == file_name(v@.take(end as int)),
        decreases end,
    {
        let ghost here = v@.take(end as int);
        let slash: Option<usize> = find_last(&v, end, '/');
        let from: usize = match slash {
            Some(i) => i + 1,
            None => 0,
        };
        let component: Vec<char> = slice(&v, from, end);
        assert(component@ =~= here.skip(from as int));
        if spells(&component, "..") {
            return None;
        }
        if component.len() == 0 || spells(&component, ".") {
            match slash {
                None => return None,
                Some(i) => {
                    assert(here.take(i as int) =~= v@.take(i as int));
                    end = i;
                },
            }
        } else {
            return Some(spelled(&component));
        }
    }
    None
}

/// The command line as evidence records it.
pub open spec fn recorded_line(argv: Seq<Seq<char>>) -> Seq<char> {
    if argv.len() == 0 {
        Seq::empty()
    } else {
        let program = match file_name(argv[0]) {
            Some(name) => name,
            None => argv[0],
        };
        joined(argv.update(0, program), " "@)
    }
}

/// The command line as evidence records it: the program by its file name, then its arguments.
pub fn command_line(argv: Vec<String>) -> (r: String)
    ensures
        r@ == recorded_line(texts_of(argv@)),
{
    if argv.len() == 0 {
        return String::new();
    }
    let mut parts: Vec<String> = argv;
    let program: String = match program_name(parts[0].as_str()) {
        Some(name) => name,
        None => parts[0].clone(),
    };
    let ghost before = texts_of(parts@);
    parts.set(0, program);
    assert(texts_of(parts@) =~= before.update(0, program@));
    join(&parts, " ")
}

/// A run passes when it measured frames, missed no deadline among them and dropped no event; gaps
/// in the source do not count against it. A failure ends the process only in a gated run.
pub proof fn law_verdict(
    result: Option<&FrameResult>,
    coverage: Option<&CoverageReport>,
    gating: bool,
    r: Verdict,
    fatal: bool,
)
    requires
        call_ensures(verdict, (result, coverage), r),
        call_ensures(gate_failed, (gating, r), fatal),
    ensures
        r == Verdict::Pass <==> {
            &&& result is Some
            &&& result->0.frames > 0
            &&& result->0.missed == 0
            &&& coverage is Some ==> coverage->0.dropped == 0
        },
        fatal <==> gating && r != Verdict::Pass,
{
}

/// What was read is applied or dropped, and what is reported beside that are the gaps.
pub proof fn law_coverage(read: u64, applied: u64, gaps: u64, r: CoverageReport)
    requires
        call_ensures(CoverageReport::new, (read, applied, gaps), r),
    ensures
        r.events_read == read && r.events_applied == applied && r.gap_records == gaps,
        applied <= read ==> r.events_applied + r.dropped == r.events_read,
        applied > read ==> r.dropped == 0,
{
}

/// A report carries the run's own identity, measurements and verdict; once the engine died it fails,
/// whatever was measured, and what was measured stays in it.
pub proof fn law_report(
    meta: &RunMeta,
    date: String,
    gpui_rev: &'static str,
    result: Option<FrameResult>,
    coverage: Option<CoverageReport>,
    made: GateReport,
    report: &mut GateReport,
    detail: &'static str,
)
    requires
        call_ensures(GateReport::new, (meta, date, gpui_rev, result, coverage), made),
        call_ensures(GateReport::record_engine_panic, (report, detail), ()),
    ensures
        made.gate@ == meta.gate@ && made.binary@ == meta.binary@ && made.date@ == date@,
        made.git_sha@ == meta.git.sha@ && made.git_dirty == meta.git.dirty,
        made.gpui_rev is Some && made.gpui_rev->0@ == gpui_rev@,
        text_of(made.replay) == text_of(meta.replay),
        text_of(made.trace) == text_of(meta.trace),
        text_of(made.manifest) == text_of(meta.manifest),
        text_of(made.conditions) == text_of(meta.conditions),
        made.notes is None,
        made.result == result && made.coverage == coverage,
        made.verdict == Verdict::Pass <==> result is Some && result->0.frames > 0
            && result->0.missed == 0 && (coverage is Some ==> coverage->0.dropped == 0),
        final(report).verdict == Verdict::Fail,
        final(report).result == old(report).result,
        final(report).coverage == old(report).coverage,
        final(report).notes is Some && final(report).notes->0@ == "engine thread panicked: "@
            + detail@,
{
}

/// A tree with changes is dirty, one without is not; a commit that cannot be told is unknown, and so
/// is whether the tree is dirty.
pub proof fn law_commit(
    head: Result<String, String>,
    status: Result<String, String>,
    r: (GitInfo, Option<String>),
)
    requires
        call_ensures(GitInfo::capture, (head, status), r),
    ensures
        head is Ok && status is Ok ==> r.0.sha@ == trim(head->Ok_0@) && r.1 is None && r.0.dirty
            is Some,
        head is Ok && status is Ok && trim(status->Ok_0@).len() > 0 ==> r.0.dirty == Some(true),
        head is Ok && status is Ok && trim(status->Ok_0@).len() == 0 ==> r.0.dirty == Some(false),
        head is Err || status is Err ==> r.0.sha@ == "unknown"@ && r.0.dirty is None && r.1
            is Some,
{
}

proof fn lemma_last_index(s: Seq<char>, tail: Seq<char>)
    requires
        forall|i: int| 0 <= i < tail.len() ==> #[trigger] tail[i] != '/',
    ensures
        last_index(s.push('/') + tail, '/') == s.len(),
        last_index(tail, '/') == -1,
    decreases tail.len(),
{
    let whole = s.push('/') + tail;
    if tail.len() > 0 {
        assert(tail[tail.len() - 1] != '/');
        let front = tail.drop_last();
        assert forall|i: int| 0 <= i < front.len() implies #[trigger] front[i] != '/' by {
            assert(front[i] == tail[i]);
        }
        lemma_last_index(s, front);
        assert(whole.drop_last() =~= s.push('/') + front);
        assert(whole.last() == tail.last());
    } else {
        assert(whole =~= s.push('/'));
    }
}

/// The file name of a path is what stands behind its last slash, whatever stands before it; a slash
/// or a dot as a component at the end does not change it.
pub proof fn law_file_name(directory: Seq<char>, name: Seq<char>)
    requires
        name.len() > 0,
        name != "."@,
        name != ".."@,
        forall|i: int| 0 <= i < name.len() ==> #[trigger] name[i] != '/',
    ensures
        file_name(name) == Some(name),
        file_name(directory.push('/') + name) == Some(name),
        file_name((directory.push('/') + name).push('/')) == Some(name),
{
    let path = directory.push('/') + name;
    lemma_last_index(directory, name);
    assert(name.skip(0) =~= name);
    assert(path.skip(directory.len() as int + 1) =~= name);
    lemma_last_index(path, Seq::empty());
    assert(path.push('/') + Seq::<char>::empty() =~= path.push('/'));
    assert(path.push('/').skip(path.len() as int + 1) =~= Seq::<char>::empty());
    assert(path.push('/').take(path.len() as int) =~= path);
    reveal_strlit("..");
    assert(Seq::<char>::empty() != ".."@) by {
        assert(".."@.len() == 2);
    }
}

/// A command line is the program's file name, and each further argument stands behind the others
/// with a space between.
pub proof fn law_command_line(argv: Vec<String>, longer: Vec<String>, r: String, s: String)
    requires
        argv.len() > 0,
        longer@.len() == argv.len() + 1,
        forall|i: int| 0 <= i < argv.len() ==> (#[trigger] longer@[i])@ == argv@[i]@,
        call_ensures(command_line, (argv,), r),
        call_ensures(command_line, (longer,), s),
    ensures
        argv.len() == 1 && file_name(argv@[0]@) is Some ==> r@ == file_name(argv@[0]@)->0,
        argv.len() == 1 && file_name(argv@[0]@) is None ==> r@ == argv@[0]@,
        s@ == r@ + " "@ + longer@[argv.len() as int]@,
{
    let a = texts_of(argv@);
    let b = texts_of(longer@);
    let program = match file_name(a[0]) {
        Some(name) => name,
        None => a[0],
    };
    assert(b[0] == longer@[0]@);
    assert(a[0] == argv@[0]@);
    assert(b.update(0, program).drop_last() =~= a.update(0, program));
    assert(b.update(0, program).last() == longer@[argv.len() as int]@);
}

/// The line on the coverage gives each count under its own word.
pub proof fn law_coverage_line(coverage: &CoverageReport, r: String)
    requires
        call_ensures(CoverageReport::to_string, (coverage,), r),
    ensures
        r@ == "coverage events_read="@ + decimal(coverage.events_read as nat) + " events_applied="@
            + decimal(coverage.events_applied as nat) + " dropped="@ + decimal(
            coverage.dropped as nat,
        ) + " gap_records="@ + decimal(coverage.gap_records as nat),
{
}

} // verus!
