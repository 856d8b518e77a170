//! Grading the skills — on the artifacts they leave in the repo, never on
//! whether anyone invoked them.
//!
//! A low rate is a conversation, not a failure: nothing here produces a
//! finding about a number. The only findings are structural — a skill that
//! says nothing about what it produces, or a measure that would not run.
//!
//! The caller lists the skill directories, reads each `SKILL.md`, runs the
//! `evidence:` commands this module asks for and reads the transcripts; the
//! grading, the tallies, the gaps and the agenda are decided here.

use vstd::prelude::*;

use crate::doctor::{findings_view, push_finding, Finding, FindingView, Severity};
use crate::harness::corpus::{
    issue_view, lesson_view, read_issues, read_issues_spec, read_lessons, read_lessons_spec, Corpus,
    IssueView, Lesson, LessonView, Plan,
};
use crate::harness::evidence::{percent_spec, rate_label, Rate};
use crate::harness::frontmatter::{join, join_strings, lookup, parse, value_text, Frontmatter, ValueView};
use crate::harness::install::check::skill_frontmatter;
use crate::harness::check::{cited, lesson_cites, lessons_view};
use crate::harness::transcripts::{counts_view, seen_index, Seen};
use crate::path::{join as path_join, relative_to};
use crate::text::{chars_of, decimal, push_decimal, push_str, seq_eq, string_of};

verus! {

/// How a skill's conformance came out over one window.
#[derive(Debug, Clone, Copy, PartialEq, Eq, Structural)]
pub enum Measure {
    /// The measure ran and printed two integers.
    Rate(Rate),
    /// A skill that produces no artifact, exempt by its own frontmatter.
    Exempt,
    /// The all-time cell of an exempt skill.
    NotApplicable,
    /// No `produces:` at all.
    NoContract,
    /// `produces:` but no `evidence:` command to measure it with.
    NoCommand,
    /// The measure would not run, or printed something else. Never `0`.
    Unmeasured,
}

pub open spec fn measure_label(m: Measure) -> Seq<char> {
    match m {
        Measure::Rate(r) => rate_label(r),
        Measure::Exempt => "reference (exempt)"@,
        Measure::NotApplicable => "-"@,
        Measure::NoContract => "no contract"@,
        Measure::NoCommand => "no measure"@,
        Measure::Unmeasured => "unmeasured"@,
    }
}

/// A rate small enough that its percentage can be computed.
pub open spec fn measure_ok(m: Measure) -> bool {
    match m {
        Measure::Rate(r) => r.total == 0 || r.conforming * 100 <= u64::MAX,
        _ => true,
    }
}

impl Measure {
    pub fn label(&self) -> (r: String)
        requires
            measure_ok(*self),
        ensures
            r@ == measure_label(*self),
    {
        match self {
            Measure::Rate(rate) => rate.label(),
            Measure::Exempt => "reference (exempt)".to_owned(),
            Measure::NotApplicable => "-".to_owned(),
            Measure::NoContract => "no contract".to_owned(),
            Measure::NoCommand => "no measure".to_owned(),
            Measure::Unmeasured => "unmeasured".to_owned(),
        }
    }

    fn rate(&self) -> (r: Option<Rate>)
        ensures
            r == match *self {
                Measure::Rate(x) => Some(x),
                _ => None::<Rate>,
            },
    {
        match self {
            Measure::Rate(rate) => Some(*rate),
            _ => None,
        }
    }
}

/// One row of the report.
#[derive(Debug, Clone)]
pub struct SkillRow {
    pub name: String,
    /// Whether it is projected into the vendor's skills directory.
    pub wired: bool,
    pub produces: Option<String>,
    pub windowed: Measure,
    pub all_time: Measure,
    /// How many recorded issues name this skill.
    pub issues: usize,
    /// Invocation counts, only when transcripts were asked for.
    pub invocations: Option<u64>,
    pub last_invoked: Option<String>,
}

/// The recent rate is below the all-time one.
pub open spec fn regressed_spec(windowed: Measure, all_time: Measure) -> bool {
    match (windowed, all_time) {
        (Measure::Rate(w), Measure::Rate(a)) => match (percent_spec(w), percent_spec(a)) {
            (Some(x), Some(y)) => x < y,
            _ => false,
        },
        _ => false,
    }
}

/// A skill has regressed exactly when both its rates measured something and
/// the windowed percentage is strictly below the all-time one. So equal
/// percentages, a steady 100% among them, never count, no rate has regressed
/// against itself, and of two rates at most one has regressed against the
/// other.
pub proof fn lemma_regressed_only_when_strictly_below(windowed: Measure, all_time: Measure)
    ensures
        regressed_spec(windowed, all_time) <==> (windowed is Rate && all_time is Rate && windowed->0.total > 0
            && all_time->0.total > 0 && (windowed->0.conforming as int) * 100 / (windowed->0.total as int) < (
        all_time->0.conforming as int) * 100 / (all_time->0.total as int)),
        !regressed_spec(windowed, windowed),
        regressed_spec(windowed, all_time) ==> !regressed_spec(all_time, windowed),
{
}

impl SkillRow {
    /// True when the recent rate is below the all-time one — the signal that
    /// something changed lately, which an all-time rate would bury.
    pub fn regressed(&self) -> (r: bool)
        requires
            measure_ok(self.windowed),
            measure_ok(self.all_time),
        ensures
            r == regressed_spec(self.windowed, self.all_time),
    {
        match (self.windowed.rate(), self.all_time.rate()) {
            (Some(window), Some(all)) => match (window.percent(), all.percent()) {
                (Some(w), Some(a)) => w < a,
                _ => false,
            },
            _ => false,
        }
    }
}

/// An area of the codebase with recorded issues that no skill owns.
#[derive(Debug, Clone)]
pub struct Gap {
    pub area: String,
    pub issues: usize,
    pub ids: Vec<String>,
}

/// The whole report.
#[derive(Debug)]
pub struct Report {
    pub skills: Vec<SkillRow>,
    pub gaps: Vec<Gap>,
    pub agenda: Vec<String>,
    pub findings: Vec<Finding>,
    /// Whether invocation counts were asked for and could be read.
    pub counted: bool,
}

impl Default for Report {
    fn default() -> (r: Report)
        ensures
            r.skills@.len() == 0 && r.gaps@.len() == 0 && r.agenda@.len() == 0 && r.findings@.len() == 0 && !r.counted,
    {
        Report { skills: Vec::new(), gaps: Vec::new(), agenda: Vec::new(), findings: Vec::new(), counted: false }
    }
}

/// What the caller wants measured.
#[derive(Debug, Clone)]
pub struct Options {
    /// Off skips every `evidence:` subprocess.
    pub run_evidence: bool,
    /// A directory of session transcripts, if invocation counts were asked
    /// for.
    pub transcripts: Option<String>,
    /// Seconds one measure may take.
    pub timeout_secs: u64,
}

impl Default for Options {
    fn default() -> (r: Options)
        ensures
            r.run_evidence && r.transcripts is None && r.timeout_secs == crate::harness::evidence::TIMEOUT_SECS,
    {
        Options { run_evidence: true, transcripts: None, timeout_secs: crate::harness::evidence::TIMEOUT_SECS }
    }
}

// --- grading one skill ---------------------------------------------------

/// A frontmatter value as text, when the key is there and the text is not
/// empty.
pub open spec fn field_spec(fm: Option<Seq<(Seq<char>, ValueView)>>, key: Seq<char>) -> Option<Seq<char>> {
    match fm {
        Some(e) => match lookup(e, key) {
            Some(v) => if value_text(v).len() > 0 { Some(value_text(v)) } else { None },
            None => None,
        },
        None => None,
    }
}

/// How a skill's contract reads: what grading needs from its frontmatter.
pub enum Contract {
    /// No `produces:`.
    Silent,
    /// `produces: none`, or `kind: reference`.
    Exempt,
    /// Produces something, with no `evidence:` to measure it.
    Unmeasurable,
    /// Produces something, measured by this command.
    Measured(String),
}

pub open spec fn contract_spec(text: Seq<char>) -> (Option<Seq<char>>, ContractView) {
    let fm = skill_frontmatter(text);
    let produces = field_spec(fm, "produces"@);
    let evidence = field_spec(fm, "evidence"@);
    let kind = field_spec(fm, "kind"@);
    let c = match produces {
        None => ContractView::Silent,
        Some(p) => if p == "none"@ || kind == Some("reference"@) {
            ContractView::Exempt
        } else {
            match evidence {
                None => ContractView::Unmeasurable,
                Some(cmd) => ContractView::Measured(cmd),
            }
        },
    };
    (produces, c)
}

pub enum ContractView {
    Silent,
    Exempt,
    Unmeasurable,
    Measured(Seq<char>),
}

pub open spec fn contract_view(c: Contract) -> ContractView {
    match c {
        Contract::Silent => ContractView::Silent,
        Contract::Exempt => ContractView::Exempt,
        Contract::Unmeasurable => ContractView::Unmeasurable,
        Contract::Measured(cmd) => ContractView::Measured(cmd@),
    }
}

fn field(fm: &Option<Frontmatter>, key: &str) -> (r: Option<String>)
    ensures
        match r {
            Some(s) => field_spec(match fm { Some(f) => Some(f@), None => None }, key@) == Some(s@),
            None => field_spec(match fm { Some(f) => Some(f@), None => None }, key@) is None,
        },
{
    match fm {
        Some(f) => match f.text(key) {
            Some(t) => {
                if chars_of(t.as_str()).len() > 0 {
                    Some(t)
                } else {
                    None
                }
            },
            None => None,
        },
        None => None,
    }
}

/// What `SKILL.md` text says a skill produces, and how it is to be graded.
pub fn contract(text: &str) -> (r: (Option<String>, Contract))
    ensures
        (match r.0 { Some(p) => Some(p@), None => None }, contract_view(r.1)) == contract_spec(text@),
{
    let fm = match parse(text) {
        Ok(f) => f,
        Err(_) => None,
    };
    proof {
        reveal_strlit("none");
        reveal_strlit("reference");
    }
    let produces = field(&fm, "produces");
    let evidence = field(&fm, "evidence");
    let kind = field(&fm, "kind");
    let c = match &produces {
        None => Contract::Silent,
        Some(p) => {
            let is_reference = match &kind {
                Some(k) => seq_eq(&chars_of(k.as_str()), &chars_of("reference")),
                None => false,
            };
            if seq_eq(&chars_of(p.as_str()), &chars_of("none")) || is_reference {
                Contract::Exempt
            } else {
                match evidence {
                    None => Contract::Unmeasurable,
                    Some(cmd) => Contract::Measured(cmd),
                }
            }
        },
    };
    (produces, c)
}

/// The `evidence:` command the caller has to run for this skill — twice,
/// windowed and over all of history — before grading it; none when the
/// skill is not measured that way or measures are switched off.
pub fn evidence_to_run(text: &str, run_evidence: bool) -> (r: Option<String>)
    ensures
        match contract_spec(text@).1 {
            ContractView::Measured(cmd) => if run_evidence { r is Some && r->0@ == cmd } else { r is None },
            _ => r is None,
        },
{
    if !run_evidence {
        return None;
    }
    match contract(text).1 {
        Contract::Measured(cmd) => Some(cmd),
        _ => None,
    }
}

pub open spec fn no_contract_finding(name: Seq<char>, shown: Seq<char>) -> FindingView {
    (
        "skill.no-contract."@ + name,
        Severity::Warning,
        shown + " declares no 'produces:' — nothing says what this skill is supposed to leave behind"@,
        "add 'produces:' and 'evidence:' to its frontmatter, or 'kind: reference' if it produces nothing"@,
    )
}

pub open spec fn no_command_finding(name: Seq<char>, shown: Seq<char>) -> FindingView {
    (
        "skill.no-contract."@ + name,
        Severity::Warning,
        shown + " says what it produces but gives no 'evidence:' command to measure it"@,
        "add an 'evidence:' one-liner printing '<conforming> <total>'"@,
    )
}

pub open spec fn evidence_failed_finding(name: Seq<char>, shown: Seq<char>) -> FindingView {
    (
        "skill.evidence-failed."@ + name,
        Severity::Warning,
        "the 'evidence:' command for "@ + name + " did not run, or printed something other than two integers"@,
        "run the 'evidence:' one-liner in "@ + shown + " by hand and see what it prints"@,
    )
}

pub open spec fn rate_or_unmeasured(r: Option<Rate>) -> Measure {
    match r {
        Some(x) => Measure::Rate(x),
        None => Measure::Unmeasured,
    }
}

/// A skill's two measures and the findings grading it produced: `measured`
/// holds the windowed and all-time results when the measure was run.
pub open spec fn grade_spec(name: Seq<char>, shown: Seq<char>, text: Seq<char>, measured: Option<(Option<Rate>, Option<Rate>)>) -> (Measure, Measure, Seq<FindingView>) {
    match contract_spec(text).1 {
        ContractView::Silent => (Measure::NoContract, Measure::NoContract, seq![no_contract_finding(name, shown)]),
        ContractView::Exempt => (Measure::Exempt, Measure::NotApplicable, Seq::empty()),
        ContractView::Unmeasurable => (Measure::NoCommand, Measure::NoCommand, seq![no_command_finding(name, shown)]),
        ContractView::Measured(_) => match measured {
            None => (Measure::Unmeasured, Measure::Unmeasured, Seq::empty()),
            Some((w, a)) => (
                rate_or_unmeasured(w),
                rate_or_unmeasured(a),
                if w is None || a is None { seq![evidence_failed_finding(name, shown)] } else { Seq::empty() },
            ),
        },
    }
}

/// A rate is never a finding: grading the same skill with any two measured
/// results finds the same things whenever the same measures ran, whatever
/// numbers they printed.
pub proof fn lemma_numbers_never_become_findings(
    name: Seq<char>,
    shown: Seq<char>,
    text: Seq<char>,
    w1: Option<Rate>,
    a1: Option<Rate>,
    w2: Option<Rate>,
    a2: Option<Rate>,
)
    requires
        (w1 is Some) == (w2 is Some),
        (a1 is Some) == (a2 is Some),
    ensures
        grade_spec(name, shown, text, Some((w1, a1))).2 == grade_spec(name, shown, text, Some((w2, a2))).2,
{
}

/// A measure that would not run is `unmeasured`, never a rate of zero, and
/// it is reported; one that ran is its rate.
pub proof fn lemma_a_failed_measure_is_unmeasured(name: Seq<char>, shown: Seq<char>, text: Seq<char>, w: Option<Rate>, a: Option<Rate>)
    requires
        contract_spec(text).1 is Measured,
    ensures
        grade_spec(name, shown, text, Some((w, a))).0 == (match w { Some(r) => Measure::Rate(r), None => Measure::Unmeasured }),
        grade_spec(name, shown, text, Some((w, a))).1 == (match a { Some(r) => Measure::Rate(r), None => Measure::Unmeasured }),
        (w is None || a is None) ==> grade_spec(name, shown, text, Some((w, a))).2 == seq![evidence_failed_finding(name, shown)],
        grade_spec(name, shown, text, None).0 == Measure::Unmeasured,
        grade_spec(name, shown, text, None).2.len() == 0,
{
}

/// Grades one skill from its `SKILL.md` text (`shown` is that file as the
/// report names it). `measured` is what the `evidence:` command printed,
/// parsed, windowed and all-time, when `evidence_to_run` asked for it to be
/// run; `None` when it was not.
pub fn grade(
    name: &str,
    shown: &str,
    text: &str,
    measured: Option<(Option<Rate>, Option<Rate>)>,
    wired: bool,
    issues: usize,
    findings: &mut Vec<Finding>,
) -> (row: SkillRow)
    ensures
        row.name@ == name@,
        row.wired == wired,
        row.issues == issues,
        (match row.produces { Some(p) => Some(p@), None => None }) == contract_spec(text@).0,
        row.windowed == grade_spec(name@, shown@, text@, measured).0,
        row.all_time == grade_spec(name@, shown@, text@, measured).1,
        findings_view(final(findings)@) == findings_view(old(findings)@) + grade_spec(name@, shown@, text@, measured).2,
        row.invocations is None,
        row.last_invoked is None,
{
    let ghost start = findings_view(findings@);
    let (produces, c) = contract(text);
    let (windowed, all_time) = match c {
        Contract::Silent => {
            let mut fid: Vec<char> = Vec::new();
            push_str(&mut fid, "skill.no-contract.");
            push_str(&mut fid, name);
            let mut m: Vec<char> = Vec::new();
            push_str(&mut m, shown);
            push_str(&mut m, " declares no 'produces:' — nothing says what this skill is supposed to leave behind");
            push_finding(findings, string_of(&fid), Severity::Warning, string_of(&m),
                "add 'produces:' and 'evidence:' to its frontmatter, or 'kind: reference' if it produces nothing".to_owned());
            (Measure::NoContract, Measure::NoContract)
        },
        Contract::Exempt => (Measure::Exempt, Measure::NotApplicable),
        Contract::Unmeasurable => {
            let mut fid: Vec<char> = Vec::new();
            push_str(&mut fid, "skill.no-contract.");
            push_str(&mut fid, name);
            let mut m: Vec<char> = Vec::new();
            push_str(&mut m, shown);
            push_str(&mut m, " says what it produces but gives no 'evidence:' command to measure it");
            push_finding(findings, string_of(&fid), Severity::Warning, string_of(&m),
                "add an 'evidence:' one-liner printing '<conforming> <total>'".to_owned());
            (Measure::NoCommand, Measure::NoCommand)
        },
        Contract::Measured(_) => match measured {
            None => (Measure::Unmeasured, Measure::Unmeasured),
            Some((w, a)) => {
                if w.is_none() || a.is_none() {
                    let mut fid: Vec<char> = Vec::new();
                    push_str(&mut fid, "skill.evidence-failed.");
                    push_str(&mut fid, name);
                    let mut m: Vec<char> = Vec::new();
                    push_str(&mut m, "the 'evidence:' command for ");
                    push_str(&mut m, name);
                    push_str(&mut m, " did not run, or printed something other than two integers");
                    let mut rem: Vec<char> = Vec::new();
                    push_str(&mut rem, "run the 'evidence:' one-liner in ");
                    push_str(&mut rem, shown);
                    push_str(&mut rem, " by hand and see what it prints");
                    push_finding(findings, string_of(&fid), Severity::Warning, string_of(&m), string_of(&rem));
                }
                let wm = match w {
                    Some(x) => Measure::Rate(x),
                    None => Measure::Unmeasured,
                };
                let am = match a {
                    Some(x) => Measure::Rate(x),
                    None => Measure::Unmeasured,
                };
                (wm, am)
            },
        },
    };
    assert(findings_view(findings@) =~= start + grade_spec(name@, shown@, text@, measured).2);
    SkillRow {
        name: name.to_owned(),
        wired,
        produces,
        windowed,
        all_time,
        issues,
        invocations: None,
        last_invoked: None,
    }
}

// --- the issues column ---------------------------------------------------

/// The issues a plan's `learnings.md` records, when it could be read.
pub open spec fn plan_issues(p: Plan) -> Seq<IssueView> {
    match p.learnings {
        Some(t) => read_issues_spec(t@),
        None => Seq::empty(),
    }
}

/// How many of the first `n` issues name skill `name` on their
/// `**Skill:**` line.
pub open spec fn naming_upto(issues: Seq<IssueView>, name: Seq<char>, n: int) -> nat
    decreases n,
{
    if n <= 0 {
        0
    } else {
        naming_upto(issues, name, n - 1) + if issues[n - 1].1 == Some(name) { 1nat } else { 0nat }
    }
}

/// How many issues the first `n` plans record against skill `name`.
pub open spec fn tally_upto(plans: Seq<Plan>, name: Seq<char>, n: int) -> nat
    decreases n,
{
    if n <= 0 {
        0
    } else {
        let is = plan_issues(plans[n - 1]);
        tally_upto(plans, name, n - 1) + naming_upto(is, name, is.len() as int)
    }
}

/// A count as a `usize` holds it: capped at the largest one.
pub open spec fn clip(n: nat) -> nat {
    if n > usize::MAX { usize::MAX as nat } else { n }
}

fn naming_count(issues: &Vec<crate::harness::corpus::Issue>, name: &str) -> (r: usize)
    ensures
        r == naming_upto(issues@.map_values(|i: crate::harness::corpus::Issue| issue_view(i)), name@, issues@.len() as int),
{
    let ghost iv = issues@.map_values(|i: crate::harness::corpus::Issue| issue_view(i));
    let nc = chars_of(name);
    let mut c: usize = 0;
    let mut i: usize = 0;
    while i < issues.len()
        invariant
            i <= issues@.len(),
            c <= i,
            nc@ == name@,
            iv == issues@.map_values(|i: crate::harness::corpus::Issue| issue_view(i)),
            c == naming_upto(iv, name@, i as int),
        decreases issues.len() - i,
    {
        let names = match &issues[i].skill {
            Some(s) => seq_eq(&chars_of(s.as_str()), &nc),
            None => false,
        };
        assert(iv[i as int] == issue_view(issues@[i as int]));
        if names {
            c = c + 1;
        }
        i = i + 1;
    }
    c
}

/// How many recorded issues, over every plan, name skill `name` — the
/// report's issues column.
pub fn issue_count(corpus: &Corpus, name: &str) -> (r: usize)
    ensures
        r == clip(tally_upto(corpus.plans@, name@, corpus.plans@.len() as int)),
{
    let mut total: usize = 0;
    let mut i: usize = 0;
    while i < corpus.plans.len()
        invariant
            i <= corpus.plans@.len(),
            total == clip(tally_upto(corpus.plans@, name@, i as int)),
        decreases corpus.plans.len() - i,
    {
        let p = &corpus.plans[i];
        let n = match &p.learnings {
            Some(t) => naming_count(&read_issues(t.as_str()), name),
            None => 0,
        };
        total = if total <= usize::MAX - n { total + n } else { usize::MAX };
        i = i + 1;
    }
    total
}

// --- gaps -----------------------------------------------------------------

/// The areas a plan's README declares.
pub open spec fn plan_areas(p: Plan) -> Seq<Seq<char>> {
    match p.readme {
        Some(d) => match d.frontmatter {
            Some(f) => match lookup(f@, "areas"@) {
                Some(ValueView::List(items)) => items,
                _ => Seq::empty(),
            },
            None => Seq::empty(),
        },
        None => Seq::empty(),
    }
}

/// An issue attributed to no skill whose gap question is still open.
pub open spec fn unowned(i: IssueView) -> bool {
    i.1 == Some("none"@) && !i.3
}

/// `(area, issue id)` for every unowned issue among the first `n` and every
/// area, issue by issue.
pub open spec fn issue_pairs(issues: Seq<IssueView>, areas: Seq<Seq<char>>, n: int) -> Seq<(Seq<char>, Seq<char>)>
    decreases n,
{
    if n <= 0 {
        Seq::empty()
    } else {
        issue_pairs(issues, areas, n - 1) + if unowned(issues[n - 1]) {
            areas.map_values(|a: Seq<char>| (a, issues[n - 1].0))
        } else {
            Seq::empty()
        }
    }
}

/// The `(area, issue id)` pairs of the first `n` plans.
pub open spec fn gap_pairs(plans: Seq<Plan>, n: int) -> Seq<(Seq<char>, Seq<char>)>
    decreases n,
{
    if n <= 0 {
        Seq::empty()
    } else {
        let is = plan_issues(plans[n - 1]);
        gap_pairs(plans, n - 1) + issue_pairs(is, plan_areas(plans[n - 1]), is.len() as int)
    }
}

/// The issue ids of area `area` among the first `n` pairs.
pub open spec fn ids_of(pairs: Seq<(Seq<char>, Seq<char>)>, area: Seq<char>, n: int) -> Seq<Seq<char>>
    decreases n,
{
    if n <= 0 {
        Seq::empty()
    } else {
        ids_of(pairs, area, n - 1) + if pairs[n - 1].0 == area { seq![pairs[n - 1].1] } else { Seq::empty() }
    }
}

/// The report's order: more issues first, then by area.
pub open spec fn gap_before(a: Seq<char>, an: int, b: Seq<char>, bn: int) -> bool {
    an > bn || (an == bn && crate::text::lex_lt(a, b))
}

pub open spec fn gap_view(g: Gap) -> (Seq<char>, int, Seq<Seq<char>>) {
    (g.area@, g.issues as int, g.ids@.map_values(|s: String| s@))
}

/// Some gap is for area `a`.
pub open spec fn has_gap(r: Seq<Gap>, a: Seq<char>) -> bool {
    exists|i: int| 0 <= i < r.len() && (#[trigger] r[i]).area@ == a
}

/// What `gaps` returns: one gap per area some unowned issue touched, with
/// exactly that area's ids, in the report's order.
pub open spec fn gaps_ok(pairs: Seq<(Seq<char>, Seq<char>)>, r: Seq<Gap>) -> bool {
    &&& forall|i: int| 0 <= i < r.len() ==> {
        let g = gap_view(#[trigger] r[i]);
        g.2 == ids_of(pairs, g.0, pairs.len() as int) && g.1 == g.2.len() && g.2.len() > 0
    }
    &&& forall|k: int| 0 <= k < pairs.len() ==> has_gap(r, (#[trigger] pairs[k]).0)
    &&& forall|i: int, j: int| 0 <= i < j < r.len() ==> gap_before((#[trigger] r[i]).area@, r[i].issues as int, (#[trigger] r[j]).area@, r[j].issues as int)
}

proof fn lemma_gap_order(a: Seq<char>, an: int, b: Seq<char>, bn: int, c: Seq<char>, cn: int)
    ensures
        !gap_before(a, an, a, an),
        gap_before(a, an, b, bn) ==> !gap_before(b, bn, a, an),
        gap_before(a, an, b, bn) && gap_before(b, bn, c, cn) ==> gap_before(a, an, c, cn),
        a != b ==> gap_before(a, an, b, bn) || gap_before(b, bn, a, an),
{
    crate::text::lemma_lex_irreflexive(a);
    crate::text::lemma_lex_asymmetric(a, b);
    if crate::text::lex_lt(a, b) && crate::text::lex_lt(b, c) {
        crate::text::lemma_lex_transitive(a, b, c);
    }
    if a != b {
        crate::text::lemma_lex_total(a, b);
    }
}

/// The pairs of one plan's issues, appended to `out`.
fn push_issue_pairs(out: &mut Vec<(String, String)>, issues: &Vec<crate::harness::corpus::Issue>, areas: &[String])
    ensures
        final(out)@.map_values(|p: (String, String)| (p.0@, p.1@)) == old(out)@.map_values(|p: (String, String)| (p.0@, p.1@))
            + issue_pairs(
            issues@.map_values(|i: crate::harness::corpus::Issue| issue_view(i)),
            areas@.map_values(|s: String| s@),
            issues@.len() as int,
        ),
{
    let ghost iv = issues@.map_values(|i: crate::harness::corpus::Issue| issue_view(i));
    let ghost av = areas@.map_values(|s: String| s@);
    let ghost start = out@.map_values(|p: (String, String)| (p.0@, p.1@));
    let none = chars_of("none");
    proof {
        reveal_strlit("none");
    }
    let mut i: usize = 0;
    while i < issues.len()
        invariant
            i <= issues@.len(),
            none@ == "none"@,
            iv == issues@.map_values(|i: crate::harness::corpus::Issue| issue_view(i)),
            av == areas@.map_values(|s: String| s@),
            out@.map_values(|p: (String, String)| (p.0@, p.1@)) == start + issue_pairs(iv, av, i as int),
        decreases issues.len() - i,
    {
        let iss = &issues[i];
        assert(iv[i as int] == issue_view(*iss));
        let is_none = match &iss.skill {
            Some(s) => seq_eq(&chars_of(s.as_str()), &none),
            None => false,
        };
        let ghost before = out@.map_values(|p: (String, String)| (p.0@, p.1@));
        if is_none && !iss.gap_answered {
            let mut a: usize = 0;
            while a < areas.len()
                invariant
                    a <= areas@.len(),
                    av == areas@.map_values(|s: String| s@),
                    out@.map_values(|p: (String, String)| (p.0@, p.1@)) == before + av.take(a as int).map_values(|x: Seq<char>| (x, iss.id@)),
                decreases areas.len() - a,
            {
                let ghost b2 = out@.map_values(|p: (String, String)| (p.0@, p.1@));
                out.push((areas[a].clone(), iss.id.clone()));
                assert(out@.map_values(|p: (String, String)| (p.0@, p.1@)) =~= b2.push((av[a as int], iss.id@)));
                assert(av.take(a + 1).map_values(|x: Seq<char>| (x, iss.id@)) =~= av.take(a as int).map_values(|x: Seq<char>| (x, iss.id@)).push((av[a as int], iss.id@)));
                a = a + 1;
            }
            assert(av.take(areas@.len() as int) =~= av);
        }
        assert(out@.map_values(|p: (String, String)| (p.0@, p.1@)) =~= start + issue_pairs(iv, av, i + 1));
        i = i + 1;
    }
}

/// Every `(area, issue id)` pair of the corpus, plan by plan.
fn all_gap_pairs(corpus: &Corpus) -> (r: Vec<(String, String)>)
    ensures
        r@.map_values(|p: (String, String)| (p.0@, p.1@)) == gap_pairs(corpus.plans@, corpus.plans@.len() as int),
{
    let mut out: Vec<(String, String)> = Vec::new();
    let mut i: usize = 0;
    while i < corpus.plans.len()
        invariant
            i <= corpus.plans@.len(),
            out@.map_values(|p: (String, String)| (p.0@, p.1@)) == gap_pairs(corpus.plans@, i as int),
        decreases corpus.plans.len() - i,
    {
        let p = &corpus.plans[i];
        let empty: Vec<String> = Vec::new();
        let areas: &[String] = match &p.readme {
            Some(d) => match &d.frontmatter {
                Some(f) => match f.list("areas") {
                    Some(items) => items,
                    None => empty.as_slice(),
                },
                None => empty.as_slice(),
            },
            None => empty.as_slice(),
        };
        assert(areas@.map_values(|s: String| s@) =~= plan_areas(*p));
        let no_issues: Vec<crate::harness::corpus::Issue> = Vec::new();
        let issues = match &p.learnings {
            Some(t) => read_issues(t.as_str()),
            None => no_issues,
        };
        assert(issues@.map_values(|i: crate::harness::corpus::Issue| issue_view(i)) =~= plan_issues(*p));
        push_issue_pairs(&mut out, &issues, areas);
        i = i + 1;
    }
    out
}

proof fn lemma_ids_of_absent(pairs: Seq<(Seq<char>, Seq<char>)>, area: Seq<char>, n: int)
    requires
        forall|k: int| 0 <= k < n ==> (#[trigger] pairs[k]).0 != area,
    ensures
        ids_of(pairs, area, n) == Seq::<Seq<char>>::empty(),
    decreases n,
{
    if n > 0 {
        lemma_ids_of_absent(pairs, area, n - 1);
    }
}

/// Some group is for area `a`.
pub open spec fn has_area(gs: Seq<(Vec<char>, Vec<String>)>, a: Seq<char>) -> bool {
    exists|i: int| 0 <= i < gs.len() && (#[trigger] gs[i]).0@ == a
}

pub open spec fn group_view(g: (Vec<char>, Vec<String>)) -> (Seq<char>, Seq<Seq<char>>) {
    (g.0@, g.1@.map_values(|s: String| s@))
}

/// The pairs grouped by area, in order of first appearance, each area once.
fn group_pairs(pairs: &Vec<(String, String)>) -> (r: Vec<(Vec<char>, Vec<String>)>)
    ensures
        forall|i: int| 0 <= i < r@.len() ==> {
            let g = group_view(#[trigger] r@[i]);
            g.1 == ids_of(pairs@.map_values(|p: (String, String)| (p.0@, p.1@)), g.0, pairs@.len() as int) && g.1.len() > 0
        },
        forall|k: int| 0 <= k < pairs@.len() ==> has_area(r@, (#[trigger] pairs@[k]).0@),
        forall|i: int, j: int| 0 <= i < j < r@.len() ==> (#[trigger] r@[i]).0@ != (#[trigger] r@[j]).0@,
{
    let ghost pv = pairs@.map_values(|p: (String, String)| (p.0@, p.1@));
    let mut groups: Vec<(Vec<char>, Vec<String>)> = Vec::new();
    let mut k: usize = 0;
    while k < pairs.len()
        invariant
            k <= pairs@.len(),
            pv == pairs@.map_values(|p: (String, String)| (p.0@, p.1@)),
            forall|i: int| 0 <= i < groups@.len() ==> {
                let g = group_view(#[trigger] groups@[i]);
                g.1 == ids_of(pv, g.0, k as int) && g.1.len() > 0
            },
            forall|q: int| 0 <= q < k ==> has_area(groups@, (#[trigger] pairs@[q]).0@),
            forall|i: int, j: int| 0 <= i < j < groups@.len() ==> (#[trigger] groups@[i]).0@ != (#[trigger] groups@[j]).0@,
        decreases pairs.len() - k,
    {
        let area = chars_of(pairs[k].0.as_str());
        let id = pairs[k].1.clone();
        assert(pv[k as int] == (pairs@[k as int].0@, pairs@[k as int].1@));
        let mut f: usize = 0;
        while f < groups.len() && !seq_eq(&groups[f].0, &area)
            invariant
                f <= groups@.len(),
                forall|i: int| 0 <= i < f ==> (#[trigger] groups@[i]).0@ != area@,
            decreases groups.len() - f,
        {
            f = f + 1;
        }
        let found = f < groups.len();
        let ghost old_groups = groups@;
        if found {
            groups[f].1.push(id);
            proof {
                assert forall|i: int| 0 <= i < groups@.len() implies {
                    let g = group_view(#[trigger] groups@[i]);
                    g.1 == ids_of(pv, g.0, k + 1) && g.1.len() > 0
                } by {
                    if i == f {
                        assert(group_view(groups@[i]).1 =~= group_view(old_groups[i]).1.push(pv[k as int].1));
                    } else {
                        assert(groups@[i] == old_groups[i]);
                        assert(old_groups[i].0@ != old_groups[f as int].0@);
                    }
                }
                assert forall|q: int| 0 <= q < k + 1 implies has_area(groups@, (#[trigger] pairs@[q]).0@) by {
                    if q == k {
                        assert(groups@[f as int].0@ == pairs@[q].0@);
                    } else {
                        assert(has_area(old_groups, pairs@[q].0@));
                        let i = choose|i: int| 0 <= i < old_groups.len() && (#[trigger] old_groups[i]).0@ == pairs@[q].0@;
                        assert(groups@[i].0@ == old_groups[i].0@);
                    }
                }
                assert forall|i: int, j: int| 0 <= i < j < groups@.len() implies (#[trigger] groups@[i]).0@ != (#[trigger] groups@[j]).0@ by {
                    assert(groups@[i].0 == old_groups[i].0);
                    assert(groups@[j].0 == old_groups[j].0);
                }
            }
        } else {
            proof {
                assert forall|q: int| 0 <= q < k implies (#[trigger] pv[q]).0 != area@ by {
                    assert(has_area(old_groups, pairs@[q].0@));
                    let i = choose|i: int| 0 <= i < old_groups.len() && (#[trigger] old_groups[i]).0@ == pairs@[q].0@;
                    assert(old_groups[i].0@ != area@);
                    assert(pv[q] == (pairs@[q].0@, pairs@[q].1@));
                }
                lemma_ids_of_absent(pv, area@, k as int);
            }
            let mut ids: Vec<String> = Vec::new();
            ids.push(id);
            groups.push((area, ids));
            proof {
                assert forall|i: int| 0 <= i < groups@.len() implies {
                    let g = group_view(#[trigger] groups@[i]);
                    g.1 == ids_of(pv, g.0, k + 1) && g.1.len() > 0
                } by {
                    if i == old_groups.len() {
                        assert(group_view(groups@[i]).1 =~= seq![pv[k as int].1]);
                        assert(ids_of(pv, area@, k as int) =~= Seq::<Seq<char>>::empty());
                    } else {
                        assert(groups@[i] == old_groups[i]);
                    }
                }
                assert forall|q: int| 0 <= q < k + 1 implies has_area(groups@, (#[trigger] pairs@[q]).0@) by {
                    if q == k {
                        assert(groups@[old_groups.len() as int].0@ == pairs@[q].0@);
                    } else {
                        assert(has_area(old_groups, pairs@[q].0@));
                        let i = choose|i: int| 0 <= i < old_groups.len() && (#[trigger] old_groups[i]).0@ == pairs@[q].0@;
                        assert(groups@[i].0@ == old_groups[i].0@);
                    }
                }
                assert forall|i: int, j: int| 0 <= i < j < groups@.len() implies (#[trigger] groups@[i]).0@ != (#[trigger] groups@[j]).0@ by {
                    if j == old_groups.len() {
                        assert(groups@[i] == old_groups[i]);
                    } else {
                        assert(groups@[i] == old_groups[i]);
                        assert(groups@[j] == old_groups[j]);
                    }
                }
            }
        }
        k = k + 1;
    }
    groups
}

fn group_before(a: &(Vec<char>, Vec<String>), b: &(Vec<char>, Vec<String>)) -> (r: bool)
    ensures
        r == gap_before(a.0@, a.1@.len() as int, b.0@, b.1@.len() as int),
{
    a.1.len() > b.1.len() || (a.1.len() == b.1.len() && crate::text::lex_less(&a.0, &b.0))
}

/// Which issues no skill owns, by area: one gap per area an unowned,
/// unanswered issue's plan declares, with that area's issue ids in plan
/// order — biggest first, then by area.
pub fn gaps(corpus: &Corpus) -> (r: Vec<Gap>)
    ensures
        gaps_ok(gap_pairs(corpus.plans@, corpus.plans@.len() as int), r@),
{
    let pairs = all_gap_pairs(corpus);
    let ghost pv = pairs@.map_values(|p: (String, String)| (p.0@, p.1@));
    assert(pv.len() == pairs@.len());
    let mut rem = group_pairs(&pairs);
    let mut out: Vec<Gap> = Vec::new();
    while rem.len() > 0
        invariant
            pv == pairs@.map_values(|p: (String, String)| (p.0@, p.1@)),
            forall|i: int| 0 <= i < rem@.len() ==> {
                let g = group_view(#[trigger] rem@[i]);
                g.1 == ids_of(pv, g.0, pv.len() as int) && g.1.len() > 0
            },
            forall|i: int| 0 <= i < out@.len() ==> {
                let g = gap_view(#[trigger] out@[i]);
                g.2 == ids_of(pv, g.0, pv.len() as int) && g.1 == g.2.len() && g.2.len() > 0
            },
            forall|k: int| 0 <= k < pairs@.len() ==> has_gap(out@, (#[trigger] pairs@[k]).0@) || has_area(rem@, pairs@[k].0@),
            forall|i: int, j: int| 0 <= i < j < rem@.len() ==> (#[trigger] rem@[i]).0@ != (#[trigger] rem@[j]).0@,
            forall|i: int, j: int| 0 <= i < out@.len() && 0 <= j < rem@.len() ==> gap_before(
                (#[trigger] out@[i]).area@, out@[i].issues as int, (#[trigger] rem@[j]).0@, rem@[j].1@.len() as int),
            forall|i: int, j: int| 0 <= i < j < out@.len() ==> gap_before(
                (#[trigger] out@[i]).area@, out@[i].issues as int, (#[trigger] out@[j]).area@, out@[j].issues as int),
        decreases rem@.len(),
    {
        let mut b: usize = 0;
        let mut j: usize = 1;
        while j < rem.len()
            invariant
                b < j <= rem@.len(),
                forall|q: int| 0 <= q < j && q != b ==> !gap_before(
                    (#[trigger] rem@[q]).0@, rem@[q].1@.len() as int, rem@[b as int].0@, rem@[b as int].1@.len() as int),
            decreases rem.len() - j,
        {
            if group_before(&rem[j], &rem[b]) {
                proof {
                    let nj = rem@[j as int];
                    let nb = rem@[b as int];
                    assert forall|q: int| 0 <= q < j + 1 && q != j implies !gap_before(
                        (#[trigger] rem@[q]).0@, rem@[q].1@.len() as int, nj.0@, nj.1@.len() as int) by {
                        let nq = rem@[q];
                        lemma_gap_order(nq.0@, nq.1@.len() as int, nj.0@, nj.1@.len() as int, nb.0@, nb.1@.len() as int);
                        lemma_gap_order(nj.0@, nj.1@.len() as int, nb.0@, nb.1@.len() as int, nq.0@, nq.1@.len() as int);
                    }
                }
                b = j;
            }
            j = j + 1;
        }
        let ghost before_rem = rem@;
        let ghost best = rem@[b as int];
        proof {
            assert forall|q: int| 0 <= q < before_rem.len() && q != b implies gap_before(
                best.0@, best.1@.len() as int, (#[trigger] before_rem[q]).0@, before_rem[q].1@.len() as int) by {
                let nq = before_rem[q];
                assert(nq.0@ != best.0@);
                lemma_gap_order(nq.0@, nq.1@.len() as int, best.0@, best.1@.len() as int, nq.0@, nq.1@.len() as int);
                lemma_gap_order(best.0@, best.1@.len() as int, nq.0@, nq.1@.len() as int, best.0@, best.1@.len() as int);
            }
        }
        let g = rem.remove(b);
        let ghost before_out = out@;
        let count = g.1.len();
        out.push(Gap { area: string_of(&g.0), issues: count, ids: g.1 });
        proof {
            let last = before_out.len() as int;
            assert(out@[last].area@ == best.0@);
            assert forall|i: int| 0 <= i < rem@.len() implies {
                let g = group_view(#[trigger] rem@[i]);
                g.1 == ids_of(pv, g.0, pv.len() as int) && g.1.len() > 0
            } by {
                if i < b {
                    assert(rem@[i] == before_rem[i]);
                } else {
                    assert(rem@[i] == before_rem[i + 1]);
                }
            }
            assert forall|i: int| 0 <= i < out@.len() implies {
                let g = gap_view(#[trigger] out@[i]);
                g.2 == ids_of(pv, g.0, pv.len() as int) && g.1 == g.2.len() && g.2.len() > 0
            } by {
                if i < last {
                    assert(out@[i] == before_out[i]);
                } else {
                    assert(gap_view(out@[i]).2 == group_view(best).1);
                }
            }
            assert forall|k: int| 0 <= k < pairs@.len() implies has_gap(out@, (#[trigger] pairs@[k]).0@) || has_area(rem@, pairs@[k].0@) by {
                let a = pairs@[k].0@;
                if has_gap(before_out, a) {
                    let i = choose|i: int| 0 <= i < before_out.len() && (#[trigger] before_out[i]).area@ == a;
                    assert(out@[i] == before_out[i]);
                } else {
                    assert(has_area(before_rem, a));
                    let i = choose|i: int| 0 <= i < before_rem.len() && (#[trigger] before_rem[i]).0@ == a;
                    if i == b {
                        assert(out@[last].area@ == a);
                    } else if i < b {
                        assert(rem@[i] == before_rem[i]);
                    } else {
                        assert(rem@[i - 1] == before_rem[i]);
                    }
                }
            }
            assert forall|i: int, j: int| 0 <= i < j < rem@.len() implies (#[trigger] rem@[i]).0@ != (#[trigger] rem@[j]).0@ by {
                let oi = if i < b { i } else { i + 1 };
                let oj = if j < b { j } else { j + 1 };
                assert(rem@[i] == before_rem[oi]);
                assert(rem@[j] == before_rem[oj]);
            }
            assert forall|i: int, j: int| 0 <= i < out@.len() && 0 <= j < rem@.len() implies gap_before(
                (#[trigger] out@[i]).area@, out@[i].issues as int, (#[trigger] rem@[j]).0@, rem@[j].1@.len() as int) by {
                let oj = if j < b { j } else { j + 1 };
                assert(rem@[j] == before_rem[oj]);
                if i < last {
                    assert(out@[i] == before_out[i]);
                }
            }
            assert forall|i: int, j: int| 0 <= i < j < out@.len() implies gap_before(
                (#[trigger] out@[i]).area@, out@[i].issues as int, (#[trigger] out@[j]).area@, out@[j].issues as int) by {
                assert(out@[i] == before_out[i]);
                if j < last {
                    assert(out@[j] == before_out[j]);
                }
            }
        }
    }
    assert forall|k: int| 0 <= k < pv.len() implies has_gap(out@, (#[trigger] pv[k]).0) by {
        assert(pv[k].0 == pairs@[k].0@);
        assert(!has_area(rem@, pairs@[k].0@));
    }
    out
}

// --- the agenda -----------------------------------------------------------

/// How many of the first `n` values appear for the first time.
pub open spec fn distinct_upto(values: Seq<Seq<char>>, n: int) -> nat
    decreases n,
{
    if n <= 0 {
        0
    } else {
        distinct_upto(values, n - 1) + if values.take(n - 1).contains(values[n - 1]) { 0nat } else { 1nat }
    }
}

/// How many different values a list holds.
pub fn distinct(values: &[String]) -> (r: usize)
    ensures
        r == distinct_upto(values@.map_values(|s: String| s@), values@.len() as int),
{
    let ghost vv = values@.map_values(|s: String| s@);
    let mut c: usize = 0;
    let mut i: usize = 0;
    while i < values.len()
        invariant
            i <= values@.len(),
            c <= i,
            vv == values@.map_values(|s: String| s@),
            c == distinct_upto(vv, i as int),
        decreases values.len() - i,
    {
        let vi = chars_of(values[i].as_str());
        let mut j: usize = 0;
        while j < i && !seq_eq(&chars_of(values[j].as_str()), &vi)
            invariant
                j <= i,
                i < values@.len(),
                vv == values@.map_values(|s: String| s@),
                vi@ == vv[i as int],
                forall|q: int| 0 <= q < j ==> vv[q] != vv[i as int],
            decreases i - j,
        {
            j = j + 1;
        }
        proof {
            if j < i {
                assert(vv.take(i as int)[j as int] == vv[i as int]);
            } else {
                assert forall|q: int| 0 <= q < vv.take(i as int).len() implies vv.take(i as int)[q] != vv[i as int] by {}
            }
        }
        if j == i {
            c = c + 1;
        }
        i = i + 1;
    }
    c
}

/// The names of the rows among the first `n` whose recent rate slipped.
pub open spec fn regressed_upto(rows: Seq<SkillRow>, n: int) -> Seq<Seq<char>>
    decreases n,
{
    if n <= 0 {
        Seq::empty()
    } else if regressed_spec(rows[n - 1].windowed, rows[n - 1].all_time) {
        regressed_upto(rows, n - 1).push(rows[n - 1].name@)
    } else {
        regressed_upto(rows, n - 1)
    }
}

/// The agenda's "windowed rate below all-time" names are exactly the rows
/// that regressed: each name listed is a regressed row's, each regressed
/// row is listed, and with none regressed the list is empty (so the agenda
/// has no such line).
pub proof fn lemma_agenda_names_exactly_the_regressed(rows: Seq<SkillRow>, n: int)
    requires
        0 <= n <= rows.len(),
    ensures
        forall|i: int| 0 <= i < n && regressed_spec((#[trigger] rows[i]).windowed, rows[i].all_time)
            ==> regressed_upto(rows, n).contains(rows[i].name@),
        forall|k: int| 0 <= k < regressed_upto(rows, n).len() ==> exists|i: int|
            0 <= i < n && regressed_spec((#[trigger] rows[i]).windowed, rows[i].all_time) && rows[i].name@
                == #[trigger] regressed_upto(rows, n)[k],
        regressed_upto(rows, n).len() == 0 <==> forall|i: int| 0 <= i < n ==> !regressed_spec(
            (#[trigger] rows[i]).windowed,
            rows[i].all_time,
        ),
    decreases n,
{
    if n > 0 {
        lemma_agenda_names_exactly_the_regressed(rows, n - 1);
        let r = regressed_upto(rows, n);
        let prev = regressed_upto(rows, n - 1);
        assert forall|i: int| 0 <= i < n && regressed_spec((#[trigger] rows[i]).windowed, rows[i].all_time)
            implies r.contains(rows[i].name@) by {
            if i < n - 1 {
                let w = choose|w: int| 0 <= w < prev.len() && prev[w] == rows[i].name@;
                assert(r[w] == rows[i].name@);
            } else {
                assert(r[r.len() - 1] == rows[i].name@);
            }
        }
        assert forall|k: int| 0 <= k < r.len() implies exists|i: int|
            0 <= i < n && regressed_spec((#[trigger] rows[i]).windowed, rows[i].all_time) && rows[i].name@
                == #[trigger] r[k] by {
            if k < prev.len() {
                assert(r[k] == prev[k]);
            } else {
                assert(r[k] == rows[n - 1].name@);
                assert(regressed_spec(rows[n - 1].windowed, rows[n - 1].all_time));
            }
        }
        if r.len() == 0 {
            assert forall|i: int| 0 <= i < n implies !regressed_spec((#[trigger] rows[i]).windowed, rows[i].all_time) by {
                if regressed_spec(rows[i].windowed, rows[i].all_time) {
                    assert(r.contains(rows[i].name@));
                }
            }
        }
    }
}

/// A lesson two different plans have hit, still enforced by nothing, and
/// nobody has said it never will be.
pub open spec fn recurring_lesson(l: LessonView) -> bool {
    l.2 == Some("prose"@) && !l.4 && distinct_upto(l.5, l.5.len() as int) > 1
}

pub open spec fn recurring_upto(ls: Seq<LessonView>, n: int) -> Seq<Seq<char>>
    decreases n,
{
    if n <= 0 {
        Seq::empty()
    } else if recurring_lesson(ls[n - 1]) {
        recurring_upto(ls, n - 1).push(ls[n - 1].0)
    } else {
        recurring_upto(ls, n - 1)
    }
}

/// The closing list of things someone could actually do.
pub open spec fn agenda_spec(untriaged: nat, rows: Seq<SkillRow>, gaps: Seq<Gap>, lessons: Seq<LessonView>) -> Seq<Seq<char>> {
    let a: Seq<Seq<char>> = if untriaged > 0 {
        seq![decimal(untriaged) + " issue(s) waiting on a decision — /distil, or pinst harness check to list them"@]
    } else {
        Seq::empty()
    };
    let reg = regressed_upto(rows, rows.len() as int);
    let b: Seq<Seq<char>> = if reg.len() > 0 {
        seq!["windowed rate below all-time: "@ + join(reg, ", "@) + " — look at what changed recently"@]
    } else {
        Seq::empty()
    };
    let c: Seq<Seq<char>> = if gaps.len() > 0 {
        seq![gaps[0].area@ + " has "@ + decimal(gaps[0].issues as nat) + " issue(s) no skill owns — is there a skill missing here?"@]
    } else {
        Seq::empty()
    };
    let rec = recurring_upto(lessons, lessons.len() as int);
    let d: Seq<Seq<char>> = if rec.len() > 0 {
        seq!["recurring and still unenforced: "@ + join(rec, " "@) + " — candidates for a check"@]
    } else {
        Seq::empty()
    };
    a + b + c + d
}

/// Every row's rates can be shown as percentages.
pub open spec fn rows_ok(rows: Seq<SkillRow>) -> bool {
    forall|i: int| 0 <= i < rows.len() ==> measure_ok((#[trigger] rows[i]).windowed) && measure_ok(rows[i].all_time)
}

fn regressed_names(rows: &Vec<SkillRow>) -> (r: Vec<String>)
    requires
        rows_ok(rows@),
    ensures
        r@.map_values(|s: String| s@) == regressed_upto(rows@, rows@.len() as int),
{
    let mut out: Vec<String> = Vec::new();
    let mut i: usize = 0;
    while i < rows.len()
        invariant
            i <= rows@.len(),
            rows_ok(rows@),
            out@.map_values(|s: String| s@) == regressed_upto(rows@, i as int),
        decreases rows.len() - i,
    {
        let row = &rows[i];
        assert(measure_ok(rows@[i as int].windowed));
        if row.regressed() {
            let ghost b = out@.map_values(|s: String| s@);
            out.push(row.name.clone());
            assert(out@.map_values(|s: String| s@) =~= b.push(row.name@));
        }
        i = i + 1;
    }
    out
}

fn recurring_ids(lessons: &Vec<Lesson>) -> (r: Vec<String>)
    ensures
        r@.map_values(|s: String| s@) == recurring_upto(
            lessons@.map_values(|l: Lesson| lesson_view(l)),
            lessons@.len() as int,
        ),
{
    let ghost lv = lessons@.map_values(|l: Lesson| lesson_view(l));
    proof {
        reveal_strlit("prose");
    }
    let mut out: Vec<String> = Vec::new();
    let mut i: usize = 0;
    while i < lessons.len()
        invariant
            i <= lessons@.len(),
            lv == lessons@.map_values(|l: Lesson| lesson_view(l)),
            out@.map_values(|s: String| s@) == recurring_upto(lv, i as int),
        decreases lessons.len() - i,
    {
        let l = &lessons[i];
        assert(lv[i as int] == lesson_view(*l));
        let prose = match &l.status {
            Some(st) => seq_eq(&chars_of(st.as_str()), &chars_of("prose")),
            None => false,
        };
        if prose && !l.mechanize_declined && distinct(l.plans.as_slice()) > 1 {
            let ghost b = out@.map_values(|s: String| s@);
            out.push(l.id.clone());
            assert(out@.map_values(|s: String| s@) =~= b.push(l.id@));
        }
        i = i + 1;
    }
    out
}

/// The agenda: undecided issues, slipping rates, the biggest gap and the
/// recurring lessons no check enforces — each item only when there is one.
pub fn agenda(untriaged: usize, rows: &Vec<SkillRow>, gaps: &Vec<Gap>, lessons: &Vec<Lesson>) -> (r: Vec<String>)
    requires
        rows_ok(rows@),
    ensures
        r@.map_values(|s: String| s@) == agenda_spec(
            untriaged as nat,
            rows@,
            gaps@,
            lessons@.map_values(|l: Lesson| lesson_view(l)),
        ),
{
    let mut out: Vec<String> = Vec::new();
    let ghost v0 = out@.map_values(|s: String| s@);
    if untriaged > 0 {
        let mut m: Vec<char> = Vec::new();
        push_decimal(&mut m, untriaged as u64);
        push_str(&mut m, " issue(s) waiting on a decision — /distil, or pinst harness check to list them");
        out.push(string_of(&m));
    }
    let ghost va = out@.map_values(|s: String| s@);
    let reg = regressed_names(rows);
    if reg.len() > 0 {
        let mut m: Vec<char> = Vec::new();
        push_str(&mut m, "windowed rate below all-time: ");
        push_str(&mut m, join_strings(reg.as_slice(), ", ").as_str());
        push_str(&mut m, " — look at what changed recently");
        out.push(string_of(&m));
    }
    let ghost vb = out@.map_values(|s: String| s@);
    if gaps.len() > 0 {
        let mut m: Vec<char> = Vec::new();
        push_str(&mut m, gaps[0].area.as_str());
        push_str(&mut m, " has ");
        push_decimal(&mut m, gaps[0].issues as u64);
        push_str(&mut m, " issue(s) no skill owns — is there a skill missing here?");
        out.push(string_of(&m));
    }
    let ghost vc = out@.map_values(|s: String| s@);
    let rec = recurring_ids(lessons);
    if rec.len() > 0 {
        let mut m: Vec<char> = Vec::new();
        push_str(&mut m, "recurring and still unenforced: ");
        push_str(&mut m, join_strings(rec.as_slice(), " ").as_str());
        push_str(&mut m, " — candidates for a check");
        out.push(string_of(&m));
    }
    assert(out@.map_values(|s: String| s@) =~= agenda_spec(
        untriaged as nat,
        rows@,
        gaps@,
        lessons@.map_values(|l: Lesson| lesson_view(l)),
    ));
    out
}

// --- untriaged issues -----------------------------------------------------

/// How many of the first `n` issues of plan `pid` nobody has decided about.
pub open spec fn untriaged_in(issues: Seq<IssueView>, ls: Seq<LessonView>, pid: Seq<char>, n: int) -> nat
    decreases n,
{
    if n <= 0 {
        0
    } else {
        untriaged_in(issues, ls, pid, n - 1) + if !issues[n - 1].2 && !cited(ls, pid, issues[n - 1].0) { 1nat } else { 0nat }
    }
}

/// The undecided issues of the first `n` plans that have an id.
pub open spec fn untriaged_total(plans: Seq<Plan>, ls: Seq<LessonView>, n: int) -> nat
    decreases n,
{
    if n <= 0 {
        0
    } else {
        let p = plans[n - 1];
        untriaged_total(plans, ls, n - 1) + match p.id {
            Some(pid) => {
                let is = plan_issues(p);
                untriaged_in(is, ls, pid@, is.len() as int)
            },
            None => 0nat,
        }
    }
}

/// Issues nobody has decided about, counted the way `check` finds them.
pub fn untriaged_count(corpus: &Corpus, lessons: &Vec<Lesson>) -> (r: usize)
    ensures
        r == clip(untriaged_total(corpus.plans@, lessons_view(lessons@), corpus.plans@.len() as int)),
{
    let ghost lv = lessons_view(lessons@);
    let mut total: usize = 0;
    let mut i: usize = 0;
    while i < corpus.plans.len()
        invariant
            i <= corpus.plans@.len(),
            lv == lessons_view(lessons@),
            total == clip(untriaged_total(corpus.plans@, lv, i as int)),
        decreases corpus.plans.len() - i,
    {
        let p = &corpus.plans[i];
        let mut n: usize = 0;
        match &p.id {
            Some(pid) => {
                let no_issues: Vec<crate::harness::corpus::Issue> = Vec::new();
                let issues = match &p.learnings {
                    Some(t) => read_issues(t.as_str()),
                    None => no_issues,
                };
                let ghost iv = issues@.map_values(|i: crate::harness::corpus::Issue| issue_view(i));
                assert(iv =~= plan_issues(*p));
                let mut k: usize = 0;
                while k < issues.len()
                    invariant
                        k <= issues@.len(),
                        n <= k,
                        iv == issues@.map_values(|i: crate::harness::corpus::Issue| issue_view(i)),
                        lv == lessons_view(lessons@),
                        n == untriaged_in(iv, lv, pid@, k as int),
                    decreases issues.len() - k,
                {
                    let iss = &issues[k];
                    assert(iv[k as int] == issue_view(*iss));
                    if !iss.distilled_declined && !lesson_cites(lessons, pid, &iss.id) {
                        n = n + 1;
                    }
                    k = k + 1;
                }
            },
            None => {},
        }
        total = if total <= usize::MAX - n { total + n } else { usize::MAX };
        i = i + 1;
    }
    total
}

// --- the report -------------------------------------------------------------

/// One skill directory that has a `SKILL.md`, as the caller read it.
pub struct SkillInput {
    /// The directory's name.
    pub name: String,
    /// `SKILL.md`'s text (empty when it could not be read).
    pub text: String,
    /// Whether the skill is installed and linked in the vendor directory.
    pub wired: bool,
    /// The `evidence:` command's parsed output, windowed and all-time,
    /// when `evidence_to_run` asked for it to be run.
    pub measured: Option<(Option<Rate>, Option<Rate>)>,
}

/// Invocation counts, as the caller could read them.
pub enum Invocations {
    /// Transcripts were not asked for.
    NotAsked,
    /// Transcripts were asked for, from this directory, and could not be
    /// read.
    Unreadable(String),
    /// Every known skill's tally.
    Counted(Vec<(String, Seen)>),
}

/// `SKILL.md` of skill `name`, as the report shows it.
pub open spec fn shown_spec(root: Seq<char>, name: Seq<char>) -> Seq<char> {
    relative_to(path_join(path_join(join_path_spec(root), name), "SKILL.md"@), root)
}

pub open spec fn join_path_spec(root: Seq<char>) -> Seq<char> {
    path_join(root, ".agents/skills"@)
}

/// The grading findings of the first `n` skills.
pub open spec fn grades_upto(root: Seq<char>, inputs: Seq<SkillInput>, n: int) -> Seq<FindingView>
    decreases n,
{
    if n <= 0 {
        Seq::empty()
    } else {
        let s = inputs[n - 1];
        grades_upto(root, inputs, n - 1) + grade_spec(s.name@, shown_spec(root, s.name@), s.text@, s.measured).2
    }
}

pub open spec fn transcripts_findings(inv: Invocations) -> Seq<FindingView> {
    match inv {
        Invocations::Unreadable(dir) => seq![(
            "skills.transcripts-unreadable"@,
            Severity::Warning,
            "could not read invocation counts from "@ + dir@,
            "check the path, or drop --transcripts — nothing else depends on it"@,
        )],
        _ => Seq::empty(),
    }
}

pub open spec fn agenda_findings(agenda: Seq<Seq<char>>) -> Seq<FindingView> {
    if agenda.len() > 0 {
        seq![(
            "review.agenda"@,
            Severity::Info,
            decimal(agenda.len()) + " item(s) on the review agenda"@,
            "run /distil, or read the Agenda section above"@,
        )]
    } else {
        Seq::empty()
    }
}

/// A row's invocation columns, given the counts that were read.
pub open spec fn row_invocations(inv: Invocations, name: Seq<char>) -> (Option<nat>, Option<Seq<char>>) {
    match inv {
        Invocations::Counted(c) => match seen_index(counts_view(c@), name) {
            Some(i) => (Some(counts_view(c@)[i].1.0), Some(match counts_view(c@)[i].1.1 { Some(d) => d, None => "never"@ })),
            None => (Some(0nat), Some("never"@)),
        },
        _ => (None, None),
    }
}

/// Row `i` is skill `s`, graded.
pub open spec fn row_ok(corpus: Corpus, inv: Invocations, s: SkillInput, row: SkillRow) -> bool {
    let root = corpus.root@;
    let g = grade_spec(s.name@, shown_spec(root, s.name@), s.text@, s.measured);
    &&& row.name@ == s.name@
    &&& row.wired == s.wired
    &&& (match row.produces { Some(p) => Some(p@), None => None }) == contract_spec(s.text@).0
    &&& row.windowed == g.0
    &&& row.all_time == g.1
    &&& row.issues == clip(tally_upto(corpus.plans@, s.name@, corpus.plans@.len() as int))
    &&& (match row.invocations { Some(n) => Some(n as nat), None => None }) == row_invocations(inv, s.name@).0
    &&& (match row.last_invoked { Some(d) => Some(d@), None => None }) == row_invocations(inv, s.name@).1
}

/// Every measured rate can be shown as a percentage.
pub open spec fn inputs_ok(inputs: Seq<SkillInput>) -> bool {
    forall|i: int| 0 <= i < inputs.len() ==> match (#[trigger] inputs[i]).measured {
        Some((w, a)) => measure_ok(rate_or_unmeasured(w)) && measure_ok(rate_or_unmeasured(a)),
        None => true,
    }
}

fn push_invocations(row: SkillRow, invocations: &Invocations) -> (r: SkillRow)
    ensures
        r.name == row.name && r.wired == row.wired && r.produces == row.produces && r.windowed == row.windowed
            && r.all_time == row.all_time && r.issues == row.issues,
        (match r.invocations { Some(n) => Some(n as nat), None => None }) == match invocations {
            Invocations::Counted(_) => row_invocations(*invocations, row.name@).0,
            _ => match row.invocations { Some(n) => Some(n as nat), None => None },
        },
        (match r.last_invoked { Some(d) => Some(d@), None => None }) == match invocations {
            Invocations::Counted(_) => row_invocations(*invocations, row.name@).1,
            _ => match row.last_invoked { Some(d) => Some(d@), None => None },
        },
{
    match invocations {
        Invocations::Counted(counts) => {
            let seen = crate::harness::transcripts::seen_for(counts, row.name.as_str());
            proof {
                let cv = counts_view(counts@);
                match seen_index(cv, row.name@) {
                    Some(i) => {
                        crate::harness::transcripts::lemma_seen_index(cv, row.name@);
                        assert(cv[i] == (counts@[i].0@, crate::harness::transcripts::seen_view(counts@[i].1)));
                    },
                    None => {},
                }
            }
            let (n, last) = match seen {
                Some(s) => (s.count, match &s.last {
                    Some(d) => d.clone(),
                    None => "never".to_owned(),
                }),
                None => (0u64, "never".to_owned()),
            };
            SkillRow { invocations: Some(n), last_invoked: Some(last), ..row }
        },
        _ => row,
    }
}

/// The whole report, from what the caller read: whether the skills
/// directory exists, each skill directory with a `SKILL.md` in order, the
/// invocation counts, and `.ash/LEARNINGS.md` when it could be read.
pub fn run(
    corpus: &Corpus,
    skills_dir_exists: bool,
    inputs: &Vec<SkillInput>,
    invocations: &Invocations,
    learnings: Option<&str>,
) -> (r: Report)
    requires
        inputs_ok(inputs@),
    ensures
        !skills_dir_exists ==> {
            &&& findings_view(r.findings@) == seq![(
                "skills.missing"@,
                Severity::Error,
                relative_to(join_path_spec(corpus.root@), corpus.root@) + " does not exist"@,
                "run this from a repo that has an .agents/skills directory"@,
            )]
            &&& r.skills@.len() == 0 && r.gaps@.len() == 0 && r.agenda@.len() == 0 && !r.counted
        },
        skills_dir_exists ==> {
            let ls = match learnings { Some(t) => read_lessons_spec(t@), None => Seq::empty() };
            let agenda = agenda_spec(
                clip(untriaged_total(corpus.plans@, ls, corpus.plans@.len() as int)),
                r.skills@,
                r.gaps@,
                ls,
            );
            &&& r.counted == (*invocations is Counted)
            &&& r.skills@.len() == inputs@.len()
            &&& forall|i: int| 0 <= i < inputs@.len() ==> row_ok(*corpus, *invocations, #[trigger] inputs@[i], r.skills@[i])
            &&& gaps_ok(gap_pairs(corpus.plans@, corpus.plans@.len() as int), r.gaps@)
            &&& r.agenda@.map_values(|s: String| s@) == agenda
            &&& findings_view(r.findings@) == transcripts_findings(*invocations) + grades_upto(corpus.root@, inputs@, inputs@.len() as int)
                + agenda_findings(agenda)
        },
{
    let mut report = Report::default();
    let skills_dir = corpus.root.skills_dir();
    if !skills_dir_exists {
        let mut m: Vec<char> = Vec::new();
        push_str(&mut m, corpus.relative(skills_dir.as_str()).as_str());
        push_str(&mut m, " does not exist");
        push_finding(&mut report.findings, "skills.missing".to_owned(), Severity::Error, string_of(&m),
            "run this from a repo that has an .agents/skills directory".to_owned());
        return report;
    }
    match invocations {
        Invocations::NotAsked => {},
        Invocations::Unreadable(dir) => {
            let mut m: Vec<char> = Vec::new();
            push_str(&mut m, "could not read invocation counts from ");
            push_str(&mut m, dir.as_str());
            push_finding(&mut report.findings, "skills.transcripts-unreadable".to_owned(), Severity::Warning, string_of(&m),
                "check the path, or drop --transcripts — nothing else depends on it".to_owned());
        },
        Invocations::Counted(_) => {
            report.counted = true;
        },
    }
    let ghost after_transcripts = findings_view(report.findings@);
    assert(after_transcripts =~= transcripts_findings(*invocations));
    let mut i: usize = 0;
    while i < inputs.len()
        invariant
            i <= inputs@.len(),
            inputs_ok(inputs@),
            skills_dir@ == join_path_spec(corpus.root@),
            report.counted == (*invocations is Counted),
            report.skills@.len() == i,
            report.gaps@.len() == 0,
            report.agenda@.len() == 0,
            forall|j: int| 0 <= j < i ==> row_ok(*corpus, *invocations, #[trigger] inputs@[j], report.skills@[j]),
            rows_ok(report.skills@),
            findings_view(report.findings@) == transcripts_findings(*invocations) + grades_upto(corpus.root@, inputs@, i as int),
        decreases inputs.len() - i,
    {
        let s = &inputs[i];
        let dir = crate::path::join_path(skills_dir.as_str(), s.name.as_str());
        let file = crate::path::join_path(dir.as_str(), "SKILL.md");
        let shown = corpus.relative(file.as_str());
        let issues = issue_count(corpus, s.name.as_str());
        let ghost before_rows = report.skills@;
        let row = grade(s.name.as_str(), shown.as_str(), s.text.as_str(), s.measured, s.wired, issues, &mut report.findings);
        let row = push_invocations(row, invocations);
        proof {
            assert(inputs_ok(inputs@));
            let t = inputs@[i as int];
            assert(match t.measured {
                Some((w, a)) => measure_ok(rate_or_unmeasured(w)) && measure_ok(rate_or_unmeasured(a)),
                None => true,
            });
        }
        report.skills.push(row);
        proof {
            assert forall|j: int| 0 <= j < i + 1 implies row_ok(*corpus, *invocations, #[trigger] inputs@[j], report.skills@[j]) by {
                if j < i {
                    assert(report.skills@[j] == before_rows[j]);
                }
            }
            assert forall|j: int| 0 <= j < report.skills@.len() implies measure_ok((#[trigger] report.skills@[j]).windowed)
                && measure_ok(report.skills@[j].all_time) by {
                if j < i {
                    assert(report.skills@[j] == before_rows[j]);
                }
            }
        }
        i = i + 1;
    }
    let gaps = gaps(corpus);
    let no_lessons: Vec<Lesson> = Vec::new();
    let lessons = match learnings {
        Some(t) => read_lessons(t),
        None => no_lessons,
    };
    let ghost ls = match learnings { Some(t) => read_lessons_spec(t@), None => Seq::empty() };
    assert(lessons_view(lessons@) =~= ls);
    assert(lessons@.map_values(|l: Lesson| lesson_view(l)) =~= ls);
    let untriaged = untriaged_count(corpus, &lessons);
    let agenda = agenda(untriaged, &report.skills, &gaps, &lessons);
    let ghost av = agenda@.map_values(|s: String| s@);
    if agenda.len() > 0 {
        let mut m: Vec<char> = Vec::new();
        push_decimal(&mut m, agenda.len() as u64);
        push_str(&mut m, " item(s) on the review agenda");
        push_finding(&mut report.findings, "review.agenda".to_owned(), Severity::Info, string_of(&m),
            "run /distil, or read the Agenda section above".to_owned());
    }
    report.gaps = gaps;
    report.agenda = agenda;
    assert(findings_view(report.findings@) =~= transcripts_findings(*invocations) + grades_upto(corpus.root@, inputs@, inputs@.len() as int)
        + agenda_findings(av));
    report
}

} // verus!
