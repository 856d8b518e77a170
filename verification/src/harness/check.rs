//! The corpus invariants: what `just qc` gates on.
//!
//! Every check here enforces something the skills only asserted in prose.
//! Nothing exits early: one run reports the whole state of the corpus.
//! Finding ids are stable literals, matched on by agents. Only hard
//! invariants live here; rates and suggestions belong to the skills report.
//!
//! The corpus is given with the text of every document it reads; the
//! records written after the fact (`CHANGELOG.log`, `LEARNINGS.md`), the
//! state of the generated index, the finding ids the repository's code
//! emits and a fresh id to suggest are given by the caller.

use vstd::prelude::*;

use super::corpus::{
    doc_status, doc_text, has_status_heading, plan_is_done, plan_status, Corpus, Document, Phase,
    Plan,
};
use super::corpus::{lesson_view, read_lessons, read_lessons_spec, Lesson, LessonView};
use super::root::ash_dir_of;
use crate::doctor::{findings_view, push_finding, Finding, FindingView, Severity};
use crate::path::{join, relative_to};
use crate::text::{chars_of, decimal, push_decimal, push_str, seq_eq, string_of};

verus! {

/// Whether `.ash/INDEX.md` matches the plan frontmatter it is generated from.
#[derive(Debug, Clone, Copy, PartialEq, Eq, Structural)]
pub enum IndexState {
    Fresh,
    Stale,
    Missing,
}

/// What the checks read besides the corpus.
pub struct Records {
    /// `.ash/LEARNINGS.md`, when it is a file.
    pub learnings: Option<String>,
    /// `.ash/CHANGELOG.log`, when it is a file.
    pub changelog: Option<String>,
    pub index: IndexState,
    /// Finding ids that some code file in the repository carries literally.
    pub emitted: Vec<String>,
    /// A fresh plan id to suggest when a directory name is malformed.
    pub suggestion: String,
}

pub open spec fn q(s: Seq<char>) -> Seq<char> {
    seq!['\''] + s + seq!['\'']
}

/// A path as a finding shows it: relative to the corpus root.
pub open spec fn rel(root: Seq<char>, path: Seq<char>) -> Seq<char> {
    relative_to(path, root)
}

/// A path relative to `.ash/plans/`.
pub open spec fn plan_rel(root: Seq<char>, path: Seq<char>) -> Seq<char> {
    relative_to(path, join(ash_dir_of(root), "plans"@))
}

pub open spec fn valid_status(s: Seq<char>) -> bool {
    s == "Proposed"@ || s == "In Progress"@ || s == "Done"@ || s.len() == 0
}

/// A status outside the lifecycle, reported under `id`.
pub open spec fn status_value_findings(root: Seq<char>, d: Document, id: Seq<char>) -> Seq<FindingView> {
    match doc_status(d) {
        Some(s) => if valid_status(s) {
            Seq::empty()
        } else {
            seq![(id, Severity::Error, rel(root, d.path@) + " has status '"@ + s + "'"@, "use one of: Proposed, In Progress, Done"@)]
        },
        None => Seq::empty(),
    }
}

/// A `## Status` section beside frontmatter status.
pub open spec fn status_section_findings(root: Seq<char>, d: Document) -> Seq<FindingView> {
    if has_status_heading(d.body@) {
        seq![(
            "plan.status-section."@ + plan_rel(root, d.path@),
            Severity::Warning,
            rel(root, d.path@) + " has a '## Status' section as well as frontmatter status"@,
            "delete the section; frontmatter status is authoritative"@,
        )]
    } else {
        Seq::empty()
    }
}

/// A plan with no `learnings.md` once it is done, or once a run finished.
pub open spec fn learnings_findings(p: Plan) -> Seq<FindingView> {
    let id = "plan.learnings-missing."@ + p.name@;
    let rem = "run the plan-learn skill for "@ + p.name@;
    if p.has_learnings {
        Seq::empty()
    } else if plan_is_done(p) {
        seq![(id, Severity::Warning, p.name@ + " is Done but has no learnings.md"@, rem)]
    } else if p.has_finished_run {
        seq![(id, Severity::Info, p.name@ + " has a finished run but no learnings.md yet"@, rem)]
    } else {
        Seq::empty()
    }
}

pub fn relative_shown(corpus: &Corpus, path: &str) -> (r: String)
    ensures
        r@ == rel(corpus.root@, path@),
{
    corpus.relative(path)
}

fn check_status_value(corpus: &Corpus, document: &Document, id: String, findings: &mut Vec<Finding>)
    ensures
        findings_view(final(findings)@) == findings_view(old(findings)@) + status_value_findings(corpus.root@, *document, id@),
{
    let status = match document.status() {
        None => {
            assert(findings_view(findings@) =~= findings_view(findings@) + Seq::<FindingView>::empty());
            return;
        },
        Some(s) => s,
    };
    let sc = chars_of(status.as_str());
    let ok = seq_eq(&sc, &chars_of("Proposed")) || seq_eq(&sc, &chars_of("In Progress")) || seq_eq(
        &sc,
        &chars_of("Done"),
    ) || sc.len() == 0;
    if ok {
        assert(findings_view(findings@) =~= findings_view(findings@) + Seq::<FindingView>::empty());
        return;
    }
    let mut m: Vec<char> = Vec::new();
    push_str(&mut m, relative_shown(corpus, document.path.as_str()).as_str());
    push_str(&mut m, " has status '");
    push_str(&mut m, status.as_str());
    push_str(&mut m, "'");
    assert(m@ =~= rel(corpus.root@, document.path@) + " has status '"@ + status@ + "'"@);
    let ghost before = findings_view(findings@);
    push_finding(findings, id, Severity::Error, string_of(&m), "use one of: Proposed, In Progress, Done".to_owned());
    assert(findings_view(findings@) =~= before + status_value_findings(corpus.root@, *document, id@));
}

fn check_status_section(corpus: &Corpus, document: &Document, findings: &mut Vec<Finding>)
    ensures
        findings_view(final(findings)@) == findings_view(old(findings)@) + status_section_findings(corpus.root@, *document),
{
    if !document.has_status_section() {
        assert(findings_view(findings@) =~= findings_view(findings@) + Seq::<FindingView>::empty());
        return;
    }
    let mut id: Vec<char> = Vec::new();
    push_str(&mut id, "plan.status-section.");
    push_str(&mut id, corpus.plan_relative(document.path.as_str()).as_str());
    let mut m: Vec<char> = Vec::new();
    push_str(&mut m, relative_shown(corpus, document.path.as_str()).as_str());
    push_str(&mut m, " has a '## Status' section as well as frontmatter status");
    let ghost before = findings_view(findings@);
    push_finding(
        findings,
        string_of(&id),
        Severity::Warning,
        string_of(&m),
        "delete the section; frontmatter status is authoritative".to_owned(),
    );
    assert(findings_view(findings@) =~= before + status_section_findings(corpus.root@, *document));
}

fn check_learnings(plan: &Plan, findings: &mut Vec<Finding>)
    ensures
        findings_view(final(findings)@) == findings_view(old(findings)@) + learnings_findings(*plan),
{
    let ghost before = findings_view(findings@);
    if plan.has_learnings {
        assert(findings_view(findings@) =~= before + Seq::<FindingView>::empty());
        return;
    }
    let mut id: Vec<char> = Vec::new();
    push_str(&mut id, "plan.learnings-missing.");
    push_str(&mut id, plan.name.as_str());
    let mut rem: Vec<char> = Vec::new();
    push_str(&mut rem, "run the plan-learn skill for ");
    push_str(&mut rem, plan.name.as_str());
    if plan.is_done() {
        let mut m: Vec<char> = Vec::new();
        push_str(&mut m, plan.name.as_str());
        push_str(&mut m, " is Done but has no learnings.md");
        push_finding(findings, string_of(&id), Severity::Warning, string_of(&m), string_of(&rem));
    } else if plan.has_finished_run {
        let mut m: Vec<char> = Vec::new();
        push_str(&mut m, plan.name.as_str());
        push_str(&mut m, " has a finished run but no learnings.md yet");
        push_finding(findings, string_of(&id), Severity::Info, string_of(&m), string_of(&rem));
    }
    assert(findings_view(findings@) =~= before + learnings_findings(*plan));
}

/// The status a `## Phases` table row gives phase `number`: the fifth
/// `|`-separated cell of a row starting with `|` whose second cell is the
/// number, cells trimmed.
pub open spec fn row_status(line: Seq<char>, number: u32) -> Option<Seq<char>> {
    let cells = crate::text::split_char(line, '|').map_values(|c: Seq<char>| crate::text::trim(c));
    if crate::text::starts_with(line, "|"@) && cells.len() >= 6 && crate::text::parse_u64_spec(cells[1])
        == Some(number as nat) {
        Some(cells[4])
    } else {
        None
    }
}

/// The first row status for `number` among lines `k..` of `ls`.
pub open spec fn rows_status(ls: Seq<Seq<char>>, number: u32, k: int) -> Option<Seq<char>>
    decreases ls.len() - k,
{
    if k < 0 || k >= ls.len() {
        None
    } else {
        match row_status(ls[k], number) {
            Some(s) => Some(s),
            None => rows_status(ls, number, k + 1),
        }
    }
}

/// The status phase `number` has in the README's `## Phases` table.
pub open spec fn table_status_spec(p: Plan, number: u32) -> Option<Seq<char>> {
    match p.readme {
        Some(d) => rows_status(crate::text::lines(d.body@), number, 0),
        None => None,
    }
}

fn row_status_exec(line: &Vec<char>, number: u32) -> (r: Option<String>)
    ensures
        match row_status(line@, number) {
            Some(s) => r is Some && r->0@ == s,
            None => r is None,
        },
{
    let bar = chars_of("|");
    if !crate::text::starts_with_exec(line, &bar) {
        return None;
    }
    let pieces = crate::text::split_char_vec(line, '|');
    let ghost cells = crate::text::split_char(line@, '|').map_values(|c: Seq<char>| crate::text::trim(c));
    if pieces.len() < 6 {
        return None;
    }
    let c1 = crate::text::trim_vec(&pieces[1]);
    match crate::text::parse_u64(&c1) {
        Some(v) => {
            if v != number as u64 {
                return None;
            }
        },
        None => {
            return None;
        },
    }
    let c4 = crate::text::trim_vec(&pieces[4]);
    Some(string_of(&c4))
}

fn table_status(plan: &Plan, number: u32) -> (r: Option<String>)
    ensures
        match table_status_spec(*plan, number) {
            Some(s) => r is Some && r->0@ == s,
            None => r is None,
        },
{
    let readme = match &plan.readme {
        Some(d) => d,
        None => {
            return None;
        },
    };
    assert(plan.readme == Some(*readme));
    let c = chars_of(readme.body.as_str());
    let ls = crate::text::lines_vec(&c);
    let ghost lv = crate::text::lines(readme.body@);
    let mut k: usize = 0;
    assert(rows_status(lv, number, 0) == rows_status(lv, number, 0));
    while k < ls.len()
        invariant
            k <= ls@.len(),
            lv == crate::text::lines(readme.body@),
            plan.readme == Some(*readme),
            ls@.len() == lv.len(),
            forall|i: int| 0 <= i < ls@.len() ==> #[trigger] ls@[i]@ == lv[i],
            rows_status(lv, number, 0) == rows_status(lv, number, k as int),
        decreases ls.len() - k,
    {
        let r = row_status_exec(&ls[k], number);
        assert(ls@[k as int]@ == lv[k as int]);
        match r {
            Some(s) => {
                assert(rows_status(lv, number, k as int) == row_status(lv[k as int], number));
                return Some(s);
            },
            None => {},
        }
        k = k + 1;
    }
    None
}

pub open spec fn id_mismatch_findings(d: Document, shown: Seq<char>, key: Seq<char>, id: Seq<char>) -> Seq<FindingView> {
    if doc_text(d, "id"@) != Some(id) {
        seq![(
            "phase.id-mismatch."@ + key,
            Severity::Error,
            shown + " frontmatter id does not match its plan's id '"@ + id + "'"@,
            "set id: "@ + id,
        )]
    } else {
        Seq::empty()
    }
}

pub open spec fn number_mismatch_findings(d: Document, shown: Seq<char>, key: Seq<char>, n: u32) -> Seq<FindingView> {
    match doc_text(d, "phase"@) {
        Some(declared) => if declared != decimal(n as nat) {
            seq![(
                "phase.number-mismatch."@ + key,
                Severity::Error,
                shown + " frontmatter says phase "@ + declared + " but the filename says "@ + decimal(n as nat),
                "make them agree"@,
            )]
        } else {
            Seq::empty()
        },
        None => Seq::empty(),
    }
}

pub open spec fn mirror_findings(p: Plan, d: Document, shown: Seq<char>, n: u32) -> Seq<FindingView> {
    match (doc_status(d), table_status_spec(p, n)) {
        (Some(st), Some(mirrored)) => if st != mirrored {
            seq![(
                "phase.status-mirror."@ + p.name@ + "."@ + decimal(n as nat),
                Severity::Warning,
                "phase "@ + decimal(n as nat) + " is '"@ + st + "' in "@ + shown + " but '"@ + mirrored
                    + "' in the README's Phases table"@,
                "update the table row to '"@ + st + "'"@,
            )]
        } else {
            Seq::empty()
        },
        _ => Seq::empty(),
    }
}

/// The findings of a phase file whose frontmatter parsed.
pub open spec fn phase_body_findings(root: Seq<char>, p: Plan, id: Seq<char>, d: Document, shown: Seq<char>, key: Seq<char>, n: u32) -> Seq<FindingView> {
    phase_key_findings(d, shown, key, seq!["id"@, "slug"@, "phase"@, "status"@], 4)
        + id_mismatch_findings(d, shown, key, id) + number_mismatch_findings(d, shown, key, n)
        + status_value_findings(root, d, "phase.status-invalid."@ + key) + status_section_findings(root, d)
        + mirror_findings(p, d, shown, n)
}

/// The findings of one phase file, given the number the chain expects
/// next, and the number it expects after.
pub open spec fn phase_step(root: Seq<char>, p: Plan, id: Seq<char>, ph: Phase, expected: nat) -> (Seq<FindingView>, nat) {
    let d = ph.document;
    let shown = rel(root, d.path@);
    let key = plan_rel(root, d.path@);
    match ph.number {
        None => (seq![(
            "phase.malformed-name."@ + key,
            Severity::Error,
            shown + " is not phase-<two digits>.md"@,
            "rename it, e.g. phase-"@ + crate::harness::renumber::padded(expected, 2) + ".md"@,
        )], expected),
        Some(n) => {
            let gap: Seq<FindingView> = if n != expected {
                seq![(
                    "phase.chain-gap."@ + p.name@,
                    Severity::Error,
                    shown + " breaks the phase chain: expected phase "@ + decimal(expected),
                    "renumber the phase files so they run 01..N with no gaps"@,
                )]
            } else {
                Seq::empty()
            };
            let rest: Seq<FindingView> = match d.error {
                Some(e) => seq![(
                    "phase.frontmatter-unparsed."@ + key,
                    Severity::Error,
                    shown + " frontmatter does not parse: "@ + ("line "@ + decimal(e.line as nat) + ": "@ + e.reason@),
                    "fix the line it names — the frontmatter must be flat 'key: value' entries"@,
                )],
                None => if d.frontmatter is None {
                    seq![(
                        "phase.frontmatter-missing."@ + key,
                        Severity::Error,
                        shown + " has no YAML frontmatter"@,
                        "add id/slug/phase/status per the plan-write skill (Step 4)"@,
                    )]
                } else {
                    phase_body_findings(root, p, id, d, shown, key, n)
                },
            };
            (gap + rest, expected + 1)
        },
    }
}

/// One finding for each of the first `n` of `fields` the document lacks.
pub open spec fn phase_key_findings(d: Document, shown: Seq<char>, key: Seq<char>, fields: Seq<Seq<char>>, n: int) -> Seq<FindingView>
    decreases n,
{
    if n <= 0 {
        Seq::empty()
    } else {
        let f = fields[n - 1];
        phase_key_findings(d, shown, key, fields, n - 1) + if doc_text(d, f) is None {
            seq![(
                "phase.frontmatter-key."@ + key + "."@ + f,
                Severity::Error,
                shown + " frontmatter is missing '"@ + f + "'"@,
                "add '"@ + f + ":'"@,
            )]
        } else {
            Seq::<FindingView>::empty()
        }
    }
}

/// The findings of the first `k` phases, and the number expected next.
pub open spec fn phases_upto(root: Seq<char>, p: Plan, id: Seq<char>, k: int) -> (Seq<FindingView>, nat)
    decreases k,
{
    if k <= 0 {
        (Seq::empty(), 1)
    } else {
        let (fs, e) = phases_upto(root, p, id, k - 1);
        let (more, e2) = phase_step(root, p, id, p.phases@[k - 1], e);
        (fs + more, e2)
    }
}

/// Every phase Done, from the `k`-th on.
pub open spec fn open_phase_findings(root: Seq<char>, p: Plan, k: int) -> Seq<FindingView>
    decreases k,
{
    if k <= 0 {
        Seq::empty()
    } else {
        let d = p.phases@[k - 1].document;
        open_phase_findings(root, p, k - 1) + if doc_status(d) != Some("Done"@) {
            seq![(
                "plan.done-with-open-phase."@ + p.name@,
                Severity::Error,
                p.name@ + " is marked Done but "@ + rel(root, d.path@) + " is not"@,
                "finish the phase, or set the plan back to In Progress"@,
            )]
        } else {
            Seq::<FindingView>::empty()
        }
    }
}

/// The phase chain of a plan: each phase file, then whether the plan's
/// status agrees with its phases' (a Done plan with an open phase, or
/// every phase Done under a plan still open).
pub open spec fn phases_findings(root: Seq<char>, p: Plan, id: Seq<char>) -> Seq<FindingView> {
    if p.phases@.len() == 0 {
        Seq::empty()
    } else {
        phases_upto(root, p, id, p.phases@.len() as int).0 + if plan_is_done(p) {
            open_phase_findings(root, p, p.phases@.len() as int)
        } else if forall|k: int| 0 <= k < p.phases@.len() ==> doc_status(#[trigger] p.phases@[k].document) == Some("Done"@) {
            seq![(
                "plan.phases-all-done."@ + p.name@,
                Severity::Warning,
                "every phase of "@ + p.name@ + " is Done but the plan is '"@ + (match plan_status(p) {
                    Some(s) => s,
                    None => Seq::empty(),
                }) + "'"@,
                "close the plan (status: Done) and run the plan-learn skill, or reopen the phase that is not finished"@,
            )]
        } else {
            Seq::empty()
        }
    }
}

fn push_two_digits(out: &mut Vec<char>, n: u32)
    ensures
        final(out)@ == old(out)@ + crate::harness::renumber::padded(n as nat, 2),
{
    let mut digits: Vec<char> = Vec::new();
    push_decimal(&mut digits, n as u64);
    assert(digits@ =~= decimal(n as nat));
    if digits.len() < 2 {
        out.push('0');
    }
    crate::text::push_all(out, &digits);
    assert(final(out)@ =~= old(out)@ + crate::harness::renumber::padded(n as nat, 2));
}

fn check_phase_keys(corpus: &Corpus, d: &Document, shown: &String, key: &String, findings: &mut Vec<Finding>)
    ensures
        findings_view(final(findings)@) == findings_view(old(findings)@) + phase_key_findings(
            *d,
            shown@,
            key@,
            seq!["id"@, "slug"@, "phase"@, "status"@],
            4,
        ),
{
    let fields = ["id", "slug", "phase", "status"];
    let ghost fv = seq!["id"@, "slug"@, "phase"@, "status"@];
    assert(fields@.map_values(|f: &str| f@) =~= fv);
    let ghost start = findings_view(findings@);
    let mut i: usize = 0;
    while i < 4
        invariant
            i <= 4,
            fields@.map_values(|f: &str| f@) == fv,
            fields@.len() == 4,
            findings_view(findings@) == start + phase_key_findings(*d, shown@, key@, fv, i as int),
        decreases 4 - i,
    {
        let f = fields[i];
        assert(f@ == fv[i as int]);
        let ghost before = findings_view(findings@);
        if d.text(f).is_none() {
            let mut id: Vec<char> = Vec::new();
            push_str(&mut id, "phase.frontmatter-key.");
            push_str(&mut id, key.as_str());
            push_str(&mut id, ".");
            push_str(&mut id, f);
            let mut m: Vec<char> = Vec::new();
            push_str(&mut m, shown.as_str());
            push_str(&mut m, " frontmatter is missing '");
            push_str(&mut m, f);
            push_str(&mut m, "'");
            let mut rem: Vec<char> = Vec::new();
            push_str(&mut rem, "add '");
            push_str(&mut rem, f);
            push_str(&mut rem, ":'");
            push_finding(findings, string_of(&id), Severity::Error, string_of(&m), string_of(&rem));
        }
        assert(findings_view(findings@) =~= start + phase_key_findings(*d, shown@, key@, fv, i + 1));
        i = i + 1;
    }
}

fn check_phase_body(corpus: &Corpus, plan: &Plan, id: &str, d: &Document, shown: &String, key: &String, number: u32, findings: &mut Vec<Finding>)
    ensures
        findings_view(final(findings)@) == findings_view(old(findings)@) + phase_body_findings(corpus.root@, *plan, id@, *d, shown@, key@, number),
{
    let ghost start = findings_view(findings@);
    check_phase_keys(corpus, d, &shown, &key, findings);
    let ghost after_keys = findings_view(findings@);
    assert(after_keys == start + phase_key_findings(*d, shown@, key@, seq!["id"@, "slug"@, "phase"@, "status"@], 4));
    let id_ok = match d.text("id") {
        Some(t) => {
            let tc = chars_of(t.as_str());
            seq_eq(&tc, &chars_of(id))
        },
        None => false,
    };
    if !id_ok {
        let mut fid: Vec<char> = Vec::new();
        push_str(&mut fid, "phase.id-mismatch.");
        push_str(&mut fid, key.as_str());
        let mut m: Vec<char> = Vec::new();
        push_str(&mut m, shown.as_str());
        push_str(&mut m, " frontmatter id does not match its plan's id '");
        push_str(&mut m, id);
        push_str(&mut m, "'");
        let mut rem: Vec<char> = Vec::new();
        push_str(&mut rem, "set id: ");
        push_str(&mut rem, id);
        push_finding(findings, string_of(&fid), Severity::Error, string_of(&m), string_of(&rem));
    }
    let ghost after_id = findings_view(findings@);
    match d.text("phase") {
        Some(declared) => {
            let mut num: Vec<char> = Vec::new();
            push_decimal(&mut num, number as u64);
            let dc = chars_of(declared.as_str());
            if !seq_eq(&dc, &num) {
                let mut fid: Vec<char> = Vec::new();
                push_str(&mut fid, "phase.number-mismatch.");
                push_str(&mut fid, key.as_str());
                let mut m: Vec<char> = Vec::new();
                push_str(&mut m, shown.as_str());
                push_str(&mut m, " frontmatter says phase ");
                push_str(&mut m, declared.as_str());
                push_str(&mut m, " but the filename says ");
                crate::text::push_all(&mut m, &num);
                push_finding(findings, string_of(&fid), Severity::Error, string_of(&m), "make them agree".to_owned());
            }
        },
        None => {},
    }
    let ghost after_num = findings_view(findings@);
    let mut sid: Vec<char> = Vec::new();
    push_str(&mut sid, "phase.status-invalid.");
    push_str(&mut sid, key.as_str());
    check_status_value(corpus, d, string_of(&sid), findings);
    check_status_section(corpus, d, findings);
    let ghost after_status = findings_view(findings@);
    match (d.status(), table_status(plan, number)) {
        (Some(st), Some(mirrored)) => {
            let sc = chars_of(st.as_str());
            let mc = chars_of(mirrored.as_str());
            if !seq_eq(&sc, &mc) {
                let mut fid: Vec<char> = Vec::new();
                push_str(&mut fid, "phase.status-mirror.");
                push_str(&mut fid, plan.name.as_str());
                push_str(&mut fid, ".");
                push_decimal(&mut fid, number as u64);
                let mut m: Vec<char> = Vec::new();
                push_str(&mut m, "phase ");
                push_decimal(&mut m, number as u64);
                push_str(&mut m, " is '");
                push_str(&mut m, st.as_str());
                push_str(&mut m, "' in ");
                push_str(&mut m, shown.as_str());
                push_str(&mut m, " but '");
                push_str(&mut m, mirrored.as_str());
                push_str(&mut m, "' in the README's Phases table");
                let mut rem: Vec<char> = Vec::new();
                push_str(&mut rem, "update the table row to '");
                push_str(&mut rem, st.as_str());
                push_str(&mut rem, "'");
                push_finding(findings, string_of(&fid), Severity::Warning, string_of(&m), string_of(&rem));
            }
        },
        _ => {},
    }
    assert(findings_view(findings@) =~= start + phase_body_findings(corpus.root@, *plan, id@, *d, shown@, key@, number));
}

fn check_phase(corpus: &Corpus, plan: &Plan, id: &str, phase: &Phase, expected: u32, findings: &mut Vec<Finding>) -> (r: u32)
    requires
        expected < u32::MAX,
    ensures
        findings_view(final(findings)@) == findings_view(old(findings)@) + phase_step(corpus.root@, *plan, id@, *phase, expected as nat).0,
        r as nat == phase_step(corpus.root@, *plan, id@, *phase, expected as nat).1,
{
    let ghost start = findings_view(findings@);
    let d = &phase.document;
    let shown = relative_shown(corpus, d.path.as_str());
    let key = corpus.plan_relative(d.path.as_str());
    let number = match phase.number {
        None => {
            let mut fid: Vec<char> = Vec::new();
            push_str(&mut fid, "phase.malformed-name.");
            push_str(&mut fid, key.as_str());
            let mut m: Vec<char> = Vec::new();
            push_str(&mut m, shown.as_str());
            push_str(&mut m, " is not phase-<two digits>.md");
            let mut rem: Vec<char> = Vec::new();
            push_str(&mut rem, "rename it, e.g. phase-");
            push_two_digits(&mut rem, expected);
            push_str(&mut rem, ".md");
            push_finding(findings, string_of(&fid), Severity::Error, string_of(&m), string_of(&rem));
            assert(findings_view(findings@) =~= start + phase_step(corpus.root@, *plan, id@, *phase, expected as nat).0);
            return expected;
        },
        Some(n) => n,
    };
    if number != expected {
        let mut fid: Vec<char> = Vec::new();
        push_str(&mut fid, "phase.chain-gap.");
        push_str(&mut fid, plan.name.as_str());
        let mut m: Vec<char> = Vec::new();
        push_str(&mut m, shown.as_str());
        push_str(&mut m, " breaks the phase chain: expected phase ");
        push_decimal(&mut m, expected as u64);
        push_finding(findings, string_of(&fid), Severity::Error, string_of(&m),
            "renumber the phase files so they run 01..N with no gaps".to_owned());
    }
    let ghost after_gap = findings_view(findings@);
    match &d.error {
        Some(e) => {
            let mut fid: Vec<char> = Vec::new();
            push_str(&mut fid, "phase.frontmatter-unparsed.");
            push_str(&mut fid, key.as_str());
            let mut m: Vec<char> = Vec::new();
            push_str(&mut m, shown.as_str());
            push_str(&mut m, " frontmatter does not parse: ");
            push_str(&mut m, e.message().as_str());
            push_finding(findings, string_of(&fid), Severity::Error, string_of(&m),
                "fix the line it names — the frontmatter must be flat 'key: value' entries".to_owned());
            assert(findings_view(findings@) =~= start + phase_step(corpus.root@, *plan, id@, *phase, expected as nat).0);
            return expected + 1;
        },
        None => {},
    }
    if d.frontmatter.is_none() {
        let mut fid: Vec<char> = Vec::new();
        push_str(&mut fid, "phase.frontmatter-missing.");
        push_str(&mut fid, key.as_str());
        let mut m: Vec<char> = Vec::new();
        push_str(&mut m, shown.as_str());
        push_str(&mut m, " has no YAML frontmatter");
        push_finding(findings, string_of(&fid), Severity::Error, string_of(&m),
            "add id/slug/phase/status per the plan-write skill (Step 4)".to_owned());
        assert(findings_view(findings@) =~= start + phase_step(corpus.root@, *plan, id@, *phase, expected as nat).0);
        return expected + 1;
    }
    check_phase_body(corpus, plan, id, d, &shown, &key, number, findings);
    assert(findings_view(findings@) =~= start + phase_step(corpus.root@, *plan, id@, *phase, expected as nat).0);
    expected + 1
}

fn check_phases(corpus: &Corpus, plan: &Plan, id: &str, findings: &mut Vec<Finding>)
    requires
        plan.phases@.len() < u32::MAX,
    ensures
        findings_view(final(findings)@) == findings_view(old(findings)@) + phases_findings(corpus.root@, *plan, id@),
{
    let ghost start = findings_view(findings@);
    if plan.phases.len() == 0 {
        assert(findings_view(findings@) =~= start + phases_findings(corpus.root@, *plan, id@));
        return;
    }
    let mut expected: u32 = 1;
    let mut k: usize = 0;
    while k < plan.phases.len()
        invariant
            k <= plan.phases@.len() < u32::MAX,
            expected as nat == phases_upto(corpus.root@, *plan, id@, k as int).1,
            expected <= k + 1,
            findings_view(findings@) == start + phases_upto(corpus.root@, *plan, id@, k as int).0,
        decreases plan.phases.len() - k,
    {
        proof {
            let (fs, e) = phases_upto(corpus.root@, *plan, id@, k as int);
            let st = phase_step(corpus.root@, *plan, id@, plan.phases@[k as int], e);
            assert(st.1 <= e + 1);
        }
        expected = check_phase(corpus, plan, id, &plan.phases[k], expected, findings);
        assert(findings_view(findings@) =~= start + phases_upto(corpus.root@, *plan, id@, k + 1).0);
        k = k + 1;
    }
    let ghost mid = findings_view(findings@);
    if plan.is_done() {
        let mut j: usize = 0;
        while j < plan.phases.len()
            invariant
                j <= plan.phases@.len(),
                findings_view(findings@) == mid + open_phase_findings(corpus.root@, *plan, j as int),
            decreases plan.phases.len() - j,
        {
            let d = &plan.phases[j].document;
            let done = match d.status() {
                Some(st) => {
                    let sc = chars_of(st.as_str());
                    seq_eq(&sc, &chars_of("Done"))
                },
                None => false,
            };
            if !done {
                let mut fid: Vec<char> = Vec::new();
                push_str(&mut fid, "plan.done-with-open-phase.");
                push_str(&mut fid, plan.name.as_str());
                let mut m: Vec<char> = Vec::new();
                push_str(&mut m, plan.name.as_str());
                push_str(&mut m, " is marked Done but ");
                push_str(&mut m, relative_shown(corpus, d.path.as_str()).as_str());
                push_str(&mut m, " is not");
                push_finding(findings, string_of(&fid), Severity::Error, string_of(&m),
                    "finish the phase, or set the plan back to In Progress".to_owned());
            }
            assert(findings_view(findings@) =~= mid + open_phase_findings(corpus.root@, *plan, j + 1));
            j = j + 1;
        }
    } else {
        let mut all_done = true;
        let mut j: usize = 0;
        while j < plan.phases.len()
            invariant
                j <= plan.phases@.len(),
                all_done == forall|i: int| 0 <= i < j ==> doc_status(#[trigger] plan.phases@[i].document) == Some("Done"@),
            decreases plan.phases.len() - j,
        {
            let done = match plan.phases[j].document.status() {
                Some(st) => {
                    let sc = chars_of(st.as_str());
                    seq_eq(&sc, &chars_of("Done"))
                },
                None => false,
            };
            if !done {
                all_done = false;
            }
            j = j + 1;
        }
        if all_done {
            let status = match plan.status() {
                Some(st) => st,
                None => String::new(),
            };
            let mut fid: Vec<char> = Vec::new();
            push_str(&mut fid, "plan.phases-all-done.");
            push_str(&mut fid, plan.name.as_str());
            let mut m: Vec<char> = Vec::new();
            push_str(&mut m, "every phase of ");
            push_str(&mut m, plan.name.as_str());
            push_str(&mut m, " is Done but the plan is '");
            push_str(&mut m, status.as_str());
            push_str(&mut m, "'");
            push_finding(findings, string_of(&fid), Severity::Warning, string_of(&m),
                "close the plan (status: Done) and run the plan-learn skill, or reopen the phase that is not finished".to_owned());
        }
    }
    assert(findings_view(findings@) =~= start + phases_findings(corpus.root@, *plan, id@));
}

/// Some entry with id `id` records phase `n`.
pub open spec fn logged(entries: Seq<(Seq<char>, Option<u32>)>, id: Seq<char>, n: u32) -> bool {
    exists|k: int| 0 <= k < entries.len() && #[trigger] entries[k].0 == id && entries[k].1 == Some(n)
}

/// The smallest phase above `lo` that the log records for `id`.
pub open spec fn next_logged(entries: Seq<(Seq<char>, Option<u32>)>, id: Seq<char>, lo: int) -> Option<u32> {
    if exists|n: u32| n > lo && #[trigger] logged(entries, id, n) {
        Some(choose|n: u32| n > lo && logged(entries, id, n) && forall|m: u32| m > lo && #[trigger] logged(entries, id, m) ==> n <= m)
    } else {
        None
    }
}

/// The plan against the one record written after the fact: a Done plan
/// the log never mentions, and each phase the log says shipped that is
/// missing or not Done, in ascending phase order.
pub open spec fn changelog_findings(root: Seq<char>, p: Plan, id: Seq<char>, log: Option<Seq<char>>) -> Seq<FindingView> {
    match log {
        None => Seq::empty(),
        Some(text) => {
            let entries = super::corpus::changelog_upto(crate::text::lines(text), crate::text::lines(text).len() as int);
            let shown = rel(root, join(ash_dir_of(root), "CHANGELOG.log"@));
            let unlogged: Seq<FindingView> = if plan_is_done(p) && !(exists|k: int| 0 <= k < entries.len() && #[trigger] entries[k].0 == id) {
                seq![(
                    "plan.unlogged."@ + p.name@,
                    Severity::Warning,
                    p.name@ + " is Done but "@ + shown + " has no entry for id="@ + id,
                    "append the closing line plan-implement writes when a plan ships"@,
                )]
            } else {
                Seq::empty()
            };
            unlogged + logged_from(root, p, id, shown, entries, -1)
        },
    }
}

/// The findings for each logged phase above `lo`, ascending.
#[verifier::opaque]
pub open spec fn logged_from(root: Seq<char>, p: Plan, id: Seq<char>, shown: Seq<char>, entries: Seq<(Seq<char>, Option<u32>)>, lo: int) -> Seq<FindingView>
    decreases u32::MAX - lo,
{
    if lo >= u32::MAX {
        Seq::empty()
    } else {
        match next_logged(entries, id, lo) {
            None => Seq::empty(),
            Some(n) => {
                proof {
                    lemma_next_logged(entries, id, lo);
                }
                logged_phase_finding(root, p, id, shown, n) + logged_from(root, p, id, shown, entries, n as int)
            },
        }
    }
}

pub proof fn lemma_logged_from_step(root: Seq<char>, p: Plan, id: Seq<char>, shown: Seq<char>, entries: Seq<(Seq<char>, Option<u32>)>, lo: int)
    ensures
        lo >= u32::MAX ==> logged_from(root, p, id, shown, entries, lo) == Seq::<FindingView>::empty(),
        lo < u32::MAX && next_logged(entries, id, lo) is None ==> logged_from(root, p, id, shown, entries, lo) == Seq::<FindingView>::empty(),
        lo < u32::MAX && next_logged(entries, id, lo) is Some ==> logged_from(root, p, id, shown, entries, lo)
            == logged_phase_finding(root, p, id, shown, next_logged(entries, id, lo)->0) + logged_from(root, p, id, shown, entries, next_logged(entries, id, lo)->0 as int),
{
    reveal(logged_from);
}

pub proof fn lemma_next_logged(entries: Seq<(Seq<char>, Option<u32>)>, id: Seq<char>, lo: int)
    ensures
        next_logged(entries, id, lo) matches Some(n) ==> n > lo && logged(entries, id, n) && forall|m: u32|
            m > lo && #[trigger] logged(entries, id, m) ==> n <= m,
{
    if exists|n: u32| n > lo && #[trigger] logged(entries, id, n) {
        let w = choose|n: u32| n > lo && logged(entries, id, n);
        lemma_min_exists(entries, id, lo, w);
    }
}

proof fn lemma_min_exists(entries: Seq<(Seq<char>, Option<u32>)>, id: Seq<char>, lo: int, w: u32)
    requires
        w > lo,
        logged(entries, id, w),
    ensures
        exists|n: u32| n > lo && logged(entries, id, n) && forall|m: u32| m > lo && #[trigger] logged(entries, id, m) ==> n <= m,
    decreases w - lo,
{
    if exists|m: u32| m > lo && m < w && #[trigger] logged(entries, id, m) {
        let m = choose|m: u32| m > lo && m < w && logged(entries, id, m);
        lemma_min_exists(entries, id, lo, m);
    } else {
        assert forall|m: u32| m > lo && #[trigger] logged(entries, id, m) implies w <= m by {
            if m < w {
                assert(m > lo && m < w && logged(entries, id, m));
            }
        }
    }
}

/// Phase `n`'s file in plan order, when some phase carries that number.
pub open spec fn phase_numbered(p: Plan, n: u32) -> Option<int> {
    if exists|k: int| 0 <= k < p.phases@.len() && #[trigger] p.phases@[k].number == Some(n) {
        Some(choose|k: int| 0 <= k < p.phases@.len() && p.phases@[k].number == Some(n) && forall|j: int|
            0 <= j < k ==> p.phases@[j].number != Some(n))
    } else {
        None
    }
}

pub open spec fn logged_phase_finding(root: Seq<char>, p: Plan, id: Seq<char>, shown: Seq<char>, n: u32) -> Seq<FindingView> {
    match phase_numbered(p, n) {
        None => seq![(
            "phase.logged-missing."@ + p.name@ + "."@ + decimal(n as nat),
            Severity::Warning,
            shown + " records phase "@ + decimal(n as nat) + " of "@ + id + " as shipped but "@ + rel(root, p.dir@)
                + "/phase-"@ + crate::harness::renumber::padded(n as nat, 2) + ".md does not exist"@,
            "restore the phase file, or correct the id in the log entry"@,
        )],
        Some(k) => {
            let d = p.phases@[k].document;
            let status = match doc_status(d) {
                Some(s) => s,
                None => Seq::empty(),
            };
            if status != "Done"@ {
                seq![(
                    "phase.logged-not-done."@ + p.name@ + "."@ + decimal(n as nat),
                    Severity::Warning,
                    shown + " says phase "@ + decimal(n as nat) + " of "@ + id + " shipped, but "@ + rel(root, d.path@)
                        + " is '"@ + status + "'"@,
                    "set that phase to Done, or work out what the log entry was really about"@,
                )]
            } else {
                Seq::empty()
            }
        },
    }
}
fn next_logged_exec(entries: &Vec<super::corpus::LogEntry>, id: &Vec<char>, lo: i64) -> (r: Option<u32>)
    requires
        -1 <= lo <= u32::MAX,
    ensures
        r == next_logged(entries@.map_values(|e: super::corpus::LogEntry| super::corpus::log_entry_view(e)), id@, lo as int),
{
    let ghost ev = entries@.map_values(|e: super::corpus::LogEntry| super::corpus::log_entry_view(e));
    let mut best: Option<u32> = None;
    let mut k: usize = 0;
    while k < entries.len()
        invariant
            k <= entries@.len(),
            ev == entries@.map_values(|e: super::corpus::LogEntry| super::corpus::log_entry_view(e)),
            match best {
                Some(b) => b > lo && logged(ev, id@, b) && forall|j: int| 0 <= j < k && #[trigger] ev[j].0 == id@ && ev[j].1 is Some && ev[j].1->0 > lo ==> b <= ev[j].1->0,
                None => forall|j: int| 0 <= j < k && #[trigger] ev[j].0 == id@ && ev[j].1 is Some ==> ev[j].1->0 <= lo,
            },
        decreases entries.len() - k,
    {
        let e = &entries[k];
        let ec = chars_of(e.id.as_str());
        assert(ev[k as int] == super::corpus::log_entry_view(*e));
        if seq_eq(&ec, id) {
            match e.phase {
                Some(n) => {
                    if n as i64 > lo {
                        assert(ev[k as int].0 == id@ && ev[k as int].1 == Some(n));
                        assert(logged(ev, id@, n));
                        match best {
                            Some(b) => {
                                if n < b {
                                    best = Some(n);
                                }
                            },
                            None => {
                                best = Some(n);
                            },
                        }
                    }
                },
                None => {},
            }
        }
        k = k + 1;
    }
    proof {
        lemma_next_logged(ev, id@, lo as int);
        match best {
            Some(b) => {
                assert(exists|n: u32| n > lo && #[trigger] logged(ev, id@, n));
                let c = next_logged(ev, id@, lo as int)->0;
                let jc = choose|j: int| 0 <= j < ev.len() && #[trigger] ev[j].0 == id@ && ev[j].1 == Some(c);
                let jb = choose|j: int| 0 <= j < ev.len() && #[trigger] ev[j].0 == id@ && ev[j].1 == Some(b);
                assert(b <= c);
                assert(c <= b);
            },
            None => {
                if exists|n: u32| n > lo && #[trigger] logged(ev, id@, n) {
                    let n = choose|n: u32| n > lo && logged(ev, id@, n);
                    let j = choose|j: int| 0 <= j < ev.len() && #[trigger] ev[j].0 == id@ && ev[j].1 == Some(n);
                    assert(false);
                }
            },
        }
    }
    best
}

fn phase_numbered_exec(plan: &Plan, n: u32) -> (r: Option<usize>)
    ensures
        match phase_numbered(*plan, n) {
            Some(k) => r == Some(k as usize) && 0 <= k < plan.phases@.len(),
            None => r is None,
        },
{
    let mut k: usize = 0;
    while k < plan.phases.len()
        invariant
            k <= plan.phases@.len(),
            forall|j: int| 0 <= j < k ==> plan.phases@[j].number != Some(n),
        decreases plan.phases.len() - k,
    {
        if plan.phases[k].number == Some(n) {
            proof {
                let c = choose|c: int| 0 <= c < plan.phases@.len() && plan.phases@[c].number == Some(n) && forall|j: int|
                    0 <= j < c ==> plan.phases@[j].number != Some(n);
                assert(plan.phases@[k as int].number == Some(n));
                if c < k {
                } else if c > k {
                }
                assert(c == k);
            }
            return Some(k);
        }
        k = k + 1;
    }
    None
}

fn logged_phase_finding_exec(corpus: &Corpus, plan: &Plan, id: &str, shown: &String, n: u32, findings: &mut Vec<Finding>)
    ensures
        findings_view(final(findings)@) == findings_view(old(findings)@) + logged_phase_finding(corpus.root@, *plan, id@, shown@, n),
{
    let ghost start = findings_view(findings@);
    let found = phase_numbered_exec(plan, n);
    let np = plan.phases.len();
    match found {
        None => {
            let mut fid: Vec<char> = Vec::new();
            push_str(&mut fid, "phase.logged-missing.");
            push_str(&mut fid, plan.name.as_str());
            push_str(&mut fid, ".");
            push_decimal(&mut fid, n as u64);
            let mut m: Vec<char> = Vec::new();
            push_str(&mut m, shown.as_str());
            push_str(&mut m, " records phase ");
            push_decimal(&mut m, n as u64);
            push_str(&mut m, " of ");
            push_str(&mut m, id);
            push_str(&mut m, " as shipped but ");
            push_str(&mut m, relative_shown(corpus, plan.dir.as_str()).as_str());
            push_str(&mut m, "/phase-");
            push_two_digits(&mut m, n);
            push_str(&mut m, ".md does not exist");
            push_finding(findings, string_of(&fid), Severity::Warning, string_of(&m),
                "restore the phase file, or correct the id in the log entry".to_owned());
            assert(findings_view(findings@) =~= start + logged_phase_finding(corpus.root@, *plan, id@, shown@, n));
        },
        Some(k) => {
            let d = &plan.phases[k].document;
            assert(phase_numbered(*plan, n) is Some);
            let ghost ks = phase_numbered(*plan, n)->0;
            assert(found == Some(ks as usize));
            assert(ks == k as int);
            assert(*d == plan.phases@[ks].document);
            let status = match d.status() {
                Some(st) => st,
                None => String::new(),
            };
            assert(status@ == match doc_status(*d) { Some(x) => x, None => Seq::<char>::empty() });
            let sc = chars_of(status.as_str());
            if !seq_eq(&sc, &chars_of("Done")) {
                let mut fid: Vec<char> = Vec::new();
                push_str(&mut fid, "phase.logged-not-done.");
                push_str(&mut fid, plan.name.as_str());
                push_str(&mut fid, ".");
                push_decimal(&mut fid, n as u64);
                let mut m: Vec<char> = Vec::new();
                push_str(&mut m, shown.as_str());
                push_str(&mut m, " says phase ");
                push_decimal(&mut m, n as u64);
                push_str(&mut m, " of ");
                push_str(&mut m, id);
                push_str(&mut m, " shipped, but ");
                push_str(&mut m, relative_shown(corpus, d.path.as_str()).as_str());
                push_str(&mut m, " is '");
                push_str(&mut m, status.as_str());
                push_str(&mut m, "'");
                push_finding(findings, string_of(&fid), Severity::Warning, string_of(&m),
                    "set that phase to Done, or work out what the log entry was really about".to_owned());
            }
            assert(findings_view(findings@) =~= start + logged_phase_finding(corpus.root@, *plan, id@, shown@, n));
        },
    }
    assert(findings_view(findings@) =~= start + logged_phase_finding(corpus.root@, *plan, id@, shown@, n));
}

fn check_logged_phases(corpus: &Corpus, plan: &Plan, id: &str, shown: &String, entries: &Vec<super::corpus::LogEntry>, findings: &mut Vec<Finding>)
    ensures
        findings_view(final(findings)@) == findings_view(old(findings)@) + logged_from(
            corpus.root@,
            *plan,
            id@,
            shown@,
            entries@.map_values(|e: super::corpus::LogEntry| super::corpus::log_entry_view(e)),
            -1,
        ),
{
    let ghost ev = entries@.map_values(|e: super::corpus::LogEntry| super::corpus::log_entry_view(e));
    let idc = chars_of(id);
    let ghost mid = findings_view(findings@);
    let ghost mut acc: Seq<FindingView> = Seq::empty();
    let mut lo: i64 = -1;
    loop
        invariant
            -1 <= lo <= u32::MAX,
            ev == entries@.map_values(|e: super::corpus::LogEntry| super::corpus::log_entry_view(e)),
            idc@ == id@,
            logged_from(corpus.root@, *plan, id@, shown@, ev, -1) == acc + logged_from(corpus.root@, *plan, id@, shown@, ev, lo as int),
            findings_view(findings@) == mid + acc,
        ensures
            acc == logged_from(corpus.root@, *plan, id@, shown@, ev, -1),
            findings_view(findings@) == mid + acc,
        decreases u32::MAX - lo,
    {
        proof {
            lemma_logged_from_step(corpus.root@, *plan, id@, shown@, ev, lo as int);
        }
        if lo >= u32::MAX as i64 {
            assert(acc + Seq::<FindingView>::empty() == acc);
            break;
        }
        let next = next_logged_exec(entries, &idc, lo);
        let n = match next {
            None => {
                assert(acc + Seq::<FindingView>::empty() == acc);
                break;
            },
            Some(n) => n,
        };
        proof {
            lemma_next_logged(ev, id@, lo as int);
        }
        logged_phase_finding_exec(corpus, plan, id, shown, n, findings);
        proof {
            let step = logged_phase_finding(corpus.root@, *plan, id@, shown@, n);
            assert(acc + logged_from(corpus.root@, *plan, id@, shown@, ev, lo as int) == acc + (step + logged_from(corpus.root@, *plan, id@, shown@, ev, n as int)));
            assert(acc + (step + logged_from(corpus.root@, *plan, id@, shown@, ev, n as int)) =~= (acc + step) + logged_from(corpus.root@, *plan, id@, shown@, ev, n as int));
            acc = acc + step;
        }
        lo = n as i64;
    }
    assert(acc == logged_from(corpus.root@, *plan, id@, shown@, ev, -1));
}

#[verifier::rlimit(30)]
fn check_changelog(corpus: &Corpus, plan: &Plan, id: &str, changelog: &Option<String>, findings: &mut Vec<Finding>)
    ensures
        findings_view(final(findings)@) == findings_view(old(findings)@) + changelog_findings(
            corpus.root@,
            *plan,
            id@,
            match changelog { Some(t) => Some(t@), None => None },
        ),
{
    let ghost start = findings_view(findings@);
    let text = match changelog {
        None => {
            assert(findings_view(findings@) =~= start + Seq::<FindingView>::empty());
            return;
        },
        Some(t) => t,
    };
    let entries = super::corpus::read_changelog(text.as_str());
    let ghost ev = entries@.map_values(|e: super::corpus::LogEntry| super::corpus::log_entry_view(e));
    let idc = chars_of(id);
    let mut any = false;
    let mut k: usize = 0;
    while k < entries.len()
        invariant
            k <= entries@.len(),
            ev == entries@.map_values(|e: super::corpus::LogEntry| super::corpus::log_entry_view(e)),
            idc@ == id@,
            any == exists|j: int| 0 <= j < k && #[trigger] ev[j].0 == id@,
        decreases entries.len() - k,
    {
        assert(ev[k as int] == super::corpus::log_entry_view(entries@[k as int]));
        let ec = chars_of(entries[k].id.as_str());
        assert(ec@ == ev[k as int].0);
        if seq_eq(&ec, &idc) {
            any = true;
        }
        k = k + 1;
    }
    let shown = relative_shown(corpus, corpus.root.changelog_file().as_str());
    if plan.is_done() && !any {
        let mut fid: Vec<char> = Vec::new();
        push_str(&mut fid, "plan.unlogged.");
        push_str(&mut fid, plan.name.as_str());
        let mut m: Vec<char> = Vec::new();
        push_str(&mut m, plan.name.as_str());
        push_str(&mut m, " is Done but ");
        push_str(&mut m, shown.as_str());
        push_str(&mut m, " has no entry for id=");
        push_str(&mut m, id);
        push_finding(findings, string_of(&fid), Severity::Warning, string_of(&m),
            "append the closing line plan-implement writes when a plan ships".to_owned());
    }
    let ghost mid = findings_view(findings@);
    check_logged_phases(corpus, plan, id, &shown, &entries, findings);
    assert(findings_view(findings@) =~= start + changelog_findings(corpus.root@, *plan, id@, Some(text@)));
}

/// One finding for each of the first `n` of `keys` the README lacks.
pub open spec fn plan_key_findings(d: Document, shown: Seq<char>, name: Seq<char>, keys: Seq<Seq<char>>, n: int) -> Seq<FindingView>
    decreases n,
{
    if n <= 0 {
        Seq::empty()
    } else {
        let k = keys[n - 1];
        plan_key_findings(d, shown, name, keys, n - 1) + if doc_text(d, k) is None {
            seq![(
                "plan.frontmatter-key."@ + name + "."@ + k,
                Severity::Error,
                shown + " frontmatter is missing '"@ + k + "'"@,
                "add '"@ + k + ":' — .ash/INDEX.md is generated from these keys"@,
            )]
        } else {
            Seq::<FindingView>::empty()
        }
    }
}

pub open spec fn plan_keys() -> Seq<Seq<char>> {
    seq!["id"@, "slug"@, "status"@, "created"@, "updated"@, "areas"@, "summary"@]
}

/// A declared `field` that disagrees with the directory's.
pub open spec fn mismatch_findings(d: Document, shown: Seq<char>, name: Seq<char>, field: Seq<char>, actual: Seq<char>) -> Seq<FindingView> {
    match doc_text(d, field) {
        Some(declared) => if declared != actual {
            seq![(
                "plan."@ + field + "-mismatch."@ + name,
                Severity::Error,
                shown + " frontmatter "@ + field + " '"@ + declared + "' does not match directory "@ + field + " '"@ + actual + "'"@,
                "set "@ + field + ": "@ + actual,
            )]
        } else {
            Seq::empty()
        },
        None => Seq::empty(),
    }
}

/// The README's frontmatter: it must parse, exist, carry every index key
/// and agree with the directory name.
pub open spec fn readme_findings(root: Seq<char>, p: Plan, d: Document, id: Seq<char>, slug: Seq<char>) -> Seq<FindingView> {
    let shown = rel(root, d.path@);
    let name = p.name@;
    match d.error {
        Some(e) => seq![(
            "plan.frontmatter-unparsed."@ + name,
            Severity::Error,
            shown + " frontmatter does not parse: "@ + ("line "@ + decimal(e.line as nat) + ": "@ + e.reason@),
            "fix the line it names — the frontmatter must be flat 'key: value' entries, with lists written inline as [a, b, c]"@,
        )],
        None => if d.frontmatter is None {
            seq![(
                "plan.frontmatter-missing."@ + name,
                Severity::Error,
                shown + " has no YAML frontmatter"@,
                "add the frontmatter block from the plan-write skill (Step 5)"@,
            )]
        } else {
            plan_key_findings(d, shown, name, plan_keys(), 7) + mismatch_findings(d, shown, name, "id"@, id)
                + mismatch_findings(d, shown, name, "slug"@, slug) + status_value_findings(root, d, "plan.status-invalid."@ + name)
        },
    }
}

/// Everything wrong with one plan directory. `dup` says an earlier plan
/// directory has its id; `suggestion` is a fresh id to suggest.
pub open spec fn plan_findings(root: Seq<char>, p: Plan, dup: bool, suggestion: Seq<char>, log: Option<Seq<char>>) -> Seq<FindingView> {
    let name = p.name@;
    match (p.id, p.slug) {
        (Some(id), Some(slug)) => {
            let dupf: Seq<FindingView> = if dup {
                seq![(
                    "plan.duplicate-id."@ + id@,
                    Severity::Error,
                    "id "@ + id@ + " is used by more than one plan directory"@,
                    "mint a fresh id for the later plan: pinst harness new-id"@,
                )]
            } else {
                Seq::empty()
            };
            match p.readme {
                None => dupf + seq![(
                    "plan.readme-missing."@ + name,
                    Severity::Error,
                    rel(root, p.dir@) + "/README.md is missing"@,
                    "every plan folder needs a README.md, single- or multi-phase"@,
                )],
                Some(d) => dupf + readme_findings(root, p, d, id@, slug@) + status_section_findings(root, d)
                    + phases_findings(root, p, id@) + learnings_findings(p) + changelog_findings(root, p, id@, log),
            }
        },
        _ => seq![(
            "plan.malformed-dir."@ + name,
            Severity::Error,
            "plan directory '"@ + name + "' is not <yymmdd>-<6 letters>-<kebab-slug>"@,
            "rename it, e.g. "@ + suggestion + "-"@ + name,
        )],
    }
}

fn check_plan_keys(d: &Document, shown: &String, name: &String, findings: &mut Vec<Finding>)
    ensures
        findings_view(final(findings)@) == findings_view(old(findings)@) + plan_key_findings(*d, shown@, name@, plan_keys(), 7),
{
    let keys = ["id", "slug", "status", "created", "updated", "areas", "summary"];
    let ghost kv = plan_keys();
    assert(keys@.map_values(|f: &str| f@) =~= kv);
    let ghost start = findings_view(findings@);
    let mut i: usize = 0;
    while i < 7
        invariant
            i <= 7,
            keys@.map_values(|f: &str| f@) == kv,
            keys@.len() == 7,
            kv == plan_keys(),
            findings_view(findings@) == start + plan_key_findings(*d, shown@, name@, kv, i as int),
        decreases 7 - i,
    {
        let k = keys[i];
        assert(k@ == kv[i as int]);
        if d.text(k).is_none() {
            let mut id: Vec<char> = Vec::new();
            push_str(&mut id, "plan.frontmatter-key.");
            push_str(&mut id, name.as_str());
            push_str(&mut id, ".");
            push_str(&mut id, k);
            let mut m: Vec<char> = Vec::new();
            push_str(&mut m, shown.as_str());
            push_str(&mut m, " frontmatter is missing '");
            push_str(&mut m, k);
            push_str(&mut m, "'");
            let mut rem: Vec<char> = Vec::new();
            push_str(&mut rem, "add '");
            push_str(&mut rem, k);
            push_str(&mut rem, ":' — .ash/INDEX.md is generated from these keys");
            push_finding(findings, string_of(&id), Severity::Error, string_of(&m), string_of(&rem));
        }
        assert(findings_view(findings@) =~= start + plan_key_findings(*d, shown@, name@, kv, i + 1));
        i = i + 1;
    }
}

fn check_mismatch(d: &Document, shown: &String, name: &String, field: &str, actual: &str, findings: &mut Vec<Finding>)
    ensures
        findings_view(final(findings)@) == findings_view(old(findings)@) + mismatch_findings(*d, shown@, name@, field@, actual@),
{
    let ghost start = findings_view(findings@);
    match d.text(field) {
        Some(declared) => {
            let dc = chars_of(declared.as_str());
            if !seq_eq(&dc, &chars_of(actual)) {
                let mut id: Vec<char> = Vec::new();
                push_str(&mut id, "plan.");
                push_str(&mut id, field);
                push_str(&mut id, "-mismatch.");
                push_str(&mut id, name.as_str());
                let mut m: Vec<char> = Vec::new();
                push_str(&mut m, shown.as_str());
                push_str(&mut m, " frontmatter ");
                push_str(&mut m, field);
                push_str(&mut m, " '");
                push_str(&mut m, declared.as_str());
                push_str(&mut m, "' does not match directory ");
                push_str(&mut m, field);
                push_str(&mut m, " '");
                push_str(&mut m, actual);
                push_str(&mut m, "'");
                let mut rem: Vec<char> = Vec::new();
                push_str(&mut rem, "set ");
                push_str(&mut rem, field);
                push_str(&mut rem, ": ");
                push_str(&mut rem, actual);
                push_finding(findings, string_of(&id), Severity::Error, string_of(&m), string_of(&rem));
            }
        },
        None => {},
    }
    assert(findings_view(findings@) =~= start + mismatch_findings(*d, shown@, name@, field@, actual@));
}

fn check_readme(corpus: &Corpus, plan: &Plan, d: &Document, id: &str, slug: &str, findings: &mut Vec<Finding>)
    ensures
        findings_view(final(findings)@) == findings_view(old(findings)@) + readme_findings(corpus.root@, *plan, *d, id@, slug@),
{
    let ghost start = findings_view(findings@);
    let shown = relative_shown(corpus, d.path.as_str());
    match &d.error {
        Some(e) => {
            let mut fid: Vec<char> = Vec::new();
            push_str(&mut fid, "plan.frontmatter-unparsed.");
            push_str(&mut fid, plan.name.as_str());
            let mut m: Vec<char> = Vec::new();
            push_str(&mut m, shown.as_str());
            push_str(&mut m, " frontmatter does not parse: ");
            push_str(&mut m, e.message().as_str());
            push_finding(findings, string_of(&fid), Severity::Error, string_of(&m),
                "fix the line it names — the frontmatter must be flat 'key: value' entries, with lists written inline as [a, b, c]".to_owned());
            assert(findings_view(findings@) =~= start + readme_findings(corpus.root@, *plan, *d, id@, slug@));
            return;
        },
        None => {},
    }
    if d.frontmatter.is_none() {
        let mut fid: Vec<char> = Vec::new();
        push_str(&mut fid, "plan.frontmatter-missing.");
        push_str(&mut fid, plan.name.as_str());
        let mut m: Vec<char> = Vec::new();
        push_str(&mut m, shown.as_str());
        push_str(&mut m, " has no YAML frontmatter");
        push_finding(findings, string_of(&fid), Severity::Error, string_of(&m),
            "add the frontmatter block from the plan-write skill (Step 5)".to_owned());
        assert(findings_view(findings@) =~= start + readme_findings(corpus.root@, *plan, *d, id@, slug@));
        return;
    }
    check_plan_keys(d, &shown, &plan.name, findings);
    check_mismatch(d, &shown, &plan.name, "id", id, findings);
    check_mismatch(d, &shown, &plan.name, "slug", slug, findings);
    let mut sid: Vec<char> = Vec::new();
    push_str(&mut sid, "plan.status-invalid.");
    push_str(&mut sid, plan.name.as_str());
    check_status_value(corpus, d, string_of(&sid), findings);
    assert(findings_view(findings@) =~= start + readme_findings(corpus.root@, *plan, *d, id@, slug@));
}

#[verifier::rlimit(80)]
#[verifier::spinoff_prover]
fn check_plan(corpus: &Corpus, plan: &Plan, dup: bool, suggestion: &str, changelog: &Option<String>, findings: &mut Vec<Finding>)
    requires
        plan.phases@.len() < u32::MAX,
    ensures
        findings_view(final(findings)@) == findings_view(old(findings)@) + plan_findings(
            corpus.root@,
            *plan,
            dup,
            suggestion@,
            match changelog { Some(t) => Some(t@), None => None },
        ),
{
    let ghost start = findings_view(findings@);
    let (id, slug) = match (&plan.id, &plan.slug) {
        (Some(i), Some(s)) => (i, s),
        _ => {
            let mut fid: Vec<char> = Vec::new();
            push_str(&mut fid, "plan.malformed-dir.");
            push_str(&mut fid, plan.name.as_str());
            let mut m: Vec<char> = Vec::new();
            push_str(&mut m, "plan directory '");
            push_str(&mut m, plan.name.as_str());
            push_str(&mut m, "' is not <yymmdd>-<6 letters>-<kebab-slug>");
            let mut rem: Vec<char> = Vec::new();
            push_str(&mut rem, "rename it, e.g. ");
            push_str(&mut rem, suggestion);
            push_str(&mut rem, "-");
            push_str(&mut rem, plan.name.as_str());
            push_finding(findings, string_of(&fid), Severity::Error, string_of(&m), string_of(&rem));
            assert(findings_view(findings@) =~= start + plan_findings(corpus.root@, *plan, dup, suggestion@,
                match changelog { Some(t) => Some(t@), None => None }));
            return;
        },
    };
    if dup {
        let mut fid: Vec<char> = Vec::new();
        push_str(&mut fid, "plan.duplicate-id.");
        push_str(&mut fid, id.as_str());
        let mut m: Vec<char> = Vec::new();
        push_str(&mut m, "id ");
        push_str(&mut m, id.as_str());
        push_str(&mut m, " is used by more than one plan directory");
        push_finding(findings, string_of(&fid), Severity::Error, string_of(&m),
            "mint a fresh id for the later plan: pinst harness new-id".to_owned());
    }
    let readme = match &plan.readme {
        None => {
            let mut fid: Vec<char> = Vec::new();
            push_str(&mut fid, "plan.readme-missing.");
            push_str(&mut fid, plan.name.as_str());
            let mut m: Vec<char> = Vec::new();
            push_str(&mut m, relative_shown(corpus, plan.dir.as_str()).as_str());
            push_str(&mut m, "/README.md is missing");
            push_finding(findings, string_of(&fid), Severity::Error, string_of(&m),
                "every plan folder needs a README.md, single- or multi-phase".to_owned());
            assert(findings_view(findings@) =~= start + plan_findings(corpus.root@, *plan, dup, suggestion@,
                match changelog { Some(t) => Some(t@), None => None }));
            return;
        },
        Some(d) => d,
    };
    let ghost a = findings_view(findings@);
    check_readme(corpus, plan, readme, id.as_str(), slug.as_str(), findings);
    let ghost b = findings_view(findings@);
    check_status_section(corpus, readme, findings);
    let ghost c = findings_view(findings@);
    check_phases(corpus, plan, id.as_str(), findings);
    let ghost e = findings_view(findings@);
    check_learnings(plan, findings);
    let ghost f = findings_view(findings@);
    check_changelog(corpus, plan, id.as_str(), changelog, findings);
    proof {
        let log = match changelog { Some(t) => Some(t@), None => None };
        assert(b == a + readme_findings(corpus.root@, *plan, *readme, id@, slug@));
        assert(c == b + status_section_findings(corpus.root@, *readme));
        assert(e == c + phases_findings(corpus.root@, *plan, id@));
        assert(f == e + learnings_findings(*plan));
        assert(findings_view(findings@) == f + changelog_findings(corpus.root@, *plan, id@, log));
    }
    assert(findings_view(findings@) =~= start + plan_findings(corpus.root@, *plan, dup, suggestion@,
        match changelog { Some(t) => Some(t@), None => None }));
}


/// How many lessons before the `k`-th share its id.
pub open spec fn earlier_same(ls: Seq<LessonView>, k: int, j: int) -> nat
    decreases j,
{
    if j <= 0 {
        0
    } else {
        earlier_same(ls, k, j - 1) + if ls[j - 1].0 == ls[k].0 { 1nat } else { 0nat }
    }
}

/// The lessons among the first `n` with id `id`, in order.
pub open spec fn group_upto(ls: Seq<LessonView>, id: Seq<char>, n: int) -> Seq<LessonView>
    decreases n,
{
    if n <= 0 {
        Seq::empty()
    } else if ls[n - 1].0 == id {
        group_upto(ls, id, n - 1).push(ls[n - 1])
    } else {
        group_upto(ls, id, n - 1)
    }
}

/// A lesson's title as a finding prints it, the untitled case included.
pub open spec fn shown_title(l: LessonView) -> Seq<char> {
    if l.1.len() == 0 {
        l.0 + " (untitled)"@
    } else {
        "'"@ + l.1 + "'"@
    }
}

/// The titles of the group that are not empty, in order.
pub open spec fn usable_titles(group: Seq<LessonView>) -> Seq<Seq<char>>
    decreases group.len(),
{
    if group.len() == 0 {
        Seq::empty()
    } else if group.last().1.len() > 0 {
        usable_titles(group.drop_last()).push(group.last().1)
    } else {
        usable_titles(group.drop_last())
    }
}

/// How a duplicated lesson number tells the reader to fix it: one
/// renumbering command per colliding heading, named by its title.
pub open spec fn renumber_remediation(id: Seq<char>, group: Seq<LessonView>) -> Seq<char> {
    let usable = usable_titles(group);
    if usable.len() == 0 {
        "give the '### "@ + id + "' headings distinct titles, then run: pinst harness renumber-lesson --title \"<that title>\""@
    } else {
        "renumber whichever one did not reach main first — "@ + crate::harness::frontmatter::join(
            usable.map_values(|t: Seq<char>| "pinst harness renumber-lesson --title \""@ + t + "\""@),
            ", or "@,
        ) + " — adding --dry-run first to see what it would move"@
    }
}

/// One finding per duplicated lesson number among the first `n`, raised at
/// its second heading.
pub open spec fn duplicate_findings(ls: Seq<LessonView>, shown: Seq<char>, n: int) -> Seq<FindingView>
    decreases n,
{
    if n <= 0 {
        Seq::empty()
    } else {
        let k = n - 1;
        let id = ls[k].0;
        let group = group_upto(ls, id, ls.len() as int);
        duplicate_findings(ls, shown, n - 1) + if earlier_same(ls, k, k) == 1 {
            seq![(
                "lesson.duplicate-id."@ + id,
                Severity::Error,
                shown + " has "@ + decimal(group.len()) + " '### "@ + id + "' headings: "@ + crate::harness::frontmatter::join(
                    group.map_values(|l: LessonView| shown_title(l)),
                    ", "@,
                ),
                renumber_remediation(id, group),
            )]
        } else {
            Seq::<FindingView>::empty()
        }
    }
}

/// One finding per lesson number cited (first citation) that no heading
/// defines, among the first `n` citations.
pub open spec fn dangling_findings(refs: Seq<Seq<char>>, ls: Seq<LessonView>, shown: Seq<char>, n: int) -> Seq<FindingView>
    decreases n,
{
    if n <= 0 {
        Seq::empty()
    } else {
        let r = refs[n - 1];
        dangling_findings(refs, ls, shown, n - 1) + if !refs.take(n - 1).contains(r) && !(exists|j: int|
            0 <= j < ls.len() && #[trigger] ls[j].0 == r) {
            seq![(
                "lesson.dangling-reference."@ + r,
                Severity::Error,
                shown + " cites "@ + r + ", which no '### "@ + r + "' heading defines"@,
                "fix the typo, or write the lesson it was meant to cite"@,
            )]
        } else {
            Seq::<FindingView>::empty()
        }
    }
}

/// A lesson marked mechanized whose check is missing or emitted nowhere.
pub open spec fn unenforced_findings(ls: Seq<LessonView>, shown: Seq<char>, emitted: Seq<Seq<char>>, n: int) -> Seq<FindingView>
    decreases n,
{
    if n <= 0 {
        Seq::empty()
    } else {
        let l = ls[n - 1];
        let id = "lesson.unenforced."@ + l.0;
        unenforced_findings(ls, shown, emitted, n - 1) + if l.2 == Some("mechanized"@) {
            match l.3 {
                None => seq![(id, Severity::Error, shown + " marks "@ + l.0 + " mechanized but names no '**Check:**' finding id"@,
                    "add the finding id that enforces it, or set '**Status:** prose'"@)],
                Some(c) => if c == "-"@ {
                    seq![(id, Severity::Error, shown + " marks "@ + l.0 + " mechanized but names no '**Check:**' finding id"@,
                        "add the finding id that enforces it, or set '**Status:** prose'"@)]
                } else if !emitted.contains(c) {
                    seq![(id, Severity::Error, shown + " says "@ + l.0 + " is mechanized by '"@ + c + "', which nothing in this repo emits"@,
                        "point '**Check:**' at a finding id that exists, or set '**Status:** prose'"@)]
                } else {
                    Seq::<FindingView>::empty()
                },
            }
        } else {
            Seq::<FindingView>::empty()
        }
    }
}

pub open spec fn learnings_shown(root: Seq<char>) -> Seq<char> {
    rel(root, join(ash_dir_of(root), "LEARNINGS.md"@))
}

/// The lessons file: duplicated numbers, citations of undefined lessons,
/// and lessons claiming an enforcement nothing provides.
pub open spec fn lessons_findings(root: Seq<char>, text: Option<Seq<char>>, emitted: Seq<Seq<char>>) -> Seq<FindingView> {
    match text {
        None => Seq::empty(),
        Some(t) => {
            let ls = read_lessons_spec(t);
            let shown = learnings_shown(root);
            let refs = super::corpus::ids_from(t, "LESSON-"@, 0);
            duplicate_findings(ls, shown, ls.len() as int) + dangling_findings(refs, ls, shown, refs.len() as int)
                + unenforced_findings(ls, shown, emitted, ls.len() as int)
        },
    }
}

pub open spec fn lessons_view(ls: Seq<Lesson>) -> Seq<LessonView> {
    ls.map_values(|l: Lesson| lesson_view(l))
}

fn str_eq(a: &String, b: &String) -> (r: bool)
    ensures
        r == (a@ == b@),
{
    let ac = chars_of(a.as_str());
    let bc = chars_of(b.as_str());
    seq_eq(&ac, &bc)
}

fn group_of(ls: &Vec<Lesson>, id: &String) -> (r: Vec<usize>)
    ensures
        r@.len() == group_upto(lessons_view(ls@), id@, ls@.len() as int).len(),
        forall|j: int| 0 <= j < r@.len() ==> #[trigger] r@[j] < ls@.len() && lesson_view(ls@[r@[j] as int]) == group_upto(lessons_view(ls@), id@, ls@.len() as int)[j],
{
    let ghost lv = lessons_view(ls@);
    let mut out: Vec<usize> = Vec::new();
    let mut k: usize = 0;
    while k < ls.len()
        invariant
            k <= ls@.len(),
            lv == lessons_view(ls@),
            out@.len() == group_upto(lv, id@, k as int).len(),
            forall|j: int| 0 <= j < out@.len() ==> #[trigger] out@[j] < k && lesson_view(ls@[out@[j] as int]) == group_upto(lv, id@, k as int)[j],
        decreases ls.len() - k,
    {
        assert(lv[k as int] == lesson_view(ls@[k as int]));
        if str_eq(&ls[k].id, id) {
            out.push(k);
        }
        k = k + 1;
    }
    out
}

fn shown_title_exec(l: &Lesson) -> (r: String)
    ensures
        r@ == shown_title(lesson_view(*l)),
{
    let mut out: Vec<char> = Vec::new();
    let tc = chars_of(l.title.as_str());
    if tc.len() == 0 {
        push_str(&mut out, l.id.as_str());
        push_str(&mut out, " (untitled)");
    } else {
        push_str(&mut out, "'");
        push_str(&mut out, l.title.as_str());
        push_str(&mut out, "'");
    }
    assert(out@ =~= shown_title(lesson_view(*l)));
    string_of(&out)
}

fn remediation_exec(ls: &Vec<Lesson>, id: &String, group: &Vec<usize>, Ghost(gv): Ghost<Seq<LessonView>>) -> (r: String)
    requires
        group@.len() == gv.len(),
        forall|j: int| 0 <= j < group@.len() ==> #[trigger] group@[j] < ls@.len() && lesson_view(ls@[group@[j] as int]) == gv[j],
    ensures
        r@ == renumber_remediation(id@, gv),
{
    let mut cmds: Vec<String> = Vec::new();
    let mut k: usize = 0;
    while k < group.len()
        invariant
            k <= group@.len(),
            group@.len() == gv.len(),
            forall|j: int| 0 <= j < group@.len() ==> #[trigger] group@[j] < ls@.len() && lesson_view(ls@[group@[j] as int]) == gv[j],
            cmds@.map_values(|c: String| c@) == usable_titles(gv.take(k as int)).map_values(
                |t: Seq<char>| "pinst harness renumber-lesson --title \""@ + t + "\""@,
            ),
        decreases group.len() - k,
    {
        let l = &ls[group[k]];
        assert(gv.take(k + 1).drop_last() == gv.take(k as int));
        assert(lesson_view(*l) == gv[k as int]);
        let tc = chars_of(l.title.as_str());
        if tc.len() > 0 {
            let mut c: Vec<char> = Vec::new();
            push_str(&mut c, "pinst harness renumber-lesson --title \"");
            push_str(&mut c, l.title.as_str());
            push_str(&mut c, "\"");
            let ghost before = cmds@.map_values(|x: String| x@);
            cmds.push(string_of(&c));
            assert(cmds@.map_values(|x: String| x@) =~= before.push(c@));
            assert(usable_titles(gv.take(k + 1)).map_values(
                |t: Seq<char>| "pinst harness renumber-lesson --title \""@ + t + "\""@,
            ) =~= usable_titles(gv.take(k as int)).map_values(
                |t: Seq<char>| "pinst harness renumber-lesson --title \""@ + t + "\""@,
            ).push(c@));
        }
        k = k + 1;
    }
    assert(gv.take(group@.len() as int) == gv);
    let mut out: Vec<char> = Vec::new();
    if cmds.len() == 0 {
        push_str(&mut out, "give the '### ");
        push_str(&mut out, id.as_str());
        push_str(&mut out, "' headings distinct titles, then run: pinst harness renumber-lesson --title \"<that title>\"");
    } else {
        push_str(&mut out, "renumber whichever one did not reach main first — ");
        let joined = crate::harness::frontmatter::join_strings(cmds.as_slice(), ", or ");
        push_str(&mut out, joined.as_str());
        push_str(&mut out, " — adding --dry-run first to see what it would move");
    }
    assert(out@ =~= renumber_remediation(id@, gv));
    string_of(&out)
}

fn check_duplicates(ls: &Vec<Lesson>, shown: &String, findings: &mut Vec<Finding>)
    ensures
        findings_view(final(findings)@) == findings_view(old(findings)@) + duplicate_findings(lessons_view(ls@), shown@, ls@.len() as int),
{
    let ghost lv = lessons_view(ls@);
    let ghost start = findings_view(findings@);
    let mut k: usize = 0;
    while k < ls.len()
        invariant
            k <= ls@.len(),
            lv == lessons_view(ls@),
            findings_view(findings@) == start + duplicate_findings(lv, shown@, k as int),
        decreases ls.len() - k,
    {
        let id = &ls[k].id;
        assert(lv[k as int].0 == id@);
        let mut count: usize = 0;
        let mut j: usize = 0;
        while j < k
            invariant
                j <= k < ls@.len(),
                lv == lessons_view(ls@),
                count <= j,
                lv[k as int].0 == id@,
                count == earlier_same(lv, k as int, j as int),
            decreases k - j,
        {
            assert(lv[j as int].0 == ls@[j as int].id@);
            if str_eq(&ls[j].id, id) {
                count = count + 1;
            }
            j = j + 1;
        }
        if count == 1 {
            let group = group_of(ls, id);
            let ghost gv = group_upto(lv, id@, lv.len() as int);
            let mut titles: Vec<String> = Vec::new();
            let mut g: usize = 0;
            while g < group.len()
                invariant
                    g <= group@.len(),
                    group@.len() == gv.len(),
                    forall|x: int| 0 <= x < group@.len() ==> #[trigger] group@[x] < ls@.len() && lesson_view(ls@[group@[x] as int]) == gv[x],
                    titles@.len() == g,
                    forall|x: int| 0 <= x < g ==> #[trigger] titles@[x]@ == shown_title(gv[x]),
                decreases group.len() - g,
            {
                titles.push(shown_title_exec(&ls[group[g]]));
                g = g + 1;
            }
            assert(titles@.map_values(|t: String| t@) =~= gv.map_values(|l: LessonView| shown_title(l)));
            let mut fid: Vec<char> = Vec::new();
            push_str(&mut fid, "lesson.duplicate-id.");
            push_str(&mut fid, id.as_str());
            let mut m: Vec<char> = Vec::new();
            push_str(&mut m, shown.as_str());
            push_str(&mut m, " has ");
            push_decimal(&mut m, group.len() as u64);
            push_str(&mut m, " '### ");
            push_str(&mut m, id.as_str());
            push_str(&mut m, "' headings: ");
            let joined = crate::harness::frontmatter::join_strings(titles.as_slice(), ", ");
            push_str(&mut m, joined.as_str());
            let rem = remediation_exec(ls, id, &group, Ghost(gv));
            push_finding(findings, string_of(&fid), Severity::Error, string_of(&m), rem);
        }
        assert(findings_view(findings@) =~= start + duplicate_findings(lv, shown@, k + 1));
        k = k + 1;
    }
}

fn check_dangling(text: &str, ls: &Vec<Lesson>, shown: &String, findings: &mut Vec<Finding>)
    ensures
        findings_view(final(findings)@) == findings_view(old(findings)@) + dangling_findings(
            super::corpus::ids_from(text@, "LESSON-"@, 0),
            lessons_view(ls@),
            shown@,
            super::corpus::ids_from(text@, "LESSON-"@, 0).len() as int,
        ),
{
    let ghost lv = lessons_view(ls@);
    let refs = super::corpus::lesson_ids(text);
    let ghost rv = refs@.map_values(|x: String| x@);
    let ghost start = findings_view(findings@);
    let mut n: usize = 0;
    while n < refs.len()
        invariant
            n <= refs@.len(),
            lv == lessons_view(ls@),
            rv == refs@.map_values(|x: String| x@),
            rv == super::corpus::ids_from(text@, "LESSON-"@, 0),
            findings_view(findings@) == start + dangling_findings(rv, lv, shown@, n as int),
        decreases refs.len() - n,
    {
        let r = &refs[n];
        assert(rv[n as int] == r@);
        let mut seen = false;
        let mut j: usize = 0;
        while j < n
            invariant
                j <= n < refs@.len(),
                rv == refs@.map_values(|x: String| x@),
                seen == exists|x: int| 0 <= x < j && #[trigger] rv[x] == r@,
            decreases n - j,
        {
            assert(rv[j as int] == refs@[j as int]@);
            if str_eq(&refs[j], r) {
                seen = true;
            }
            j = j + 1;
        }
        proof {
            if seen {
                let x = choose|x: int| 0 <= x < n && #[trigger] rv[x] == r@;
                assert(rv.take(n as int)[x] == r@);
            }
            if rv.take(n as int).contains(r@) {
                let x = choose|x: int| 0 <= x < rv.take(n as int).len() && rv.take(n as int)[x] == r@;
                assert(rv[x] == r@);
            }
        }
        let mut defined = false;
        let mut d: usize = 0;
        while d < ls.len()
            invariant
                d <= ls@.len(),
                lv == lessons_view(ls@),
                defined == exists|x: int| 0 <= x < d && #[trigger] lv[x].0 == r@,
            decreases ls.len() - d,
        {
            assert(lv[d as int].0 == ls@[d as int].id@);
            if str_eq(&ls[d].id, r) {
                defined = true;
            }
            d = d + 1;
        }
        if !seen && !defined {
            let mut fid: Vec<char> = Vec::new();
            push_str(&mut fid, "lesson.dangling-reference.");
            push_str(&mut fid, r.as_str());
            let mut m: Vec<char> = Vec::new();
            push_str(&mut m, shown.as_str());
            push_str(&mut m, " cites ");
            push_str(&mut m, r.as_str());
            push_str(&mut m, ", which no '### ");
            push_str(&mut m, r.as_str());
            push_str(&mut m, "' heading defines");
            push_finding(findings, string_of(&fid), Severity::Error, string_of(&m),
                "fix the typo, or write the lesson it was meant to cite".to_owned());
        }
        assert(findings_view(findings@) =~= start + dangling_findings(rv, lv, shown@, n + 1));
        n = n + 1;
    }
}

fn check_unenforced(ls: &Vec<Lesson>, shown: &String, emitted: &Vec<String>, findings: &mut Vec<Finding>)
    ensures
        findings_view(final(findings)@) == findings_view(old(findings)@) + unenforced_findings(
            lessons_view(ls@),
            shown@,
            emitted@.map_values(|x: String| x@),
            ls@.len() as int,
        ),
{
    let ghost lv = lessons_view(ls@);
    let ghost ev = emitted@.map_values(|x: String| x@);
    let ghost start = findings_view(findings@);
    let mut n: usize = 0;
    while n < ls.len()
        invariant
            n <= ls@.len(),
            lv == lessons_view(ls@),
            ev == emitted@.map_values(|x: String| x@),
            findings_view(findings@) == start + unenforced_findings(lv, shown@, ev, n as int),
        decreases ls.len() - n,
    {
        let l = &ls[n];
        assert(lv[n as int] == lesson_view(*l));
        let mech = match &l.status {
            Some(st) => {
                let sc = chars_of(st.as_str());
                seq_eq(&sc, &chars_of("mechanized"))
            },
            None => false,
        };
        if mech {
            let mut fid: Vec<char> = Vec::new();
            push_str(&mut fid, "lesson.unenforced.");
            push_str(&mut fid, l.id.as_str());
            let missing = match &l.check {
                None => true,
                Some(c) => {
                    let cc = chars_of(c.as_str());
                    seq_eq(&cc, &chars_of("-"))
                },
            };
            if missing {
                let mut m: Vec<char> = Vec::new();
                push_str(&mut m, shown.as_str());
                push_str(&mut m, " marks ");
                push_str(&mut m, l.id.as_str());
                push_str(&mut m, " mechanized but names no '**Check:**' finding id");
                push_finding(findings, string_of(&fid), Severity::Error, string_of(&m),
                    "add the finding id that enforces it, or set '**Status:** prose'".to_owned());
            } else {
                let c = match &l.check {
                    Some(c) => c,
                    None => {
                        return;
                    },
                };
                let mut found = false;
                let mut e: usize = 0;
                while e < emitted.len()
                    invariant
                        e <= emitted@.len(),
                        ev == emitted@.map_values(|x: String| x@),
                        found == exists|x: int| 0 <= x < e && #[trigger] ev[x] == c@,
                    decreases emitted.len() - e,
                {
                    assert(ev[e as int] == emitted@[e as int]@);
                    if str_eq(&emitted[e], c) {
                        found = true;
                    }
                    e = e + 1;
                }
                proof {
                    if ev.contains(c@) {
                        let x = choose|x: int| 0 <= x < ev.len() && ev[x] == c@;
                        assert(ev[x] == c@);
                    }
                }
                if !found {
                    let mut m: Vec<char> = Vec::new();
                    push_str(&mut m, shown.as_str());
                    push_str(&mut m, " says ");
                    push_str(&mut m, l.id.as_str());
                    push_str(&mut m, " is mechanized by '");
                    push_str(&mut m, c.as_str());
                    push_str(&mut m, "', which nothing in this repo emits");
                    push_finding(findings, string_of(&fid), Severity::Error, string_of(&m),
                        "point '**Check:**' at a finding id that exists, or set '**Status:** prose'".to_owned());
                }
            }
        }
        assert(findings_view(findings@) =~= start + unenforced_findings(lv, shown@, ev, n + 1));
        n = n + 1;
    }
}

fn check_lessons(corpus: &Corpus, records: &Records, findings: &mut Vec<Finding>)
    ensures
        findings_view(final(findings)@) == findings_view(old(findings)@) + lessons_findings(
            corpus.root@,
            match records.learnings { Some(t) => Some(t@), None => None },
            records.emitted@.map_values(|x: String| x@),
        ),
{
    let ghost start = findings_view(findings@);
    let text = match &records.learnings {
        None => {
            assert(findings_view(findings@) =~= start + Seq::<FindingView>::empty());
            return;
        },
        Some(t) => t,
    };
    let shown = relative_shown(corpus, corpus.root.learnings_file().as_str());
    let lessons = read_lessons(text.as_str());
    check_duplicates(&lessons, &shown, findings);
    check_dangling(text.as_str(), &lessons, &shown, findings);
    check_unenforced(&lessons, &shown, &records.emitted, findings);
    assert(findings_view(findings@) =~= start + lessons_findings(corpus.root@, Some(text@), records.emitted@.map_values(|x: String| x@)));
}

/// Some lesson's `Seen in:` line cites both plan `pid` and issue `iid`.
pub open spec fn cited(ls: Seq<LessonView>, pid: Seq<char>, iid: Seq<char>) -> bool {
    exists|k: int| 0 <= k < ls.len() && #[trigger] ls[k].5.contains(pid) && ls[k].6.contains(iid)
}

/// The issues among the first `n` of one plan's that nobody has triaged.
pub open spec fn untriaged_upto(root: Seq<char>, p: Plan, pid: Seq<char>, issues: Seq<super::corpus::IssueView>, ls: Seq<LessonView>, n: int) -> Seq<FindingView>
    decreases n,
{
    if n <= 0 {
        Seq::empty()
    } else {
        let iss = issues[n - 1];
        untriaged_upto(root, p, pid, issues, ls, n - 1) + if !iss.2 && !cited(ls, pid, iss.0) {
            seq![(
                "learnings.untriaged."@ + p.name@ + "."@ + iss.0,
                Severity::Warning,
                rel(root, join(p.dir@, "learnings.md"@)) + " records "@ + iss.0 + " but no lesson in "@ + learnings_shown(root)
                    + " references it"@,
                "run the plan-learn skill: promote it, add it to an existing lesson's 'Seen in:' line, or write '**Distilled:** declined — <reason>' on the issue"@,
            )]
        } else {
            Seq::<FindingView>::empty()
        }
    }
}

/// Every recorded issue no lesson cites and nobody declined, plan by plan.
pub open spec fn distillation_upto(root: Seq<char>, plans: Seq<Plan>, ls: Seq<LessonView>, n: int) -> Seq<FindingView>
    decreases n,
{
    if n <= 0 {
        Seq::empty()
    } else {
        let p = plans[n - 1];
        distillation_upto(root, plans, ls, n - 1) + match (p.id, p.learnings) {
            (Some(pid), Some(text)) => {
                let issues = super::corpus::read_issues_spec(text@);
                untriaged_upto(root, p, pid@, issues, ls, issues.len() as int)
            },
            _ => Seq::<FindingView>::empty(),
        }
    }
}

pub open spec fn distillation_findings(root: Seq<char>, plans: Seq<Plan>, learnings: Option<Seq<char>>) -> Seq<FindingView> {
    let ls = match learnings {
        Some(t) => read_lessons_spec(t),
        None => Seq::empty(),
    };
    distillation_upto(root, plans, ls, plans.len() as int)
}

pub open spec fn index_findings(root: Seq<char>, state: IndexState) -> Seq<FindingView> {
    let shown = rel(root, join(ash_dir_of(root), "INDEX.md"@));
    match state {
        IndexState::Fresh => Seq::empty(),
        IndexState::Stale => seq![("index.stale"@, Severity::Warning, shown + " does not match the plan frontmatter"@, "run: pinst harness index"@)],
        IndexState::Missing => seq![("index.missing"@, Severity::Warning, shown + " does not exist"@, "run: pinst harness index"@)],
    }
}

/// An earlier plan among the first `k` has id `id` (and a slug).
pub open spec fn id_taken(plans: Seq<Plan>, k: int, id: Seq<char>) -> bool {
    exists|j: int| 0 <= j < k && (#[trigger] plans[j]).id is Some && plans[j].slug is Some && plans[j].id->0@ == id
}

/// The findings of the first `n` plans, in order.
pub open spec fn plans_upto(root: Seq<char>, plans: Seq<Plan>, suggestion: Seq<char>, log: Option<Seq<char>>, n: int) -> Seq<FindingView>
    decreases n,
{
    if n <= 0 {
        Seq::empty()
    } else {
        let p = plans[n - 1];
        let dup = match p.id {
            Some(id) => id_taken(plans, n - 1, id@),
            None => false,
        };
        plans_upto(root, plans, suggestion, log, n - 1) + plan_findings(root, p, dup, suggestion, log)
    }
}

pub open spec fn opt_text(o: Option<String>) -> Option<Seq<char>> {
    match o {
        Some(t) => Some(t@),
        None => None,
    }
}

/// Every finding about a corpus, in the order the checks run: the plans
/// (or the missing plans directory), the lessons, the distillation record
/// and the index.
pub open spec fn corpus_findings(c: Corpus, r: Records) -> Seq<FindingView> {
    let root = c.root@;
    let head: Seq<FindingView> = if !c.plans_dir_exists {
        seq![(
            "corpus.missing"@,
            Severity::Error,
            rel(root, join(ash_dir_of(root), "plans"@)) + " does not exist"@,
            "create it, or run plan-write to author the first plan"@,
        )]
    } else {
        plans_upto(root, c.plans@, r.suggestion@, opt_text(r.changelog), c.plans@.len() as int)
    };
    head + lessons_findings(root, opt_text(r.learnings), r.emitted@.map_values(|x: String| x@))
        + distillation_findings(root, c.plans@, opt_text(r.learnings)) + index_findings(root, r.index)
}

/// Whether some lesson's `Seen in:` line cites both plan `pid` and issue
/// `iid`.
pub fn lesson_cites(lessons: &Vec<Lesson>, pid: &String, iid: &String) -> (r: bool)
    ensures
        r == cited(lessons_view(lessons@), pid@, iid@),
{
    let ghost lv = lessons_view(lessons@);
    let mut is_cited = false;
    let mut k: usize = 0;
    while k < lessons.len()
        invariant
            k <= lessons@.len(),
            lv == lessons_view(lessons@),
            is_cited == exists|x: int| 0 <= x < k && #[trigger] lv[x].5.contains(pid@) && lv[x].6.contains(iid@),
        decreases lessons.len() - k,
    {
        let l = &lessons[k];
        assert(lv[k as int] == lesson_view(*l));
        let mut has_plan = false;
        let mut a: usize = 0;
        while a < l.plans.len()
            invariant
                a <= l.plans@.len(),
                has_plan == exists|x: int| 0 <= x < a && #[trigger] l.plans@[x]@ == pid@,
            decreases l.plans.len() - a,
        {
            if str_eq(&l.plans[a], pid) {
                has_plan = true;
            }
            a = a + 1;
        }
        let mut has_issue = false;
        let mut b: usize = 0;
        while b < l.issues.len()
            invariant
                b <= l.issues@.len(),
                has_issue == exists|x: int| 0 <= x < b && #[trigger] l.issues@[x]@ == iid@,
            decreases l.issues.len() - b,
        {
            if str_eq(&l.issues[b], &iid) {
                has_issue = true;
            }
            b = b + 1;
        }
        proof {
            let pv = l.plans@.map_values(|x: String| x@);
            let isv = l.issues@.map_values(|x: String| x@);
            if has_plan {
                let x = choose|x: int| 0 <= x < l.plans@.len() && #[trigger] l.plans@[x]@ == pid@;
                assert(pv[x] == pid@);
            }
            if pv.contains(pid@) {
                let x = choose|x: int| 0 <= x < pv.len() && pv[x] == pid@;
                assert(l.plans@[x]@ == pid@);
            }
            if has_issue {
                let x = choose|x: int| 0 <= x < l.issues@.len() && #[trigger] l.issues@[x]@ == iid@;
                assert(isv[x] == iid@);
            }
            if isv.contains(iid@) {
                let x = choose|x: int| 0 <= x < isv.len() && isv[x] == iid@;
                assert(l.issues@[x]@ == iid@);
            }
        }
        assert(lv[k as int].5 == l.plans@.map_values(|x: String| x@));
        assert(lv[k as int].6 == l.issues@.map_values(|x: String| x@));
        assert((has_plan && has_issue) == (lv[k as int].5.contains(pid@) && lv[k as int].6.contains(iid@)));
        if has_plan && has_issue {
            is_cited = true;
        }
        k = k + 1;
    }
    is_cited
}

fn check_untriaged(corpus: &Corpus, plan: &Plan, pid: &String, issues: &Vec<super::corpus::Issue>, lessons: &Vec<Lesson>, findings: &mut Vec<Finding>)
    ensures
        findings_view(final(findings)@) == findings_view(old(findings)@) + untriaged_upto(
            corpus.root@,
            *plan,
            pid@,
            issues@.map_values(|i: super::corpus::Issue| super::corpus::issue_view(i)),
            lessons_view(lessons@),
            issues@.len() as int,
        ),
{
    let ghost iv = issues@.map_values(|i: super::corpus::Issue| super::corpus::issue_view(i));
    let ghost lv = lessons_view(lessons@);
    let ghost start = findings_view(findings@);
    let file = plan.learnings_file();
    let shown_file = relative_shown(corpus, file.as_str());
    let shown_learnings = relative_shown(corpus, corpus.root.learnings_file().as_str());
    let mut n: usize = 0;
    while n < issues.len()
        invariant
            n <= issues@.len(),
            iv == issues@.map_values(|i: super::corpus::Issue| super::corpus::issue_view(i)),
            lv == lessons_view(lessons@),
            shown_file@ == rel(corpus.root@, join(plan.dir@, "learnings.md"@)),
            shown_learnings@ == learnings_shown(corpus.root@),
            findings_view(findings@) == start + untriaged_upto(corpus.root@, *plan, pid@, iv, lv, n as int),
        decreases issues.len() - n,
    {
        let iss = &issues[n];
        assert(iv[n as int] == super::corpus::issue_view(*iss));
        let is_cited = lesson_cites(lessons, pid, &iss.id);
        if !iss.distilled_declined && !is_cited {
            let mut fid: Vec<char> = Vec::new();
            push_str(&mut fid, "learnings.untriaged.");
            push_str(&mut fid, plan.name.as_str());
            push_str(&mut fid, ".");
            push_str(&mut fid, iss.id.as_str());
            let mut m: Vec<char> = Vec::new();
            push_str(&mut m, shown_file.as_str());
            push_str(&mut m, " records ");
            push_str(&mut m, iss.id.as_str());
            push_str(&mut m, " but no lesson in ");
            push_str(&mut m, shown_learnings.as_str());
            push_str(&mut m, " references it");
            push_finding(findings, string_of(&fid), Severity::Warning, string_of(&m),
                "run the plan-learn skill: promote it, add it to an existing lesson's 'Seen in:' line, or write '**Distilled:** declined — <reason>' on the issue".to_owned());
        }
        assert(findings_view(findings@) =~= start + untriaged_upto(corpus.root@, *plan, pid@, iv, lv, n + 1));
        n = n + 1;
    }
}

fn check_distillation(corpus: &Corpus, records: &Records, findings: &mut Vec<Finding>)
    ensures
        findings_view(final(findings)@) == findings_view(old(findings)@) + distillation_findings(
            corpus.root@,
            corpus.plans@,
            opt_text(records.learnings),
        ),
{
    let ghost start = findings_view(findings@);
    let lessons = match &records.learnings {
        Some(t) => read_lessons(t.as_str()),
        None => Vec::new(),
    };
    let ghost lv = lessons_view(lessons@);
    assert(lv == match opt_text(records.learnings) { Some(t) => read_lessons_spec(t), None => Seq::<LessonView>::empty() });
    let mut k: usize = 0;
    while k < corpus.plans.len()
        invariant
            k <= corpus.plans@.len(),
            lv == lessons_view(lessons@),
            findings_view(findings@) == start + distillation_upto(corpus.root@, corpus.plans@, lv, k as int),
        decreases corpus.plans.len() - k,
    {
        let plan = &corpus.plans[k];
        match (&plan.id, &plan.learnings) {
            (Some(pid), Some(text)) => {
                let issues = super::corpus::read_issues(text.as_str());
                check_untriaged(corpus, plan, pid, &issues, &lessons, findings);
            },
            _ => {},
        }
        assert(findings_view(findings@) =~= start + distillation_upto(corpus.root@, corpus.plans@, lv, k + 1));
        k = k + 1;
    }
}

fn check_index(corpus: &Corpus, state: IndexState, findings: &mut Vec<Finding>)
    ensures
        findings_view(final(findings)@) == findings_view(old(findings)@) + index_findings(corpus.root@, state),
{
    let ghost start = findings_view(findings@);
    let shown = relative_shown(corpus, corpus.root.index_file().as_str());
    match state {
        IndexState::Fresh => {},
        IndexState::Stale => {
            let mut m: Vec<char> = Vec::new();
            push_str(&mut m, shown.as_str());
            push_str(&mut m, " does not match the plan frontmatter");
            push_finding(findings, "index.stale".to_owned(), Severity::Warning, string_of(&m), "run: pinst harness index".to_owned());
        },
        IndexState::Missing => {
            let mut m: Vec<char> = Vec::new();
            push_str(&mut m, shown.as_str());
            push_str(&mut m, " does not exist");
            push_finding(findings, "index.missing".to_owned(), Severity::Warning, string_of(&m), "run: pinst harness index".to_owned());
        },
    }
    assert(findings_view(findings@) =~= start + index_findings(corpus.root@, state));
}

/// Runs every invariant over a corpus. Nothing stops early: the result is
/// the whole state of the corpus, in the order the checks run.
pub fn run(corpus: &Corpus, records: &Records) -> (r: Vec<Finding>)
    requires
        forall|k: int| 0 <= k < corpus.plans@.len() ==> (#[trigger] corpus.plans@[k]).phases@.len() < u32::MAX,
    ensures
        findings_view(r@) == corpus_findings(*corpus, *records),
{
    let mut findings: Vec<Finding> = Vec::new();
    if !corpus.plans_dir_exists {
        let mut m: Vec<char> = Vec::new();
        push_str(&mut m, relative_shown(corpus, corpus.root.plans_dir().as_str()).as_str());
        push_str(&mut m, " does not exist");
        push_finding(&mut findings, "corpus.missing".to_owned(), Severity::Error, string_of(&m),
            "create it, or run plan-write to author the first plan".to_owned());
    } else {
        let mut k: usize = 0;
        while k < corpus.plans.len()
            invariant
                k <= corpus.plans@.len(),
                forall|j: int| 0 <= j < corpus.plans@.len() ==> (#[trigger] corpus.plans@[j]).phases@.len() < u32::MAX,
                findings_view(findings@) == plans_upto(corpus.root@, corpus.plans@, records.suggestion@, opt_text(records.changelog), k as int),
            decreases corpus.plans.len() - k,
        {
            let plan = &corpus.plans[k];
            let mut dup = false;
            match &plan.id {
                Some(id) => {
                    let mut j: usize = 0;
                    while j < k
                        invariant
                            j <= k < corpus.plans@.len(),
                            dup == exists|x: int| 0 <= x < j && (#[trigger] corpus.plans@[x]).id is Some && corpus.plans@[x].slug is Some && corpus.plans@[x].id->0@ == id@,
                        decreases k - j,
                    {
                        let other = &corpus.plans[j];
                        match (&other.id, &other.slug) {
                            (Some(oid), Some(_)) => {
                                if str_eq(oid, id) {
                                    dup = true;
                                }
                            },
                            _ => {},
                        }
                        j = j + 1;
                    }
                },
                None => {},
            }
            let ghost before = findings_view(findings@);
            check_plan(corpus, plan, dup, records.suggestion.as_str(), &records.changelog, &mut findings);
            assert(findings_view(findings@) =~= plans_upto(corpus.root@, corpus.plans@, records.suggestion@, opt_text(records.changelog), k + 1));
            k = k + 1;
        }
    }
    check_lessons(corpus, records, &mut findings);
    check_distillation(corpus, records, &mut findings);
    check_index(corpus, records.index, &mut findings);
    assert(findings_view(findings@) =~= corpus_findings(*corpus, *records));
    findings
}

/// The counts a report carries: plans, lessons, issues, findings, and the
/// findings of each severity.
pub struct Summary {
    pub plans: usize,
    pub lessons: usize,
    pub issues: usize,
    pub findings: usize,
    pub error: usize,
    pub warning: usize,
    pub info: usize,
}

pub open spec fn count_severity(fs: Seq<FindingView>, s: Severity) -> nat
    decreases fs.len(),
{
    if fs.len() == 0 {
        0
    } else {
        count_severity(fs.drop_last(), s) + if fs.last().1 == s { 1nat } else { 0nat }
    }
}

pub open spec fn issue_total(plans: Seq<Plan>, n: int) -> nat
    decreases n,
{
    if n <= 0 {
        0
    } else {
        issue_total(plans, n - 1) + match plans[n - 1].learnings {
            Some(t) => super::corpus::read_issues_spec(t@).len(),
            None => 0,
        }
    }
}

fn count_of(findings: &[Finding], s: Severity) -> (r: usize)
    ensures
        r == count_severity(findings_view(findings@), s),
{
    let ghost fv = findings_view(findings@);
    let mut c: usize = 0;
    let mut k: usize = 0;
    while k < findings.len()
        invariant
            k <= findings@.len(),
            fv == findings_view(findings@),
            c == count_severity(fv.take(k as int), s),
            c <= k,
        decreases findings.len() - k,
    {
        assert(fv.take(k + 1).drop_last() == fv.take(k as int));
        if findings[k].severity == s {
            c = c + 1;
        }
        k = k + 1;
    }
    assert(fv.take(findings@.len() as int) == fv);
    c
}

/// The counts a report's summary carries.
pub fn summary(corpus: &Corpus, learnings: &Option<String>, findings: &[Finding]) -> (r: Summary)
    requires
        issue_total(corpus.plans@, corpus.plans@.len() as int) <= usize::MAX,
    ensures
        r.plans == corpus.plans@.len(),
        r.lessons == match opt_text(*learnings) { Some(t) => read_lessons_spec(t).len(), None => 0 },
        r.issues == issue_total(corpus.plans@, corpus.plans@.len() as int),
        r.findings == findings@.len(),
        r.error == count_severity(findings_view(findings@), Severity::Error),
        r.warning == count_severity(findings_view(findings@), Severity::Warning),
        r.info == count_severity(findings_view(findings@), Severity::Info),
{
    let lessons = match learnings {
        Some(t) => read_lessons(t.as_str()).len(),
        None => 0,
    };
    let mut issues: usize = 0;
    let mut k: usize = 0;
    while k < corpus.plans.len()
        invariant
            k <= corpus.plans@.len(),
            issues == issue_total(corpus.plans@, k as int),
            issue_total(corpus.plans@, corpus.plans@.len() as int) <= usize::MAX,
        decreases corpus.plans.len() - k,
    {
        proof {
            lemma_issue_total_mono(corpus.plans@, k + 1, corpus.plans@.len() as int);
        }
        match &corpus.plans[k].learnings {
            Some(t) => {
                let n = super::corpus::read_issues(t.as_str()).len();
                issues = issues + n;
            },
            None => {},
        }
        k = k + 1;
    }
    Summary {
        plans: corpus.plans.len(),
        lessons,
        issues,
        findings: findings.len(),
        error: count_of(findings, Severity::Error),
        warning: count_of(findings, Severity::Warning),
        info: count_of(findings, Severity::Info),
    }
}

proof fn lemma_issue_total_mono(plans: Seq<Plan>, a: int, b: int)
    requires
        0 <= a <= b <= plans.len(),
    ensures
        issue_total(plans, a) <= issue_total(plans, b),
    decreases b - a,
{
    if a < b {
        lemma_issue_total_mono(plans, a, b - 1);
    }
}

} // verus!
