//! The standard Agent Skills eval manifest, `<skill>/evals/evals.json`.
//!
//! Evals are declarative: prompts and observable expectations, not
//! commands. Validating one checks the authoring contract without running
//! any of its text. The caller parses the JSON and says which of the input
//! files it names exist; the rules are here.

use vstd::prelude::*;

use crate::text::{
    chars_of, decimal, push_decimal, push_str, seq_eq, split_char, split_char_vec, string_of, trim,
    trim_vec,
};

verus! {

/// The file name prescribed by the Agent Skills evaluation convention.
pub const FILE_NAME: &'static str = "evals/evals.json";

pub struct Suite {
    pub skill_name: String,
    pub evals: Vec<Eval>,
}

pub struct Eval {
    pub id: u64,
    pub prompt: String,
    pub expected_output: String,
    pub files: Vec<String>,
    pub assertions: Vec<String>,
}

#[derive(Debug, PartialEq, Eq)]
pub struct Failure {
    pub eval_id: Option<u64>,
    pub message: String,
}

#[derive(Debug, Clone, Copy, PartialEq, Eq, Structural)]
pub struct Summary {
    pub passed: usize,
    pub total: usize,
}

/// A failure as the eval it concerns and its message.
pub type FailureView = (Option<u64>, Seq<char>);

pub open spec fn failure_view(f: Failure) -> FailureView {
    (f.eval_id, f.message@)
}

pub open spec fn quoted(s: Seq<char>) -> Seq<char> {
    seq!['\''] + s + seq!['\'']
}

/// A path that leaves the skill: absolute, or with a `..` component.
pub open spec fn escapes(file: Seq<char>) -> bool {
    (file.len() > 0 && file[0] == '/') || exists|k: int|
        0 <= k < split_char(file, '/').len() && #[trigger] split_char(file, '/')[k] == ".."@
}

/// The failures of the files of one eval, from the `k`-th on.
pub open spec fn file_failures(id: u64, files: Seq<String>, present: Seq<Seq<char>>, k: int) -> Seq<FailureView>
    decreases files.len() - k,
{
    if k < 0 || k >= files.len() {
        Seq::empty()
    } else {
        let f = files[k]@;
        let here: Seq<FailureView> = if escapes(f) {
            seq![(Some(id), "file path "@ + quoted(f) + " must stay inside the skill"@)]
        } else if !present.contains(f) {
            seq![(Some(id), "input file "@ + quoted(f) + " does not exist"@)]
        } else {
            Seq::empty()
        };
        here + file_failures(id, files, present, k + 1)
    }
}

/// The failures of one eval; `repeated` says an earlier eval has its id.
pub open spec fn eval_failures(e: Eval, repeated: bool, present: Seq<Seq<char>>) -> Seq<FailureView> {
    let dup: Seq<FailureView> = if repeated {
        seq![(Some(e.id), "duplicate eval id "@ + decimal(e.id as nat))]
    } else {
        Seq::empty()
    };
    let prompt: Seq<FailureView> = if trim(e.prompt@).len() == 0 {
        seq![(Some(e.id), "prompt must not be empty"@)]
    } else {
        Seq::empty()
    };
    let expected: Seq<FailureView> = if trim(e.expected_output@).len() == 0 {
        seq![(Some(e.id), "expected_output must not be empty"@)]
    } else {
        Seq::empty()
    };
    let assertions: Seq<FailureView> = if exists|k: int|
        0 <= k < e.assertions@.len() && trim(#[trigger] e.assertions@[k]@).len() == 0 {
        seq![(Some(e.id), "assertions must not contain empty strings"@)]
    } else {
        Seq::empty()
    };
    dup + prompt + expected + file_failures(e.id, e.files@, present, 0) + assertions
}

pub open spec fn id_seen_before(evals: Seq<Eval>, i: int) -> bool {
    exists|j: int| 0 <= j < i && #[trigger] evals[j].id == evals[i].id
}

/// The failures of the first `n` evals, in order.
pub open spec fn evals_failures(evals: Seq<Eval>, present: Seq<Seq<char>>, n: int) -> Seq<FailureView>
    decreases n,
{
    if n <= 0 {
        Seq::empty()
    } else {
        evals_failures(evals, present, n - 1) + eval_failures(evals[n - 1], id_seen_before(evals, n - 1), present)
    }
}

/// Every failure of a suite for the skill directory named `dir_name`,
/// whose existing input files are `present`.
pub open spec fn suite_failures(suite: Suite, dir_name: Seq<char>, present: Seq<Seq<char>>) -> Seq<FailureView> {
    let name: Seq<FailureView> = if suite.skill_name@ != dir_name {
        seq![(None, "skill_name "@ + quoted(suite.skill_name@) + " does not match "@ + quoted(dir_name))]
    } else {
        Seq::empty()
    };
    let empty: Seq<FailureView> = if suite.evals@.len() == 0 {
        seq![(None, "evals must contain at least one test case"@)]
    } else {
        Seq::empty()
    };
    name + empty + evals_failures(suite.evals@, present, suite.evals@.len() as int)
}

impl Summary {
    pub fn label(self) -> (r: String)
        ensures
            r@ == decimal(self.passed as nat) + "/"@ + decimal(self.total as nat) + " passed"@,
    {
        let mut out: Vec<char> = Vec::new();
        push_decimal(&mut out, self.passed as u64);
        push_str(&mut out, "/");
        push_decimal(&mut out, self.total as u64);
        push_str(&mut out, " passed");
        assert(out@ =~= decimal(self.passed as nat) + "/"@ + decimal(self.total as nat) + " passed"@);
        string_of(&out)
    }
}

fn push_failure(out: &mut Vec<Failure>, id: Option<u64>, msg: Vec<char>)
    ensures
        final(out)@.map_values(|f: Failure| failure_view(f)) == old(out)@.map_values(|f: Failure| failure_view(f)).push((id, msg@)),
{
    out.push(Failure { eval_id: id, message: string_of(&msg) });
    assert(final(out)@.map_values(|f: Failure| failure_view(f)) =~= old(out)@.map_values(|f: Failure| failure_view(f)).push((id, msg@)));
}

fn escapes_exec(file: &str) -> (r: bool)
    ensures
        r == escapes(file@),
{
    let c = chars_of(file);
    if c.len() > 0 && c[0] == '/' {
        return true;
    }
    let parts = split_char_vec(&c, '/');
    let dots = chars_of("..");
    let mut k: usize = 0;
    while k < parts.len()
        invariant
            k <= parts@.len(),
            c@ == file@,
            dots@ == ".."@,
            parts@.len() == split_char(c@, '/').len(),
            forall|i: int| 0 <= i < parts@.len() ==> #[trigger] parts@[i]@ == split_char(c@, '/')[i],
            forall|i: int| 0 <= i < k ==> #[trigger] split_char(c@, '/')[i] != ".."@,
        decreases parts.len() - k,
    {
        if seq_eq(&parts[k], &dots) {
            assert(split_char(file@, '/')[k as int] == ".."@);
            return true;
        }
        k = k + 1;
    }
    false
}

fn is_present(present: &[String], file: &String) -> (r: bool)
    ensures
        r == present@.map_values(|s: String| s@).contains(file@),
{
    let ghost views = present@.map_values(|s: String| s@);
    let mut k: usize = 0;
    while k < present.len()
        invariant
            k <= present@.len(),
            views == present@.map_values(|s: String| s@),
            forall|i: int| 0 <= i < k ==> views[i] != file@,
        decreases present.len() - k,
    {
        if present[k] == *file {
            assert(views[k as int] == file@);
            return true;
        }
        k = k + 1;
    }
    false
}

fn is_blank(s: &String) -> (r: bool)
    ensures
        r == (trim(s@).len() == 0),
{
    let c = chars_of(s.as_str());
    trim_vec(&c).len() == 0
}

fn check_files(
    failures: &mut Vec<Failure>,
    id: u64,
    files: &Vec<String>,
    present: &[String],
)
    ensures
        final(failures)@.map_values(|f: Failure| failure_view(f)) == old(failures)@.map_values(
            |f: Failure| failure_view(f),
        ) + file_failures(id, files@, present@.map_values(|s: String| s@), 0),
{
    let ghost pv = present@.map_values(|s: String| s@);
    let ghost start = failures@.map_values(|f: Failure| failure_view(f));
    let mut k: usize = 0;
    assert(start + file_failures(id, files@, pv, 0) == start + file_failures(id, files@, pv, 0));
    while k < files.len()
        invariant
            k <= files@.len(),
            pv == present@.map_values(|s: String| s@),
            start + file_failures(id, files@, pv, 0) == failures@.map_values(|f: Failure| failure_view(f))
                + file_failures(id, files@, pv, k as int),
        decreases files.len() - k,
    {
        let f = &files[k];
        let ghost fs_before = failures@.map_values(|x: Failure| failure_view(x));
        let ghost here: Seq<FailureView> = if escapes(f@) {
            seq![(Some(id), "file path "@ + quoted(f@) + " must stay inside the skill"@)]
        } else if !pv.contains(f@) {
            seq![(Some(id), "input file "@ + quoted(f@) + " does not exist"@)]
        } else {
            Seq::empty()
        };
        assert(file_failures(id, files@, pv, k as int) == here + file_failures(id, files@, pv, k + 1));
        if escapes_exec(f.as_str()) {
            let mut m: Vec<char> = Vec::new();
            push_str(&mut m, "file path ");
            m.push('\'');
            push_str(&mut m, f.as_str());
            m.push('\'');
            push_str(&mut m, " must stay inside the skill");
            assert(m@ =~= "file path "@ + quoted(f@) + " must stay inside the skill"@);
            push_failure(failures, Some(id), m);
        } else if !is_present(present, f) {
            let mut m: Vec<char> = Vec::new();
            push_str(&mut m, "input file ");
            m.push('\'');
            push_str(&mut m, f.as_str());
            m.push('\'');
            push_str(&mut m, " does not exist");
            assert(m@ =~= "input file "@ + quoted(f@) + " does not exist"@);
            push_failure(failures, Some(id), m);
        }
        assert(failures@.map_values(|x: Failure| failure_view(x)) == fs_before + here);
        k = k + 1;
    }
    assert(file_failures(id, files@, pv, k as int) == Seq::<FailureView>::empty());
}

fn check_eval(failures: &mut Vec<Failure>, e: &Eval, seen: bool, present: &[String])
    ensures
        final(failures)@.map_values(|f: Failure| failure_view(f)) == old(failures)@.map_values(
            |f: Failure| failure_view(f),
        ) + eval_failures(*e, seen, present@.map_values(|s: String| s@)),
{
    let ghost pv = present@.map_values(|s: String| s@);
    let ghost before = failures@.map_values(|f: Failure| failure_view(f));
    if seen {
        let mut m: Vec<char> = Vec::new();
        push_str(&mut m, "duplicate eval id ");
        push_decimal(&mut m, e.id);
        push_failure(failures, Some(e.id), m);
    }
    if is_blank(&e.prompt) {
        push_failure(failures, Some(e.id), chars_of("prompt must not be empty"));
    }
    if is_blank(&e.expected_output) {
        push_failure(failures, Some(e.id), chars_of("expected_output must not be empty"));
    }
    let ghost mid = failures@.map_values(|f: Failure| failure_view(f));
    check_files(failures, e.id, &e.files, present);
    let mut blank_assertion = false;
    let mut a: usize = 0;
    while a < e.assertions.len()
        invariant
            a <= e.assertions@.len(),
            blank_assertion == exists|x: int| 0 <= x < a && trim(#[trigger] e.assertions@[x]@).len() == 0,
        decreases e.assertions.len() - a,
    {
        if is_blank(&e.assertions[a]) {
            blank_assertion = true;
        }
        a = a + 1;
    }
    if blank_assertion {
        push_failure(failures, Some(e.id), chars_of("assertions must not contain empty strings"));
    }
    assert(failures@.map_values(|f: Failure| failure_view(f)) =~= before + eval_failures(*e, seen, pv));
}

/// Validates one skill's suite. `dir_name` is the skill directory's name
/// and `present` the input files, relative to it, that exist.
pub fn check_suite(suite: &Suite, dir_name: &str, present: &[String]) -> (r: Result<Summary, Vec<Failure>>)
    ensures
        suite_failures(*suite, dir_name@, present@.map_values(|s: String| s@)).len() == 0 ==> r
            == Ok::<Summary, Vec<Failure>>(Summary { passed: suite.evals@.len() as usize, total: suite.evals@.len() as usize }),
        suite_failures(*suite, dir_name@, present@.map_values(|s: String| s@)).len() > 0 ==> (r matches Err(fs)
            && fs@.map_values(|f: Failure| failure_view(f)) == suite_failures(*suite, dir_name@, present@.map_values(|s: String| s@))),
{
    let ghost pv = present@.map_values(|s: String| s@);
    let mut failures: Vec<Failure> = Vec::new();
    let name_chars = chars_of(suite.skill_name.as_str());
    let dir_chars = chars_of(dir_name);
    if !seq_eq(&name_chars, &dir_chars) {
        let mut m: Vec<char> = Vec::new();
        push_str(&mut m, "skill_name ");
        m.push('\'');
        push_str(&mut m, suite.skill_name.as_str());
        m.push('\'');
        push_str(&mut m, " does not match ");
        m.push('\'');
        push_str(&mut m, dir_name);
        m.push('\'');
        assert(m@ =~= "skill_name "@ + quoted(suite.skill_name@) + " does not match "@ + quoted(dir_name@));
        push_failure(&mut failures, None, m);
    }
    if suite.evals.len() == 0 {
        push_failure(&mut failures, None, chars_of("evals must contain at least one test case"));
    }
    let ghost head = failures@.map_values(|f: Failure| failure_view(f));
    let mut i: usize = 0;
    while i < suite.evals.len()
        invariant
            i <= suite.evals@.len(),
            pv == present@.map_values(|s: String| s@),
            failures@.map_values(|f: Failure| failure_view(f)) == head + evals_failures(suite.evals@, pv, i as int),
        decreases suite.evals.len() - i,
    {
        let mut seen = false;
        let mut j: usize = 0;
        while j < i
            invariant
                j <= i < suite.evals@.len(),
                seen == exists|jj: int| 0 <= jj < j && #[trigger] suite.evals@[jj].id == suite.evals@[i as int].id,
            decreases i - j,
        {
            if suite.evals[j].id == suite.evals[i].id {
                seen = true;
            }
            j = j + 1;
        }
        check_eval(&mut failures, &suite.evals[i], seen, present);
        assert(evals_failures(suite.evals@, pv, i + 1) == evals_failures(suite.evals@, pv, i as int)
            + eval_failures(suite.evals@[i as int], id_seen_before(suite.evals@, i as int), pv));
        i = i + 1;
    }
    if failures.len() == 0 {
        Ok(Summary { passed: suite.evals.len(), total: suite.evals.len() })
    } else {
        Err(failures)
    }
}

} // verus!
