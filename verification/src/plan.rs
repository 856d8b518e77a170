//! The plan: an ordered description of everything a mutating command would
//! do.
//!
//! Every mutation is built as a `Plan` first and then either printed
//! (`--dry-run`) or executed, so what a dry run shows and what a real run
//! does cannot drift apart. Paths are carried as the text they display as.

use vstd::prelude::*;

use crate::text::{contains_char, contains_seq, contains_str, decimal, push_decimal, push_str, string_of};

verus! {

pub enum Action {
    /// Run with `sh -c`. `sudo` appears inside the command text itself, the
    /// same way the upstream install docs write it.
    Shell { command: String },
    Download { url: String, dest: String },
    /// Symlink `target` -> `source`.
    Link { source: String, target: String },
    /// Write literal content to `target`; only its length is reported.
    Write { target: String, bytes: usize, content: Vec<u8> },
    /// Move an existing file aside before writing over its path.
    Backup { path: String, to: String },
    /// Delete what an install placed at `path`.
    Remove { path: String },
}

/// An action as plain values.
pub enum ActionView {
    Shell(Seq<char>),
    Download(Seq<char>, Seq<char>),
    Link(Seq<char>, Seq<char>),
    Write(Seq<char>, usize, Seq<u8>),
    Backup(Seq<char>, Seq<char>),
    Remove(Seq<char>),
}

impl View for Action {
    type V = ActionView;

    open spec fn view(&self) -> ActionView {
        match self {
            Action::Shell { command } => ActionView::Shell(command@),
            Action::Download { url, dest } => ActionView::Download(url@, dest@),
            Action::Link { source, target } => ActionView::Link(source@, target@),
            Action::Write { target, bytes, content } => ActionView::Write(target@, *bytes, content@),
            Action::Backup { path, to } => ActionView::Backup(path@, to@),
            Action::Remove { path } => ActionView::Remove(path@),
        }
    }
}

/// What kind of authority an action needs, surfaced so the blast radius of
/// a run is visible before it happens.
#[derive(Debug, Clone, Copy, PartialEq, Eq, Structural)]
pub enum Privilege {
    User,
    Sudo,
    /// Pipes a downloaded script into a shell.
    RemoteScript,
    Network,
}

#[derive(Debug, Clone, Copy, PartialEq, Eq, Structural)]
pub enum StepKind {
    AptUpdate,
    Install,
    Upgrade,
    PostInstall,
    Config,
    /// No automated path exists; the step carries instructions instead.
    Manual,
}

pub enum StepState {
    /// Will run.
    Pending,
    /// Already satisfied.
    Skipped(String),
    /// Cannot be automated; the reason is the operator instruction.
    Blocked(String),
}

pub struct Step {
    /// Stable identifier, e.g. `install:zsh` or `post:zsh:0`.
    pub id: String,
    pub kind: StepKind,
    pub tool: Option<String>,
    pub description: String,
    pub actions: Vec<Action>,
    pub privilege: Privilege,
    /// Requires `--yes` or an interactive confirmation.
    pub confirm: bool,
    /// A `sh -c` check run just before the step: success means it is done.
    pub condition: Option<String>,
    pub state: StepState,
}

pub struct Plan {
    pub steps: Vec<Step>,
}

/// What happened to one step during execution.
#[derive(Debug, Clone, Copy, PartialEq, Eq, Structural)]
pub enum Outcome {
    /// `--dry-run`: this is what would have run.
    WouldRun,
    Ran,
    Skipped,
    /// Needed authorization that was not granted.
    NeedsConfirmation,
    Blocked,
    Failed,
}

pub struct StepReport {
    pub id: String,
    pub tool: Option<String>,
    pub kind: StepKind,
    pub description: String,
    pub outcome: Outcome,
    pub detail: Option<String>,
    pub commands: Vec<String>,
}

/// A step's state as plain values.
pub enum StateView {
    Pending,
    Skipped(Seq<char>),
    Blocked(Seq<char>),
}

/// A step as plain values.
pub struct StepView {
    pub id: Seq<char>,
    pub kind: StepKind,
    pub tool: Option<Seq<char>>,
    pub description: Seq<char>,
    pub actions: Seq<ActionView>,
    pub privilege: Privilege,
    pub confirm: bool,
    pub condition: Option<Seq<char>>,
    pub state: StateView,
}

impl View for Step {
    type V = StepView;

    open spec fn view(&self) -> StepView {
        StepView {
            id: self.id@,
            kind: self.kind,
            tool: match self.tool { Some(t) => Some(t@), None => None },
            description: self.description@,
            actions: self.actions@.map_values(|a: Action| a@),
            privilege: self.privilege,
            confirm: self.confirm,
            condition: match self.condition { Some(c) => Some(c@), None => None },
            state: match self.state {
                StepState::Pending => StateView::Pending,
                StepState::Skipped(r) => StateView::Skipped(r@),
                StepState::Blocked(r) => StateView::Blocked(r@),
            },
        }
    }
}

// --- what the operations mean ---------------------------------------------

/// The one-line rendering of an action in a plan.
pub open spec fn describe_spec(a: Action) -> Seq<char> {
    match a {
        Action::Shell { command } => command@,
        Action::Download { url, dest } => "download "@ + url@ + " -> "@ + dest@,
        Action::Link { source, target } => "link "@ + target@ + " -> "@ + source@,
        Action::Write { target, bytes, .. } => "write "@ + target@ + " ("@ + decimal(bytes as nat)
            + " bytes)"@,
        Action::Backup { path, to } => "back up "@ + path@ + " -> "@ + to@,
        Action::Remove { path } => "remove "@ + path@,
    }
}

pub open spec fn privilege_spec(a: Action) -> Privilege {
    match a {
        Action::Shell { command } => if contains_seq(command@, "sudo "@) {
            Privilege::Sudo
        } else if contains_seq(command@, "curl "@) && command@.contains('|') {
            Privilege::RemoteScript
        } else {
            Privilege::User
        },
        Action::Download { .. } => Privilege::Network,
        _ => Privilege::User,
    }
}

/// How much authority a privilege stands for: sudo above a piped remote
/// script, above network access, above the user's own.
pub open spec fn rank(p: Privilege) -> nat {
    match p {
        Privilege::Sudo => 3,
        Privilege::RemoteScript => 2,
        Privilege::Network => 1,
        Privilege::User => 0,
    }
}

/// The highest-ranked privilege among the actions, `User` when there are none.
pub open spec fn max_privilege(actions: Seq<Action>) -> Privilege
    decreases actions.len(),
{
    if actions.len() == 0 {
        Privilege::User
    } else {
        let rest = max_privilege(actions.drop_last());
        let last = privilege_spec(actions.last());
        if rank(last) >= rank(rest) {
            last
        } else {
            rest
        }
    }
}

/// A step needs the highest privilege any of its actions needs: none of
/// them ranks above it, and with any action at all it is one of theirs
/// (with none, the user's own).
pub proof fn lemma_step_privilege_is_the_highest(actions: Seq<Action>)
    ensures
        forall|k: int| 0 <= k < actions.len() ==> rank(#[trigger] privilege_spec(actions[k])) <= rank(
            max_privilege(actions),
        ),
        actions.len() > 0 ==> exists|k: int| 0 <= k < actions.len() && max_privilege(actions) == privilege_spec(
            #[trigger] actions[k],
        ),
        actions.len() == 0 ==> max_privilege(actions) == Privilege::User,
    decreases actions.len(),
{
    if actions.len() > 0 {
        let rest = actions.drop_last();
        lemma_step_privilege_is_the_highest(rest);
        assert forall|k: int| 0 <= k < actions.len() implies rank(#[trigger] privilege_spec(actions[k])) <= rank(
            max_privilege(actions),
        ) by {
            if k < actions.len() - 1 {
                assert(actions[k] == rest[k]);
            }
        }
        if rank(privilege_spec(actions.last())) >= rank(max_privilege(rest)) {
            assert(max_privilege(actions) == privilege_spec(actions[actions.len() - 1]));
        } else {
            let k = choose|k: int| 0 <= k < rest.len() && max_privilege(rest) == privilege_spec(#[trigger] rest[k]);
            assert(actions[k] == rest[k]);
            assert(max_privilege(actions) == privilege_spec(actions[k]));
        }
    }
}

pub open spec fn is_pending_spec(s: Step) -> bool {
    s.state is Pending
}

/// The pending steps, in plan order.
pub open spec fn pending_steps(steps: Seq<Step>) -> Seq<Step>
    decreases steps.len(),
{
    if steps.len() == 0 {
        Seq::empty()
    } else {
        let rest = pending_steps(steps.drop_last());
        if is_pending_spec(steps.last()) {
            rest.push(steps.last())
        } else {
            rest
        }
    }
}

/// The steps that will run are the plan's pending steps in plan order:
/// each one listed is pending, each pending step is listed, a plan with
/// nothing skipped or blocked runs whole, and the steps of a plan in two
/// parts run as the first part's then the second's.
pub proof fn lemma_pending_steps_keep_plan_order(a: Seq<Step>, b: Seq<Step>)
    ensures
        pending_steps(a + b) == pending_steps(a) + pending_steps(b),
        pending_steps(a).len() <= a.len(),
        forall|k: int| 0 <= k < pending_steps(a).len() ==> is_pending_spec(#[trigger] pending_steps(a)[k]),
        forall|k: int| 0 <= k < a.len() && is_pending_spec(#[trigger] a[k]) ==> pending_steps(a).contains(a[k]),
        (forall|k: int| 0 <= k < a.len() ==> is_pending_spec(#[trigger] a[k])) ==> pending_steps(a) == a,
    decreases b.len(),
{
    if b.len() == 0 {
        assert(a + b =~= a);
        lemma_pending_members(a);
    } else {
        lemma_pending_steps_keep_plan_order(a, b.drop_last());
        assert((a + b).drop_last() =~= a + b.drop_last());
        assert((a + b).last() == b.last());
    }
}

proof fn lemma_pending_members(a: Seq<Step>)
    ensures
        pending_steps(a).len() <= a.len(),
        forall|k: int| 0 <= k < pending_steps(a).len() ==> is_pending_spec(#[trigger] pending_steps(a)[k]),
        forall|k: int| 0 <= k < a.len() && is_pending_spec(#[trigger] a[k]) ==> pending_steps(a).contains(a[k]),
        (forall|k: int| 0 <= k < a.len() ==> is_pending_spec(#[trigger] a[k])) ==> pending_steps(a) == a,
    decreases a.len(),
{
    if a.len() > 0 {
        let rest = a.drop_last();
        lemma_pending_members(rest);
        let p = pending_steps(a);
        assert forall|k: int| 0 <= k < p.len() implies is_pending_spec(#[trigger] p[k]) by {
            if k < pending_steps(rest).len() {
                assert(p[k] == pending_steps(rest)[k]);
            }
        }
        assert forall|k: int| 0 <= k < a.len() && is_pending_spec(#[trigger] a[k]) implies p.contains(a[k]) by {
            if k < a.len() - 1 {
                assert(a[k] == rest[k]);
                assert(is_pending_spec(rest[k]));
                let w = choose|w: int| 0 <= w < pending_steps(rest).len() && pending_steps(rest)[w] == rest[k];
                assert(p[w] == a[k]);
            } else {
                assert(p[p.len() - 1] == a[k]);
            }
        }
        if forall|k: int| 0 <= k < a.len() ==> is_pending_spec(#[trigger] a[k]) {
            assert forall|k: int| 0 <= k < rest.len() implies is_pending_spec(#[trigger] rest[k]) by {
                assert(rest[k] == a[k]);
            }
            assert(is_pending_spec(a[a.len() - 1]));
            assert(a =~= rest.push(a.last()));
        }
    }
}

// --- executable -----------------------------------------------------------

fn clone_string(s: &String) -> (r: String)
    ensures
        r@ == s@,
{
    s.clone()
}

fn clone_opt(s: &Option<String>) -> (r: Option<String>)
    ensures
        r is Some <==> s is Some,
        r is Some ==> r->0@ == s->0@,
{
    match s {
        Some(v) => Some(v.clone()),
        None => None,
    }
}

impl Action {
    pub fn describe(&self) -> (r: String)
        ensures
            r@ == describe_spec(*self),
    {
        let mut out: Vec<char> = Vec::new();
        match self {
            Action::Shell { command } => {
                return command.clone();
            },
            Action::Download { url, dest } => {
                push_str(&mut out, "download ");
                push_str(&mut out, url.as_str());
                push_str(&mut out, " -> ");
                push_str(&mut out, dest.as_str());
            },
            Action::Link { source, target } => {
                push_str(&mut out, "link ");
                push_str(&mut out, target.as_str());
                push_str(&mut out, " -> ");
                push_str(&mut out, source.as_str());
            },
            Action::Write { target, bytes, .. } => {
                push_str(&mut out, "write ");
                push_str(&mut out, target.as_str());
                push_str(&mut out, " (");
                push_decimal(&mut out, *bytes as u64);
                push_str(&mut out, " bytes)");
            },
            Action::Backup { path, to } => {
                push_str(&mut out, "back up ");
                push_str(&mut out, path.as_str());
                push_str(&mut out, " -> ");
                push_str(&mut out, to.as_str());
            },
            Action::Remove { path } => {
                push_str(&mut out, "remove ");
                push_str(&mut out, path.as_str());
            },
        }
        assert(out@ =~= describe_spec(*self));
        string_of(&out)
    }

    pub fn privilege(&self) -> (r: Privilege)
        ensures
            r == privilege_spec(*self),
    {
        match self {
            Action::Shell { command } => {
                if contains_str(command.as_str(), "sudo ") {
                    Privilege::Sudo
                } else if contains_str(command.as_str(), "curl ") && contains_char(
                    command.as_str(),
                    '|',
                ) {
                    Privilege::RemoteScript
                } else {
                    Privilege::User
                }
            },
            Action::Download { .. } => Privilege::Network,
            _ => Privilege::User,
        }
    }
}

fn rank_exec(p: Privilege) -> (r: u8)
    ensures
        r as nat == rank(p),
{
    match p {
        Privilege::Sudo => 3,
        Privilege::RemoteScript => 2,
        Privilege::Network => 1,
        Privilege::User => 0,
    }
}

impl Step {
    /// A pending step with no actions, needing no confirmation.
    pub fn new(id: &str, kind: StepKind, description: &str) -> (r: Step)
        ensures
            r.id@ == id@,
            r.kind == kind,
            r.tool is None,
            r.description@ == description@,
            r.actions@.len() == 0,
            r.privilege == Privilege::User,
            !r.confirm,
            r.condition is None,
            r.state is Pending,
    {
        Step {
            id: id.to_owned(),
            kind,
            tool: None,
            description: description.to_owned(),
            actions: Vec::new(),
            privilege: Privilege::User,
            confirm: false,
            condition: None,
            state: StepState::Pending,
        }
    }

    pub fn tool(self, tool: &str) -> (r: Step)
        ensures
            r.tool is Some && r.tool->0@ == tool@,
            r.id == self.id && r.kind == self.kind && r.description == self.description,
            r.actions == self.actions && r.privilege == self.privilege,
            r.confirm == self.confirm && r.condition == self.condition && r.state == self.state,
    {
        let mut s = self;
        s.tool = Some(tool.to_owned());
        s
    }

    /// Sets the actions; the step's privilege becomes the highest any of
    /// them needs.
    pub fn actions(self, actions: Vec<Action>) -> (r: Step)
        ensures
            r.actions@ == actions@,
            r.privilege == max_privilege(actions@),
            forall|k: int| 0 <= k < actions@.len() ==> rank(#[trigger] privilege_spec(actions@[k])) <= rank(
                r.privilege,
            ),
            actions@.len() > 0 ==> exists|k: int| 0 <= k < actions@.len() && r.privilege == privilege_spec(
                #[trigger] actions@[k],
            ),
            actions@.len() == 0 ==> r.privilege == Privilege::User,
            r.id == self.id && r.kind == self.kind && r.description == self.description,
            r.tool == self.tool && r.confirm == self.confirm,
            r.condition == self.condition && r.state == self.state,
    {
        let mut best = Privilege::User;
        let mut i: usize = 0;
        while i < actions.len()
            invariant
                i <= actions@.len(),
                best == max_privilege(actions@.take(i as int)),
            decreases actions.len() - i,
        {
            let p = actions[i].privilege();
            if rank_exec(p) >= rank_exec(best) {
                best = p;
            }
            i = i + 1;
            assert(actions@.take(i as int).drop_last() == actions@.take(i - 1));
        }
        assert(actions@.take(actions@.len() as int) == actions@);
        proof {
            lemma_step_privilege_is_the_highest(actions@);
        }
        let mut s = self;
        s.privilege = best;
        s.actions = actions;
        s
    }

    pub fn confirm(self, confirm: bool) -> (r: Step)
        ensures
            r.confirm == confirm,
            r.id == self.id && r.kind == self.kind && r.description == self.description,
            r.tool == self.tool && r.actions == self.actions && r.privilege == self.privilege,
            r.condition == self.condition && r.state == self.state,
    {
        let mut s = self;
        s.confirm = confirm;
        s
    }

    pub fn condition(self, condition: Option<String>) -> (r: Step)
        ensures
            r.condition == condition,
            r.id == self.id && r.kind == self.kind && r.description == self.description,
            r.tool == self.tool && r.actions == self.actions && r.privilege == self.privilege,
            r.confirm == self.confirm && r.state == self.state,
    {
        let mut s = self;
        s.condition = condition;
        s
    }

    /// Marks the step already satisfied, with the reason.
    pub fn skipped(self, reason: &str) -> (r: Step)
        ensures
            r.state matches StepState::Skipped(why) && why@ == reason@,
            r.id == self.id && r.kind == self.kind && r.description == self.description,
            r.tool == self.tool && r.actions == self.actions && r.privilege == self.privilege,
            r.confirm == self.confirm && r.condition == self.condition,
    {
        let mut s = self;
        s.state = StepState::Skipped(reason.to_owned());
        s
    }

    /// Marks the step as needing the operator, with the instruction.
    pub fn blocked(self, reason: &str) -> (r: Step)
        ensures
            r.state matches StepState::Blocked(why) && why@ == reason@,
            r.id == self.id && r.kind == self.kind && r.description == self.description,
            r.tool == self.tool && r.actions == self.actions && r.privilege == self.privilege,
            r.confirm == self.confirm && r.condition == self.condition,
    {
        let mut s = self;
        s.state = StepState::Blocked(reason.to_owned());
        s
    }

    pub fn is_pending(&self) -> (r: bool)
        ensures
            r == is_pending_spec(*self),
    {
        match self.state {
            StepState::Pending => true,
            _ => false,
        }
    }
}

impl Default for Plan {
    /// The empty plan.
    fn default() -> (r: Plan)
        ensures
            r.steps@.len() == 0,
    {
        Plan { steps: Vec::new() }
    }
}

impl Plan {
    /// Appends a step at the end.
    pub fn push(&mut self, step: Step)
        ensures
            final(self).steps@ == old(self).steps@.push(step),
    {
        self.steps.push(step);
    }

    /// The steps that will run, in plan order.
    pub fn pending(&self) -> (r: Vec<&Step>)
        ensures
            r@.len() == pending_steps(self.steps@).len(),
            forall|k: int| 0 <= k < r@.len() ==> *r@[k] == pending_steps(self.steps@)[k],
    {
        let mut out: Vec<&Step> = Vec::new();
        let mut i: usize = 0;
        while i < self.steps.len()
            invariant
                i <= self.steps@.len(),
                out@.len() == pending_steps(self.steps@.take(i as int)).len(),
                forall|k: int|
                    0 <= k < out@.len() ==> *out@[k] == pending_steps(self.steps@.take(i as int))[k],
            decreases self.steps.len() - i,
        {
            assert(self.steps@.take(i + 1).drop_last() == self.steps@.take(i as int));
            if self.steps[i].is_pending() {
                out.push(&self.steps[i]);
            }
            i = i + 1;
        }
        assert(self.steps@.take(self.steps@.len() as int) == self.steps@);
        out
    }

    /// How many steps will run.
    pub fn pending_count(&self) -> (r: usize)
        ensures
            r == pending_steps(self.steps@).len(),
    {
        self.pending().len()
    }
}

impl StepReport {
    pub fn from_step(step: &Step, outcome: Outcome, detail: Option<String>) -> (r: StepReport)
        ensures
            r.id@ == step.id@,
            r.tool is Some <==> step.tool is Some,
            r.tool is Some ==> r.tool->0@ == step.tool->0@,
            r.kind == step.kind,
            r.description@ == step.description@,
            r.outcome == outcome,
            r.detail == detail,
            r.commands@.len() == step.actions@.len(),
            forall|k: int|
                0 <= k < r.commands@.len() ==> #[trigger] r.commands@[k]@ == describe_spec(
                    step.actions@[k],
                ),
    {
        let mut commands: Vec<String> = Vec::new();
        let mut i: usize = 0;
        while i < step.actions.len()
            invariant
                i <= step.actions@.len(),
                commands@.len() == i,
                forall|k: int|
                    0 <= k < i ==> #[trigger] commands@[k]@ == describe_spec(step.actions@[k]),
            decreases step.actions.len() - i,
        {
            commands.push(step.actions[i].describe());
            i = i + 1;
        }
        StepReport {
            id: clone_string(&step.id),
            tool: clone_opt(&step.tool),
            kind: step.kind,
            description: clone_string(&step.description),
            outcome,
            detail,
            commands,
        }
    }
}

} // verus!
