//! Building install and uninstall plans for the harness.
//!
//! Each selected asset becomes one step: skipped when its target already
//! holds it, blocked when replacing what is there needs `--force` or a
//! drift decision, else pending with the actions that place it. The caller
//! says what is at each target and reads the source bytes; the plan is
//! decided here.

use vstd::prelude::*;

use super::super::asset::{entry_index, Asset, AssetKind};
use super::receipt::{Entry, LinkStyle, ReceiptScope};
use super::state::{target_spec, AssetKindLabel, AssetState};
use crate::path::{join, join_path, relative_to};
use crate::plan::{max_privilege, Action, ActionView, Plan, Privilege, StateView, Step, StepKind, StepView};
use crate::source::Source;
use crate::text::{chars_of, push_str, seq_eq, string_of};

verus! {

/// Which assets an install or uninstall acts on.
pub enum Selection {
    All,
    Named { skills: Vec<String>, commands: Vec<String> },
}

/// What to do about a copy whose contents drifted from the source.
#[derive(Debug, Clone, Copy, PartialEq, Eq, Structural)]
pub enum DriftResolution {
    /// Back it up and replace it.
    Overwrite,
    /// Leave it, with a diff command to merge by hand.
    Merge,
    /// Leave it, naming the flag that would replace it.
    Command,
}

pub struct InstallOptions {
    /// The vendor's label.
    pub vendor: String,
    pub scope: ReceiptScope,
    pub root: String,
    /// The vendor's skills and commands directories under `root`.
    pub skills_dir: String,
    pub commands_dir: String,
    pub style: Option<LinkStyle>,
    pub force: bool,
    pub drift: DriftResolution,
    pub selection: Selection,
}

/// One selected asset with what the caller found for it: the state of its
/// target, its source path when the source is a tree, and the bytes of
/// each of its files.
pub struct AssetInput {
    pub asset: Asset,
    pub state: AssetState,
    pub source_path: Option<String>,
    pub contents: Vec<Vec<u8>>,
}

pub open spec fn names_contain(names: Seq<String>, name: Seq<char>) -> bool {
    exists|k: int| 0 <= k < names.len() && #[trigger] names[k]@ == name
}

pub open spec fn includes_spec(sel: Selection, kind: AssetKind, name: Seq<char>) -> bool {
    match sel {
        Selection::All => true,
        Selection::Named { skills, commands } => match kind {
            AssetKind::Skill => names_contain(skills@, name),
            AssetKind::Command => names_contain(commands@, name),
        },
    }
}

fn names_contain_exec(names: &Vec<String>, name: &String) -> (r: bool)
    ensures
        r == names_contain(names@, name@),
{
    let nc = chars_of(name.as_str());
    let mut k: usize = 0;
    while k < names.len()
        invariant
            k <= names@.len(),
            nc@ == name@,
            forall|j: int| 0 <= j < k ==> names@[j]@ != name@,
        decreases names.len() - k,
    {
        let c = chars_of(names[k].as_str());
        if seq_eq(&c, &nc) {
            return true;
        }
        k = k + 1;
    }
    false
}

impl Selection {
    pub fn includes(&self, kind: AssetKind, name: &String) -> (r: bool)
        ensures
            r == includes_spec(*self, kind, name@),
    {
        match self {
            Selection::All => true,
            Selection::Named { skills, commands } => match kind {
                AssetKind::Skill => names_contain_exec(skills, name),
                AssetKind::Command => names_contain_exec(commands, name),
            },
        }
    }
}

pub open spec fn desired_style_spec(tree: bool, scope: ReceiptScope, over: Option<LinkStyle>) -> LinkStyle {
    match over {
        Some(s) => s,
        None => if tree && scope == ReceiptScope::Project { LinkStyle::Symlink } else { LinkStyle::Copy },
    }
}

/// A project install from a checkout links, so edits to the source show
/// through; anything else copies. An explicit style wins.
pub fn desired_style(source: &Source, scope: ReceiptScope, override_style: Option<LinkStyle>) -> (r: LinkStyle)
    ensures
        r == desired_style_spec(source is Tree, scope, override_style),
{
    if let Some(style) = override_style {
        return style;
    }
    match (source, scope) {
        (Source::Tree(_), ReceiptScope::Project) => LinkStyle::Symlink,
        _ => LinkStyle::Copy,
    }
}

pub open spec fn kind_word(kind: AssetKind) -> Seq<char> {
    match kind {
        AssetKind::Skill => "skill"@,
        AssetKind::Command => "command"@,
    }
}

/// `harness:<kind>:<name>`, the id an install step carries.
pub open spec fn step_id_spec(kind: AssetKind, name: Seq<char>) -> Seq<char> {
    "harness:"@ + kind_word(kind) + ":"@ + name
}

pub fn step_id(kind: AssetKind, name: &str) -> (r: String)
    ensures
        r@ == step_id_spec(kind, name@),
{
    let mut out: Vec<char> = Vec::new();
    push_str(&mut out, "harness:");
    match kind {
        AssetKind::Skill => push_str(&mut out, "skill"),
        AssetKind::Command => push_str(&mut out, "command"),
    }
    push_str(&mut out, ":");
    push_str(&mut out, name);
    assert(out@ =~= step_id_spec(kind, name@));
    string_of(&out)
}

/// The kind and name a step id names: `harness:`, then `skill` or
/// `command`, a `:`, and the rest as the name.
pub open spec fn parse_step_id_spec(id: Seq<char>) -> Option<(AssetKind, Seq<char>)> {
    if crate::text::starts_with(id, "harness:"@) {
        let rest = id.skip(8);
        match crate::harness::frontmatter::first_index(rest, ':') {
            Some(i) => {
                let kind = rest.take(i);
                let name = rest.skip(i + 1);
                if kind == "skill"@ {
                    Some((AssetKind::Skill, name))
                } else if kind == "command"@ {
                    Some((AssetKind::Command, name))
                } else {
                    None
                }
            },
            None => None,
        }
    } else {
        None
    }
}

pub fn parse_step_id(id: &str) -> (r: Option<(AssetKind, String)>)
    ensures
        match parse_step_id_spec(id@) {
            Some((k, n)) => r matches Some((k2, n2)) && k2 == k && n2@ == n,
            None => r is None,
        },
{
    let c = chars_of(id);
    let p = chars_of("harness:");
    proof {
        reveal_strlit("harness:");
    }
    if !crate::text::starts_with_exec(&c, &p) {
        return None;
    }
    let rest = crate::text::slice_vec(&c, 8, c.len());
    assert(rest@ =~= id@.skip(8));
    let i = match crate::text::find_char_from(&rest, ':', 0) {
        Some(i) => i,
        None => {
            return None;
        },
    };
    proof {
        crate::harness::frontmatter::lemma_first_index(rest@, ':', i as int);
    }
    let kind = crate::text::slice_vec(&rest, 0, i);
    let name = crate::text::slice_vec(&rest, i + 1, rest.len());
    assert(kind@ =~= rest@.take(i as int));
    assert(name@ =~= rest@.skip(i + 1));
    if seq_eq(&kind, &chars_of("skill")) {
        Some((AssetKind::Skill, string_of(&name)))
    } else if seq_eq(&kind, &chars_of("command")) {
        Some((AssetKind::Command, string_of(&name)))
    } else {
        None
    }
}

/// Where the backup of `target` goes: `<target>.pre-pinst.<stamp>`.
pub open spec fn backup_spec(target: Seq<char>, stamp: Seq<char>) -> Seq<char> {
    target + ".pre-pinst."@ + stamp
}

pub fn backup_path(target: &str, stamp: &str) -> (r: String)
    ensures
        r@ == backup_spec(target@, stamp@),
{
    let mut out: Vec<char> = Vec::new();
    push_str(&mut out, target);
    push_str(&mut out, ".pre-pinst.");
    push_str(&mut out, stamp);
    assert(out@ =~= backup_spec(target@, stamp@));
    string_of(&out)
}

/// A skill file's path within the skill's directory; a command has none.
pub open spec fn within_asset(a: Asset, file: Seq<char>) -> Seq<char> {
    match a.kind {
        AssetKind::Skill => relative_to(file, join("skills"@, a.name@)),
        AssetKind::Command => Seq::empty(),
    }
}

pub fn relative_within_asset(asset: &Asset, file: &str) -> (r: String)
    ensures
        r@ == within_asset(*asset, file@),
{
    match asset.kind {
        AssetKind::Skill => {
            let root = join_path("skills", asset.name.as_str());
            crate::path::relative_path(file, root.as_str())
        },
        AssetKind::Command => String::new(),
    }
}

/// `<kind> <name> -> <target>`.
pub open spec fn install_description(kind: AssetKind, name: Seq<char>, target: Seq<char>) -> Seq<char> {
    kind_word(kind) + " "@ + name + " -> "@ + target
}

/// The writes that copy a skill's files, from the `k`-th on.
pub open spec fn copy_writes(a: Asset, target: Seq<char>, contents: Seq<Vec<u8>>, k: int) -> Seq<ActionView>
    decreases a.files@.len() - k,
{
    if k < 0 || k >= a.files@.len() {
        Seq::empty()
    } else {
        seq![ActionView::Write(
            join(target, within_asset(a, a.files@[k]@)),
            contents[k]@.len() as usize,
            contents[k]@,
        )] + copy_writes(a, target, contents, k + 1)
    }
}

/// What the plan does for one selected asset: the step's state and
/// actions, or why no plan can be made (a link to a source with no path).
pub open spec fn asset_plan(input: AssetInput, o: InstallOptions, style: LinkStyle, stamp: Seq<char>, target: Seq<char>) -> Result<(StateView, Seq<ActionView>), Seq<char>> {
    let a = input.asset;
    let st = input.state;
    if (st == AssetState::Linked && style == LinkStyle::Symlink) || (st == AssetState::Copied && style == LinkStyle::Copy) {
        Ok((StateView::Skipped("already installed"@), Seq::empty()))
    } else if st == AssetState::Foreign && !o.force {
        Ok((StateView::Blocked(target + " is a symlink to something else; rerun with --force to replace it"@), Seq::empty()))
    } else if st == AssetState::Drifted && o.drift != DriftResolution::Overwrite {
        let shown_source = match input.source_path {
            Some(p) => p@,
            None => ".agents"@,
        };
        Ok((StateView::Blocked(if o.drift == DriftResolution::Merge {
            target + " is drifted; merge manually with `diff -u "@ + target + " "@ + shown_source
                + "` then rerun with `--drift overwrite`"@
        } else {
            target + " is drifted; rerun with `--drift overwrite` to back it up and replace it"@
        }), Seq::empty()))
    } else {
        let backup: Seq<ActionView> = if st == AssetState::Drifted || (st == AssetState::Foreign && o.force) {
            seq![ActionView::Backup(target, backup_spec(target, stamp))]
        } else {
            Seq::empty()
        };
        match style {
            LinkStyle::Symlink => match input.source_path {
                Some(p) => Ok((StateView::Pending, backup + seq![ActionView::Link(p@, target)])),
                None => Err("no source path: this binary carries .agents/ embedded"@),
            },
            LinkStyle::Copy => if a.kind == AssetKind::Command {
                let c = input.contents@[entry_index(a)]@;
                Ok((StateView::Pending, backup + seq![ActionView::Write(target, c.len() as usize, c)]))
            } else {
                Ok((StateView::Pending, backup + copy_writes(a, target, input.contents@, 0)))
            },
        }
    }
}

/// An install input is usable: the asset has files, and one content per
/// file.
pub open spec fn input_ok(i: AssetInput) -> bool {
    i.asset.files@.len() > 0 && i.contents@.len() == i.asset.files@.len()
}

/// The steps for the first `n` inputs, the unselected ones skipped over;
/// the first refusal, if any.
pub open spec fn install_steps(inputs: Seq<AssetInput>, o: InstallOptions, style: LinkStyle, stamp: Seq<char>, n: int) -> Result<Seq<StepView>, Seq<char>>
    decreases n,
{
    if n <= 0 {
        Ok(Seq::empty())
    } else {
        match install_steps(inputs, o, style, stamp, n - 1) {
            Err(e) => Err(e),
            Ok(prev) => {
                let input = inputs[n - 1];
                let a = input.asset;
                if !includes_spec(o.selection, a.kind, a.name@) {
                    Ok(prev)
                } else {
                    let target = target_spec(o.skills_dir@, o.commands_dir@, a.kind, a.name@);
                    match asset_plan(input, o, style, stamp, target) {
                        Err(e) => Err(e),
                        Ok((state, actions)) => Ok(prev.push(StepView {
                            id: step_id_spec(a.kind, a.name@),
                            kind: StepKind::Config,
                            tool: Some(a.name@),
                            description: install_description(a.kind, a.name@, target),
                            actions,
                            privilege: Privilege::User,
                            confirm: false,
                            condition: None,
                            state,
                        })),
                    }
                }
            },
        }
    }
}

/// Placing actions need no more than the user's own authority.
pub proof fn lemma_placing_is_user(actions: Seq<Action>)
    requires
        forall|k: int| 0 <= k < actions.len() ==> !((#[trigger] actions[k]) is Shell) && !(actions[k] is Download),
    ensures
        max_privilege(actions) == Privilege::User,
    decreases actions.len(),
{
    if actions.len() > 0 {
        lemma_placing_is_user(actions.drop_last());
    }
}

fn clone_bytes(v: &Vec<u8>) -> (r: Vec<u8>)
    ensures
        r@ == v@,
{
    let mut out: Vec<u8> = Vec::new();
    let mut k: usize = 0;
    while k < v.len()
        invariant
            k <= v@.len(),
            out@ == v@.take(k as int),
        decreases v.len() - k,
    {
        out.push(v[k]);
        k = k + 1;
        assert(out@ =~= v@.take(k as int));
    }
    assert(v@.take(v@.len() as int) == v@);
    out
}

fn copy_actions(asset: &Asset, target: &String, contents: &Vec<Vec<u8>>, actions: &mut Vec<Action>)
    requires
        contents@.len() == asset.files@.len(),
    ensures
        final(actions)@.map_values(|a: Action| a@) == old(actions)@.map_values(|a: Action| a@) + copy_writes(*asset, target@, contents@, 0),
        forall|k: int| 0 <= k < final(actions)@.len() && !(0 <= k < old(actions)@.len()) ==> (#[trigger] final(actions)@[k]) is Write,
        forall|k: int| 0 <= k < old(actions)@.len() ==> #[trigger] final(actions)@[k] == old(actions)@[k],
{
    let ghost start = actions@.map_values(|a: Action| a@);
    let ghost old_actions = actions@;
    let mut k: usize = 0;
    while k < asset.files.len()
        invariant
            k <= asset.files@.len(),
            contents@.len() == asset.files@.len(),
            old_actions.len() <= actions@.len(),
            forall|j: int| 0 <= j < old_actions.len() ==> #[trigger] actions@[j] == old_actions[j],
            forall|j: int| old_actions.len() <= j < actions@.len() ==> (#[trigger] actions@[j]) is Write,
            start == old_actions.map_values(|a: Action| a@),
            start + copy_writes(*asset, target@, contents@, 0) == actions@.map_values(|a: Action| a@) + copy_writes(*asset, target@, contents@, k as int),
        decreases asset.files.len() - k,
    {
        let within = relative_within_asset(asset, asset.files[k].as_str());
        let t = join_path(target.as_str(), within.as_str());
        let c = clone_bytes(&contents[k]);
        let ghost before = actions@.map_values(|a: Action| a@);
        actions.push(Action::Write { target: t, bytes: c.len(), content: c });
        assert(actions@.map_values(|a: Action| a@) =~= before.push(ActionView::Write(
            join(target@, within_asset(*asset, asset.files@[k as int]@)),
            contents@[k as int]@.len() as usize,
            contents@[k as int]@,
        )));
        k = k + 1;
    }
    assert(copy_writes(*asset, target@, contents@, k as int) == Seq::<ActionView>::empty());
}

#[verifier::rlimit(40)]
fn plan_asset(input: &AssetInput, options: &InstallOptions, style: LinkStyle, stamp: &str) -> (r: Result<Step, String>)
    requires
        input_ok(*input),
    ensures
        ({
            let target = target_spec(options.skills_dir@, options.commands_dir@, input.asset.kind, input.asset.name@);
            match asset_plan(*input, *options, style, stamp@, target) {
                Err(e) => r is Err && r->Err_0@ == e,
                Ok((state, actions)) => r is Ok && r->Ok_0@ == (StepView {
                    id: step_id_spec(input.asset.kind, input.asset.name@),
                    kind: StepKind::Config,
                    tool: Some(input.asset.name@),
                    description: install_description(input.asset.kind, input.asset.name@, target),
                    actions,
                    privilege: Privilege::User,
                    confirm: false,
                    condition: None,
                    state,
                }),
            }
        }),
{
    let a = &input.asset;
    let target = super::state::target_path(options.skills_dir.as_str(), options.commands_dir.as_str(), a);
    let id = step_id(a.kind, a.name.as_str());
    let mut d: Vec<char> = Vec::new();
    match a.kind {
        AssetKind::Skill => push_str(&mut d, "skill"),
        AssetKind::Command => push_str(&mut d, "command"),
    }
    push_str(&mut d, " ");
    push_str(&mut d, a.name.as_str());
    push_str(&mut d, " -> ");
    push_str(&mut d, target.as_str());
    assert(d@ =~= install_description(a.kind, a.name@, target@));
    let description = string_of(&d);
    let base = Step::new(id.as_str(), StepKind::Config, description.as_str()).tool(a.name.as_str());
    let st = input.state;
    let satisfied = (st == AssetState::Linked && style == LinkStyle::Symlink) || (st == AssetState::Copied
        && style == LinkStyle::Copy);
    if satisfied {
        let step = base.skipped("already installed");
        assert(step@.actions =~= Seq::<ActionView>::empty());
        return Ok(step);
    }
    if st == AssetState::Foreign && !options.force {
        let mut m: Vec<char> = Vec::new();
        push_str(&mut m, target.as_str());
        push_str(&mut m, " is a symlink to something else; rerun with --force to replace it");
        let step = base.blocked(string_of(&m).as_str());
        assert(step@.actions =~= Seq::<ActionView>::empty());
        return Ok(step);
    }
    if st == AssetState::Drifted && options.drift != DriftResolution::Overwrite {
        let shown: String = match &input.source_path {
            Some(p) => p.clone(),
            None => ".agents".to_owned(),
        };
        let mut m: Vec<char> = Vec::new();
        push_str(&mut m, target.as_str());
        if options.drift == DriftResolution::Merge {
            push_str(&mut m, " is drifted; merge manually with `diff -u ");
            push_str(&mut m, target.as_str());
            push_str(&mut m, " ");
            push_str(&mut m, shown.as_str());
            push_str(&mut m, "` then rerun with `--drift overwrite`");
        } else {
            push_str(&mut m, " is drifted; rerun with `--drift overwrite` to back it up and replace it");
        }
        let step = base.blocked(string_of(&m).as_str());
        assert(step@.actions =~= Seq::<ActionView>::empty());
        return Ok(step);
    }
    let mut actions: Vec<Action> = Vec::new();
    if st == AssetState::Drifted || (st == AssetState::Foreign && options.force) {
        actions.push(Action::Backup { path: target.clone(), to: backup_path(target.as_str(), stamp) });
    }
    let ghost backup_views: Seq<ActionView> = if st == AssetState::Drifted || (st == AssetState::Foreign && options.force) {
        seq![ActionView::Backup(target@, backup_spec(target@, stamp@))]
    } else {
        Seq::empty()
    };
    assert(actions@.map_values(|x: Action| x@) =~= backup_views);
    match style {
        LinkStyle::Symlink => {
            match &input.source_path {
                Some(p) => {
                    let ghost before = actions@.map_values(|x: Action| x@);
                    actions.push(Action::Link { source: p.clone(), target: target.clone() });
                    assert(actions@.map_values(|x: Action| x@) =~= before + seq![ActionView::Link(p@, target@)]);
                },
                None => {
                    return Err("no source path: this binary carries .agents/ embedded".to_owned());
                },
            }
        },
        LinkStyle::Copy => {
            if a.kind == AssetKind::Command {
                let e = a.entry();
                let mut idx: usize = 0;
                let mut k: usize = 0;
                proof {
                    let ei = entry_index(*a);
                    assert(ei == 0);
                }
                let c = clone_bytes(&input.contents[0]);
                let ghost before = actions@.map_values(|x: Action| x@);
                let n = c.len();
                actions.push(Action::Write { target: target.clone(), bytes: n, content: c });
                assert(actions@.map_values(|x: Action| x@) =~= before + seq![ActionView::Write(target@, input.contents@[0]@.len() as usize, input.contents@[0]@)]);
            } else {
                copy_actions(a, &target, &input.contents, &mut actions);
            }
        },
    }
    proof {
        lemma_placing_is_user(actions@);
    }
    let ghost views = actions@.map_values(|x: Action| x@);
    let step = base.actions(actions);
    assert(step@.actions == views);
    Ok(step)
}

/// The install plan: one step per selected asset, in the order given, or
/// the first reason none can be made.
pub fn build_install_plan(source: &Source, inputs: &[AssetInput], options: &InstallOptions, stamp: &str) -> (r: Result<Plan, String>)
    requires
        forall|k: int| 0 <= k < inputs@.len() ==> input_ok(#[trigger] inputs@[k]),
    ensures
        match install_steps(inputs@, *options, desired_style_spec(source is Tree, options.scope, options.style), stamp@, inputs@.len() as int) {
            Ok(steps) => r is Ok && r->Ok_0.steps@.map_values(|s: Step| s@) == steps,
            Err(e) => r is Err && r->Err_0@ == e,
        },
{
    let style = desired_style(source, options.scope, options.style);
    let mut plan = Plan { steps: Vec::new() };
    let mut k: usize = 0;
    while k < inputs.len()
        invariant
            k <= inputs@.len(),
            forall|j: int| 0 <= j < inputs@.len() ==> input_ok(#[trigger] inputs@[j]),
            style == desired_style_spec(source is Tree, options.scope, options.style),
            install_steps(inputs@, *options, style, stamp@, k as int) matches Ok(steps) && plan.steps@.map_values(|s: Step| s@) == steps,
        decreases inputs.len() - k,
    {
        let input = &inputs[k];
        if options.selection.includes(input.asset.kind, &input.asset.name) {
            match plan_asset(input, options, style, stamp) {
                Ok(step) => {
                    let ghost before = plan.steps@.map_values(|s: Step| s@);
                    plan.push(step);
                    assert(plan.steps@.map_values(|s: Step| s@) =~= before.push(step@));
                },
                Err(e) => {
                    proof {
                        lemma_install_steps_err(inputs@, *options, style, stamp@, k + 1, inputs@.len() as int);
                    }
                    return Err(e);
                },
            }
        }
        k = k + 1;
    }
    Ok(plan)
}

/// A state that the desired style already satisfies: a link for a symlink
/// install, a matching copy for a copy install.
pub open spec fn satisfied_for(st: AssetState, style: LinkStyle) -> bool {
    (st == AssetState::Linked && style == LinkStyle::Symlink) || (st == AssetState::Copied && style == LinkStyle::Copy)
}

/// Re-running converges: when every asset is already as the plan would
/// place it, the plan is made, and every step in it is skipped as already
/// installed, with nothing to do.
pub proof fn lemma_rerun_converges(inputs: Seq<AssetInput>, o: InstallOptions, style: LinkStyle, stamp: Seq<char>, n: int)
    requires
        0 <= n <= inputs.len(),
        forall|k: int| 0 <= k < inputs.len() ==> satisfied_for(#[trigger] inputs[k].state, style),
    ensures
        install_steps(inputs, o, style, stamp, n) matches Ok(steps) && forall|k: int| 0 <= k < steps.len() ==>
            (#[trigger] steps[k]).state == StateView::Skipped("already installed"@) && steps[k].actions.len() == 0,
    decreases n,
{
    if n > 0 {
        lemma_rerun_converges(inputs, o, style, stamp, n - 1);
        assert(satisfied_for(inputs[n - 1].state, style));
    }
}

/// The state an asset is in once its step has run: placed as the style
/// places it when the step was pending, else as it was.
pub open spec fn state_after(input: AssetInput, o: InstallOptions, style: LinkStyle, stamp: Seq<char>) -> AssetState {
    let target = target_spec(o.skills_dir@, o.commands_dir@, input.asset.kind, input.asset.name@);
    match asset_plan(input, o, style, stamp, target) {
        Ok((StateView::Pending, _)) => if style == LinkStyle::Symlink { AssetState::Linked } else { AssetState::Copied },
        _ => input.state,
    }
}

/// What a second run observes after the first run's pending steps were
/// all carried out.
pub open spec fn after_run(inputs: Seq<AssetInput>, o: InstallOptions, style: LinkStyle, stamp: Seq<char>) -> Seq<AssetInput> {
    Seq::new(inputs.len(), |k: int| AssetInput { state: state_after(inputs[k], o, style, stamp), ..inputs[k] })
}

/// Re-running converges: when every step the first plan left pending was
/// carried out, a second plan made with the same options from what is then
/// on disk has nothing pending — what the first placed is skipped as
/// already installed, and what it refused is refused again.
pub proof fn lemma_second_run_has_nothing_pending(inputs: Seq<AssetInput>, o: InstallOptions, style: LinkStyle, stamp: Seq<char>, n: int)
    requires
        0 <= n <= inputs.len(),
        install_steps(inputs, o, style, stamp, n) is Ok,
    ensures
        install_steps(after_run(inputs, o, style, stamp), o, style, stamp, n) matches Ok(steps)
            && forall|k: int| 0 <= k < steps.len() ==> !((#[trigger] steps[k]).state is Pending),
    decreases n,
{
    if n > 0 {
        let again = after_run(inputs, o, style, stamp);
        if install_steps(inputs, o, style, stamp, n - 1) is Err {
            assert(install_steps(inputs, o, style, stamp, n) is Err);
        }
        lemma_second_run_has_nothing_pending(inputs, o, style, stamp, n - 1);
        let input = inputs[n - 1];
        let second = again[n - 1];
        assert(second == AssetInput { state: state_after(input, o, style, stamp), ..input });
        let target = target_spec(o.skills_dir@, o.commands_dir@, input.asset.kind, input.asset.name@);
        if includes_spec(o.selection, input.asset.kind, input.asset.name@) {
            lemma_step_after_run(input, o, style, stamp, target);
        }
    }
}

/// One asset's second step is never pending.
proof fn lemma_step_after_run(input: AssetInput, o: InstallOptions, style: LinkStyle, stamp: Seq<char>, target: Seq<char>)
    requires
        target == target_spec(o.skills_dir@, o.commands_dir@, input.asset.kind, input.asset.name@),
        asset_plan(input, o, style, stamp, target) is Ok,
    ensures
        asset_plan(AssetInput { state: state_after(input, o, style, stamp), ..input }, o, style, stamp, target)
            matches Ok((st, _)) && !(st is Pending),
{
}

proof fn lemma_install_steps_err(inputs: Seq<AssetInput>, o: InstallOptions, style: LinkStyle, stamp: Seq<char>, a: int, b: int)
    requires
        0 <= a <= b,
        install_steps(inputs, o, style, stamp, a) is Err,
    ensures
        install_steps(inputs, o, style, stamp, b) == install_steps(inputs, o, style, stamp, a),
    decreases b - a,
{
    if a < b {
        lemma_install_steps_err(inputs, o, style, stamp, a, b - 1);
    }
}

/// What the caller found for one receipt entry: whether anything is still
/// at its path, and the state of that path against the entry's asset when
/// the source still has one of that kind and name.
#[derive(Debug, Clone, Copy, PartialEq, Eq, Structural)]
pub struct EntryInput {
    pub exists: bool,
    pub state: Option<AssetState>,
}

/// The step for removing one entry.
pub open spec fn uninstall_step(e: Entry, i: EntryInput, force: bool) -> StepView {
    let kind = super::state::kind_of_label(e.kind);
    let base = StepView {
        id: step_id_spec(kind, e.name@),
        kind: StepKind::Config,
        tool: Some(e.name@),
        description: "remove "@ + e.name@ + " -> "@ + e.path@,
        actions: Seq::empty(),
        privilege: Privilege::User,
        confirm: false,
        condition: None,
        state: StateView::Pending,
    };
    let drifted = match i.state {
        Some(st) => match e.style {
            LinkStyle::Symlink => st != AssetState::Linked,
            LinkStyle::Copy => st != AssetState::Copied,
        },
        None => true,
    };
    if !i.exists {
        StepView { state: StateView::Skipped("already removed"@), ..base }
    } else if drifted && !force {
        StepView {
            state: StateView::Blocked(e.path@ + " no longer matches what install wrote (or its source asset is gone); rerun with --force to remove it anyway"@),
            ..base
        }
    } else {
        StepView { actions: seq![ActionView::Remove(e.path@)], ..base }
    }
}

pub open spec fn uninstall_steps(entries: Seq<Entry>, inputs: Seq<EntryInput>, sel: Selection, force: bool, n: int) -> Seq<StepView>
    decreases n,
{
    if n <= 0 {
        Seq::empty()
    } else {
        let e = entries[n - 1];
        let prev = uninstall_steps(entries, inputs, sel, force, n - 1);
        if includes_spec(sel, super::state::kind_of_label(e.kind), e.name@) {
            prev.push(uninstall_step(e, inputs[n - 1], force))
        } else {
            prev
        }
    }
}

/// The uninstall plan: one step per selected receipt entry, in order.
pub fn build_uninstall_plan(entries: &[Entry], inputs: &[EntryInput], selection: &Selection, force: bool) -> (r: Plan)
    requires
        inputs@.len() == entries@.len(),
    ensures
        r.steps@.map_values(|s: Step| s@) == uninstall_steps(entries@, inputs@, *selection, force, entries@.len() as int),
{
    let mut plan = Plan { steps: Vec::new() };
    let mut k: usize = 0;
    while k < entries.len()
        invariant
            k <= entries@.len(),
            inputs@.len() == entries@.len(),
            plan.steps@.map_values(|s: Step| s@) == uninstall_steps(entries@, inputs@, *selection, force, k as int),
        decreases entries.len() - k,
    {
        let e = &entries[k];
        let kind: AssetKind = match e.kind {
            AssetKindLabel::Skill => AssetKind::Skill,
            AssetKindLabel::Command => AssetKind::Command,
        };
        if selection.includes(kind, &e.name) {
            let id = step_id(kind, e.name.as_str());
            let mut d: Vec<char> = Vec::new();
            push_str(&mut d, "remove ");
            push_str(&mut d, e.name.as_str());
            push_str(&mut d, " -> ");
            push_str(&mut d, e.path.as_str());
            let base = Step::new(id.as_str(), StepKind::Config, string_of(&d).as_str()).tool(e.name.as_str());
            let i = inputs[k];
            let drifted = match i.state {
                Some(st) => match e.style {
                    LinkStyle::Symlink => st != AssetState::Linked,
                    LinkStyle::Copy => st != AssetState::Copied,
                },
                None => true,
            };
            let step = if !i.exists {
                base.skipped("already removed")
            } else if drifted && !force {
                let mut m: Vec<char> = Vec::new();
                push_str(&mut m, e.path.as_str());
                push_str(&mut m, " no longer matches what install wrote (or its source asset is gone); rerun with --force to remove it anyway");
                base.blocked(string_of(&m).as_str())
            } else {
                let actions = vec![Action::Remove { path: e.path.clone() }];
                proof {
                    lemma_placing_is_user(actions@);
                }
                let s = base.actions(actions);
                assert(s@.actions =~= seq![ActionView::Remove(e.path@)]);
                s
            };
            assert(step@.description =~= "remove "@ + e.name@ + " -> "@ + e.path@);
            assert(step@.actions =~= uninstall_step(*e, i, force).actions);
            assert(step@ == uninstall_step(*e, i, force));
            let ghost before = plan.steps@.map_values(|s: Step| s@);
            plan.push(step);
            assert(plan.steps@.map_values(|s: Step| s@) =~= before.push(uninstall_step(*e, i, force)));
        }
        k = k + 1;
    }
    plan
}

} // verus!
