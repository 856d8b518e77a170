use pinst::harness::asset::{Asset, AssetKind};
use pinst::harness::install::plan::{build_install_plan, AssetInput, DriftResolution, InstallOptions, Selection};
use pinst::harness::install::receipt::{LinkStyle, ReceiptScope};
use pinst::harness::install::state::AssetState;
use pinst::plan::{Action, StepState};
use pinst::source::Source;

fn options() -> InstallOptions {
    InstallOptions {
        vendor: "vendor".to_string(),
        scope: ReceiptScope::Project,
        root: "/p".to_string(),
        skills_dir: "/p/.vendor/skills".to_string(),
        commands_dir: "/p/.vendor/commands".to_string(),
        style: None,
        force: false,
        drift: DriftResolution::Command,
        selection: Selection::All,
    }
}

fn tree() -> Source {
    Source::Tree("/p/.agents".to_string())
}

fn inputs(state: AssetState) -> Vec<AssetInput> {
    vec![
        AssetInput {
            asset: Asset {
                kind: AssetKind::Skill,
                name: "pinst".to_string(),
                files: vec!["skills/pinst/SKILL.md".to_string(), "skills/pinst/notes.md".to_string()],
            },
            state,
            source_path: Some("/p/.agents/skills/pinst".to_string()),
            contents: vec![b"---\nname: pinst\n---\n".to_vec(), b"notes".to_vec()],
        },
        AssetInput {
            asset: Asset { kind: AssetKind::Command, name: "cc".to_string(), files: vec!["commands/cc.md".to_string()] },
            state,
            source_path: Some("/p/.agents/commands/cc.md".to_string()),
            contents: vec![b"command body".to_vec()],
        },
    ]
}

#[test]
fn a_fresh_project_install_links_every_asset() {
    let plan = build_install_plan(&tree(), &inputs(AssetState::Missing), &options(), "s").unwrap();
    assert!(plan.pending_count() > 0);
    for step in &plan.steps {
        assert!(step.is_pending(), "{} should be pending", step.id);
        assert_eq!(step.actions.len(), 1, "a linked asset is one action");
        assert!(matches!(step.actions[0], Action::Link { .. }));
    }
}

#[test]
fn an_explicit_copy_style_writes_every_file_in_a_skill() {
    let mut opts = options();
    opts.style = Some(LinkStyle::Copy);
    opts.selection = Selection::Named { skills: vec!["pinst".to_string()], commands: vec![] };
    let plan = build_install_plan(&tree(), &inputs(AssetState::Missing), &opts, "s").unwrap();
    assert_eq!(plan.steps.len(), 1);
    assert_eq!(plan.steps[0].actions.len(), 2);
    assert!(plan.steps[0].actions.iter().all(|a| matches!(a, Action::Write { .. })));
}

#[test]
fn an_explicit_copy_style_writes_a_command_to_its_own_path_not_a_directory() {
    let mut opts = options();
    opts.style = Some(LinkStyle::Copy);
    opts.selection = Selection::Named { skills: vec![], commands: vec!["cc".to_string()] };
    let plan = build_install_plan(&tree(), &inputs(AssetState::Missing), &opts, "s").unwrap();
    assert_eq!(plan.steps.len(), 1);
    assert_eq!(plan.steps[0].actions.len(), 1);
    let Action::Write { target, bytes, .. } = &plan.steps[0].actions[0] else {
        panic!("expected a Write action");
    };
    assert_eq!(target, "/p/.vendor/commands/cc.md");
    assert_eq!(*bytes, 12);
}

#[test]
fn a_second_run_reports_every_step_skipped() {
    let plan = build_install_plan(&tree(), &inputs(AssetState::Linked), &options(), "s").unwrap();
    assert_eq!(plan.pending_count(), 0);
    assert!(plan.steps.iter().all(|s| matches!(s.state, StepState::Skipped(_))));
}

#[test]
fn a_foreign_target_is_blocked_without_force() {
    let mut opts = options();
    opts.selection = Selection::Named { skills: vec!["pinst".to_string()], commands: vec![] };
    let plan = build_install_plan(&tree(), &inputs(AssetState::Foreign), &opts, "s").unwrap();
    assert_eq!(plan.pending_count(), 0);
    assert!(matches!(plan.steps[0].state, StepState::Blocked(_)));
    opts.force = true;
    let forced = build_install_plan(&tree(), &inputs(AssetState::Foreign), &opts, "s").unwrap();
    assert_eq!(forced.pending_count(), 1);
}

#[test]
fn re_running_after_the_pending_steps_ran_converges() {
    let mut first_inputs = inputs(AssetState::Missing);
    first_inputs[1].state = AssetState::Foreign;
    let first = build_install_plan(&tree(), &first_inputs, &options(), "s").unwrap();
    assert_eq!(first.pending_count(), 1);
    let mut second_inputs = inputs(AssetState::Missing);
    second_inputs[0].state = AssetState::Linked;
    second_inputs[1].state = AssetState::Foreign;
    let second = build_install_plan(&tree(), &second_inputs, &options(), "s").unwrap();
    assert_eq!(second.pending_count(), 0);
    assert!(matches!(&second.steps[0].state, StepState::Skipped(r) if r == "already installed"));
    assert!(matches!(second.steps[1].state, StepState::Blocked(_)));
}
