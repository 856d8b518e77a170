use pinst::harness::asset::{Asset, AssetKind};
use pinst::harness::install::plan::{build_uninstall_plan, EntryInput, Selection};
use pinst::harness::install::receipt::{Entry, LinkStyle, ReceiptScope};
use pinst::harness::install::state::{source_relative, AssetKindLabel, AssetState};
use pinst::harness::renumber::Scope;
use pinst::plan::{Action, StepState};
use pinst::prompt::ScopeArg;
use pinst::source::Source;

fn entries() -> Vec<Entry> {
    vec![
        Entry {
            kind: AssetKindLabel::Skill,
            name: "pinst".to_string(),
            path: "/p/.vendor/skills/pinst".to_string(),
            style: LinkStyle::Symlink,
        },
        Entry {
            kind: AssetKindLabel::Command,
            name: "cc".to_string(),
            path: "/p/.vendor/commands/cc.md".to_string(),
            style: LinkStyle::Copy,
        },
    ]
}

#[test]
fn uninstall_removes_every_entry_still_as_install_left_it() {
    let inputs = vec![
        EntryInput { exists: true, state: Some(AssetState::Linked) },
        EntryInput { exists: true, state: Some(AssetState::Copied) },
    ];
    let plan = build_uninstall_plan(&entries(), &inputs, &Selection::All, false);
    assert_eq!(plan.steps.len(), 2);
    assert_eq!(plan.steps[0].id, "harness:skill:pinst");
    assert_eq!(plan.steps[0].description, "remove pinst -> /p/.vendor/skills/pinst");
    assert!(matches!(plan.steps[0].state, StepState::Pending));
    let Action::Remove { path } = &plan.steps[1].actions[0] else {
        panic!("expected a Remove action");
    };
    assert_eq!(path, "/p/.vendor/commands/cc.md");
}

#[test]
fn uninstall_skips_what_is_already_gone_and_blocks_drift_without_force() {
    let inputs = vec![
        EntryInput { exists: false, state: None },
        EntryInput { exists: true, state: Some(AssetState::Drifted) },
    ];
    let plan = build_uninstall_plan(&entries(), &inputs, &Selection::All, false);
    assert!(matches!(&plan.steps[0].state, StepState::Skipped(r) if r == "already removed"));
    assert!(matches!(plan.steps[1].state, StepState::Blocked(_)));
    assert!(plan.steps[1].actions.is_empty());
    let forced = build_uninstall_plan(&entries(), &inputs, &Selection::All, true);
    assert!(matches!(forced.steps[1].state, StepState::Pending));
    assert_eq!(forced.steps[1].actions.len(), 1);
}

#[test]
fn uninstall_touches_only_the_selected_entries() {
    let inputs = vec![
        EntryInput { exists: true, state: Some(AssetState::Linked) },
        EntryInput { exists: true, state: Some(AssetState::Copied) },
    ];
    let selection = Selection::Named { skills: vec![], commands: vec!["cc".to_string()] };
    let plan = build_uninstall_plan(&entries(), &inputs, &selection, false);
    assert_eq!(plan.steps.len(), 1);
    assert_eq!(plan.steps[0].id, "harness:command:cc");
}

#[test]
fn a_receipt_scope_is_one_scope() {
    assert_eq!(ReceiptScope::from_scope_arg(ScopeArg::Project), Ok(ReceiptScope::Project));
    assert_eq!(ReceiptScope::from_scope_arg(ScopeArg::Global), Ok(ReceiptScope::Global));
    assert!(ReceiptScope::from_scope_arg(ScopeArg::Both).is_err());
}

#[test]
fn a_skill_is_found_by_its_directory_and_a_command_by_its_file() {
    let skill = Asset { kind: AssetKind::Skill, name: "pinst".to_string(), files: vec!["skills/pinst/SKILL.md".to_string()] };
    let command = Asset { kind: AssetKind::Command, name: "cc".to_string(), files: vec!["commands/cc.md".to_string()] };
    assert_eq!(source_relative(&skill), "skills/pinst");
    assert_eq!(source_relative(&command), "commands/cc.md");
}

#[test]
fn the_variant_predicates_name_their_variant() {
    assert!(Source::Tree("/p/.agents".to_string()).is_tree());
    assert!(!Source::Embedded.is_tree());
    let degraded = Scope::Degraded { against: "main".to_string(), reason: "no merge-base".to_string() };
    let scoped = Scope::Scoped { against: "main".to_string(), merge_base: "abc".to_string() };
    assert!(degraded.is_degraded());
    assert!(!scoped.is_degraded());
}
