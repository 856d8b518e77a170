use pinst::harness::asset::{Asset, AssetKind};
use pinst::harness::install::check::DirEntry;
use pinst::harness::install::state::{classify, status, target_path, unmanaged_entries, AssetKindLabel, AssetState, Observed};

fn demo_assets() -> Vec<Asset> {
    vec![
        Asset { kind: AssetKind::Skill, name: "demo".to_string(), files: vec!["skills/demo/SKILL.md".to_string()] },
        Asset { kind: AssetKind::Command, name: "demo".to_string(), files: vec!["commands/demo.md".to_string()] },
    ]
}

#[test]
fn a_missing_target_is_missing() {
    assert_eq!(classify(Observed::Absent), AssetState::Missing);
}

#[test]
fn a_correct_symlink_is_linked_and_a_dangling_one_is_foreign() {
    assert_eq!(classify(Observed::Symlink { to_source: true }), AssetState::Linked);
    assert_eq!(classify(Observed::Symlink { to_source: false }), AssetState::Foreign);
}

#[test]
fn a_copy_with_matching_content_is_copied_and_a_drifted_one_is_drifted() {
    assert_eq!(classify(Observed::Present { matches: true }), AssetState::Copied);
    assert_eq!(classify(Observed::Present { matches: false }), AssetState::Drifted);
}

#[test]
fn a_command_file_classifies_the_same_way_as_a_skill_directory() {
    let assets = demo_assets();
    assert_eq!(target_path("/r/skills", "/r/commands", &assets[0]), "/r/skills/demo");
    assert_eq!(target_path("/r/skills", "/r/commands", &assets[1]), "/r/commands/demo.md");
    assert_eq!(classify(Observed::Present { matches: true }), AssetState::Copied);
}

#[test]
fn status_reports_an_entry_with_no_matching_source_asset_as_unmanaged() {
    let assets = demo_assets();
    let observed = vec![Observed::Absent, Observed::Absent];
    let skills = vec![
        DirEntry { path: "/r/skills/someone-elses-skill".to_string(), is_symlink: false },
        DirEntry { path: "/r/skills/demo".to_string(), is_symlink: false },
    ];
    let rows = status("vendor", "/r/skills", "/r/commands", &assets, &observed, &skills, &[]);
    let unmanaged = rows.iter().find(|r| r.name == "someone-elses-skill").unwrap();
    assert_eq!(unmanaged.state, AssetState::Unmanaged);
    assert_eq!(unmanaged.target, "/r/skills/someone-elses-skill");
    let demo = rows.iter().find(|r| r.name == "demo" && r.kind == AssetKindLabel::Skill).unwrap();
    assert_eq!(demo.state, AssetState::Missing);
    assert_eq!(rows.len(), 3);
}

#[test]
fn unmanaged_entries_are_sorted_by_name_and_only_md_commands_count() {
    let entries = vec![
        DirEntry { path: "/r/commands/zeta.md".to_string(), is_symlink: false },
        DirEntry { path: "/r/commands/readme.txt".to_string(), is_symlink: false },
        DirEntry { path: "/r/commands/alpha.md".to_string(), is_symlink: true },
        DirEntry { path: "/r/commands/known.md".to_string(), is_symlink: false },
    ];
    let known = vec!["known".chars().collect::<Vec<char>>()];
    let rows = unmanaged_entries(&entries, "vendor", AssetKindLabel::Command, &known);
    let names: Vec<&str> = rows.iter().map(|r| r.name.as_str()).collect();
    assert_eq!(names, ["alpha", "zeta"]);
    assert!(rows.iter().all(|r| r.state == AssetState::Unmanaged && r.kind == AssetKindLabel::Command));
    assert_eq!(rows[0].target, "/r/commands/alpha.md");
}
