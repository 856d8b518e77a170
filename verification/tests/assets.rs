use pinst::harness::asset::{assets_from, AssetKind, SkillDir};
use pinst::path::sort_paths;

fn strings(v: &[&str]) -> Vec<String> {
    v.iter().map(|s| s.to_string()).collect()
}

#[test]
fn paths_sort_component_by_component() {
    let sorted = sort_paths(strings(&["skills/x/a-b", "skills/x/a/b", "skills/x/SKILL.md", "skills/x/a"]));
    assert_eq!(sorted, strings(&["skills/x/SKILL.md", "skills/x/a", "skills/x/a/b", "skills/x/a-b"]));
}

#[test]
fn a_tree_enumerates_skills_then_commands_each_in_name_order() {
    let skills = vec![
        SkillDir { name: "zeta".to_string(), files: strings(&["skills/zeta/SKILL.md"]) },
        SkillDir { name: "alpha".to_string(), files: strings(&["skills/alpha/notes.md", "skills/alpha/SKILL.md"]) },
        SkillDir { name: "empty".to_string(), files: vec![] },
    ];
    let commands = strings(&["commands/b.md", "commands/a-b.md", "commands/a.md", "commands/readme.txt"]);
    let assets = assets_from(&skills, &commands);
    let listed: Vec<(AssetKind, &str)> = assets.iter().map(|a| (a.kind, a.name.as_str())).collect();
    assert_eq!(
        listed,
        vec![
            (AssetKind::Skill, "alpha"),
            (AssetKind::Skill, "zeta"),
            (AssetKind::Command, "a"),
            (AssetKind::Command, "a-b"),
            (AssetKind::Command, "b"),
        ]
    );
    assert_eq!(assets[0].files, strings(&["skills/alpha/SKILL.md", "skills/alpha/notes.md"]));
    assert_eq!(assets[0].entry(), "skills/alpha/SKILL.md");
    assert_eq!(assets[2].files, strings(&["commands/a.md"]));
}

#[test]
fn a_tree_source_gives_paths_and_the_embedded_copy_none() {
    let tree = pinst::source::Source::Tree("/src/pinst/.agents".to_string());
    assert_eq!(pinst::harness::asset::source_path(&tree, "skills/x"), Ok("/src/pinst/.agents/skills/x".to_string()));
    assert!(pinst::harness::asset::source_path(&pinst::source::Source::Embedded, "skills/x").is_err());
}

#[test]
fn a_copied_skill_matches_only_whole() {
    let asset = pinst::harness::asset::Asset {
        kind: AssetKind::Skill,
        name: "x".to_string(),
        files: strings(&["skills/x/SKILL.md", "skills/x/ref/a.md"]),
    };
    assert_eq!(
        pinst::harness::install::state::within_skill_dir(&asset, "skills/x/ref/a.md"),
        Some("ref/a.md".to_string())
    );
    assert_eq!(pinst::harness::install::state::within_skill_dir(&asset, "commands/x.md"), None);
    assert!(pinst::harness::install::state::copy_matches(true, &asset, &[true, true], 2));
    assert!(!pinst::harness::install::state::copy_matches(true, &asset, &[true, false], 2));
    assert!(!pinst::harness::install::state::copy_matches(true, &asset, &[true, true], 3));
    assert!(!pinst::harness::install::state::copy_matches(false, &asset, &[true, true], 2));
}
