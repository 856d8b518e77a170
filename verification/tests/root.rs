use std::path::Path;

use pinst::harness::root::{CorpusRoot, Located};
use pinst::harness::vendor::Vendor;
use pinst::path::ancestors;

#[test]
fn paths_hang_off_the_root() {
    let root = CorpusRoot::new("/repo");
    assert_eq!(Path::new(root.path()), Path::new("/repo"));
    assert_eq!(root.ash_dir(), "/repo/.ash");
    assert_eq!(root.plans_dir(), "/repo/.ash/plans");
    assert_eq!(root.index_file(), "/repo/.ash/INDEX.md");
    assert_eq!(root.changelog_file(), "/repo/.ash/CHANGELOG.log");
    assert_eq!(root.learnings_file(), "/repo/.ash/LEARNINGS.md");
    assert_eq!(root.skills_dir(), "/repo/.agents/skills");
    let vendor = Vendor { label: "agent".to_string() };
    assert_eq!(root.wired_dir(&vendor), "/repo/.agent/skills");
    assert_eq!(root.commands_dir(&vendor), "/repo/.agent/commands");
    assert_eq!(
        root.relative("/repo/.ash/plans/260919-qwerty-x/README.md"),
        ".ash/plans/260919-qwerty-x/README.md"
    );
}

#[test]
fn a_path_outside_the_root_is_shown_whole() {
    let root = CorpusRoot::new("/repo");
    assert_eq!(root.relative("/elsewhere/file"), "/elsewhere/file");
    assert_eq!(root.relative("/repository/file"), "/repository/file");
    assert_eq!(root.relative("/repo"), "");
}

#[test]
fn ancestors_walk_up_to_the_root() {
    assert_eq!(ancestors("/r/src/core"), vec!["/r/src/core", "/r/src", "/r", "/"]);
    assert_eq!(ancestors("a/b"), vec!["a/b", "a", ""]);
}

#[test]
fn discovery_walks_up_to_the_directory_holding_dot_ash() {
    let deep = "/r/src/core/harness";
    let holds: Vec<bool> = ancestors(deep).iter().map(|p| p == "/r").collect();
    let found = CorpusRoot::discover(deep, &holds).expect("a corpus above");
    assert_eq!(found.path(), "/r");
}

#[test]
fn a_tree_with_no_dot_ash_is_not_a_corpus() {
    assert!(CorpusRoot::discover("/r/src", &[false, false, false]).is_none());
    assert!(CorpusRoot::discover("/r/src", &[]).is_none());
}

#[test]
fn a_corpus_needs_no_manifest_beside_it() {
    let found = CorpusRoot::discover("/r", &[true]).expect("the start itself holds one");
    assert_eq!(found.path(), "/r");
}

#[test]
fn an_explicit_path_is_taken_either_way_round() {
    let by_root = CorpusRoot::at("/r", true, true).expect("the root");
    let by_ash = CorpusRoot::at("/r/.ash", true, false).expect("the .ash directory");
    assert_eq!(by_root.path(), "/r");
    assert_eq!(by_ash.path(), "/r");
    assert!(CorpusRoot::at("/r", true, false).is_none());
}

#[test]
fn an_explicit_root_with_no_corpus_is_an_error_naming_the_path() {
    let empty = Located { path: "/tmp/empty".to_string(), is_dir: true, holds_ash: false };
    let err = CorpusRoot::resolve(Some(&empty), None, "/r", &[true]).unwrap_err();
    assert!(err.contains("/tmp/empty"), "{err}");
}

#[test]
fn the_env_override_wins_over_discovery() {
    let env = Located { path: "/elsewhere/.ash".to_string(), is_dir: true, holds_ash: false };
    let resolved = CorpusRoot::resolve(None, Some(&env), "/r", &[true]).unwrap();
    assert_eq!(resolved.path(), "/elsewhere");
    let bad = Located { path: "/nowhere".to_string(), is_dir: false, holds_ash: false };
    let err = CorpusRoot::resolve(None, Some(&bad), "/r", &[true]).unwrap_err();
    assert_eq!(err, "PINST_ASH_DIR points at /nowhere, which has no .ash/");
    let from_cwd = CorpusRoot::resolve(None, None, "/r/src", &[false, true]).unwrap();
    assert_eq!(from_cwd.path(), "/r");
    let none = CorpusRoot::resolve(None, None, "/r/src", &[]).unwrap_err();
    assert_eq!(none, "no .ash/ in /r/src or any parent directory");
}
