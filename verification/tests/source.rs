use pinst::harness::asset::resolve_source;
use pinst::source::{candidate, checkout_roots, resolve, Checkout, Source};

fn tree_of(s: &Source) -> Option<&str> {
    match s {
        Source::Tree(p) => Some(p.as_str()),
        Source::Embedded => None,
    }
}

#[test]
fn override_pointing_at_the_parent_finds_the_subdir() {
    assert_eq!(candidate("/r", "docs/tools"), "/r/docs/tools");
}

#[test]
fn override_pointing_straight_at_the_subdir_is_taken_as_is() {
    assert_eq!(candidate("/r/configs", "configs"), "/r/configs");
    assert_eq!(candidate("/r/docs/tools", "docs/tools"), "/r/docs/tools");
    assert_eq!(candidate("/r/myconfigs", "configs"), "/r/myconfigs/configs");
}

#[test]
fn a_directory_without_a_manifest_beside_it_is_not_a_checkout() {
    let found = resolve(None, &[Checkout { has_manifest: false, subdir_tree: Some("/home/u/configs".to_string()) }]);
    assert!(tree_of(&found).is_none());
}

#[test]
fn a_checkout_without_the_subdir_is_not_a_tree() {
    let found = resolve(None, &[Checkout { has_manifest: true, subdir_tree: None }]);
    assert!(tree_of(&found).is_none());
}

#[test]
fn the_override_wins_then_the_first_checkout_then_the_embedded_copy() {
    let checkouts = vec![
        Checkout { has_manifest: false, subdir_tree: None },
        Checkout { has_manifest: true, subdir_tree: Some("/src/pinst/.agents".to_string()) },
        Checkout { has_manifest: true, subdir_tree: Some("/other/.agents".to_string()) },
    ];
    let by_override = resolve_source(Some("/explicit/.agents".to_string()), &checkouts);
    assert_eq!(tree_of(&by_override), Some("/explicit/.agents"));
    let by_checkout = resolve_source(None, &checkouts);
    assert_eq!(tree_of(&by_checkout), Some("/src/pinst/.agents"));
    assert!(resolve_source(None, &[]).describe() == "embedded in binary");
}

#[test]
fn checkouts_are_looked_for_here_and_above_the_binary() {
    assert_eq!(checkout_roots(None), vec!["."]);
    assert_eq!(
        checkout_roots(Some("/src/pinst/target/release/pinst")),
        vec![".", "/src/pinst/target/release", "/src/pinst/target", "/src/pinst", "/src"]
    );
    assert_eq!(checkout_roots(Some("/usr/bin/pinst")), vec![".", "/usr/bin", "/usr", "/"]);
}
