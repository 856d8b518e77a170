use pinst::harness::project::{git_top_from_output, InstallRoot};

#[test]
fn an_explicit_root_wins_over_everything() {
    let root = InstallRoot::resolve_from(Some("/wherever"), Some("/found"), Some("/top"), "/cwd");
    assert_eq!(root.path(), "/wherever");
}

#[test]
fn the_nearest_dot_ash_then_git_then_the_working_directory() {
    assert_eq!(
        InstallRoot::resolve_from(None, Some("/found"), Some("/top"), "/cwd").path(),
        "/found"
    );
    assert_eq!(
        InstallRoot::resolve_from(None, None, Some("/top"), "/cwd").path(),
        "/top"
    );
    assert_eq!(InstallRoot::resolve_from(None, None, None, "/cwd").path(), "/cwd");
}

#[test]
fn git_output_is_trimmed_and_blank_is_nothing() {
    assert_eq!(git_top_from_output("/repo\n"), Some("/repo".to_string()));
    assert_eq!(git_top_from_output("  \n"), None);
}
