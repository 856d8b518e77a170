use pinst::health::{
    check_files, check_tool_paths, dotfiles_packages, link_status, LinkStatus, PackageListing, TargetFound, ToolPathStatus,
};
use pinst::probe::ProbeResult;
use pinst::registry::{apt_candidate, cargo_search_version, strategy_for, strip_v, InstallMethod, ToolSpec, UpgradeStrategy};

fn spec(name: &str, method: InstallMethod, repo: Option<&str>, bin: Option<&str>) -> ToolSpec {
    ToolSpec {
        name: name.to_string(),
        package: name.to_string(),
        check_cmd: format!("command -v {name}"),
        version_cmd: None,
        version_regex: None,
        bin_name: bin.map(str::to_string),
        install_method: method,
        apt_package: None,
        cargo_crate: None,
        github_repo: repo.map(str::to_string),
    }
}

#[test]
fn the_strategy_follows_the_install_method() {
    assert_eq!(strategy_for(&spec("zsh", InstallMethod::Apt, None, None)), UpgradeStrategy::Apt);
    assert_eq!(strategy_for(&spec("fd", InstallMethod::Cargo, None, None)), UpgradeStrategy::Cargo);
    assert_eq!(strategy_for(&spec("node", InstallMethod::Nvm, None, None)), UpgradeStrategy::Nvm);
    assert_eq!(strategy_for(&spec("x", InstallMethod::CurlScript, Some("o/x"), None)), UpgradeStrategy::GithubRelease);
    assert_eq!(strategy_for(&spec("y", InstallMethod::CurlScript, None, None)), UpgradeStrategy::Unsupported);
}

#[test]
fn lookup_output_is_read_the_way_each_tool_prints_it() {
    let policy = "zsh:\n  Installed: 5.8-6\n  Candidate: (none)\n  Candidate: 5.9-8ubuntu3\n";
    assert_eq!(apt_candidate(policy), Some("5.9-8ubuntu3".to_string()));
    assert_eq!(apt_candidate("zsh:\n  Candidate: (none)\n"), None);
    assert_eq!(
        cargo_search_version("ripgrep = \"14.1.0\"    # fast grep\nother = \"1\""),
        Some("14.1.0".to_string())
    );
    assert_eq!(cargo_search_version("no quotes here"), None);
    assert_eq!(cargo_search_version(""), None);
    assert_eq!(strip_v("v1.2.3"), "1.2.3");
    assert_eq!(strip_v("vv2"), "2");
    assert_eq!(strip_v("1.0"), "1.0");
}

#[test]
fn the_package_list_comes_from_the_justfile_or_the_default() {
    let justfile = "# comment\npackages := \"nvim zsh git\"\nother := 1\n";
    assert_eq!(dotfiles_packages(Some(justfile)), ["nvim", "zsh", "git"]);
    assert_eq!(dotfiles_packages(Some("  packages   :=   a   b  \n")), ["a", "b"]);
    assert_eq!(dotfiles_packages(Some("packages := \"\"\n")), ["nvim", "zsh", "herdr", "git"]);
    assert_eq!(dotfiles_packages(None), ["nvim", "zsh", "herdr", "git"]);
}

#[test]
fn a_probe_answers_before_a_path_lookup_does() {
    let registry = vec![
        spec("probed", InstallMethod::Apt, None, Some("p")),
        spec("absent", InstallMethod::Apt, None, None),
        spec("found", InstallMethod::Apt, None, Some("f")),
        spec("unseen", InstallMethod::Apt, None, None),
    ];
    let probes = vec![
        ProbeResult { tool: "probed".to_string(), installed: false, version: None, path: None },
    ];
    let health = check_tool_paths(&registry, &probes, &vec![Some(true), None, Some(true), None]);
    let statuses: Vec<ToolPathStatus> = health.iter().map(|h| h.status).collect();
    assert_eq!(
        statuses,
        [ToolPathStatus::Missing, ToolPathStatus::Unknown, ToolPathStatus::OnPath, ToolPathStatus::Unknown]
    );
    assert_eq!(health[2].tool, "found");
}

#[test]
fn an_edited_registry_is_looked_for_by_env_then_home_then_here() {
    let candidates = pinst::registry::registry_candidates(Some("/etc/r.toml"), Some("/home/u"));
    assert_eq!(candidates, vec!["/etc/r.toml", "/home/u/.config/pinst/registry.toml", "registry.toml"]);
    assert_eq!(pinst::registry::registry_candidates(None, None), vec!["registry.toml"]);
    assert_eq!(
        pinst::registry::registry_source(&candidates, &[false, true, true]),
        Some("/home/u/.config/pinst/registry.toml".to_string())
    );
    assert_eq!(pinst::registry::registry_source(&candidates, &[false, false, false]), None);
}

#[test]
fn every_stow_target_is_classified_in_path_order() {
    assert_eq!(link_status(TargetFound::Absent), LinkStatus::Missing);
    assert_eq!(link_status(TargetFound::Symlink { points_at_source: false }), LinkStatus::Broken);
    assert_eq!(link_status(TargetFound::File { same_contents: true }), LinkStatus::Intact);
    let packages = vec![
        PackageListing {
            package: "zsh".to_string(),
            files: vec![
                (".zshrc".to_string(), TargetFound::Symlink { points_at_source: true }),
                (".config/zsh/a.zsh".to_string(), TargetFound::File { same_contents: false }),
            ],
        },
        PackageListing { package: "git".to_string(), files: vec![(".gitconfig".to_string(), TargetFound::Absent)] },
    ];
    let rows = check_files(&packages, "/home/u");
    let seen: Vec<(&str, &str, &str, LinkStatus)> =
        rows.iter().map(|h| (h.package.as_str(), h.relative_path.as_str(), h.target.as_str(), h.status)).collect();
    assert_eq!(
        seen,
        vec![
            ("zsh", ".config/zsh/a.zsh", "/home/u/.config/zsh/a.zsh", LinkStatus::Conflict),
            ("zsh", ".zshrc", "/home/u/.zshrc", LinkStatus::Intact),
            ("git", ".gitconfig", "/home/u/.gitconfig", LinkStatus::Missing),
        ]
    );
}
