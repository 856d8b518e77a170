use pinst::manifest::{Detect, Install, Tool};
use pinst::platform::Platform;
use pinst::probe::{extract, finish_probe};

#[test]
fn extracts_semver_from_typical_output() {
    assert_eq!(extract("zsh 5.9 (x86_64-ubuntu-linux-gnu)", None), Some("5.9".to_string()));
    assert_eq!(extract("git version 2.43.0", None), Some("2.43.0".to_string()));
    assert_eq!(extract("node v20.11.0", None), Some("20.11.0".to_string()));
}

#[test]
fn returns_none_for_unparseable_output() {
    assert_eq!(extract("no version info here", None), None);
}

#[test]
fn a_declared_pattern_replaces_the_default_and_a_broken_one_finds_nothing() {
    assert_eq!(extract("tool 1.2.3 build 45", Some(r"build (\d+)")), Some("45".to_string()));
    assert_eq!(extract("tool 1.2.3", Some("(unclosed")), None);
}

fn ripgrep(install: Install) -> Tool {
    Tool {
        name: "ripgrep".to_string(),
        summary: String::new(),
        tags: Vec::new(),
        requires: Vec::new(),
        detect: Detect {
            command: "command -v rg".to_string(),
            bin: Some("rg".to_string()),
            version_cmd: Some("rg --version".to_string()),
            version_regex: None,
        },
        help_cmd: None,
        install,
        upgrade: None,
        post_install: Vec::new(),
        platform_overrides: Vec::new(),
    }
}

#[test]
fn a_probe_reads_the_version_only_of_an_installed_tool() {
    let tool = ripgrep(Install::Apt { packages: vec!["ripgrep".to_string()] });
    let found = finish_probe(&tool, Platform::Linux, true, Some("ripgrep 14.1.0\n"), Some("/usr/bin/rg".to_string()));
    assert!(found.installed);
    assert_eq!(found.version.as_deref(), Some("14.1.0"));
    assert_eq!(found.path.as_deref(), Some("/usr/bin/rg"));
    let missing = finish_probe(&tool, Platform::Linux, false, Some("ripgrep 14.1.0\n"), None);
    assert!(!missing.installed);
    assert_eq!(missing.version, None);
    // apt is Linux-only: on macOS the tool has nothing to detect.
    let elsewhere = finish_probe(&tool, Platform::MacOS, true, Some("ripgrep 14.1.0"), Some("/x".to_string()));
    assert!(!elsewhere.installed);
    assert_eq!(elsewhere.version, None);
    assert_eq!(elsewhere.path, None);
}
