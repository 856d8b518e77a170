use pinst::manifest::{Detect, Install, PlatformOverride, Tool, UpgradeSpec};
use pinst::platform::Platform;
use pinst::upgrade::{
    brew_upstream_of, compare, finish_check, in_manifest_order, plan_check, upstream_of, Cache, CacheEntry, CheckStep,
    UpgradeCheck, UpgradeCheckState, TTL_SECS,
};

fn tool(name: &str, install: Install) -> Tool {
    Tool {
        name: name.to_string(),
        summary: String::new(),
        tags: Vec::new(),
        requires: Vec::new(),
        detect: Detect {
            command: format!("command -v {name}"),
            bin: Some(name.to_string()),
            version_cmd: None,
            version_regex: None,
        },
        help_cmd: None,
        install,
        upgrade: None,
        post_install: Vec::new(),
        platform_overrides: Vec::new(),
    }
}

fn curl() -> Tool {
    tool("curl", Install::Apt { packages: vec!["curl".to_string()] })
}

#[test]
fn apt_epoch_and_revision_decoration_does_not_invent_an_upgrade() {
    let spec = UpgradeSpec::Apt { package: "curl".to_string() };
    let result = compare(
        &curl(),
        &spec,
        Some("7.81.0".to_string()),
        Some("4:7.81.0-1ubuntu1.20".to_string()),
        false,
    );
    assert!(!result.upgrade_available);
}

#[test]
fn brew_revision_suffix_does_not_invent_an_upgrade() {
    let spec = UpgradeSpec::Brew { formula: "git-delta".to_string() };
    let result = compare(&curl(), &spec, Some("14.1.0".to_string()), Some("14.1.0_1".to_string()), false);
    assert!(!result.upgrade_available);
}

#[test]
fn a_genuinely_newer_brew_version_is_still_an_upgrade() {
    let spec = UpgradeSpec::Brew { formula: "git-delta".to_string() };
    let result = compare(&curl(), &spec, Some("14.1.0".to_string()), Some("14.2.0".to_string()), false);
    assert!(result.upgrade_available);
}

#[test]
fn upstream_parts_strip_only_packaging_decoration() {
    assert_eq!(upstream_of("4:15.2.0-5ubuntu1"), "15.2.0");
    assert_eq!(upstream_of("5.9-8ubuntu3"), "5.9");
    assert_eq!(upstream_of("1.2.3"), "1.2.3");
    assert_eq!(brew_upstream_of("14.1.0_1"), "14.1.0");
    assert_eq!(brew_upstream_of("1.0_beta"), "1.0_beta");
    assert_eq!(brew_upstream_of("1.0_"), "1.0_");
    // A GitHub tag is compared whole: stripping `-rc1` would invent an upgrade.
    let spec = UpgradeSpec::GithubRelease { repo: "o/r".to_string() };
    let result = compare(&curl(), &spec, Some("1.2.0".to_string()), Some("1.2.0-rc1".to_string()), true);
    assert!(result.upgrade_available);
    assert!(result.unpinnable);
    assert_eq!(result.tool, "curl");
}

#[test]
fn cached_checks_skip_lookup_while_forced_checks_replace_them() {
    let tool = curl();
    let now = 1_000_000u64;
    let mut cache = Cache::new();
    cache.insert(tool.name.clone(), CacheEntry { latest: Some("99.0.0".to_string()), checked_at: now });

    let cached = cache.get("curl").map(|e| CacheEntry { latest: e.latest.clone(), checked_at: e.checked_at });
    match plan_check(&tool, None, cached, false, Platform::Linux, now + 10) {
        CheckStep::Done(check) => {
            assert_eq!(check.state, UpgradeCheckState::Cached);
            assert_eq!(check.result.unwrap().latest.as_deref(), Some("99.0.0"));
        }
        CheckStep::Lookup { .. } => panic!("a fresh cache entry must not be looked up"),
    }

    let cached = cache.get("curl").map(|e| CacheEntry { latest: e.latest.clone(), checked_at: e.checked_at });
    let spec = match plan_check(&tool, None, cached, true, Platform::Linux, now + 10) {
        CheckStep::Lookup { spec, .. } => spec,
        CheckStep::Done(_) => panic!("a forced check must look up"),
    };
    let (check, entry) = finish_check(&tool, &spec, None, Some("100.0.0".to_string()), false, now + 20);
    assert_eq!(check.state, UpgradeCheckState::Checked);
    let entry = entry.expect("an answer is cached");
    cache.insert(check.tool.clone(), entry);
    assert_eq!(cache.get("curl").unwrap().latest.as_deref(), Some("100.0.0"));
    assert_eq!(cache.get("curl").unwrap().checked_at, now + 20);
}

#[test]
fn an_expired_entry_is_looked_up_again_and_no_answer_is_not_cached() {
    let tool = curl();
    let stale = Some(CacheEntry { latest: Some("1.0".to_string()), checked_at: 0 });
    assert!(matches!(
        plan_check(&tool, None, stale, false, Platform::Linux, TTL_SECS),
        CheckStep::Lookup { .. }
    ));
    let spec = UpgradeSpec::Apt { package: "curl".to_string() };
    let (check, entry) = finish_check(&tool, &spec, Some("1.0".to_string()), None, false, 5);
    assert_eq!(check.state, UpgradeCheckState::Unavailable);
    assert!(entry.is_none());
    assert!(!check.result.unwrap().upgrade_available);
}

#[test]
fn stale_lookups_are_bounded_and_results_keep_manifest_order() {
    let order: Vec<String> = (0..8).map(|index| format!("tool-{index}")).collect();
    let completed: Vec<UpgradeCheck> = [5, 2, 7, 0, 1, 6, 3, 4]
        .iter()
        .map(|index| UpgradeCheck {
            tool: format!("tool-{index}"),
            result: None,
            state: UpgradeCheckState::Checked,
        })
        .collect();
    let checks = in_manifest_order(&order, &completed);
    let names: Vec<&str> = checks.iter().map(|check| check.tool.as_str()).collect();
    assert_eq!(
        names,
        ["tool-0", "tool-1", "tool-2", "tool-3", "tool-4", "tool-5", "tool-6", "tool-7"]
    );
    assert_eq!(pinst::upgrade::MAX_CONCURRENT_LOOKUPS, 4);
}

#[test]
fn unsupported_and_uncheckable_tools_reach_terminal_states() {
    let mut homebrew = tool("homebrew", Install::Shell { command: "install-brew".to_string() });
    homebrew.platform_overrides = vec![(
        "linux".to_string(),
        PlatformOverride {
            detect: None,
            install: None,
            upgrade: None,
            requires: None,
            post_install: None,
            unsupported: Some("use the system package manager".to_string()),
        },
    )];
    let mut rust = tool("rust", Install::Shell { command: "rustup-init".to_string() });
    rust.upgrade = Some(UpgradeSpec::NoCheck {});

    match plan_check(&homebrew, None, None, true, Platform::Linux, 0) {
        CheckStep::Done(check) => {
            assert_eq!(check.state, UpgradeCheckState::Unsupported);
            assert!(check.result.is_none());
        }
        CheckStep::Lookup { .. } => panic!("nothing to look up"),
    }
    match plan_check(&rust, Some("1.80.0".to_string()), None, true, Platform::Linux, 0) {
        CheckStep::Done(check) => {
            assert_eq!(check.state, UpgradeCheckState::NotApplicable);
            let result = check.result.unwrap();
            assert!(!result.upgrade_available);
            assert!(result.unpinnable);
        }
        CheckStep::Lookup { .. } => panic!("nothing to look up"),
    }
}

#[test]
fn the_latest_lts_is_the_first_release_with_a_line_name() {
    let index = vec![
        pinst::upgrade::DistRelease { lts: Some(false), version: Some("v23.1.0".to_string()) },
        pinst::upgrade::DistRelease { lts: None, version: Some("v22.9.0".to_string()) },
        pinst::upgrade::DistRelease { lts: Some(true), version: Some("v22.11.0".to_string()) },
        pinst::upgrade::DistRelease { lts: Some(true), version: Some("v20.18.0".to_string()) },
    ];
    assert_eq!(pinst::upgrade::nvm_latest_lts(&index), Some("22.11.0".to_string()));
    assert_eq!(pinst::upgrade::nvm_latest_lts(&index[..2]), None);
    assert_eq!(pinst::upgrade::github_latest(Some("v1.2.3")), Some("1.2.3".to_string()));
    assert_eq!(pinst::upgrade::github_latest(None), None);
    assert_eq!(pinst::upgrade::brew_latest(&[Some("0.18.2".to_string()), None]), Some("0.18.2".to_string()));
    assert_eq!(pinst::upgrade::brew_latest(&[]), None);
}

#[test]
fn the_platform_is_explicit_then_env_then_host() {
    let p = pinst::platform::Platform::resolve;
    assert_eq!(p(Some(pinst::platform::Platform::MacOS), Some("linux"), pinst::platform::Platform::Linux).ok(), Some(pinst::platform::Platform::MacOS));
    assert_eq!(p(None, Some("macos"), pinst::platform::Platform::Linux).ok(), Some(pinst::platform::Platform::MacOS));
    assert_eq!(p(None, None, pinst::platform::Platform::Linux).ok(), Some(pinst::platform::Platform::Linux));
    assert_eq!(p(None, Some("windows"), pinst::platform::Platform::Linux).unwrap_err().message(), "unrecognized PINST_PLATFORM 'windows'");
}

#[test]
fn brew_output_is_read_for_the_first_formula_s_stable_version() {
    let out = r#"{"formulae":[{"name":"git-delta","versions":{"stable":"0.18.2","head":null}}],"casks":[]}"#;
    assert_eq!(pinst::upgrade::brew_latest_from_output(out), Some("0.18.2".to_string()));
    assert_eq!(pinst::upgrade::brew_latest_from_output(r#"{"formulae":[]}"#), None);
    assert_eq!(pinst::upgrade::brew_latest_from_output("Error: no such formula"), None);
}
