use pinst::manifest::{Detect, Install, Manifest, Meta, PlatformOverride, Resolved, Tool, UpgradeSpec};
use pinst::platform::Platform;

fn tool(name: &str, install: Install) -> Tool {
    Tool {
        name: name.to_string(),
        summary: String::new(),
        tags: Vec::new(),
        requires: Vec::new(),
        detect: Detect { command: "true".to_string(), bin: None, version_cmd: None, version_regex: None },
        help_cmd: None,
        install,
        upgrade: None,
        post_install: Vec::new(),
        platform_overrides: Vec::new(),
    }
}

fn apt(name: &str) -> Tool {
    tool(name, Install::Apt { packages: vec![name.to_string()] })
}

fn no_override() -> PlatformOverride {
    PlatformOverride { detect: None, install: None, upgrade: None, requires: None, post_install: None, unsupported: None }
}

fn manifest(schema_version: u32, tools: Vec<Tool>) -> Manifest {
    Manifest { meta: Meta { schema_version }, tools, configs: Vec::new(), profile: Vec::new() }
}

fn parse(m: Manifest) -> Result<Manifest, String> {
    match m.validate() {
        Ok(()) => Ok(m),
        Err(e) => Err(e.message()),
    }
}

#[test]
fn rejects_duplicate_tool() {
    let err = parse(manifest(1, vec![apt("a"), apt("a")])).unwrap_err();
    assert!(err.contains("duplicate tool"), "{err}");
}

#[test]
fn rejects_unknown_dependency() {
    let mut a = apt("a");
    a.requires = vec!["ghost".to_string()];
    let err = parse(manifest(1, vec![a])).unwrap_err();
    assert!(err.contains("unknown tool 'ghost'"), "{err}");
}

#[test]
fn rejects_unsupported_schema_version() {
    let err = parse(manifest(99, Vec::new())).unwrap_err();
    assert!(err.contains("schema_version"), "{err}");
}

#[test]
fn derives_upgrade_spec_from_install_method() {
    let zsh = apt("zsh");
    assert!(matches!(zsh.upgrade_spec_for(Platform::Linux).unwrap(), UpgradeSpec::Apt { .. }));

    // curl-script installs only get a GitHub check when a repo is named.
    let script = |repo: Option<&str>| {
        tool(
            "script",
            Install::CurlScript {
                url: "https://example.com/install.sh".to_string(),
                shell: "sh".to_string(),
                args: Vec::new(),
                github_repo: repo.map(str::to_string),
            },
        )
    };
    assert!(matches!(script(None).upgrade_spec_for(Platform::Linux).unwrap(), UpgradeSpec::NoCheck {}));
    assert!(matches!(
        script(Some("astral-sh/uv")).upgrade_spec_for(Platform::Linux).unwrap(),
        UpgradeSpec::GithubRelease { .. }
    ));

    // An explicit override wins over the derived default.
    let mut rust = tool("rust", Install::Shell { command: "rustup-init".to_string() });
    rust.upgrade = Some(UpgradeSpec::NoCheck {});
    assert!(matches!(rust.upgrade_spec_for(Platform::Linux).unwrap(), UpgradeSpec::NoCheck {}));
}

#[test]
fn resolve_substitutes_only_the_overridden_fields() {
    let mut widget = apt("widget");
    widget.detect.command = "command -v widget".to_string();
    widget.detect.bin = Some("widget".to_string());
    let mut over = no_override();
    over.install = Some(Install::Cargo { crate_name: "widget-cli".to_string() });
    widget.platform_overrides = vec![("macos".to_string(), over)];
    let m = parse(manifest(1, vec![widget])).unwrap();
    let widget = m.tool("widget").unwrap();

    let Resolved::Supported(effective) = widget.resolve(Platform::MacOS) else {
        panic!("widget has a macos override and should resolve as supported");
    };
    assert!(matches!(effective.install, Install::Cargo { .. }));
    assert_eq!(effective.detect.command, "command -v widget");
}

#[test]
fn resolve_honors_an_explicit_unsupported_note() {
    let mut gizmo = tool("gizmo", Install::Shell { command: "echo hi".to_string() });
    let mut over = no_override();
    over.unsupported = Some("no macOS build exists yet".to_string());
    gizmo.platform_overrides = vec![("macos".to_string(), over)];
    let m = parse(manifest(1, vec![gizmo])).unwrap();
    let gizmo = m.tool("gizmo").unwrap();

    let Resolved::Unsupported(note) = gizmo.resolve(Platform::MacOS) else {
        panic!("gizmo declares itself unsupported on macos");
    };
    assert_eq!(note, "no macOS build exists yet");
    assert!(matches!(gizmo.resolve(Platform::Linux), Resolved::Supported(_)));
}

#[test]
fn resolve_generates_a_note_for_an_apt_tool_with_no_override() {
    let zsh = apt("zsh");
    let Resolved::Unsupported(note) = zsh.resolve(Platform::MacOS) else {
        panic!("zsh has no macos override and apt is not admitted there");
    };
    assert!(note.contains("zsh"), "{note}");
    assert!(note.contains("apt"), "{note}");
    assert_eq!(note, "zsh installs with apt, which macos does not have");

    let rust = tool("rust", Install::Shell { command: "rustup-init".to_string() });
    assert!(matches!(rust.resolve(Platform::Linux), Resolved::Supported(_)));
    assert!(matches!(rust.resolve(Platform::MacOS), Resolved::Supported(_)));
}

#[test]
fn upgrade_spec_follows_the_effective_install_not_the_base_override() {
    let mut delta = apt("delta");
    delta.upgrade = Some(UpgradeSpec::Apt { package: "git-delta".to_string() });
    let mut over = no_override();
    over.install = Some(Install::Brew { formulae: vec!["git-delta".to_string()], cask: false });
    delta.platform_overrides = vec![("macos".to_string(), over)];

    assert!(matches!(delta.upgrade_spec_for(Platform::Linux).unwrap(), UpgradeSpec::Apt { .. }));
    match delta.upgrade_spec_for(Platform::MacOS).unwrap() {
        UpgradeSpec::Brew { formula } => assert_eq!(formula, "git-delta"),
        other => panic!("expected UpgradeSpec::Brew, got {other:?}"),
    }
}

#[test]
fn rejects_unrecognized_platform_key() {
    let mut a = apt("a");
    let mut over = no_override();
    over.unsupported = Some("typo'd platform name".to_string());
    a.platform_overrides = vec![("darwin".to_string(), over)];
    let err = parse(manifest(1, vec![a])).unwrap_err();
    assert!(err.contains("unrecognized platform"), "{err}");
    assert!(err.contains("'a'"), "{err}");
}

#[test]
fn rejects_unsupported_combined_with_a_substituting_field() {
    let mut a = apt("a");
    let mut over = no_override();
    over.unsupported = Some("no macOS path".to_string());
    over.requires = Some(vec!["b".to_string()]);
    a.platform_overrides = vec![("macos".to_string(), over)];
    let err = parse(manifest(1, vec![a])).unwrap_err();
    assert!(err.contains("both 'unsupported'"), "{err}");
}

#[test]
fn the_method_name_is_the_one_in_effect_on_the_platform() {
    let mut t = apt("rg");
    let mut over = no_override();
    over.install = Some(Install::Cargo { crate_name: "ripgrep".to_string() });
    t.platform_overrides = vec![("linux".to_string(), over)];
    assert_eq!(t.method_name(Platform::Linux), "cargo");
    assert_eq!(t.method_name(Platform::MacOS), "apt");
}

#[test]
fn the_manifest_in_effect_is_explicit_then_env_then_home_then_here() {
    let src = |r: Result<pinst::manifest::ManifestSource, pinst::UsageError>| match r {
        Ok(s) => Ok(s.describe()),
        Err(u) => Err(u.message()),
    };
    assert_eq!(src(pinst::manifest::manifest_source(Some(("/m.toml", true)), None, None, false, false)), Ok("/m.toml".to_string()));
    assert_eq!(
        src(pinst::manifest::manifest_source(Some(("/m.toml", false)), Some(("/e.toml", true)), None, false, true)),
        Err("manifest not found: /m.toml".to_string())
    );
    assert_eq!(src(pinst::manifest::manifest_source(None, Some(("/e.toml", true)), Some("/h"), true, true)), Ok("/e.toml".to_string()));
    assert_eq!(
        src(pinst::manifest::manifest_source(None, Some(("/e.toml", false)), Some("/h"), true, true)),
        Ok("/h/.config/pinst/manifest.toml".to_string())
    );
    assert_eq!(src(pinst::manifest::manifest_source(None, None, Some("/h"), false, true)), Ok("manifest.toml".to_string()));
    assert_eq!(src(pinst::manifest::manifest_source(None, None, None, false, false)), Ok("<embedded>".to_string()));
}

#[test]
fn a_cycle_names_exactly_the_tools_it_leaves_unordered() {
    let mut a = apt("a");
    a.requires = vec!["b".to_string()];
    let mut b = apt("b");
    b.requires = vec!["a".to_string()];
    let mut c = apt("c");
    c.requires = vec!["a".to_string()];
    let d = apt("d");
    let err = parse(manifest(1, vec![d, a, b, c])).unwrap_err();
    assert_eq!(err, "dependency cycle among tools: a, b, c");
}
