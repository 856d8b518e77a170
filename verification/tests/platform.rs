use pinst::manifest::Install;
use pinst::platform::Platform;

#[test]
fn apt_is_linux_only_everything_else_is_admitted() {
    let apt = Install::Apt {
        packages: vec!["x".into()],
    };
    assert!(Platform::Linux.admits(&apt));
    assert!(!Platform::MacOS.admits(&apt));

    let cargo = Install::Cargo {
        crate_name: "x".into(),
    };
    assert!(Platform::Linux.admits(&cargo));
    assert!(Platform::MacOS.admits(&cargo));
}

#[test]
fn brew_is_macos_only() {
    let brew = Install::Brew {
        formulae: vec!["x".into()],
        cask: false,
    };
    assert!(!Platform::Linux.admits(&brew));
    assert!(Platform::MacOS.admits(&brew));
}

#[test]
fn a_platform_key_parses_back() {
    for p in [Platform::Linux, Platform::MacOS] {
        assert_eq!(Platform::from_key(p.key()), Some(p));
    }
    assert_eq!(Platform::from_key("windows"), None);
}
