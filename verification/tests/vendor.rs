use pinst::harness::vendor::Vendor;

fn known() -> Vec<Vendor> {
    vec![Vendor { label: "agent".to_string() }, Vendor { label: "other".to_string() }]
}

#[test]
fn a_runtime_s_directories_hang_off_its_dot_directory() {
    let v = Vendor { label: "agent".to_string() };
    assert_eq!(v.root_name(), ".agent");
    assert_eq!(v.skills_dir("/repo"), "/repo/.agent/skills");
    assert_eq!(v.commands_dir("/repo"), "/repo/.agent/commands");
    assert_eq!(v.skills_dir("/home/u/"), "/home/u/.agent/skills");
}

#[test]
fn parse_round_trips_the_label() {
    let all = known();
    for v in &all {
        let parsed = Vendor::parse(v.label(), &all).expect("a known label parses");
        assert_eq!(parsed.label(), v.label());
    }
    assert!(Vendor::parse("nonsense", &all).is_none());
}
