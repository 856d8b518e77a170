use pinst::doctor::Severity;
use pinst::harness::asset::AssetKind;
use pinst::harness::install::check::{check_skill_source, check_wiring, unquoted_values, DirEntry, Wiring};
use pinst::harness::install::state::AssetState;

const ROOT: &str = "/p/.agents";

fn wiring(kind: AssetKind, name: &str, state: AssetState) -> Wiring {
    let target = match kind {
        AssetKind::Skill => format!("/p/.vendor/skills/{name}"),
        AssetKind::Command => format!("/p/.vendor/commands/{name}.md"),
    };
    Wiring { kind, name: name.to_string(), target, state: Some(state) }
}

fn entry(path: &str, is_symlink: bool) -> DirEntry {
    DirEntry { path: path.to_string(), is_symlink }
}

fn ids(findings: &[pinst::doctor::Finding]) -> Vec<&str> {
    findings.iter().map(|f| f.id.as_str()).collect()
}

#[test]
fn a_healthy_source_and_a_fresh_wiring_report_nothing_but_missing() {
    let source = check_skill_source(ROOT, "demo", Some("---\nname: demo\ndescription: a test skill\n---\nbody\n"));
    assert!(source.is_empty(), "{:?}", ids(&source));
    let findings = check_wiring(
        &[wiring(AssetKind::Skill, "demo", AssetState::Missing), wiring(AssetKind::Command, "demo", AssetState::Missing)],
        &[],
        &[],
    );
    assert_eq!(findings.len(), 2, "{:?}", ids(&findings));
    assert!(findings.iter().all(|f| f.id.starts_with("wire.missing.")));
    assert_eq!(
        findings[1].remediation,
        "run: pinst harness install --scope project --command demo --drift overwrite"
    );
}

#[test]
fn a_skill_with_no_skill_md_is_no_manifest() {
    let findings = check_skill_source(ROOT, "ghost", None);
    assert!(findings.iter().any(|f| f.id == "skill.no-manifest.ghost"), "{:?}", ids(&findings));
    assert_eq!(findings[0].message, "/p/.agents/skills/ghost has no SKILL.md");
}

#[test]
fn a_name_mismatch_and_a_missing_description_are_both_reported() {
    let findings = check_skill_source(ROOT, "foo", Some("---\nname: bar\n---\n"));
    assert!(findings.iter().any(|f| f.id == "skill.name-mismatch.foo"));
    assert!(findings.iter().any(|f| f.id == "skill.no-description.foo"));
    assert_eq!(
        findings[0].message,
        "/p/.agents/skills/foo/SKILL.md declares name 'bar' but lives in 'foo/'"
    );
}

#[test]
fn an_unquoted_colon_space_value_is_a_warning() {
    let findings = check_skill_source(ROOT, "foo", Some("---\nname: foo\ndescription: type(scope): subject\n---\n"));
    let hit = findings
        .iter()
        .find(|f| f.id == "skill.unquoted-value.foo")
        .expect("expected an unquoted-value warning");
    assert_eq!(hit.severity, Severity::Warning);
    assert!(hit.message.ends_with("are not quoted: description"), "{}", hit.message);
}

#[test]
fn a_quoted_value_with_a_colon_is_not_flagged() {
    let findings = check_skill_source(ROOT, "foo", Some("---\nname: foo\ndescription: 'type(scope): subject'\n---\n"));
    assert!(!findings.iter().any(|f| f.id.starts_with("skill.unquoted-value")));
}

#[test]
fn unquoted_values_lists_every_key_and_stops_at_the_fence() {
    assert_eq!(
        unquoted_values("---\na: x: y\nB: x: y\nc: \"x: y\"\nd_e: p: q\n---\nf: x: y\n"),
        Some("a d_e".to_string())
    );
    assert_eq!(unquoted_values("no fence\na: x: y\n"), None);
    assert_eq!(unquoted_values("---\na: fine\n---\n"), None);
}

#[test]
fn a_correctly_linked_asset_reports_nothing() {
    let findings = check_wiring(
        &[wiring(AssetKind::Skill, "demo", AssetState::Linked), wiring(AssetKind::Command, "demo", AssetState::Linked)],
        &[entry("/p/.vendor/skills/demo", true)],
        &[entry("/p/.vendor/commands/demo.md", true)],
    );
    assert!(findings.is_empty(), "{:?}", ids(&findings));
}

#[test]
fn a_real_file_where_a_link_belongs_is_not_a_link() {
    let findings = check_wiring(&[wiring(AssetKind::Skill, "demo", AssetState::Drifted)], &[entry("/p/.vendor/skills/demo", false)], &[]);
    assert!(findings.iter().any(|f| f.id == "wire.not-a-link.demo"), "{:?}", ids(&findings));
}

#[test]
fn a_dangling_symlink_is_broken() {
    let findings = check_wiring(&[wiring(AssetKind::Skill, "demo", AssetState::Foreign)], &[entry("/p/.vendor/skills/demo", true)], &[]);
    assert!(findings.iter().any(|f| f.id == "wire.broken.demo"), "{:?}", ids(&findings));
    assert_eq!(findings[0].message, "/p/.vendor/skills/demo is a symlink that does not resolve to the harness source");
}

#[test]
fn an_orphan_link_and_an_unmanaged_directory_are_told_apart() {
    let findings = check_wiring(
        &[wiring(AssetKind::Skill, "demo", AssetState::Linked)],
        &[
            entry("/p/.vendor/skills/demo", true),
            entry("/p/.vendor/skills/gone", true),
            entry("/p/.vendor/skills/someones-own", false),
        ],
        &[entry("/p/.vendor/commands/notes.txt", false), entry("/p/.vendor/commands/old.md", true)],
    );
    assert_eq!(
        ids(&findings),
        ["wire.orphan.gone", "wire.unmanaged.someones-own", "wire.orphan.old"]
    );
    assert!(findings.iter().all(|f| f.severity == Severity::Warning));
}
