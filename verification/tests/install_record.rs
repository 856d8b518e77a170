use pinst::harness::install::receipt::{Entry, LinkStyle, Receipt, ReceiptScope};
use pinst::harness::install::record::{record_install, record_uninstall, UninstallOutcome};
use pinst::harness::install::state::AssetKindLabel;
use pinst::plan::{Outcome, StepKind, StepReport};

fn report(id: &str, outcome: Outcome) -> StepReport {
    StepReport {
        id: id.to_string(),
        tool: None,
        kind: StepKind::Config,
        description: id.to_string(),
        outcome,
        detail: None,
        commands: Vec::new(),
    }
}

fn entry(name: &str) -> Entry {
    Entry { kind: AssetKindLabel::Skill, name: name.to_string(), path: format!("/p/{name}"), style: LinkStyle::Copy }
}

fn receipt(entries: Vec<Entry>) -> Receipt {
    Receipt::new(ReceiptScope::Project, "vendor", "embedded", entries, "2026-09-19T00:00:00Z".to_string(), "0.1.0")
}

#[test]
fn record_install_writes_nothing_when_a_step_failed() {
    let reports = vec![
        report("harness:skill:demo", Outcome::Ran),
        report("harness:skill:other", Outcome::Failed),
    ];
    assert!(record_install(Vec::new(), &reports, ReceiptScope::Project, false, "/p/s", "/p/c").is_none());
}

#[test]
fn record_install_merges_with_an_existing_receipt() {
    let reports = vec![report("harness:skill:new-one", Outcome::Ran)];
    let entries = record_install(vec![entry("existing")], &reports, ReceiptScope::Project, false, "/p/s", "/p/c").unwrap();
    assert_eq!(entries.len(), 2);
    assert!(entries.iter().any(|e| e.name == "existing"));
    let added = entries.iter().find(|e| e.name == "new-one").unwrap();
    assert_eq!(added.path, "/p/s/new-one");
    assert_eq!(added.style, LinkStyle::Copy);
}

#[test]
fn a_project_install_from_a_checkout_is_recorded_as_links_and_replaces_its_old_entry() {
    let reports = vec![
        report("harness:command:demo", Outcome::Skipped),
        report("harness:skill:existing", Outcome::Ran),
        report("not-a-harness-step", Outcome::Ran),
    ];
    let entries = record_install(vec![entry("existing")], &reports, ReceiptScope::Project, true, "/p/s", "/p/c").unwrap();
    let names: Vec<&str> = entries.iter().map(|e| e.name.as_str()).collect();
    assert_eq!(names, ["demo", "existing"]);
    assert_eq!(entries[0].path, "/p/c/demo.md");
    assert!(entries.iter().all(|e| e.style == LinkStyle::Symlink));
}

#[test]
fn record_uninstall_deletes_the_receipt_once_it_is_empty() {
    let reports = vec![report("harness:skill:demo", Outcome::Ran)];
    let (left, outcome) = record_uninstall(receipt(vec![entry("demo")]), &reports, false);
    assert_eq!(outcome, UninstallOutcome::DeletedEmpty);
    assert!(left.entries.is_empty());
}

#[test]
fn record_uninstall_keeps_the_rest_after_a_partial_run() {
    let reports = vec![report("harness:skill:a", Outcome::Ran)];
    let (left, outcome) = record_uninstall(receipt(vec![entry("a"), entry("b")]), &reports, false);
    assert_eq!(outcome, UninstallOutcome::Updated);
    assert_eq!(left.entries.len(), 1);
    assert_eq!(left.entries[0].name, "b");

    let (_, outcome) = record_uninstall(receipt(vec![entry("a"), entry("b")]), &reports, true);
    assert_eq!(outcome, UninstallOutcome::Purged);
}
