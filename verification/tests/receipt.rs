use pinst::harness::install::receipt::{rfc3339, state_dir_from, Receipt, ReceiptScope};

#[test]
fn project_and_global_receipts_never_share_a_path() {
    let project = Receipt::path_for(ReceiptScope::Project, "/repo", "/home/u/.local/state");
    let global = Receipt::path_for(ReceiptScope::Global, "/repo", "/home/u/.local/state");
    assert_eq!(project, "/repo/.ash/harness.json");
    assert_eq!(global, "/home/u/.local/state/pinst/harness.json");
    assert_ne!(project, global);
}

#[test]
fn xdg_state_home_is_honoured_when_set() {
    assert_eq!(state_dir_from(Some("/xdg"), "/home/u"), "/xdg");
    assert_eq!(state_dir_from(Some(""), "/home/u"), "/home/u/.local/state");
    assert_eq!(state_dir_from(None, "/home/u"), "/home/u/.local/state");
}

#[test]
fn timestamps_are_utc_rfc3339() {
    assert_eq!(rfc3339(0), "1970-01-01T00:00:00Z");
    assert_eq!(rfc3339(1_789_814_523), "2026-09-19T10:42:03Z");
}
