use pinst::harness::install::receipt::ReceiptScope;
use pinst::harness::install::state::AssetState;
use pinst::harness::preview::Preview;
use pinst::upgrade::UpgradeCheckState as S;
use pinst::view::{modal_text, preview_section, state_label, upgrade_current, upgrade_row, upgrades_title, Tone};

fn texts(lines: &[Vec<(String, Tone)>]) -> Vec<String> {
    lines.iter().map(|l| l.iter().map(|(t, _)| t.as_str()).collect::<String>()).collect()
}

#[test]
fn each_state_has_one_label_and_tone() {
    assert_eq!(state_label(AssetState::Linked), ("ok", Tone::Good));
    assert_eq!(state_label(AssetState::Copied), ("ok", Tone::Good));
    assert_eq!(state_label(AssetState::Missing), ("missing", Tone::Bad));
    assert_eq!(state_label(AssetState::Foreign), ("drifted", Tone::Warn));
    assert_eq!(state_label(AssetState::Unmanaged), ("unmanaged", Tone::Muted));
}

#[test]
fn a_preview_section_shows_text_line_by_line_and_admits_a_cut() {
    let preview = Preview::Text { body: "a\nb\n".to_string(), total_bytes: 70000, truncated: true };
    let lines = preview_section("source", "/p/SKILL.md", &preview);
    assert_eq!(
        texts(&lines),
        ["source: /p/SKILL.md", "a", "b", "… truncated: showing first 65536 of 70000 bytes", ""]
    );
    assert_eq!(lines[3][0].1, Tone::Warn);
    let missing = preview_section("target", "/t", &Preview::Missing);
    assert_eq!(texts(&missing), ["target: /t", "(not installed — nothing at this path)", ""]);
    let binary = preview_section("target", "/t", &Preview::Binary { bytes: 12 });
    assert_eq!(texts(&binary)[1], "(binary content, 12 bytes)");
}

#[test]
fn the_confirmation_names_the_scope_and_the_step_count() {
    assert_eq!(
        modal_text(ReceiptScope::Project, true, false, Some(3)),
        "install all assets at project scope: 3 step(s)\ndrift: overwrite with backup\n\n[Enter] confirm   [Esc] cancel"
    );
    assert_eq!(
        modal_text(ReceiptScope::Global, false, true, None),
        "calculating uninstall selected asset for global scope...\n\n[Esc] cancel"
    );
}

fn check(state: S, available: bool) -> pinst::upgrade::UpgradeCheck {
    pinst::upgrade::UpgradeCheck {
        tool: "rg".to_string(),
        result: Some(pinst::upgrade::UpgradeResult {
            tool: "rg".to_string(),
            current: Some("14.0.0".to_string()),
            latest: Some("14.1.0".to_string()),
            upgrade_available: available,
            unpinnable: false,
        }),
        state,
    }
}

#[test]
fn an_upgrade_row_names_its_status_and_tone() {
    assert_eq!(upgrade_row(None, true), ("-".to_string(), "checking...", Tone::Muted));
    assert_eq!(upgrade_row(None, false), ("-".to_string(), "unavailable", Tone::Muted));
    let checked = check(S::Checked, true);
    assert_eq!(upgrade_row(Some(&checked), false), ("14.1.0".to_string(), "upgrade available", Tone::Warn));
    assert_eq!(upgrade_current(Some(&checked)), "14.0.0");
    let cached = check(S::Cached, false);
    assert_eq!(upgrade_row(Some(&cached), false), ("14.1.0".to_string(), "cached current", Tone::Good));
    let unsupported = check(S::Unsupported, false);
    assert_eq!(upgrade_row(Some(&unsupported), false), ("-".to_string(), "unsupported", Tone::Muted));
    let not_applicable = check(S::NotApplicable, false);
    assert_eq!(upgrade_row(Some(&not_applicable), false).1, "not checkable");
    assert_eq!(upgrade_current(None), "-");
}

#[test]
fn the_upgrades_title_counts_matches_and_checks() {
    assert_eq!(upgrades_title(true, true, 0, 3, 10), " Upgrades (3/10 checked) ");
    assert_eq!(upgrades_title(true, false, 1, 3, 10), " Upgrades (1 match, 3/10 checked) ");
    assert_eq!(upgrades_title(false, true, 2, 0, 10), " Upgrades ");
    assert_eq!(upgrades_title(false, false, 2, 0, 10), " Upgrades (2 matches) ");
}
