use pinst::harness::transcripts::{bump, seen_for, Seen};

#[test]
fn counts_accumulate_per_skill_and_keep_the_latest_day() {
    let mut counts: Vec<(String, Seen)> = Vec::new();
    bump("plan-write", &Some("2026-09-19".to_string()), &mut counts);
    bump("plan-write", &Some("2026-09-18".to_string()), &mut counts);
    bump("conventional-commits", &None, &mut counts);
    bump("plan-write", &None, &mut counts);
    bump("conventional-commits", &Some("2026-09-20".to_string()), &mut counts);

    let plan = seen_for(&counts, "plan-write").unwrap();
    assert_eq!(plan.count, 3);
    assert_eq!(plan.last.as_deref(), Some("2026-09-19"));
    let cc = seen_for(&counts, "conventional-commits").unwrap();
    assert_eq!(cc.count, 2);
    assert_eq!(cc.last.as_deref(), Some("2026-09-20"));
    assert!(seen_for(&counts, "orchestrate").is_none());
    assert_eq!(counts.len(), 2);
}

use pinst::harness::transcripts::{referenced_skill, scan, scan_text, Block, Content};

fn known() -> Vec<String> {
    vec!["plan-write".to_string(), "conventional-commits".to_string()]
}

fn commands() -> Vec<(String, String)> {
    let text = "Read `.agents/skills/conventional-commits/SKILL.md` and follow it.\n";
    vec![("cc".to_string(), referenced_skill(text, &known()).unwrap())]
}

fn skill_call(name: &str) -> Content {
    Content::Blocks(vec![Block::SkillCall(Some(name.to_string()))])
}

#[test]
fn counts_tool_calls_and_slash_commands_alike() {
    let mut counts: Vec<(String, Seen)> = Vec::new();
    scan(&skill_call("plan-write"), &known(), &commands(), &Some("2026-09-18".to_string()), &mut counts);
    scan(&skill_call("plan-write"), &known(), &commands(), &Some("2026-09-19".to_string()), &mut counts);
    scan(
        &Content::Text("<command-name>/cc</command-name> please".to_string()),
        &known(),
        &commands(),
        &Some("2026-09-20".to_string()),
        &mut counts,
    );
    assert_eq!(seen_for(&counts, "plan-write").unwrap().count, 2);
    assert_eq!(seen_for(&counts, "plan-write").unwrap().last.as_deref(), Some("2026-09-19"));
    assert_eq!(seen_for(&counts, "conventional-commits").unwrap().count, 1);
    assert_eq!(seen_for(&counts, "conventional-commits").unwrap().last.as_deref(), Some("2026-09-20"));
}

#[test]
fn a_name_that_is_not_a_known_skill_is_never_emitted() {
    let mut counts: Vec<(String, Seen)> = Vec::new();
    let day = Some("2026-09-20".to_string());
    scan(&skill_call("../../etc/passwd"), &known(), &commands(), &day, &mut counts);
    scan(&Content::Text("<command-name>/not-a-command</command-name>".to_string()), &known(), &commands(), &day, &mut counts);
    assert!(counts.is_empty());
}

#[test]
fn malformed_input_degrades_rather_than_failing() {
    let mut counts: Vec<(String, Seen)> = Vec::new();
    scan(&Content::Blocks(vec![Block::SkillCall(None)]), &known(), &commands(), &None, &mut counts);
    scan(&Content::Other, &known(), &commands(), &None, &mut counts);
    scan(&Content::Text("<command-name>/cc".to_string()), &known(), &commands(), &None, &mut counts);
    scan(&skill_call("plan-write"), &known(), &commands(), &Some("2026-09-20".to_string()), &mut counts);
    assert_eq!(seen_for(&counts, "plan-write").unwrap().count, 1);
    assert_eq!(counts.len(), 1);
}

#[test]
fn a_record_without_a_timestamp_still_counts() {
    let mut counts: Vec<(String, Seen)> = Vec::new();
    scan(&skill_call("plan-write"), &known(), &commands(), &None, &mut counts);
    assert_eq!(seen_for(&counts, "plan-write").unwrap().count, 1);
    assert_eq!(seen_for(&counts, "plan-write").unwrap().last, None);
}

#[test]
fn several_markers_in_one_text_each_count_and_slashes_are_trimmed() {
    let mut counts: Vec<(String, Seen)> = Vec::new();
    let cmds = vec![("cc".to_string(), "conventional-commits".to_string())];
    scan_text("<command-name>cc</command-name> then <command-name>//cc</command-name>", &cmds, &None, &mut counts);
    assert_eq!(seen_for(&counts, "conventional-commits").unwrap().count, 2);
    assert_eq!(
        referenced_skill("see .agents/skills/Unknown and .agents/skills/plan-write/x", &known()),
        Some("plan-write".to_string())
    );
    assert_eq!(referenced_skill("nothing here", &known()), None);
}

#[test]
fn transcript_lines_are_read_as_records_and_counted() {
    let known = vec!["pinst".to_string(), "other".to_string()];
    let commands = vec![("ship".to_string(), "other".to_string())];
    let lines = vec![
        r#"{"timestamp":"2026-09-19T10:00:00Z","message":{"content":[{"type":"tool_use","name":"Skill","input":{"skill":"pinst"}}]}}"#.to_string(),
        r#"{"timestamp":"2026-09-20T08:00:00Z","message":{"content":"<command-name>/ship</command-name>"}}"#.to_string(),
        r#"{"timestamp":"2026-09-21T08:00:00Z","message":{"content":[{"type":"text","text":"no marker"}]}}"#.to_string(),
        r#"not json but mentions Skill"#.to_string(),
        r#"{"timestamp":"2026-09-22T08:00:00Z","message":{"content":[{"type":"tool_use","name":"Skill","input":{"skill":"unknown"}}]}}"#.to_string(),
        r#"{"timestamp":"2026-09-23T08:00:00Z","message":{"content":[{"type":"tool_use","name":"Skill","input":{"skill":"pinst"}}]}}"#.to_string(),
    ];
    let counts = pinst::harness::transcripts::count_lines(&lines, &known, &commands);
    let shown: Vec<(&str, u64, Option<&str>)> =
        counts.iter().map(|(k, s)| (k.as_str(), s.count, s.last.as_deref())).collect();
    assert_eq!(shown, vec![("pinst", 2, Some("2026-09-23")), ("other", 1, Some("2026-09-20"))]);
}

#[test]
fn a_record_without_a_usable_timestamp_counts_without_a_day() {
    let known = vec!["pinst".to_string()];
    let lines = vec![
        r#"{"timestamp":"2026","message":{"content":[{"type":"tool_use","name":"Skill","input":{"skill":"pinst"}}]}}"#.to_string(),
    ];
    let counts = pinst::harness::transcripts::count_lines(&lines, &known, &Vec::new());
    assert_eq!(counts.len(), 1);
    assert_eq!(counts[0].1.count, 1);
    assert_eq!(counts[0].1.last, None);
}
