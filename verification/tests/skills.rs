use pinst::harness::corpus::{Corpus, Document, Plan};
use pinst::harness::evidence::Rate;
use pinst::harness::root::CorpusRoot;
use pinst::harness::skills::{
    distinct, evidence_to_run, gaps, grade, run, Invocations, Measure, SkillInput,
};
use pinst::harness::transcripts::Seen;

fn corpus(plans: Vec<Plan>) -> Corpus {
    Corpus { root: CorpusRoot::new("/repo"), plans, plans_dir_exists: true }
}

fn skill_md(name: &str, frontmatter: &str) -> String {
    format!("---\nname: {name}\ndescription: A skill.\n{frontmatter}---\n")
}

fn input(name: &str, frontmatter: &str, measured: Option<(Option<Rate>, Option<Rate>)>) -> SkillInput {
    SkillInput { name: name.to_string(), text: skill_md(name, frontmatter), wired: true, measured }
}

fn plan(name: &str, readme: &str, learnings: Option<&str>) -> Plan {
    let dir = format!("/repo/.ash/plans/{name}");
    Plan {
        dir: dir.clone(),
        name: name.to_string(),
        id: Some(name[..13].to_string()),
        slug: Some(name[14..].to_string()),
        readme: Some(Document::load(&format!("{dir}/README.md"), readme)),
        phases: Vec::new(),
        has_learnings: learnings.is_some(),
        learnings: learnings.map(str::to_string),
        has_finished_run: false,
    }
}

fn rate(conforming: u64, total: u64) -> Option<Rate> {
    Some(Rate { conforming, total })
}

#[test]
fn a_skill_with_no_contract_and_one_with_no_measure_are_both_reported() {
    let inputs = vec![input("silent", "", None), input("unmeasured", "produces: 'a thing'\n", None)];
    let report = run(&corpus(Vec::new()), true, &inputs, &Invocations::NotAsked, None);
    let ids: Vec<&str> = report.findings.iter().map(|f| f.id.as_str()).collect();
    assert!(ids.contains(&"skill.no-contract.silent"), "{ids:?}");
    assert!(ids.contains(&"skill.no-contract.unmeasured"), "{ids:?}");
    assert_eq!(report.skills[0].windowed, Measure::NoContract);
    assert_eq!(report.skills[1].windowed, Measure::NoCommand);
    assert_eq!(
        report.findings[0].message,
        ".agents/skills/silent/SKILL.md declares no 'produces:' — nothing says what this skill is supposed to leave behind"
    );
}

#[test]
fn a_broken_measure_is_unmeasured_never_zero() {
    let inputs = vec![
        input("one-number", "produces: 'a thing'\nevidence: 'echo 3'\n", Some((None, None))),
        input("exits-nonzero", "produces: 'a thing'\nevidence: 'exit 1'\n", Some((None, None))),
    ];
    let report = run(&corpus(Vec::new()), true, &inputs, &Invocations::NotAsked, None);
    for (i, name) in ["one-number", "exits-nonzero"].iter().enumerate() {
        assert_eq!(report.skills[i].windowed, Measure::Unmeasured);
        assert_eq!(report.skills[i].windowed.label(), "unmeasured");
        assert!(
            report.findings.iter().any(|f| f.id == format!("skill.evidence-failed.{name}")),
            "{name} should report a failed measure"
        );
    }
}

#[test]
fn no_evidence_runs_no_subprocess_at_all() {
    let text = skill_md("writes-a-file", "produces: 'a thing'\nevidence: 'touch marker && echo 1 1'\n");
    assert_eq!(evidence_to_run(&text, false), None);
    let inputs = vec![SkillInput { name: "writes-a-file".to_string(), text: text.clone(), wired: true, measured: None }];
    let report = run(&corpus(Vec::new()), true, &inputs, &Invocations::NotAsked, None);
    assert_eq!(report.skills[0].windowed, Measure::Unmeasured);
    assert!(report.findings.is_empty(), "skipping a measure is not a failure: {:?}", report.findings);

    assert_eq!(evidence_to_run(&text, true), Some("touch marker && echo 1 1".to_string()));
    let inputs = vec![SkillInput { name: "writes-a-file".to_string(), text, wired: true, measured: Some((rate(1, 1), rate(1, 1))) }];
    let report = run(&corpus(Vec::new()), true, &inputs, &Invocations::NotAsked, None);
    assert_eq!(report.skills[0].windowed, Measure::Rate(Rate { conforming: 1, total: 1 }));
}

#[test]
fn a_windowed_rate_below_all_time_reaches_the_agenda() {
    let inputs = vec![input(
        "slipping",
        "produces: 'a thing'\nevidence: 'x'\n",
        Some((rate(1, 2), rate(9, 10))),
    )];
    let report = run(&corpus(Vec::new()), true, &inputs, &Invocations::NotAsked, None);
    assert!(report.skills[0].regressed());
    assert!(
        report.agenda.iter().any(|item| item.contains("windowed rate below all-time") && item.contains("slipping")),
        "{:?}",
        report.agenda
    );
    assert_eq!(report.findings.last().unwrap().id, "review.agenda");
    assert_eq!(report.findings.last().unwrap().message, "1 item(s) on the review agenda");
}

const README: &str = "---\nid: 260919-qwerty\nslug: thing\nstatus: Done\ncreated: 2026-09-19\n\
    updated: 2026-09-19\nareas: [ci, distribution]\nsummary: A plan.\n---\n";

#[test]
fn gaps_group_unowned_issues_by_area_and_can_be_answered() {
    let learnings = "# Learnings\n\n### ISSUE-001: A surprise\n**Skill:** none\n\n\
         ### ISSUE-002: Another\n**Skill:** none\n";
    let c = corpus(vec![plan("260919-qwerty-thing", README, Some(learnings))]);
    let inputs = vec![input("a-skill", "produces: none\nkind: reference\n", None)];
    let report = run(&c, true, &inputs, &Invocations::NotAsked, None);
    assert_eq!(report.gaps.len(), 2, "one per declared area");
    assert_eq!(report.gaps[0].issues, 2);
    assert_eq!(report.gaps[0].area, "ci");
    assert_eq!(report.gaps[0].ids, ["ISSUE-001", "ISSUE-002"]);
    assert!(report.agenda.iter().any(|item| item.contains("no skill owns")), "{:?}", report.agenda);

    let answered = "# Learnings\n\n### ISSUE-001: A surprise\n**Skill:** none\n\
         **Gap:** answered — a domain surprise, no skill would have helped\n\n\
         ### ISSUE-002: Another\n**Skill:** none\n\
         **Gap:** answered — likewise\n";
    let c = corpus(vec![plan("260919-qwerty-thing", README, Some(answered))]);
    assert!(gaps(&c).is_empty());
}

#[test]
fn bigger_gaps_come_first_then_by_area() {
    let readme_b = README.replace("areas: [ci, distribution]", "areas: [zeta]");
    let one = "### ISSUE-001: A\n**Skill:** none\n";
    let two = "### ISSUE-001: A\n**Skill:** none\n\n### ISSUE-002: B\n**Skill:** none\n";
    let c = corpus(vec![
        plan("260919-qwerty-thing", README, Some(one)),
        plan("260920-asdfgh-other", &readme_b, Some(two)),
    ]);
    let g = gaps(&c);
    let areas: Vec<(&str, usize)> = g.iter().map(|g| (g.area.as_str(), g.issues)).collect();
    assert_eq!(areas, [("zeta", 2), ("ci", 1), ("distribution", 1)]);
}

#[test]
fn a_recurring_prose_lesson_is_listed_until_mechanizing_is_declined() {
    let lesson = |extra: &str| {
        format!(
            "# Distilled learnings\n\n### LESSON-001: A thing\n**Status:** prose\n{extra}\
             **Seen in:** 260918-aaaaaa-one (ISSUE-001); again in\n\
             260919-bbbbbb-two (ISSUE-002)\n"
        )
    };
    let inputs = vec![input("a-skill", "produces: none\nkind: reference\n", None)];
    let text = lesson("");
    let report = run(&corpus(Vec::new()), true, &inputs, &Invocations::NotAsked, Some(&text));
    assert!(report.agenda.iter().any(|item| item.contains("recurring and still unenforced")));

    let text = lesson("**Mechanize:** declined — judgement no exit code can carry\n");
    let report = run(&corpus(Vec::new()), true, &inputs, &Invocations::NotAsked, Some(&text));
    assert!(!report.agenda.iter().any(|item| item.contains("recurring and still unenforced")));
}

#[test]
fn a_missing_skills_directory_is_a_finding_rather_than_an_empty_report() {
    let report = run(&corpus(Vec::new()), false, &Vec::new(), &Invocations::NotAsked, None);
    assert_eq!(report.findings[0].id, "skills.missing");
    assert_eq!(report.findings[0].message, ".agents/skills does not exist");
    assert!(report.skills.is_empty());
}

#[test]
fn the_reference_skill_is_exempt_rather_than_zero() {
    let mut findings = Vec::new();
    let row = grade("pinst", "s", &skill_md("pinst", "produces: none\n"), None, true, 0, &mut findings);
    assert_eq!(row.windowed, Measure::Exempt);
    assert_eq!(row.all_time, Measure::NotApplicable);
    assert_eq!(row.all_time.label(), "-");
    assert!(findings.is_empty());
}

#[test]
fn issues_and_invocations_fill_their_columns() {
    let learnings = "### ISSUE-001: A\n**Skill:** plan-write\n\n### ISSUE-002: B\n**Skill:** plan-write\n";
    let c = corpus(vec![plan("260919-qwerty-thing", README, Some(learnings))]);
    let inputs = vec![input("plan-write", "produces: none\n", None), input("other", "produces: none\n", None)];
    let counts = vec![("plan-write".to_string(), Seen { count: 4, last: Some("2026-09-19".to_string()) })];
    let report = run(&c, true, &inputs, &Invocations::Counted(counts), None);
    assert!(report.counted);
    assert_eq!(report.skills[0].issues, 2);
    assert_eq!(report.skills[0].invocations, Some(4));
    assert_eq!(report.skills[0].last_invoked.as_deref(), Some("2026-09-19"));
    assert_eq!(report.skills[1].invocations, Some(0));
    assert_eq!(report.skills[1].last_invoked.as_deref(), Some("never"));
    // Two issues nobody decided about are on the agenda.
    assert!(report.agenda[0].starts_with("2 issue(s) waiting on a decision"), "{:?}", report.agenda);

    let report = run(&c, true, &inputs, &Invocations::Unreadable("/nowhere".to_string()), None);
    assert_eq!(report.findings[0].id, "skills.transcripts-unreadable");
    assert_eq!(report.findings[0].message, "could not read invocation counts from /nowhere");
}

#[test]
fn distinct_counts_each_value_once() {
    let v = |xs: &[&str]| xs.iter().map(|s| s.to_string()).collect::<Vec<String>>();
    assert_eq!(distinct(&v(&["a", "b", "a"])), 2);
    assert_eq!(distinct(&v(&[])), 0);
}
