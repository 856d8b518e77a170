use pinst::doctor::Finding;
use pinst::harness::check::{run, IndexState, Records};
use pinst::harness::corpus::{split_dir_name, Corpus, Document, Phase, Plan};
use pinst::harness::renumber::{headings, locate};
use pinst::harness::root::CorpusRoot;

const ROOT: &str = "/repo";

/// A corpus built in memory, the way loading one from disk would build it.
struct Fixture {
    plans: Vec<Plan>,
    learnings: Option<String>,
    changelog: Option<String>,
}

impl Fixture {
    fn new() -> Self {
        Fixture { plans: Vec::new(), learnings: None, changelog: None }
    }

    fn plan(&mut self, name: &str, frontmatter: &str) -> usize {
        let dir = format!("{ROOT}/.ash/plans/{name}");
        let split = split_dir_name(name);
        let body = format!("---\n{frontmatter}---\n\n# A plan\n");
        self.plans.push(Plan {
            dir: dir.clone(),
            name: name.to_string(),
            id: split.as_ref().map(|(id, _)| id.clone()),
            slug: split.map(|(_, slug)| slug),
            readme: Some(Document::load(&format!("{dir}/README.md"), &body)),
            phases: Vec::new(),
            has_learnings: false,
            learnings: None,
            has_finished_run: false,
        });
        self.plans.len() - 1
    }

    fn good_plan(&mut self, id: &str, slug: &str) -> usize {
        self.plan(
            &format!("{id}-{slug}"),
            &format!(
                "id: {id}\nslug: {slug}\nstatus: Proposed\ncreated: 2026-09-19\n\
                 updated: 2026-09-19\nareas: [cli]\nsummary: A plan.\n"
            ),
        )
    }

    fn phase(&mut self, plan: usize, file_name: &str, body: &str) {
        let dir = self.plans[plan].dir.clone();
        let number = pinst::harness::corpus::phase_number(file_name);
        self.plans[plan].phases.push(Phase {
            document: Document::load(&format!("{dir}/{file_name}"), body),
            number,
            file_name: file_name.to_string(),
        });
    }

    fn learnings_of(&mut self, plan: usize, text: &str) {
        self.plans[plan].has_learnings = true;
        self.plans[plan].learnings = Some(text.to_string());
    }

    fn findings(self) -> Vec<Finding> {
        let records = Records {
            learnings: self.learnings,
            changelog: self.changelog,
            index: IndexState::Fresh,
            emitted: Vec::new(),
            suggestion: "260920-abcdef".to_string(),
        };
        let corpus = Corpus { root: CorpusRoot::new(ROOT), plans: self.plans, plans_dir_exists: true };
        run(&corpus, &records)
    }
}

fn ids(findings: &[Finding]) -> Vec<String> {
    findings.iter().map(|f| f.id.clone()).collect()
}

#[test]
fn each_broken_corpus_produces_its_finding() {
    let cases: Vec<(&str, &str, fn(&mut Fixture))> = vec![
        ("plan.malformed-dir.not-a-plan-name", "a directory name that is not <yymmdd>-<6 letters>-<slug>", |f| {
            f.plan("not-a-plan-name", "id: x\n");
        }),
        ("plan.duplicate-id.260919-qwerty", "two plans sharing one id", |f| {
            f.good_plan("260919-qwerty", "first");
            f.good_plan("260919-qwerty", "second");
        }),
        ("phase.chain-gap.260919-qwerty-thing", "phase files numbered 01 and 03", |f| {
            let p = f.good_plan("260919-qwerty", "thing");
            for n in ["01", "03"] {
                let body = format!(
                    "---\nid: 260919-qwerty\nslug: thing\nphase: {}\nstatus: Proposed\n---\n",
                    n.trim_start_matches('0')
                );
                f.phase(p, &format!("phase-{n}.md"), &body);
            }
        }),
        ("learnings.untriaged.260919-qwerty-thing.ISSUE-001", "an issue no lesson references and nobody declined", |f| {
            let p = f.good_plan("260919-qwerty", "thing");
            f.learnings_of(p, "# Learnings\n\n### ISSUE-001: Something went wrong\n\nIt did.\n");
        }),
        ("lesson.unenforced.LESSON-001", "a mechanized lesson naming a check nothing emits", |f| {
            f.good_plan("260919-qwerty", "thing");
            f.learnings = Some(
                "# Distilled learnings\n\n### LESSON-001: A thing\n**Status:** mechanized\n**Check:** nothing.emits.this\n"
                    .to_string(),
            );
        }),
        ("lesson.duplicate-id.LESSON-001", "two lessons minted the same number", |f| {
            f.good_plan("260919-qwerty", "thing");
            f.learnings = Some(
                "# Distilled learnings\n\n### LESSON-001: First\n**Status:** prose\n\n### LESSON-001: Second\n**Status:** prose\n"
                    .to_string(),
            );
        }),
        ("lesson.dangling-reference.LESSON-999", "a 'Seen in:' line citing a lesson number nothing defines", |f| {
            f.good_plan("260919-qwerty", "thing");
            f.learnings = Some(
                "# Distilled learnings\n\n### LESSON-001: A thing\n**Status:** prose\n**Seen in:** also see LESSON-999\n"
                    .to_string(),
            );
        }),
    ];
    for (expected, description, build) in cases {
        let mut fixture = Fixture::new();
        build(&mut fixture);
        let ours = ids(&fixture.findings());
        assert!(ours.iter().any(|id| id == expected), "{description}: expected {expected}, got {ours:?}");
    }
}

#[test]
fn a_healthy_fixture_is_silent() {
    let mut fixture = Fixture::new();
    fixture.good_plan("260919-qwerty", "thing");
    let findings = fixture.findings();
    assert!(findings.is_empty(), "{:?}", ids(&findings));
}

fn suggested_titles(remediation: &str) -> Vec<String> {
    remediation
        .split("--title \"")
        .skip(1)
        .filter_map(|rest| rest.split_once('"').map(|(title, _)| title.to_string()))
        .collect()
}

#[test]
fn the_duplicate_id_remediation_suggests_a_title_that_resolves() {
    let learnings = "# Distilled learnings\n\n\
         ### LESSON-001: The one that reached main first\n**Status:** prose\n\n\
         ### LESSON-001: The one the branch minted\n**Status:** prose\n\n\
         ### LESSON-002: An unrelated neighbour\n**Status:** prose\n";
    let mut fixture = Fixture::new();
    fixture.good_plan("260919-qwerty", "thing");
    fixture.learnings = Some(learnings.to_string());
    let findings = fixture.findings();
    let duplicates: Vec<&Finding> = findings.iter().filter(|f| f.id == "lesson.duplicate-id.LESSON-001").collect();
    assert_eq!(duplicates.len(), 1, "one finding per colliding id");
    let duplicate = duplicates[0];
    assert!(
        duplicate.message.contains("The one that reached main first") && duplicate.message.contains("The one the branch minted"),
        "{}",
        duplicate.message
    );
    let titles = suggested_titles(&duplicate.remediation);
    assert_eq!(titles.len(), 2, "{}", duplicate.remediation);
    assert!(duplicate.remediation.contains("pinst harness renumber-lesson"), "{}", duplicate.remediation);

    let found = headings(learnings);
    for title in &titles {
        let hit = locate(&found, title).unwrap_or_else(|err| panic!("--title {title:?} does not resolve: {err}"));
        assert_eq!(hit.id, "LESSON-001", "--title {title:?}");
    }
    assert_ne!(locate(&found, &titles[0]).unwrap().line, locate(&found, &titles[1]).unwrap().line);
}

#[test]
fn a_three_way_collision_is_one_finding_naming_all_three() {
    let mut fixture = Fixture::new();
    fixture.good_plan("260919-qwerty", "thing");
    fixture.learnings = Some(
        "# Distilled learnings\n\n### LESSON-001: First\n**Status:** prose\n\n\
         ### LESSON-001: Second\n**Status:** prose\n\n### LESSON-001: Third\n**Status:** prose\n"
            .to_string(),
    );
    let findings = fixture.findings();
    let duplicates: Vec<&Finding> = findings.iter().filter(|f| f.id == "lesson.duplicate-id.LESSON-001").collect();
    assert_eq!(duplicates.len(), 1);
    assert_eq!(suggested_titles(&duplicates[0].remediation).len(), 3);
}

#[test]
fn the_changelog_contradicts_an_unfinished_phase() {
    let mut fixture = Fixture::new();
    let p = fixture.good_plan("260919-qwerty", "thing");
    fixture.phase(p, "phase-01.md", "---\nid: 260919-qwerty\nslug: thing\nphase: 1\nstatus: In Progress\n---\n");
    fixture.changelog =
        Some("ts=2026-09-19T10:42:03Z id=260919-qwerty slug=thing phase=1 summary=\"shipped\"\n".to_string());
    let ours = ids(&fixture.findings());
    assert!(ours.iter().any(|id| id == "phase.logged-not-done.260919-qwerty-thing.1"), "{ours:?}");
}

#[test]
fn a_document_outside_the_accepted_subset_is_reported() {
    let mut fixture = Fixture::new();
    fixture.plan("260919-qwerty-thing", "id: 260919-qwerty\nmeta:\n  nested: true\n");
    let ours = ids(&fixture.findings());
    assert!(ours.iter().any(|id| id == "plan.frontmatter-unparsed.260919-qwerty-thing"), "{ours:?}");
}

#[test]
fn a_missing_plans_directory_and_a_missing_index_are_reported() {
    let records = Records {
        learnings: None,
        changelog: None,
        index: IndexState::Missing,
        emitted: Vec::new(),
        suggestion: "260920-abcdef".to_string(),
    };
    let corpus = Corpus { root: CorpusRoot::new(ROOT), plans: Vec::new(), plans_dir_exists: false };
    let findings = run(&corpus, &records);
    assert_eq!(ids(&findings), ["corpus.missing", "index.missing"]);
    assert_eq!(findings[0].message, ".ash/plans does not exist");
}
