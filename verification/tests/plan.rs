use pinst::plan::{Action, Outcome, Plan, Privilege, Step, StepKind, StepReport};

#[test]
fn each_action_describes_itself_and_names_its_privilege() {
    let write = Action::Write { target: "/t".to_string(), bytes: 12, content: b"hello, world".to_vec() };
    assert_eq!(write.describe(), "write /t (12 bytes)");
    assert_eq!(write.privilege(), Privilege::User);
    let link = Action::Link { source: "/s".to_string(), target: "/t".to_string() };
    assert_eq!(link.describe(), "link /t -> /s");
    let sudo = Action::Shell { command: "sudo apt-get install -y zsh".to_string() };
    assert_eq!(sudo.privilege(), Privilege::Sudo);
    let piped = Action::Shell { command: "curl -fsSL https://x | sh".to_string() };
    assert_eq!(piped.privilege(), Privilege::RemoteScript);
    let download = Action::Download { url: "https://x".to_string(), dest: "/d".to_string() };
    assert_eq!(download.privilege(), Privilege::Network);
    assert_eq!(download.describe(), "download https://x -> /d");
    assert_eq!(Action::Remove { path: "/p".to_string() }.describe(), "remove /p");
}

#[test]
fn a_plan_counts_only_pending_steps_and_a_report_carries_the_step() {
    let mut plan = Plan::default();
    plan.push(Step::new("install:zsh", StepKind::Install, "install zsh").tool("zsh"));
    plan.push(Step::new("install:git", StepKind::Install, "install git").skipped("already installed"));
    plan.push(Step::new("manual:x", StepKind::Manual, "do x").blocked("by hand"));
    assert_eq!(plan.pending_count(), 1);
    let pending = plan.pending();
    assert_eq!(pending.len(), 1);
    assert_eq!(pending[0].id, "install:zsh");

    let report = StepReport::from_step(&plan.steps[0], Outcome::Ran, Some("ok".to_string()));
    assert_eq!(report.id, "install:zsh");
    assert_eq!(report.tool.as_deref(), Some("zsh"));
    assert_eq!(report.outcome, Outcome::Ran);
}
