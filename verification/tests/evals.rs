use pinst::harness::evals::{check_suite, Eval, Suite, Summary};

fn eval(files: &[&str]) -> Eval {
    Eval {
        id: 1,
        prompt: "Use the skill.".to_string(),
        expected_output: "A useful result.".to_string(),
        files: files.iter().map(|f| f.to_string()).collect(),
        assertions: vec!["The result is useful.".to_string()],
    }
}

#[test]
fn a_standard_manifest_is_a_real_passing_eval() {
    let suite = Suite { skill_name: "example".to_string(), evals: vec![eval(&["evals/files/input.txt"])] };
    assert_eq!(
        check_suite(&suite, "example", &["evals/files/input.txt".to_string()]),
        Ok(Summary { passed: 1, total: 1 })
    );
}

#[test]
fn evals_never_accept_paths_outside_the_skill() {
    let suite = Suite { skill_name: "example".to_string(), evals: vec![eval(&["../secret"])] };
    let failures = check_suite(&suite, "example", &[]).unwrap_err();
    assert!(failures.iter().any(|failure| failure.message.contains("must stay inside")), "{failures:?}");
    let absolute = Suite { skill_name: "example".to_string(), evals: vec![eval(&["/etc/passwd"])] };
    assert!(check_suite(&absolute, "example", &[]).is_err());
}

#[test]
fn an_empty_suite_and_blank_fields_are_each_reported() {
    let empty = Suite { skill_name: "example".to_string(), evals: Vec::new() };
    let failures = check_suite(&empty, "example", &[]).unwrap_err();
    assert!(failures.iter().any(|f| f.message == "evals must contain at least one test case"), "{failures:?}");

    let mut blank = eval(&[]);
    blank.prompt = "  ".to_string();
    blank.assertions = vec![" ".to_string()];
    let suite = Suite { skill_name: "example".to_string(), evals: vec![blank] };
    let messages: Vec<String> = check_suite(&suite, "example", &[]).unwrap_err().into_iter().map(|f| f.message).collect();
    assert!(messages.iter().any(|m| m == "prompt must not be empty"), "{messages:?}");
    assert!(messages.iter().any(|m| m == "assertions must not contain empty strings"), "{messages:?}");
}
