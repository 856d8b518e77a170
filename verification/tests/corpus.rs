use pinst::harness::corpus::{phase_number, split_dir_name};

#[test]
fn splits_a_well_formed_directory_name() {
    assert_eq!(
        split_dir_name("260919-qwerty-add-mlflow-experiment-tracking"),
        Some((
            "260919-qwerty".to_string(),
            "add-mlflow-experiment-tracking".to_string()
        ))
    );
}

#[test]
fn refuses_to_half_parse_a_malformed_name() {
    for bad in [
        "260919-qwerty",        // no slug
        "26099-qwerty-thing",   // short date
        "260919-QWERTY-thing",  // upper case hash
        "260919-qwertyy-thing", // seven letters
        "260919-qwerty--thing", // empty slug segment
        "plans",
    ] {
        assert_eq!(split_dir_name(bad), None, "{bad} should not split");
    }
}

#[test]
fn a_slug_may_carry_digits_but_not_a_trailing_dash() {
    assert_eq!(
        split_dir_name("260101-abcdef-v2-rollout"),
        Some(("260101-abcdef".to_string(), "v2-rollout".to_string()))
    );
    assert_eq!(split_dir_name("260101-abcdef-rollout-"), None);
    assert_eq!(split_dir_name("260101-abcdef-Rollout"), None);
}

#[test]
fn only_two_digit_phase_files_are_numbered() {
    assert_eq!(phase_number("phase-01.md"), Some(1));
    assert_eq!(phase_number("phase-12.md"), Some(12));
    assert_eq!(phase_number("phase-1.md"), None);
    assert_eq!(phase_number("phase-ab.md"), None);
    assert_eq!(phase_number("phase-01.txt"), None);
}
