use pinst::{home_dir, usage};

#[test]
fn home_must_be_set_and_non_empty() {
    assert_eq!(home_dir(Some("/home/u")), Ok("/home/u".to_string()));
    let unset = home_dir(None).unwrap_err();
    assert_eq!(unset, "HOME is not set; pinst cannot resolve config targets");
    assert_eq!(home_dir(Some("")), Err(unset));
}

#[test]
fn a_usage_error_carries_its_message() {
    assert_eq!(usage("unknown tool 'x'").message(), "unknown tool 'x'");
}
