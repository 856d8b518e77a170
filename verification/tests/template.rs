use pinst::template::{render, unresolved_message, Values};

fn values() -> Values {
    Values::new(vec![
        ("GIT_USER_NAME".to_string(), "Ada".to_string()),
        ("GIT_USER_EMAIL".to_string(), "ada@example.com".to_string()),
    ])
}

#[test]
fn substitutes_known_variables() {
    let rendered = render("name = ${GIT_USER_NAME}\nemail = ${GIT_USER_EMAIL}", &values()).unwrap();
    assert_eq!(rendered, "name = Ada\nemail = ada@example.com");
}

#[test]
fn fails_loudly_on_missing_variables() {
    let missing = render("a = ${NOPE}\nb = ${ALSO_NOPE}", &values()).unwrap_err();
    let message = unresolved_message(&missing, "~/.config/pinst/values.toml");
    assert!(message.contains("NOPE"), "{message}");
    assert!(message.contains("ALSO_NOPE"), "{message}");
    assert!(message.contains("values.toml"), "{message}");
}

#[test]
fn leaves_shell_syntax_alone() {
    let rendered = render("export PATH=\"$HOME/bin:$PATH\"", &values()).unwrap();
    assert_eq!(rendered, "export PATH=\"$HOME/bin:$PATH\"");

    let rendered = render("case ${ unterminated", &values()).unwrap();
    assert_eq!(rendered, "case ${ unterminated");
}

#[test]
fn each_missing_name_is_reported_once_in_order() {
    let missing = render("${B} ${A} ${B}", &values()).unwrap_err();
    assert_eq!(missing, vec!["B".to_string(), "A".to_string()]);
    assert_eq!(
        unresolved_message(&missing, "/v.toml"),
        "unresolved template variable(s): B, A. Set them in /v.toml or in the environment"
    );
}

#[test]
fn the_values_file_is_the_override_then_under_home() {
    assert_eq!(pinst::template::values_path(Some("/etc/v.toml"), Some("/home/u")), Some("/etc/v.toml".to_string()));
    assert_eq!(
        pinst::template::values_path(None, Some("/home/u")),
        Some("/home/u/.config/pinst/values.toml".to_string())
    );
    assert_eq!(pinst::template::values_path(None, None), None);
    assert_eq!(Values::path_hint(None, Some("/home/u")), "/home/u/.config/pinst/values.toml");
    assert_eq!(Values::path_hint(None, None), "~/.config/pinst/values.toml");
}

#[test]
fn shell_syntax_passes_through_untouched() {
    let input = "[ \"${SHELL##*/}\" = zsh ] && cd $HOME";
    assert_eq!(render(input, &Values::new(Vec::new())).unwrap(), input);
    assert_eq!(render("${GIT_USER_NAME} ${x-y}", &values()).unwrap(), "Ada ${x-y}");
}

#[test]
fn the_values_file_is_read_as_toml() {
    let values = pinst::template::values_from_text("/v.toml", Some("GIT_USER_NAME = \"Ada\"\nPORT = 8080\n")).unwrap();
    assert_eq!(values.get("GIT_USER_NAME"), Some("Ada".to_string()));
    assert_eq!(values.get("PORT"), Some("8080".to_string()));
    assert!(pinst::template::values_from_text("/v.toml", None).unwrap().get("X").is_none());
    assert_eq!(pinst::template::values_from_text("/v.toml", Some("= broken")).err(), Some("parsing /v.toml".to_string()));
}

#[test]
fn the_environment_fills_in_what_the_values_file_leaves_out() {
    let values = Values::new(vec![("A".to_string(), "file".to_string())])
        .with_fallback(vec![("A".to_string(), "env".to_string()), ("B".to_string(), "env".to_string())]);
    assert_eq!(render("${A} ${B}", &values).unwrap(), "file env");
}
