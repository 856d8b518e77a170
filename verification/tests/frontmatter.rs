use pinst::harness::frontmatter::{parse, Frontmatter, ParseError, Value};

fn parsed(text: &str) -> Frontmatter {
    parse(text)
        .expect("should parse")
        .expect("should have frontmatter")
}

fn error(text: &str) -> ParseError {
    parse(text).expect_err("should be rejected")
}

#[test]
fn a_file_with_no_fence_has_no_frontmatter() {
    assert_eq!(parse("# Just a heading\n").unwrap(), None);
}

#[test]
fn reads_the_shapes_the_corpus_uses() {
    let fm = parsed(
        "---\nid: 260919-qwerty\nstatus: In Progress\nareas: [cli, harness, agents]\nempty: []\nproduces: 'every commit in this repo''s history parses'\nquoted: \"plain enough\"\nblank:\n---\n# Body\n",
    );

    assert_eq!(fm.scalar("id"), Some("260919-qwerty"));
    assert_eq!(fm.scalar("status"), Some("In Progress"));
    assert_eq!(fm.list("areas").unwrap(), ["cli", "harness", "agents"]);
    assert_eq!(fm.list("empty").unwrap(), [] as [String; 0]);
    assert_eq!(
        fm.scalar("produces"),
        Some("every commit in this repo's history parses")
    );
    assert_eq!(fm.scalar("quoted"), Some("plain enough"));
    assert_eq!(fm.scalar("blank"), Some(""));
    assert!(!fm.has("nothing"));
}

#[test]
fn a_list_renders_as_the_index_prints_it() {
    let fm = parsed("---\nareas: [cli, harness]\n---\n");
    assert_eq!(fm.text("areas").as_deref(), Some("cli, harness"));
}

#[test]
fn a_plain_scalar_may_contain_a_colon() {
    let fm = parsed("---\nproduces: the full ADR: Context, Decision\n---\n");
    assert_eq!(
        fm.scalar("produces"),
        Some("the full ADR: Context, Decision")
    );
}

#[test]
fn an_indented_line_is_rejected_with_its_line_number() {
    let err = error("---\nmeta:\n  nested: true\n---\n");
    assert_eq!(err.line, 3);
    assert!(err.reason.contains("nested mappings"), "{}", err.reason);
}

#[test]
fn the_other_constructs_outside_the_subset_are_rejected() {
    for (text, line) in [
        ("---\nitems:\n- one\n---\n", 3),
        ("---\nbody: |\n---\n", 2),
        ("---\nareas: [cli, harness\n---\n", 2),
        ("---\nproduces: 'never closed\n---\n", 2),
        ("---\nsummary: a value # with a comment\n---\n", 2),
        ("---\nid: one\nid: two\n---\n", 3),
        ("---\nnot a key at all\n---\n", 2),
    ] {
        let err = error(text);
        assert_eq!(err.line, line, "wrong line for {text:?}: {err:?}");
    }
}

#[test]
fn an_unclosed_block_is_an_error_not_an_empty_frontmatter() {
    let err = error("---\nid: 260919-qwerty\n");
    assert!(err.reason.contains("never closed"), "{}", err.reason);
}

#[test]
fn a_doubled_quote_inside_single_quotes_is_one_literal_quote() {
    let fm = parsed("---\nt: 'it''s'\n---\n");
    assert_eq!(fm.scalar("t"), Some("it's"));
    let err = error("---\nt: 'it's'\n---\n");
    assert_eq!(err.line, 2);
    assert!(err.reason.contains("unescaped quote"), "{}", err.reason);
}

#[test]
fn a_double_quoted_escape_is_refused() {
    let err = error("---\nt: \"a\\nb\"\n---\n");
    assert_eq!(err.line, 2);
    assert!(err.reason.contains("escape"), "{}", err.reason);
}

#[test]
fn comments_and_blank_lines_inside_the_block_are_skipped() {
    let fm = parsed("---\n# a comment\n\nid: x\n---\n");
    assert_eq!(fm.get("id"), Some(&Value::Scalar("x".to_string())));
    assert!(!fm.is_empty());
}

#[test]
fn a_bad_key_and_a_missing_space_are_reported() {
    let err = error("---\nbad key: x\n---\n");
    assert_eq!(err.reason, "'bad key' is not a plain key");
    let err = error("---\nkey:x\n---\n");
    assert!(err.reason.contains("separated by ': '"), "{}", err.reason);
}
