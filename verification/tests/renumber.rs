use pinst::harness::renumber::{
    apply_lines, edit_set, headings, locate, next_free_id, parse_diff, report, rewrite, scope_of, target_id, Heading,
};
use pinst::harness::root::CorpusRoot;

const FILE: &str = "\
# Distilled learnings

### LESSON-001: A shared counter collides
**Status:** prose

### LESSON-002: Something else entirely
**Status:** prose
**Seen in:** see also LESSON-001

### LESSON-031: The last one
**Status:** prose
";

fn parsed() -> Vec<Heading> {
    headings(FILE)
}

#[test]
fn a_heading_is_located_by_a_substring_of_its_title() {
    let headings = parsed();
    assert_eq!(headings.len(), 3);

    let found = locate(&headings, "shared COUNTER").unwrap();
    assert_eq!(found.id, "LESSON-001");
    assert_eq!(found.title, "A shared counter collides");
    assert_eq!(found.line, 3);

    let absent = locate(&headings, "no such lesson").unwrap_err();
    assert!(absent.contains("LESSON-031"), "{absent}");

    let ambiguous = locate(&headings, "s").unwrap_err();
    assert!(ambiguous.contains("matches 3 headings"), "{ambiguous}");
    assert!(ambiguous.contains("LESSON-001"), "{ambiguous}");
    assert!(ambiguous.contains("LESSON-031"), "{ambiguous}");
}

#[test]
fn the_next_free_id_follows_the_highest_one_in_use() {
    let headings = parsed();
    assert_eq!(next_free_id(&headings), "LESSON-032");
    assert_eq!(next_free_id(&[]), "LESSON-001");

    assert_eq!(target_id(&headings, None).unwrap(), "LESSON-032");
    assert_eq!(
        target_id(&headings, Some("LESSON-099")).unwrap(),
        "LESSON-099"
    );

    let taken = target_id(&headings, Some("LESSON-002")).unwrap_err();
    assert!(taken.contains("already"), "{taken}");
    assert_eq!(
        taken,
        "LESSON-002 is already 'Something else entirely' at line 6; pick a free id or omit --to"
    );

    let malformed = target_id(&headings, Some("42")).unwrap_err();
    assert!(malformed.contains("LESSON-NNN"), "{malformed}");
}

#[test]
fn only_a_whole_id_token_is_rewritten() {
    assert_eq!(
        rewrite("see LESSON-1 and LESSON-19", "LESSON-1", "LESSON-40"),
        Some("see LESSON-40 and LESSON-19".to_string())
    );
    assert_eq!(rewrite("see LESSON-19", "LESSON-1", "LESSON-40"), None);
    assert_eq!(rewrite("nothing here", "LESSON-1", "LESSON-40"), None);
    assert_eq!(
        rewrite("LESSON-001 twice: LESSON-001", "LESSON-001", "LESSON-032"),
        Some("LESSON-032 twice: LESSON-032".to_string())
    );
    // Zero padding is part of the literal, so it is part of the match.
    assert_eq!(rewrite("LESSON-001", "LESSON-1", "LESSON-9"), None);
}

#[test]
fn a_unified_zero_diff_yields_each_added_line_and_its_number() {
    let diff = "\
diff --git a/.ash/LEARNINGS.md b/.ash/LEARNINGS.md
--- a/.ash/LEARNINGS.md
+++ b/.ash/LEARNINGS.md
@@ -3,0 +4,2 @@
+### LESSON-019: New
+cites LESSON-019
@@ -20 +21 @@
-old
+new
diff --git a/gone.md b/gone.md
--- a/gone.md
+++ /dev/null
@@ -1 +0,0 @@
-was here
";
    assert_eq!(
        parse_diff(diff),
        vec![
            (".ash/LEARNINGS.md".to_string(), 4),
            (".ash/LEARNINGS.md".to_string(), 5),
            (".ash/LEARNINGS.md".to_string(), 21),
        ]
    );
}

#[test]
fn applying_rewrites_only_the_listed_lines_and_keeps_the_trailing_newline() {
    let text = "LESSON-001 a\nLESSON-001 b\nLESSON-0012 c\n";
    let (out, changed) = apply_lines(text, &[1, 3, 9], "LESSON-001", "LESSON-040");
    assert_eq!(out, "LESSON-040 a\nLESSON-001 b\nLESSON-0012 c\n");
    assert_eq!(changed, vec![(1, "LESSON-040 a".to_string())]);
}

#[test]
fn an_untitled_heading_has_an_empty_title() {
    let hs = headings("### LESSON-007\n### LESSON-x: no number\n");
    assert_eq!(hs.len(), 1);
    assert_eq!(hs[0].id, "LESSON-007");
    assert_eq!(hs[0].title, "");
    assert_eq!(hs[0].number, 7);
}

#[test]
fn the_heading_line_is_edited_first_and_hits_are_grouped_by_file() {
    let hits = vec![
        ("/r/b.md".to_string(), 3),
        ("/r/.ash/LEARNINGS.md".to_string(), 3),
        ("/r/a.md".to_string(), 9),
        ("/r/b.md".to_string(), 1),
        ("/r/.ash/LEARNINGS.md".to_string(), 12),
    ];
    let edits = edit_set("/r/.ash/LEARNINGS.md", 3, &hits);
    assert_eq!(
        edits,
        vec![
            ("/r/.ash/LEARNINGS.md".to_string(), vec![3, 12]),
            ("/r/a.md".to_string(), vec![9]),
            ("/r/b.md".to_string(), vec![3, 1]),
        ]
    );
}

#[test]
fn a_report_splits_the_heading_from_the_other_rewrites() {
    let root = CorpusRoot::new("/r");
    let heading = Heading { id: "LESSON-001".to_string(), number: 1, title: "A shared counter collides".to_string(), line: 3 };
    let applied = vec![
        ("/r/.ash/LEARNINGS.md".to_string(), vec![(3, "### LESSON-004: A shared counter collides  ".to_string())]),
        ("/r/a.md".to_string(), vec![(9, "see LESSON-004".to_string())]),
    ];
    let occurrences = vec![
        ("/r/.ash/LEARNINGS.md".to_string(), 3, "### LESSON-001: x".to_string()),
        ("/r/c.md".to_string(), 2, "LESSON-001 ".to_string()),
    ];
    let scoped = report(&root, &heading, "LESSON-004", "/r/.ash/LEARNINGS.md", &applied,
        scope_of("origin/main", Ok("abc".to_string())), &occurrences, true);
    assert_eq!(scoped.old_id, "LESSON-001");
    assert_eq!(scoped.heading.file, ".ash/LEARNINGS.md");
    assert_eq!(scoped.heading.text, "### LESSON-004: A shared counter collides");
    assert_eq!(scoped.rewritten.len(), 1);
    assert_eq!(scoped.rewritten[0].file, "a.md");
    assert!(scoped.unrewritten.is_empty());
    let degraded = report(&root, &heading, "LESSON-004", "/r/.ash/LEARNINGS.md", &applied,
        scope_of("origin/main", Err("no merge-base".to_string())), &occurrences, false);
    assert!(degraded.scope.is_degraded());
    assert_eq!(degraded.unrewritten.len(), 1);
    assert_eq!(degraded.unrewritten[0].file, "c.md");
    assert_eq!(degraded.unrewritten[0].text, "LESSON-001");
}
