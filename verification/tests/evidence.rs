use pinst::harness::evidence::{parse, window_env, Rate};

// What a measure prints reaches `parse`; these are the outputs of the
// commands the measures run.

#[test]
fn reads_two_integers() {
    // `echo 3 4`
    assert_eq!(
        parse("3 4\n"),
        Some(Rate {
            conforming: 3,
            total: 4
        })
    );
}

#[test]
fn both_window_variables_reach_the_command() {
    let (range, window) = window_env(Some(20));
    assert_eq!(window, "20");
    // `echo $ASH_WINDOW 1`
    assert_eq!(
        parse(&format!("{window} 1\n")),
        Some(Rate {
            conforming: 20,
            total: 1
        })
    );
    // `$ASH_RANGE` is git-ready, so it carries the flag as well.
    let (range7, _) = window_env(Some(7));
    assert_eq!(range7, "-n 7");
    let digits: String = range7.chars().filter(|c| c.is_ascii_digit()).collect();
    assert_eq!(
        parse(&format!("{digits} 1\n")),
        Some(Rate {
            conforming: 7,
            total: 1
        })
    );
    assert_eq!(range, "-n 20");
    // All-time leaves both empty rather than unset.
    assert_eq!(window_env(None), (String::new(), String::new()));
}

#[test]
fn anything_else_is_unmeasured() {
    for output in [
        "3\n",          // one number
        "3 4 5\n",      // three
        "three four\n", // not numbers
        "",             // printed nothing
        "-3 4\n",       // negative
    ] {
        assert_eq!(parse(output), None, "{output:?}");
    }
}

#[test]
fn a_rate_labels_itself_and_never_divides_by_zero() {
    assert_eq!(
        Rate {
            conforming: 3,
            total: 4
        }
        .label(),
        "3/4 75%"
    );
    assert_eq!(
        Rate {
            conforming: 0,
            total: 0
        }
        .label(),
        "0/0 n/a"
    );
}

#[test]
fn a_plus_sign_and_surrounding_whitespace_are_accepted() {
    assert_eq!(
        parse("  +12\t30 \n"),
        Some(Rate {
            conforming: 12,
            total: 30
        })
    );
    assert_eq!(parse("18446744073709551616 1"), None);
    assert_eq!(
        Rate {
            conforming: 2,
            total: 3
        }
        .percent(),
        Some(66)
    );
}
