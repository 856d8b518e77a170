//! Reading what a skill's `evidence:` measure printed.
//!
//! A skill declares in its own frontmatter the shell one-liner that
//! measures it; running it is the caller's business, bounded by
//! [`TIMEOUT_SECS`]. What it printed counts only when it is exactly two
//! integers, `<conforming> <total>`: anything else is unmeasured, never
//! zero.

use vstd::prelude::*;

use crate::text::{
    chars_of, decimal, parse_u64, parse_u64_spec, push_decimal, push_str, string_of, words,
    words_vec,
};

verus! {

/// A measure that hangs must not hang the report: seconds one run may take.
pub const TIMEOUT_SECS: u64 = 30;

/// How many units of history the windowed rate looks at.
pub const WINDOW: u32 = 20;

/// `<conforming> <total>` from one run of a measure.
#[derive(Debug, Clone, Copy, PartialEq, Eq, Structural)]
pub struct Rate {
    pub conforming: u64,
    pub total: u64,
}

/// The percentage, rounded down; none when nothing was measured.
pub open spec fn percent_spec(r: Rate) -> Option<nat> {
    if r.total > 0 {
        Some(((r.conforming as int) * 100 / (r.total as int)) as nat)
    } else {
        None
    }
}

/// `n/m pp%`, or `n/m n/a` when the measure found nothing to measure.
pub open spec fn rate_label(r: Rate) -> Seq<char> {
    decimal(r.conforming as nat) + "/"@ + decimal(r.total as nat) + " "@ + match percent_spec(r) {
        Some(p) => decimal(p) + "%"@,
        None => "n/a"@,
    }
}

/// What a measure's output means: exactly two words, each an integer.
pub open spec fn parse_spec(stdout: Seq<char>) -> Option<Rate> {
    let w = words(stdout);
    if w.len() == 2 && parse_u64_spec(w[0]) is Some && parse_u64_spec(w[1]) is Some {
        Some(Rate { conforming: parse_u64_spec(w[0])->0 as u64, total: parse_u64_spec(w[1])->0 as u64 })
    } else {
        None
    }
}

impl Rate {
    pub fn label(&self) -> (r: String)
        requires
            self.total == 0 || self.conforming * 100 <= u64::MAX,
        ensures
            r@ == rate_label(*self),
    {
        let mut out: Vec<char> = Vec::new();
        push_decimal(&mut out, self.conforming);
        push_str(&mut out, "/");
        push_decimal(&mut out, self.total);
        push_str(&mut out, " ");
        match self.percent() {
            Some(p) => {
                push_decimal(&mut out, p);
                push_str(&mut out, "%");
            },
            None => {
                push_str(&mut out, "n/a");
            },
        }
        assert(out@ =~= rate_label(*self));
        string_of(&out)
    }

    pub fn percent(&self) -> (r: Option<u64>)
        requires
            self.total == 0 || self.conforming * 100 <= u64::MAX,
        ensures
            match percent_spec(*self) {
                Some(p) => r == Some(p as u64),
                None => r is None,
            },
    {
        if self.total > 0 {
            Some(self.conforming * 100 / self.total)
        } else {
            None
        }
    }
}

/// Accepts exactly two integers and nothing else: a measure that printed a
/// diagnostic, or one number, or three, has not measured anything.
pub fn parse(stdout: &str) -> (r: Option<Rate>)
    ensures
        r == parse_spec(stdout@),
{
    let c = chars_of(stdout);
    let w = words_vec(&c);
    if w.len() != 2 {
        return None;
    }
    let a = parse_u64(&w[0]);
    let b = parse_u64(&w[1]);
    match (a, b) {
        (Some(conforming), Some(total)) => Some(Rate { conforming, total }),
        _ => None,
    }
}

/// The two environment values a measure sees, `ASH_RANGE` and
/// `ASH_WINDOW`: `-n <window>` and `<window>`, or both empty for all of
/// history.
pub fn window_env(window: Option<u32>) -> (r: (String, String))
    ensures
        match window {
            Some(n) => r.0@ == "-n "@ + decimal(n as nat) && r.1@ == decimal(n as nat),
            None => r.0@.len() == 0 && r.1@.len() == 0,
        },
{
    match window {
        Some(n) => {
            let mut range: Vec<char> = Vec::new();
            push_str(&mut range, "-n ");
            push_decimal(&mut range, n as u64);
            let mut value: Vec<char> = Vec::new();
            push_decimal(&mut value, n as u64);
            assert(value@ =~= decimal(n as nat));
            (string_of(&range), string_of(&value))
        },
        None => (String::new(), String::new()),
    }
}

} // verus!
