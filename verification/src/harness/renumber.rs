//! Moving one `### LESSON-NNN` heading to a free number, and taking its
//! citations with it.
//!
//! Lesson numbers are minted by hand in a file every parallel branch
//! appends to, so they collide. The rewrite is scoped to the lines the
//! current branch added (read out of a `--unified=0` diff against the
//! merge-base); when no merge-base can be had the heading is still renamed
//! and every other occurrence is reported instead of rewritten. Running git
//! and touching files is the caller's; reading headings, choosing the new
//! id, rewriting a line and reading a diff are here.

use vstd::prelude::*;

use crate::harness::root::CorpusRoot;
use crate::text::{
    trim_end, trim_end_len,
    chars_of, decimal, is_digit, is_digit_exec, lines, lines_vec, parse_u64, parse_u64_spec, push_all, push_decimal, push_str, seq_eq, slice_vec, split_char, split_char_vec, starts_with, starts_with_exec, string_of, trim, trim_vec, words, words_vec,
};

verus! {

/// One `### LESSON-NNN: <title>` heading.
#[derive(Debug)]
pub struct Heading {
    /// The whole id as written, zero padding included.
    pub id: String,
    pub number: u64,
    /// Everything after the colon, trimmed; empty when there is none.
    pub title: String,
    /// 1-based.
    pub line: usize,
}

/// One line a run touched, or found and deliberately did not touch.
#[derive(Debug)]
pub struct Citation {
    /// Relative to the corpus root.
    pub file: String,
    /// 1-based.
    pub line: usize,
    /// The line after a rewrite, or as it stands for an unrewritten hit.
    pub text: String,
}

/// How the rewrite scope was decided.
#[derive(Debug)]
pub enum Scope {
    /// Citations added by this branch, per the diff against `merge_base`.
    Scoped { against: String, merge_base: String },
    /// No merge-base: the heading was renamed and everything else reported.
    Degraded { against: String, reason: String },
}

/// What one run did, or would do.
#[derive(Debug)]
pub struct Report {
    pub old_id: String,
    pub new_id: String,
    pub title: String,
    /// The heading line itself, always rewritten.
    pub heading: Citation,
    /// Every other line the rewrite moved.
    pub rewritten: Vec<Citation>,
    /// Hits found but left alone, in degrade mode.
    pub unrewritten: Vec<Citation>,
    pub scope: Scope,
    /// True when nothing was written.
    pub dry_run: bool,
}

/// What a run was asked to do.
#[derive(Debug)]
pub struct Options {
    /// A substring of the heading's title, case-insensitive.
    pub title: String,
    pub to: Option<String>,
    /// The ref to take a merge-base against.
    pub against: String,
    pub dry_run: bool,
}

impl Scope {
    pub fn is_degraded(&self) -> (r: bool)
        ensures
            r == (self is Degraded),
    {
        match self {
            Scope::Degraded { .. } => true,
            Scope::Scoped { .. } => false,
        }
    }
}

impl Default for Options {
    /// Rename by an empty title, to the next free id, against `origin/main`,
    /// for real.
    fn default() -> (r: Options)
        ensures
            r.title@.len() == 0,
            r.to is None,
            r.against@ == "origin/main"@,
            !r.dry_run,
    {
        Options { title: String::new(), to: None, against: "origin/main".to_owned(), dry_run: false }
    }
}

pub open spec fn prefix() -> Seq<char> {
    "LESSON-"@
}

/// How many digits start at `k`.
pub open spec fn digit_run(s: Seq<char>, k: int) -> nat
    decreases s.len() - k,
{
    if 0 <= k < s.len() && is_digit(s[k]) {
        1 + digit_run(s, k + 1)
    } else {
        0
    }
}

/// `### LESSON-<digits><rest>` -> (`LESSON-<digits>`, the title): the title
/// is the rest with one leading `:` dropped, trimmed.
pub open spec fn split_heading(line: Seq<char>) -> Option<(Seq<char>, Seq<char>)> {
    if starts_with(line, "### LESSON-"@) && digit_run(line, 11) > 0 {
        let end: int = 11int + digit_run(line, 11);
        let after = line.skip(end);
        let title = if after.len() > 0 && after[0] == ':' {
            trim(after.skip(1))
        } else {
            trim(after)
        };
        Some((line.subrange(4, end), title))
    } else {
        None
    }
}

pub proof fn lemma_digit_run(s: Seq<char>, k: int)
    requires
        0 <= k <= s.len(),
    ensures
        k + digit_run(s, k) <= s.len(),
        forall|j: int| k <= j < k + digit_run(s, k) ==> is_digit(#[trigger] s[j]),
        k + digit_run(s, k) < s.len() ==> !is_digit(s[k + digit_run(s, k)]),
    decreases s.len() - k,
{
    if k < s.len() && is_digit(s[k]) {
        lemma_digit_run(s, k + 1);
    }
}

/// Where the run of digits starting at `k` ends.
pub fn digit_run_exec(s: &[char], k: usize) -> (e: usize)
    requires
        k <= s@.len(),
    ensures
        e == k + digit_run(s@, k as int),
{
    let mut e = k;
    proof {
        lemma_digit_run(s@, k as int);
    }
    while e < s.len() && is_digit_exec(s[e])
        invariant
            k <= e <= s@.len(),
            digit_run(s@, k as int) == (e - k) + digit_run(s@, e as int),
        decreases s.len() - e,
    {
        e = e + 1;
    }
    e
}

/// The id and title of a lesson heading line.
pub fn split_lesson_heading(line: &[char]) -> (r: Option<(String, String)>)
    ensures
        match split_heading(line@) {
            Some((id, title)) => r matches Some((a, b)) && a@ == id && b@ == title,
            None => r is None,
        },
{
    let p = chars_of("### LESSON-");
    proof {
        reveal_strlit("### LESSON-");
    }
    if !starts_with_exec(line, &p) {
        return None;
    }
    let end = digit_run_exec(line, 11);
    proof {
        lemma_digit_run(line@, 11);
    }
    if end == 11 {
        return None;
    }
    let after = slice_vec(line, end, line.len());
    assert(after@ =~= line@.skip(end as int));
    let title = if after.len() > 0 && after[0] == ':' {
        let rest = slice_vec(&after, 1, after.len());
        assert(rest@ =~= after@.skip(1));
        trim_vec(&rest)
    } else {
        trim_vec(&after)
    };
    let id = slice_vec(line, 4, end);
    Some((string_of(&id), string_of(&title)))
}

/// The heading on line `k` (0-based) as a [`Heading`] view, if it is one
/// whose number fits.
pub open spec fn heading_at(ls: Seq<Seq<char>>, k: int) -> Option<(Seq<char>, u64, Seq<char>, int)> {
    match split_heading(ls[k]) {
        Some((id, title)) => match parse_u64_spec(id.skip(7)) {
            Some(n) => if digit_run(id, 7) == id.len() - 7 {
                Some((id, n as u64, title, k + 1))
            } else {
                None
            },
            None => None,
        },
        None => None,
    }
}

/// The headings among the first `n` lines, in order.
pub open spec fn headings_upto(ls: Seq<Seq<char>>, n: int) -> Seq<(Seq<char>, u64, Seq<char>, int)>
    decreases n,
{
    if n <= 0 {
        Seq::empty()
    } else {
        let prev = headings_upto(ls, n - 1);
        match heading_at(ls, n - 1) {
            Some(h) => prev.push(h),
            None => prev,
        }
    }
}

pub open spec fn heading_view(h: Heading) -> (Seq<char>, u64, Seq<char>, int) {
    (h.id@, h.number, h.title@, h.line as int)
}

/// Every lesson heading in `text`, in document order.
pub fn headings(text: &str) -> (r: Vec<Heading>)
    requires
        lines(text@).len() < usize::MAX,
    ensures
        r@.map_values(|h: Heading| heading_view(h)) == headings_upto(lines(text@), lines(text@).len() as int),
{
    let c = chars_of(text);
    let ls = lines_vec(&c);
    let ghost lv = lines(text@);
    let mut out: Vec<Heading> = Vec::new();
    let mut k: usize = 0;
    while k < ls.len()
        invariant
            k <= ls@.len(),
            ls@.len() == lv.len(),
            lv.len() < usize::MAX,
            lv == lines(text@),
            forall|i: int| 0 <= i < ls@.len() ==> #[trigger] ls@[i]@ == lv[i],
            out@.map_values(|h: Heading| heading_view(h)) == headings_upto(lv, k as int),
        decreases ls.len() - k,
    {
        let ghost before = out@.map_values(|h: Heading| heading_view(h));
        if let Some((id, title)) = split_lesson_heading(&ls[k]) {
            proof {
                reveal_strlit("### LESSON-");
                lemma_digit_run(lv[k as int], 11);
                assert(id@.len() >= 8);
            }
            let idc = chars_of(id.as_str());
            let digits = slice_vec(&idc, 7, idc.len());
            assert(digits@ =~= id@.skip(7));
            let all = digit_run_exec(&idc, 7);
            if all == idc.len() {
                if let Some(n) = parse_u64(&digits) {
                    out.push(Heading { id, number: n, title, line: k + 1 });
                    assert(out@.map_values(|h: Heading| heading_view(h)) =~= before.push(
                        heading_at(lv, k as int)->0,
                    ));
                }
            }
        }
        k = k + 1;
    }
    out
}

/// `n` in decimal, zero-padded on the left to `width`.
pub open spec fn padded(n: nat, width: nat) -> Seq<char> {
    let d = decimal(n);
    if d.len() >= width {
        d
    } else {
        Seq::new((width - d.len()) as nat, |i: int| '0') + d
    }
}

/// The index of the heading with the highest number, the last of equals.
pub open spec fn highest(hs: Seq<(Seq<char>, u64, Seq<char>, int)>) -> Option<int>
    decreases hs.len(),
{
    if hs.len() == 0 {
        None
    } else {
        match highest(hs.drop_last()) {
            Some(i) => if hs.last().1 >= hs[i].1 {
                Some(hs.len() - 1)
            } else {
                Some(i)
            },
            None => Some(hs.len() - 1),
        }
    }
}

pub open spec fn next_free_spec(hs: Seq<(Seq<char>, u64, Seq<char>, int)>) -> Seq<char> {
    match highest(hs) {
        Some(i) => prefix() + padded((hs[i].1 + 1) as nat, (hs[i].0.len() - 7) as nat),
        None => prefix() + padded(1, 3),
    }
}

proof fn lemma_highest_bounds(hs: Seq<(Seq<char>, u64, Seq<char>, int)>)
    ensures
        highest(hs) matches Some(i) ==> 0 <= i < hs.len() && forall|j: int| 0 <= j < hs.len() ==> hs[j].1 <= hs[i].1,
        hs.len() > 0 ==> highest(hs) is Some,
    decreases hs.len(),
{
    if hs.len() > 0 {
        lemma_highest_bounds(hs.drop_last());
        assert forall|j: int| 0 <= j < hs.len() - 1 implies hs.drop_last()[j] == #[trigger] hs[j] by {}
    }
}

fn push_padded(out: &mut Vec<char>, n: u64, width: usize)
    ensures
        final(out)@ == old(out)@ + padded(n as nat, width as nat),
{
    let mut digits: Vec<char> = Vec::new();
    push_decimal(&mut digits, n);
    assert(digits@ =~= decimal(n as nat));
    if digits.len() < width {
        let mut k: usize = 0;
        let pad = width - digits.len();
        let ghost base = out@;
        while k < pad
            invariant
                k <= pad,
                out@ == base + Seq::new(k as nat, |i: int| '0'),
            decreases pad - k,
        {
            out.push('0');
            k = k + 1;
            assert(out@ =~= base + Seq::new(k as nat, |i: int| '0'));
        }
    }
    push_all(out, &digits);
    assert(final(out)@ =~= old(out)@ + padded(n as nat, width as nat));
}

/// One past the highest number in use, zero-padded to the width that
/// heading's id is written with; `LESSON-001` when there are none.
pub fn next_free_id(headings: &[Heading]) -> (r: String)
    requires
        forall|k: int| 0 <= k < headings@.len() ==> #[trigger] headings@[k].number < u64::MAX,
        forall|k: int| 0 <= k < headings@.len() ==> (#[trigger] headings@[k].id@).len() >= 7,
    ensures
        r@ == next_free_spec(headings@.map_values(|h: Heading| heading_view(h))),
{
    let ghost hv = headings@.map_values(|h: Heading| heading_view(h));
    let mut best: Option<usize> = None;
    let mut k: usize = 0;
    while k < headings.len()
        invariant
            k <= headings@.len(),
            hv == headings@.map_values(|h: Heading| heading_view(h)),
            match best {
                Some(i) => highest(hv.take(k as int)) == Some(i as int) && i < k,
                None => highest(hv.take(k as int)) is None && k == 0,
            },
        decreases headings.len() - k,
    {
        assert(hv.take(k + 1).drop_last() == hv.take(k as int));
        match best {
            Some(i) => {
                assert(hv.take(k + 1)[i as int] == hv[i as int]);
                if headings[k].number >= headings[i].number {
                    best = Some(k);
                }
            },
            None => {
                best = Some(k);
            },
        }
        k = k + 1;
    }
    assert(hv.take(k as int) == hv);
    let mut out = chars_of("LESSON-");
    match best {
        Some(i) => {
            proof {
                lemma_highest_bounds(hv);
            }
            let idc = chars_of(headings[i].id.as_str());
            push_padded(&mut out, headings[i].number + 1, idc.len() - 7);
        },
        None => {
            push_padded(&mut out, 1, 3);
        },
    }
    string_of(&out)
}

/// Rewriting `s` from `pos` on: every `LESSON-<digits>` token that is
/// exactly `old` becomes `new`, every other character stays; and whether
/// anything changed. Digits run to the first non-digit, so `LESSON-1`
/// never matches the front of `LESSON-19`.
pub open spec fn rewrite_from(s: Seq<char>, pos: int, old: Seq<char>, new: Seq<char>) -> (Seq<char>, bool)
    decreases s.len() - pos,
{
    if pos < 0 || pos >= s.len() {
        (Seq::empty(), false)
    } else if crate::text::occurs_at(s, prefix(), pos) {
        proof {
            reveal_strlit("LESSON-");
            lemma_digit_run(s, pos + 7);
        }
        let e = pos + 7 + digit_run(s, pos + 7);
        let token = s.subrange(pos, e);
        let hit = digit_run(s, pos + 7) > 0 && token == old;
        let rest = rewrite_from(s, e, old, new);
        ((if hit { new } else { token }) + rest.0, hit || rest.1)
    } else {
        let rest = rewrite_from(s, pos + 1, old, new);
        (seq![s[pos]] + rest.0, rest.1)
    }
}

/// Rewriting changes a line only by replacing whole tokens: when it reports
/// no change the text is exactly as it was, renumbering a lesson to its own
/// number changes nothing, and text with no `LESSON-` in it is left alone.
pub proof fn lemma_rewrite_touches_only_matching_tokens(s: Seq<char>, pos: int, old: Seq<char>, new: Seq<char>)
    requires
        0 <= pos <= s.len(),
    ensures
        !rewrite_from(s, pos, old, new).1 ==> rewrite_from(s, pos, old, new).0 == s.skip(pos),
        rewrite_from(s, pos, old, old).0 == s.skip(pos),
        !crate::text::contains_seq(s, prefix()) ==> rewrite_from(s, pos, old, new) == (s.skip(pos), false),
    decreases s.len() - pos,
{
    if pos < s.len() {
        if crate::text::occurs_at(s, prefix(), pos) {
            reveal_strlit("LESSON-");
            lemma_digit_run(s, pos + 7);
            let e = pos + 7 + digit_run(s, pos + 7);
            lemma_rewrite_touches_only_matching_tokens(s, e, old, new);
            assert(s.skip(pos) =~= s.subrange(pos, e) + s.skip(e));
        } else {
            lemma_rewrite_touches_only_matching_tokens(s, pos + 1, old, new);
            assert(s.skip(pos) =~= seq![s[pos]] + s.skip(pos + 1));
        }
    }
}

/// `line` with every whole `old` token replaced by `new`; `None` when
/// nothing changed.
pub fn rewrite(line: &str, old: &str, new: &str) -> (r: Option<String>)
    ensures
        rewrite_from(line@, 0, old@, new@).1 ==> r is Some && r->0@ == rewrite_from(line@, 0, old@, new@).0,
        !rewrite_from(line@, 0, old@, new@).1 ==> r is None,
{
    let s = chars_of(line);
    let o = chars_of(old);
    let n = chars_of(new);
    let p = chars_of("LESSON-");
    proof {
        reveal_strlit("LESSON-");
    }
    let mut out: Vec<char> = Vec::new();
    let mut changed = false;
    let mut pos: usize = 0;
    while pos < s.len()
        invariant
            pos <= s@.len(),
            s@ == line@,
            o@ == old@,
            n@ == new@,
            p@ == prefix(),
            p@.len() == 7,
            rewrite_from(s@, 0, o@, n@) == (out@ + rewrite_from(s@, pos as int, o@, n@).0,
                changed || rewrite_from(s@, pos as int, o@, n@).1),
        decreases s.len() - pos,
    {
        let ghost before = out@;
        if crate::text::matches_at(&s, &p, pos) {
            let e = digit_run_exec(&s, pos + 7);
            proof {
                lemma_digit_run(s@, pos + 7);
            }
            let token = slice_vec(&s, pos, e);
            let hit = e > pos + 7 && seq_eq(&token, &o);
            if hit {
                push_all(&mut out, &n);
                changed = true;
            } else {
                push_all(&mut out, &token);
            }
            proof {
                let rest = rewrite_from(s@, e as int, o@, n@);
                assert(out@ + rest.0 =~= before + ((if hit { n@ } else { token@ }) + rest.0));
            }
            pos = e;
        } else {
            out.push(s[pos]);
            proof {
                let rest = rewrite_from(s@, pos + 1, o@, n@);
                assert(out@ + rest.0 =~= before + (seq![s@[pos as int]] + rest.0));
            }
            pos = pos + 1;
        }
    }
    assert(out@ + Seq::<char>::empty() == out@);
    if changed {
        Some(string_of(&out))
    } else {
        None
    }
}

/// The start line a hunk header's `+<start>[,<count>]` names, or 0.
pub open spec fn hunk_start(rest: Seq<char>) -> nat {
    let ws = words(rest);
    if exists|k: int| 0 <= k < ws.len() && ws[k].len() > 0 && ws[k][0] == '+' {
        let k = choose|k: int| 0 <= k < ws.len() && ws[k].len() > 0 && ws[k][0] == '+' && forall|j: int|
            0 <= j < k ==> !(ws[j].len() > 0 && ws[j][0] == '+');
        let start = split_char(ws[k].skip(1), ',')[0];
        match parse_u64_spec(start) {
            Some(v) => if v <= usize::MAX { v } else { 0 },
            None => 0,
        }
    } else {
        0
    }
}

/// The diff reader's state after `n` lines: the new file being read, the
/// line number the next added line gets, and every added line so far.
pub open spec fn diff_state(ls: Seq<Seq<char>>, n: int) -> (Option<Seq<char>>, nat, Seq<(Seq<char>, nat)>)
    decreases n,
{
    if n <= 0 {
        (None, 0, Seq::empty())
    } else {
        let (file, next, found) = diff_state(ls, n - 1);
        let line = ls[n - 1];
        if starts_with(line, "+++ "@) {
            let rest = line.skip(4);
            (if starts_with(rest, "b/"@) { Some(rest.skip(2)) } else { None }, next, found)
        } else if starts_with(line, "@@ "@) {
            (file, hunk_start(line.skip(3)), found)
        } else if starts_with(line, "+++"@) || !starts_with(line, "+"@) {
            (file, next, found)
        } else if file is Some && next > 0 {
            (file, next + 1, found.push((file->0, next)))
        } else {
            (file, next, found)
        }
    }
}

/// No added line would be numbered past `usize::MAX`.
pub open spec fn diff_fits(ls: Seq<Seq<char>>) -> bool {
    forall|n: int| 0 <= n <= ls.len() ==> #[trigger] diff_state(ls, n).1 < usize::MAX
}

fn hunk_start_exec(rest: &[char]) -> (r: usize)
    ensures
        r == hunk_start(rest@),
{
    let ws = words_vec(rest);
    let ghost wv = words(rest@);
    let mut k: usize = 0;
    while k < ws.len()
        invariant
            k <= ws@.len(),
            wv == words(rest@),
            ws@.len() == wv.len(),
            forall|i: int| 0 <= i < ws@.len() ==> #[trigger] ws@[i]@ == wv[i],
            forall|j: int| 0 <= j < k ==> !(wv[j].len() > 0 && wv[j][0] == '+'),
        decreases ws.len() - k,
    {
        if ws[k].len() > 0 && ws[k][0] == '+' {
            proof {
                let c = choose|c: int| 0 <= c < wv.len() && wv[c].len() > 0 && wv[c][0] == '+' && forall|j: int|
                    0 <= j < c ==> !(wv[j].len() > 0 && wv[j][0] == '+');
                assert(wv[k as int].len() > 0 && wv[k as int][0] == '+');
                if c < k {
                } else if c > k {
                }
                assert(c == k);
            }
            let span = slice_vec(&ws[k], 1, ws[k].len());
            assert(span@ =~= wv[k as int].skip(1));
            let parts = split_char_vec(&span, ',');
            proof {
                crate::text::lemma_split_nonempty(span@, ',');
            }
            return match parse_u64(&parts[0]) {
                Some(v) => if v <= usize::MAX as u64 { v as usize } else { 0 },
                None => 0,
            };
        }
        k = k + 1;
    }
    0
}

/// `(path, new-file line)` for every added line of a `--unified=0` diff.
pub fn parse_diff(diff: &str) -> (r: Vec<(String, usize)>)
    requires
        diff_fits(lines(diff@)),
    ensures
        r@.len() == diff_state(lines(diff@), lines(diff@).len() as int).2.len(),
        forall|k: int| 0 <= k < r@.len() ==> (#[trigger] r@[k]).0@ == diff_state(lines(diff@), lines(diff@).len() as int).2[k].0
            && r@[k].1 == diff_state(lines(diff@), lines(diff@).len() as int).2[k].1,
{
    let c = chars_of(diff);
    let ls = lines_vec(&c);
    let ghost lv = lines(diff@);
    let plus3 = chars_of("+++ ");
    let b = chars_of("b/");
    let at = chars_of("@@ ");
    let plus = chars_of("+++");
    let one = chars_of("+");
    proof {
        reveal_strlit("+++ ");
        reveal_strlit("b/");
        reveal_strlit("@@ ");
    }
    let mut file: Option<Vec<char>> = None;
    let mut next: usize = 0;
    let mut found: Vec<(String, usize)> = Vec::new();
    let mut k: usize = 0;
    while k < ls.len()
        invariant
            k <= ls@.len(),
            lv == lines(diff@),
            diff_fits(lv),
            ls@.len() == lv.len(),
            forall|i: int| 0 <= i < ls@.len() ==> #[trigger] ls@[i]@ == lv[i],
            plus3@ == "+++ "@, b@ == "b/"@, at@ == "@@ "@, plus@ == "+++"@, one@ == "+"@,
            plus3@.len() == 4, b@.len() == 2, at@.len() == 3,
            match diff_state(lv, k as int).0 {
                Some(f) => file is Some && file->0@ == f,
                None => file is None,
            },
            next == diff_state(lv, k as int).1,
            found@.len() == diff_state(lv, k as int).2.len(),
            forall|i: int| 0 <= i < found@.len() ==> (#[trigger] found@[i]).0@ == diff_state(lv, k as int).2[i].0
                && found@[i].1 == diff_state(lv, k as int).2[i].1,
        decreases ls.len() - k,
    {
        let line = &ls[k];
        assert(diff_state(lv, k as int).1 < usize::MAX);
        if starts_with_exec(line, &plus3) {
            let rest = slice_vec(line, 4, line.len());
            assert(rest@ =~= lv[k as int].skip(4));
            if starts_with_exec(&rest, &b) {
                let name = slice_vec(&rest, 2, rest.len());
                assert(name@ =~= rest@.skip(2));
                file = Some(name);
            } else {
                file = None;
            }
        } else if starts_with_exec(line, &at) {
            let rest = slice_vec(line, 3, line.len());
            assert(rest@ =~= lv[k as int].skip(3));
            next = hunk_start_exec(&rest);
        } else if starts_with_exec(line, &plus) || !starts_with_exec(line, &one) {
        } else {
            match &file {
                Some(f) => {
                    if next > 0 {
                        found.push((string_of(f), next));
                        next = next + 1;
                    }
                },
                None => {},
            }
        }
        k = k + 1;
    }
    found
}

/// The id a rename moves to, when the caller names one: what is refused,
/// and why.
pub open spec fn target_error(hs: Seq<(Seq<char>, u64, Seq<char>, int)>, to: Seq<char>) -> Option<Seq<char>> {
    let digits = if starts_with(to, prefix()) { to.skip(7) } else { Seq::<char>::empty() };
    if digits.len() == 0 || !crate::text::all_digits(digits) {
        Some("--to expects an id of the form LESSON-NNN, got '"@ + to + "'"@)
    } else if exists|k: int| 0 <= k < hs.len() && #[trigger] hs[k].0 == to {
        let k = choose|k: int| 0 <= k < hs.len() && hs[k].0 == to && forall|j: int| 0 <= j < k ==> hs[j].0 != to;
        Some(to + " is already '"@ + hs[k].2 + "' at line "@ + decimal(hs[k].3 as nat)
            + "; pick a free id or omit --to"@)
    } else {
        None
    }
}

fn find_id(headings: &[Heading], id: &Vec<char>) -> (r: Option<usize>)
    ensures
        match r {
            Some(i) => i < headings@.len() && headings@[i as int].id@ == id@ && forall|j: int|
                0 <= j < i ==> headings@[j].id@ != id@,
            None => forall|j: int| 0 <= j < headings@.len() ==> headings@[j].id@ != id@,
        },
{
    let mut i: usize = 0;
    while i < headings.len()
        invariant
            i <= headings@.len(),
            forall|j: int| 0 <= j < i ==> headings@[j].id@ != id@,
        decreases headings.len() - i,
    {
        let idc = chars_of(headings[i].id.as_str());
        if seq_eq(&idc, id) {
            return Some(i);
        }
        i = i + 1;
    }
    None
}

#[verifier::rlimit(30)]
/// The id to move to: `to` if the caller gave one, else the next free one.
/// A `to` naming an existing heading is refused rather than merged into it.
pub fn target_id(headings: &[Heading], to: Option<&str>) -> (r: Result<String, String>)
    requires
        forall|k: int| 0 <= k < headings@.len() ==> #[trigger] headings@[k].number < u64::MAX,
        forall|k: int| 0 <= k < headings@.len() ==> (#[trigger] headings@[k].id@).len() >= 7,
    ensures
        to is None ==> r is Ok && r->Ok_0@ == next_free_spec(headings@.map_values(|h: Heading| heading_view(h))),
        to is Some ==> match target_error(headings@.map_values(|h: Heading| heading_view(h)), to->0@) {
            Some(msg) => r is Err && r->Err_0@ == msg,
            None => r is Ok && r->Ok_0@ == to->0@,
        },
{
    let ghost hv = headings@.map_values(|h: Heading| heading_view(h));
    let want = match to {
        None => {
            return Ok(next_free_id(headings));
        },
        Some(t) => t,
    };
    let t = chars_of(want);
    let p = chars_of("LESSON-");
    proof {
        reveal_strlit("LESSON-");
    }
    let digits = if starts_with_exec(&t, &p) {
        let d = slice_vec(&t, 7, t.len());
        assert(d@ =~= want@.skip(7));
        d
    } else {
        Vec::new()
    };
    let mut ok = digits.len() > 0;
    let mut k: usize = 0;
    while k < digits.len()
        invariant
            k <= digits@.len(),
            ok ==> digits@.len() > 0,
            ok ==> forall|j: int| 0 <= j < k ==> is_digit(#[trigger] digits@[j]),
            !ok ==> digits@.len() == 0 || exists|j: int| 0 <= j < k && !is_digit(#[trigger] digits@[j]),
        decreases digits.len() - k,
    {
        if !is_digit_exec(digits[k]) {
            ok = false;
        }
        k = k + 1;
    }
    assert(digits@ == (if starts_with(want@, prefix()) { want@.skip(7) } else { Seq::<char>::empty() }));
    assert(ok ==> crate::text::all_digits(digits@));
    if !ok {
        let mut m: Vec<char> = Vec::new();
        push_str(&mut m, "--to expects an id of the form LESSON-NNN, got '");
        push_str(&mut m, want);
        push_str(&mut m, "'");
        assert(m@ =~= "--to expects an id of the form LESSON-NNN, got '"@ + want@ + "'"@);
        return Err(string_of(&m));
    }
    assert(to == Some(want));
    match find_id(headings, &t) {
        Some(i) => {
            proof {
                assert(hv[i as int] == heading_view(headings@[i as int]));
                let c = choose|c: int| 0 <= c < hv.len() && hv[c].0 == want@ && forall|j: int| 0 <= j < c ==> hv[j].0 != want@;
                assert(hv[i as int].0 == want@);
                if c < i {
                } else if c > i {
                }
                assert(c == i);
            }
            let mut m: Vec<char> = Vec::new();
            push_str(&mut m, want);
            push_str(&mut m, " is already '");
            push_str(&mut m, headings[i].title.as_str());
            push_str(&mut m, "' at line ");
            push_decimal(&mut m, headings[i].line as u64);
            push_str(&mut m, "; pick a free id or omit --to");
            assert(m@ =~= want@ + " is already '"@ + hv[i as int].2 + "' at line "@ + decimal(hv[i as int].3 as nat)
                + "; pick a free id or omit --to"@);
            return Err(string_of(&m));
        },
        None => {
            assert forall|k: int| 0 <= k < hv.len() implies #[trigger] hv[k].0 != want@ by {
                assert(hv[k] == heading_view(headings@[k]));
            }
        },
    }
    Ok(want.to_owned())
}

/// `str::to_lowercase`: Unicode lower case, a function of the text alone.
pub uninterp spec fn to_lower(s: Seq<char>) -> Seq<char>;

/// `str::to_lowercase`, whose result is [`to_lower`] of the argument.
#[verifier::external_body]
fn lowercase(s: &str) -> (r: String)
    ensures
        r@ == to_lower(s@),
{
    s.to_lowercase()
}

/// The indices among the first `n` headings whose lower-cased title is
/// `needle` (`exact`) or contains it.
pub open spec fn matching(hs: Seq<(Seq<char>, u64, Seq<char>, int)>, needle: Seq<char>, exact: bool, n: int) -> Seq<int>
    decreases n,
{
    if n <= 0 {
        Seq::empty()
    } else {
        let prev = matching(hs, needle, exact, n - 1);
        let t = to_lower(hs[n - 1].2);
        if (exact && t == needle) || (!exact && crate::text::contains_seq(t, needle)) {
            prev.push(n - 1)
        } else {
            prev
        }
    }
}

/// `id (title)` for each heading, joined with `, `.
pub open spec fn listing(hs: Seq<(Seq<char>, u64, Seq<char>, int)>, idx: Seq<int>) -> Seq<char> {
    crate::harness::frontmatter::join(
        idx.map_values(|i: int| hs[i].0 + " ("@ + hs[i].2 + ")"@),
        ", "@,
    )
}

/// Which heading a title search picks: a whole title beats a substring of a
/// longer one, and exactly one must match.
pub open spec fn locate_spec(hs: Seq<(Seq<char>, u64, Seq<char>, int)>, needle: Seq<char>) -> Result<int, Seq<char>> {
    let n = to_lower(needle);
    let exact = matching(hs, n, true, hs.len() as int);
    let chosen = if exact.len() == 1 { exact } else { matching(hs, n, false, hs.len() as int) };
    if chosen.len() == 1 {
        Ok(chosen[0])
    } else if chosen.len() == 0 {
        Err("no lesson heading's title contains '"@ + n + "'; the file has "@ + (if hs.len() == 0 {
            "no lesson headings at all"@
        } else {
            decimal(hs.len()) + ": "@ + listing(hs, Seq::new(hs.len(), |i: int| i))
        }))
    } else {
        Err("'"@ + n + "' matches "@ + decimal(chosen.len()) + " headings: "@ + listing(hs, chosen))
    }
}

proof fn lemma_matching_bounds(hs: Seq<(Seq<char>, u64, Seq<char>, int)>, needle: Seq<char>, exact: bool, n: int)
    requires
        0 <= n <= hs.len(),
    ensures
        forall|k: int| 0 <= k < matching(hs, needle, exact, n).len() ==> 0 <= #[trigger] matching(hs, needle, exact, n)[k] < n,
        matching(hs, needle, exact, n).len() <= n,
    decreases n,
{
    if n > 0 {
        lemma_matching_bounds(hs, needle, exact, n - 1);
    }
}

fn matching_exec(lowered: &Vec<String>, needle: &String, exact: bool, Ghost(hs): Ghost<Seq<(Seq<char>, u64, Seq<char>, int)>>) -> (r: Vec<usize>)
    requires
        lowered@.len() == hs.len(),
        forall|k: int| 0 <= k < hs.len() ==> #[trigger] lowered@[k]@ == to_lower(hs[k].2),
    ensures
        r@.map_values(|i: usize| i as int) == matching(hs, needle@, exact, hs.len() as int),
{
    let nd = chars_of(needle.as_str());
    let mut out: Vec<usize> = Vec::new();
    let mut k: usize = 0;
    while k < lowered.len()
        invariant
            k <= lowered@.len(),
            lowered@.len() == hs.len(),
            nd@ == needle@,
            forall|j: int| 0 <= j < hs.len() ==> #[trigger] lowered@[j]@ == to_lower(hs[j].2),
            out@.map_values(|i: usize| i as int) == matching(hs, needle@, exact, k as int),
        decreases lowered.len() - k,
    {
        let t = &lowered[k];
        let hit = if exact {
            let tc = chars_of(t.as_str());
            seq_eq(&tc, &nd)
        } else {
            crate::text::contains_str(t.as_str(), needle.as_str())
        };
        if hit {
            out.push(k);
        }
        assert(out@.map_values(|i: usize| i as int) =~= matching(hs, needle@, exact, k + 1));
        k = k + 1;
    }
    out
}

fn push_listing(out: &mut Vec<char>, headings: &[Heading], idx: &Vec<usize>)
    requires
        forall|k: int| 0 <= k < idx@.len() ==> #[trigger] idx@[k] < headings@.len(),
    ensures
        final(out)@ == old(out)@ + listing(headings@.map_values(|h: Heading| heading_view(h)), idx@.map_values(|i: usize| i as int)),
{
    let ghost hv = headings@.map_values(|h: Heading| heading_view(h));
    let mut items: Vec<String> = Vec::new();
    let mut k: usize = 0;
    while k < idx.len()
        invariant
            k <= idx@.len(),
            hv == headings@.map_values(|h: Heading| heading_view(h)),
            forall|j: int| 0 <= j < idx@.len() ==> #[trigger] idx@[j] < headings@.len(),
            items@.len() == k,
            forall|j: int| 0 <= j < k ==> #[trigger] items@[j]@ == hv[idx@[j] as int].0 + " ("@ + hv[idx@[j] as int].2 + ")"@,
        decreases idx.len() - k,
    {
        let h = &headings[idx[k]];
        let mut m: Vec<char> = Vec::new();
        push_str(&mut m, h.id.as_str());
        push_str(&mut m, " (");
        push_str(&mut m, h.title.as_str());
        push_str(&mut m, ")");
        assert(m@ =~= hv[idx@[k as int] as int].0 + " ("@ + hv[idx@[k as int] as int].2 + ")"@);
        items.push(string_of(&m));
        k = k + 1;
    }
    let joined = crate::harness::frontmatter::join_strings(items.as_slice(), ", ");
    assert(items@.map_values(|s: String| s@) =~= idx@.map_values(|i: usize| i as int).map_values(
        |i: int| hv[i].0 + " ("@ + hv[i].2 + ")"@,
    ));
    push_str(out, joined.as_str());
}

/// The one heading whose title contains `needle`, case-insensitively.
pub fn locate<'h>(headings: &'h [Heading], needle: &str) -> (r: Result<&'h Heading, String>)
    ensures
        match locate_spec(headings@.map_values(|h: Heading| heading_view(h)), needle@) {
            Ok(i) => r is Ok && *r->Ok_0 == headings@[i],
            Err(msg) => r is Err && r->Err_0@ == msg,
        },
{
    let ghost hv = headings@.map_values(|h: Heading| heading_view(h));
    let n = lowercase(needle);
    let mut lowered: Vec<String> = Vec::new();
    let mut k: usize = 0;
    while k < headings.len()
        invariant
            k <= headings@.len(),
            hv == headings@.map_values(|h: Heading| heading_view(h)),
            lowered@.len() == k,
            forall|j: int| 0 <= j < k ==> #[trigger] lowered@[j]@ == to_lower(hv[j].2),
        decreases headings.len() - k,
    {
        lowered.push(lowercase(headings[k].title.as_str()));
        k = k + 1;
    }
    let exact = matching_exec(&lowered, &n, true, Ghost(hv));
    let chosen = if exact.len() == 1 {
        exact
    } else {
        matching_exec(&lowered, &n, false, Ghost(hv))
    };
    proof {
        lemma_matching_bounds(hv, n@, true, hv.len() as int);
        lemma_matching_bounds(hv, n@, false, hv.len() as int);
        assert(forall|j: int| 0 <= j < chosen@.len() ==> #[trigger] chosen@[j] < headings@.len()) by {
            assert forall|j: int| 0 <= j < chosen@.len() implies #[trigger] chosen@[j] < headings@.len() by {
                assert(chosen@.map_values(|i: usize| i as int)[j] == chosen@[j] as int);
            }
        }
    }
    if chosen.len() == 1 {
        assert(chosen@.map_values(|i: usize| i as int)[0] == chosen@[0] as int);
        return Ok(&headings[chosen[0]]);
    }
    let mut m: Vec<char> = Vec::new();
    if chosen.len() == 0 {
        push_str(&mut m, "no lesson heading's title contains '");
        push_str(&mut m, n.as_str());
        push_str(&mut m, "'; the file has ");
        if headings.len() == 0 {
            push_str(&mut m, "no lesson headings at all");
        } else {
            push_decimal(&mut m, headings.len() as u64);
            push_str(&mut m, ": ");
            let mut all: Vec<usize> = Vec::new();
            let mut i: usize = 0;
            while i < headings.len()
                invariant
                    i <= headings@.len(),
                    all@.len() == i,
                    forall|j: int| 0 <= j < i ==> #[trigger] all@[j] == j,
                decreases headings.len() - i,
            {
                all.push(i);
                i = i + 1;
            }
            assert(all@.map_values(|i: usize| i as int) =~= Seq::new(hv.len(), |i: int| i));
            push_listing(&mut m, headings, &all);
        }
    } else {
        push_str(&mut m, "'");
        push_str(&mut m, n.as_str());
        push_str(&mut m, "' matches ");
        push_decimal(&mut m, chosen.len() as u64);
        push_str(&mut m, " headings: ");
        push_listing(&mut m, headings, &chosen);
    }
    assert(m@ =~= locate_spec(hv, needle@)->Err_0);
    Err(string_of(&m))
}

/// The rows of a file after rewriting the listed lines in turn, and each
/// line that changed with its new text. A listed line past the end, or one
/// that no longer carries `old`, is left alone.
pub open spec fn apply_spec(rows: Seq<Seq<char>>, lines: Seq<usize>, old: Seq<char>, new: Seq<char>) -> (Seq<Seq<char>>, Seq<(usize, Seq<char>)>)
    decreases lines.len(),
{
    if lines.len() == 0 {
        (rows, Seq::empty())
    } else {
        let (rs, changed) = apply_spec(rows, lines.drop_last(), old, new);
        let line = lines.last();
        if 1 <= line <= rs.len() && rewrite_from(rs[line - 1], 0, old, new).1 {
            let row = rewrite_from(rs[line - 1], 0, old, new).0;
            (rs.update(line - 1, row), changed.push((line, row)))
        } else {
            (rs, changed)
        }
    }
}

/// Rewrites the listed lines of a file's text: the new text, rows joined
/// back with `\n` so a trailing newline survives, and the lines that
/// changed.
pub fn apply_lines(text: &str, lines: &[usize], old: &str, new: &str) -> (r: (String, Vec<(usize, String)>))
    ensures
        r.0@ == crate::harness::frontmatter::join(apply_spec(split_char(text@, '\n'), lines@, old@, new@).0, "\n"@),
        r.1@.len() == apply_spec(split_char(text@, '\n'), lines@, old@, new@).1.len(),
        forall|k: int| 0 <= k < r.1@.len() ==> (#[trigger] r.1@[k]).0 == apply_spec(split_char(text@, '\n'), lines@, old@, new@).1[k].0
            && r.1@[k].1@ == apply_spec(split_char(text@, '\n'), lines@, old@, new@).1[k].1,
{
    let c = chars_of(text);
    let pieces = split_char_vec(&c, '\n');
    let ghost start = split_char(text@, '\n');
    let mut rows: Vec<String> = Vec::new();
    let mut i: usize = 0;
    while i < pieces.len()
        invariant
            i <= pieces@.len(),
            pieces@.len() == start.len(),
            start == split_char(text@, '\n'),
            forall|j: int| 0 <= j < pieces@.len() ==> #[trigger] pieces@[j]@ == start[j],
            rows@.len() == i,
            forall|j: int| 0 <= j < i ==> #[trigger] rows@[j]@ == start[j],
        decreases pieces.len() - i,
    {
        rows.push(string_of(&pieces[i]));
        i = i + 1;
    }
    let mut changed: Vec<(usize, String)> = Vec::new();
    let mut k: usize = 0;
    while k < lines.len()
        invariant
            k <= lines@.len(),
            start == split_char(text@, '\n'),
            rows@.map_values(|s: String| s@) == apply_spec(start, lines@.take(k as int), old@, new@).0,
            changed@.len() == apply_spec(start, lines@.take(k as int), old@, new@).1.len(),
            forall|j: int| 0 <= j < changed@.len() ==> (#[trigger] changed@[j]).0 == apply_spec(start, lines@.take(k as int), old@, new@).1[j].0
                && changed@[j].1@ == apply_spec(start, lines@.take(k as int), old@, new@).1[j].1,
        decreases lines.len() - k,
    {
        proof {
            assert(lines@.take(k + 1).drop_last() == lines@.take(k as int));
            if k == 0 {
                assert(rows@.map_values(|s: String| s@) =~= start);
            }
        }
        let line = lines[k];
        if line >= 1 && line <= rows.len() {
            match rewrite(rows[line - 1].as_str(), old, new) {
                Some(row) => {
                    let ghost before = rows@.map_values(|s: String| s@);
                    let row2 = row.clone();
                    rows.set(line - 1, row);
                    assert(rows@.map_values(|s: String| s@) =~= before.update(line - 1, row2@));
                    changed.push((line, row2));
                },
                None => {},
            }
        }
        k = k + 1;
    }
    assert(lines@.take(lines@.len() as int) == lines@);
    proof {
        if lines@.len() == 0 {
            assert(rows@.map_values(|s: String| s@) =~= start);
        }
    }
    let joined = crate::harness::frontmatter::join_strings(rows.as_slice(), "\n");
    (joined, changed)
}

// --- the edit set of a run --------------------------------------------------------

/// The hits a run edits: the heading line first, then every other hit, the
/// heading line not twice.
pub open spec fn with_heading(file: Seq<char>, line: usize, hits: Seq<(Seq<char>, usize)>) -> Seq<(Seq<char>, usize)> {
    seq![(file, line)] + other_hits(file, line, hits, hits.len() as int)
}

/// The first `n` hits other than the heading line.
pub open spec fn other_hits(file: Seq<char>, line: usize, hits: Seq<(Seq<char>, usize)>, n: int) -> Seq<(Seq<char>, usize)>
    decreases n,
{
    if n <= 0 {
        Seq::empty()
    } else if hits[n - 1].0 == file && hits[n - 1].1 == line {
        other_hits(file, line, hits, n - 1)
    } else {
        other_hits(file, line, hits, n - 1).push(hits[n - 1])
    }
}

/// The distinct paths among the first `n` hits, in order of first sight.
pub open spec fn distinct_paths(hits: Seq<(Seq<char>, usize)>, n: int) -> Seq<Seq<char>>
    decreases n,
{
    if n <= 0 {
        Seq::empty()
    } else {
        let d = distinct_paths(hits, n - 1);
        if d.contains(hits[n - 1].0) { d } else { d.push(hits[n - 1].0) }
    }
}

/// The lines of the first `n` hits in `path`, in order.
pub open spec fn lines_in(hits: Seq<(Seq<char>, usize)>, path: Seq<char>, n: int) -> Seq<usize>
    decreases n,
{
    if n <= 0 {
        Seq::empty()
    } else if hits[n - 1].0 == path {
        lines_in(hits, path, n - 1).push(hits[n - 1].1)
    } else {
        lines_in(hits, path, n - 1)
    }
}

/// The edits of a run, file by file in path order, each file's lines in the
/// order they were found.
pub open spec fn edit_set_spec(file: Seq<char>, line: usize, hits: Seq<(Seq<char>, usize)>) -> Seq<(Seq<char>, Seq<usize>)> {
    let all = with_heading(file, line, hits);
    let paths = distinct_paths(all, all.len() as int).sort_by(|a: Seq<char>, b: Seq<char>| crate::path::path_le(a, b));
    Seq::new(paths.len(), |k: int| (paths[k], lines_in(all, paths[k], all.len() as int)))
}

fn hit_view(h: (String, usize)) -> (r: (String, usize))
    ensures
        r.0@ == h.0@ && r.1 == h.1,
{
    (h.0.as_str().to_owned(), h.1)
}

/// The edits a run makes: the learnings file's heading line (`file`,
/// `line`) first, then the added lines the diff found (`hits`), grouped by
/// file in path order.
pub fn edit_set(file: &str, line: usize, hits: &[(String, usize)]) -> (r: Vec<(String, Vec<usize>)>)
    ensures
        r@.map_values(|e: (String, Vec<usize>)| (e.0@, e.1@)) == edit_set_spec(
            file@,
            line,
            hits@.map_values(|h: (String, usize)| (h.0@, h.1)),
        ),
{
    let ghost hv = hits@.map_values(|h: (String, usize)| (h.0@, h.1));
    let fc = chars_of(file);
    let mut all: Vec<(String, usize)> = Vec::new();
    all.push((file.to_owned(), line));
    let mut i: usize = 0;
    while i < hits.len()
        invariant
            i <= hits@.len(),
            hv == hits@.map_values(|h: (String, usize)| (h.0@, h.1)),
            fc@ == file@,
            all@.map_values(|h: (String, usize)| (h.0@, h.1)) == seq![(file@, line)] + other_hits(file@, line, hv, i as int),
        decreases hits.len() - i,
    {
        let ghost before = all@.map_values(|h: (String, usize)| (h.0@, h.1));
        assert(hv[i as int] == (hits@[i as int].0@, hits@[i as int].1));
        let same = seq_eq(&chars_of(hits[i].0.as_str()), &fc) && hits[i].1 == line;
        if !same {
            all.push(hit_view((hits[i].0.as_str().to_owned(), hits[i].1)));
            assert(all@.map_values(|h: (String, usize)| (h.0@, h.1)) =~= before.push(hv[i as int]));
        } else {
            assert(all@.map_values(|h: (String, usize)| (h.0@, h.1)) =~= before);
        }
        i = i + 1;
    }
    let ghost av = all@.map_values(|h: (String, usize)| (h.0@, h.1));
    assert(av == with_heading(file@, line, hv));
    // the distinct paths, in order of first sight
    let mut paths: Vec<String> = Vec::new();
    let mut j: usize = 0;
    while j < all.len()
        invariant
            j <= all@.len(),
            av == all@.map_values(|h: (String, usize)| (h.0@, h.1)),
            paths@.map_values(|s: String| s@) == distinct_paths(av, j as int),
        decreases all.len() - j,
    {
        let ghost pv = paths@.map_values(|s: String| s@);
        assert(av[j as int] == (all@[j as int].0@, all@[j as int].1));
        let here = chars_of(all[j].0.as_str());
        let mut seen = false;
        let mut q: usize = 0;
        while q < paths.len()
            invariant
                q <= paths@.len(),
                j < av.len(),
                here@ == av[j as int].0,
                pv == paths@.map_values(|s: String| s@),
                seen == (exists|m: int| 0 <= m < q && pv[m] == here@),
            decreases paths.len() - q,
        {
            assert(pv[q as int] == paths@[q as int]@);
            if seq_eq(&chars_of(paths[q].as_str()), &here) {
                seen = true;
            }
            q = q + 1;
        }
        if !seen {
            paths.push(string_of(&here));
            assert(paths@.map_values(|s: String| s@) =~= pv.push(av[j as int].0));
        } else {
            proof {
                let m = choose|m: int| 0 <= m < pv.len() && pv[m] == here@;
                assert(pv.contains(av[j as int].0));
            }
        }
        j = j + 1;
    }
    let sorted = crate::path::sort_paths(paths);
    let ghost sv = sorted@.map_values(|s: String| s@);
    let ghost spec = edit_set_spec(file@, line, hv);
    assert(sv.len() == spec.len());
    let mut out: Vec<(String, Vec<usize>)> = Vec::new();
    let mut k: usize = 0;
    while k < sorted.len()
        invariant
            k <= sorted@.len(),
            av == all@.map_values(|h: (String, usize)| (h.0@, h.1)),
            av == with_heading(file@, line, hv),
            sv == sorted@.map_values(|s: String| s@),
            spec == edit_set_spec(file@, line, hv),
            sv.len() == spec.len(),
            forall|m: int| 0 <= m < spec.len() ==> #[trigger] spec[m] == (sv[m], lines_in(av, sv[m], av.len() as int)),
            out@.map_values(|e: (String, Vec<usize>)| (e.0@, e.1@)) == spec.take(k as int),
        decreases sorted.len() - k,
    {
        let p = chars_of(sorted[k].as_str());
        let mut lines: Vec<usize> = Vec::new();
        let mut h: usize = 0;
        while h < all.len()
            invariant
                h <= all@.len(),
                av == all@.map_values(|x: (String, usize)| (x.0@, x.1)),
                k < sv.len(),
                p@ == sv[k as int],
                lines@ == lines_in(av, sv[k as int], h as int),
            decreases all.len() - h,
        {
            assert(av[h as int] == (all@[h as int].0@, all@[h as int].1));
            if seq_eq(&chars_of(all[h].0.as_str()), &p) {
                lines.push(all[h].1);
            }
            h = h + 1;
        }
        let ghost before = out@.map_values(|e: (String, Vec<usize>)| (e.0@, e.1@));
        out.push((string_of(&p), lines));
        assert(out@.map_values(|e: (String, Vec<usize>)| (e.0@, e.1@)) =~= before.push(spec[k as int]));
        assert(spec.take(k + 1) =~= spec.take(k as int).push(spec[k as int]));
        k = k + 1;
    }
    assert(spec.take(spec.len() as int) =~= spec);
    out
}

// --- the report of a run ----------------------------------------------------------

/// How the rewrite is scoped: to the branch's own additions when a
/// merge-base against `against` was found, else degraded with the reason.
pub fn scope_of(against: &str, merge_base: Result<String, String>) -> (r: Scope)
    ensures
        match merge_base {
            Ok(b) => r matches Scope::Scoped { against: a, merge_base: m } && a@ == against@ && m@ == b@,
            Err(e) => r matches Scope::Degraded { against: a, reason: why } && a@ == against@ && why@ == e@,
        },
{
    match merge_base {
        Ok(b) => Scope::Scoped { against: against.to_owned(), merge_base: b },
        Err(e) => Scope::Degraded { against: against.to_owned(), reason: e },
    }
}

pub open spec fn citation_view(c: Citation) -> (Seq<char>, usize, Seq<char>) {
    (c.file@, c.line, c.text@)
}

/// A hit as reported: its file relative to the corpus root, its line, and
/// the line's text without trailing whitespace.
pub open spec fn citation_spec(root: Seq<char>, path: Seq<char>, line: usize, text: Seq<char>) -> (Seq<char>, usize, Seq<char>) {
    (crate::path::relative_to(path, root), line, trim_end(text))
}

pub fn citation(root: &CorpusRoot, path: &str, line: usize, text: &str) -> (r: Citation)
    ensures
        citation_view(r) == citation_spec(root@, path@, line, text@),
{
    let c = chars_of(text);
    let e = trim_end_len(&c);
    let t = slice_vec(&c, 0, e);
    assert(t@ =~= trim_end(text@));
    Citation { file: root.relative(path), line, text: string_of(&t) }
}

/// The citations of one edited file's changed lines, the heading line of
/// the learnings file (`file`, `line`) left out.
pub open spec fn file_citations(root: Seq<char>, file: Seq<char>, line: usize, path: Seq<char>, changed: Seq<(usize, Seq<char>)>, n: int) -> Seq<(Seq<char>, usize, Seq<char>)>
    decreases n,
{
    if n <= 0 {
        Seq::empty()
    } else {
        let prev = file_citations(root, file, line, path, changed, n - 1);
        let (l, text) = changed[n - 1];
        if path == file && l == line { prev } else { prev.push(citation_spec(root, path, l, text)) }
    }
}

/// The citations of every edited file's changed lines, in edit order.
pub open spec fn rewritten_spec(root: Seq<char>, file: Seq<char>, line: usize, applied: Seq<(Seq<char>, Seq<(usize, Seq<char>)>)>, n: int) -> Seq<(Seq<char>, usize, Seq<char>)>
    decreases n,
{
    if n <= 0 {
        Seq::empty()
    } else {
        rewritten_spec(root, file, line, applied, n - 1) + file_citations(
            root,
            file,
            line,
            applied[n - 1].0,
            applied[n - 1].1,
            applied[n - 1].1.len() as int,
        )
    }
}

/// The occurrences a degraded run leaves alone: every one but the heading
/// line.
pub open spec fn unrewritten_spec(root: Seq<char>, file: Seq<char>, line: usize, hits: Seq<(Seq<char>, usize, Seq<char>)>, n: int) -> Seq<(Seq<char>, usize, Seq<char>)>
    decreases n,
{
    if n <= 0 {
        Seq::empty()
    } else {
        let prev = unrewritten_spec(root, file, line, hits, n - 1);
        let h = hits[n - 1];
        if h.0 == file && h.1 == line { prev } else { prev.push(citation_spec(root, h.0, h.1, h.2)) }
    }
}

pub open spec fn applied_view(a: Seq<(String, Vec<(usize, String)>)>) -> Seq<(Seq<char>, Seq<(usize, Seq<char>)>)> {
    a.map_values(|e: (String, Vec<(usize, String)>)| (e.0@, e.1@.map_values(|c: (usize, String)| (c.0, c.1@))))
}

/// The new text of `line`: the first change to it among the first `n`.
pub open spec fn change_of(changed: Seq<(usize, Seq<char>)>, line: usize, n: int) -> Option<Seq<char>>
    decreases n,
{
    if n <= 0 {
        None
    } else {
        match change_of(changed, line, n - 1) {
            Some(t) => Some(t),
            None => if changed[n - 1].0 == line { Some(changed[n - 1].1) } else { None },
        }
    }
}

/// The new text of the heading line: its change in the first edit of the
/// learnings file that changed it.
pub open spec fn heading_change(applied: Seq<(Seq<char>, Seq<(usize, Seq<char>)>)>, file: Seq<char>, line: usize, n: int) -> Option<Seq<char>>
    decreases n,
{
    if n <= 0 {
        None
    } else {
        match heading_change(applied, file, line, n - 1) {
            Some(t) => Some(t),
            None => if applied[n - 1].0 == file {
                change_of(applied[n - 1].1, line, applied[n - 1].1.len() as int)
            } else {
                None
            },
        }
    }
}

fn find_change(changed: &Vec<(usize, String)>, line: usize) -> (r: Option<String>)
    ensures
        opt_view_str(r) == change_of(changed@.map_values(|c: (usize, String)| (c.0, c.1@)), line, changed@.len() as int),
{
    let ghost cv = changed@.map_values(|c: (usize, String)| (c.0, c.1@));
    let mut i: usize = 0;
    while i < changed.len()
        invariant
            i <= changed@.len(),
            cv == changed@.map_values(|c: (usize, String)| (c.0, c.1@)),
            change_of(cv, line, i as int) is None,
        decreases changed.len() - i,
    {
        if changed[i].0 == line {
            proof {
                assert(cv[i as int] == (changed@[i as int].0, changed@[i as int].1@));
                lemma_change_of_extends(cv, line, i + 1, cv.len() as int);
            }
            return Some(changed[i].1.as_str().to_owned());
        }
        i = i + 1;
    }
    None
}

proof fn lemma_change_of_extends(changed: Seq<(usize, Seq<char>)>, line: usize, a: int, b: int)
    requires
        a <= b,
        change_of(changed, line, a) is Some,
    ensures
        change_of(changed, line, b) == change_of(changed, line, a),
    decreases b - a,
{
    if a < b {
        lemma_change_of_extends(changed, line, a, b - 1);
    }
}

proof fn lemma_heading_change_extends(applied: Seq<(Seq<char>, Seq<(usize, Seq<char>)>)>, file: Seq<char>, line: usize, a: int, b: int)
    requires
        a <= b,
        heading_change(applied, file, line, a) is Some,
    ensures
        heading_change(applied, file, line, b) == heading_change(applied, file, line, a),
    decreases b - a,
{
    if a < b {
        lemma_heading_change_extends(applied, file, line, a, b - 1);
    }
}

pub open spec fn opt_view_str(o: Option<String>) -> Option<Seq<char>> {
    match o {
        Some(s) => Some(s@),
        None => None,
    }
}

/// What a run reports, from the edits it made (`applied`: each edited file
/// with the lines that changed, in edit order) and, for a degraded run, the
/// occurrences of the old id found by a walk of the corpus. `file` is the
/// learnings file and `line` its heading's line.
pub fn report(
    root: &CorpusRoot,
    heading: &Heading,
    new_id: &str,
    file: &str,
    applied: &Vec<(String, Vec<(usize, String)>)>,
    scope: Scope,
    occurrences: &Vec<(String, usize, String)>,
    dry_run: bool,
) -> (r: Report)
    requires
        heading_change(applied_view(applied@), file@, heading.line, applied@.len() as int) is Some,
    ensures
        r.old_id@ == heading.id@,
        r.new_id@ == new_id@,
        r.title@ == heading.title@,
        citation_view(r.heading) == citation_spec(root@, file@, heading.line,
            heading_change(applied_view(applied@), file@, heading.line, applied@.len() as int)->0),
        r.rewritten@.map_values(|c: Citation| citation_view(c)) == rewritten_spec(root@, file@, heading.line,
            applied_view(applied@), applied@.len() as int),
        r.unrewritten@.map_values(|c: Citation| citation_view(c)) == if scope is Degraded {
            unrewritten_spec(root@, file@, heading.line,
                occurrences@.map_values(|h: (String, usize, String)| (h.0@, h.1, h.2@)), occurrences@.len() as int)
        } else {
            Seq::empty()
        },
        r.scope == scope,
        r.dry_run == dry_run,
{
    let ghost av = applied_view(applied@);
    let line = heading.line;
    let fc = chars_of(file);
    let mut found: Option<String> = None;
    let mut rewritten: Vec<Citation> = Vec::new();
    let mut i: usize = 0;
    while i < applied.len()
        invariant
            i <= applied@.len(),
            av == applied_view(applied@),
            fc@ == file@,
            line == heading.line,
            opt_view_str(found) == heading_change(av, file@, line, i as int),
            rewritten@.map_values(|c: Citation| citation_view(c)) == rewritten_spec(root@, file@, line, av, i as int),
        decreases applied.len() - i,
    {
        let (path, changed) = (&applied[i].0, &applied[i].1);
        let ghost entry = av[i as int];
        assert(entry.0 == path@);
        assert(entry.1 == changed@.map_values(|c: (usize, String)| (c.0, c.1@)));
        let is_file = seq_eq(&chars_of(path.as_str()), &fc);
        if found.is_none() && is_file {
            found = find_change(changed, line);
        }
        let ghost base = rewritten@.map_values(|c: Citation| citation_view(c));
        let mut k: usize = 0;
        while k < changed.len()
            invariant
                k <= changed@.len(),
                entry.1 == changed@.map_values(|c: (usize, String)| (c.0, c.1@)),
                entry.0 == path@,
                is_file == (path@ == file@),
                line == heading.line,
                rewritten@.map_values(|c: Citation| citation_view(c)) == base + file_citations(root@, file@, line, path@, entry.1, k as int),
            decreases changed.len() - k,
        {
            assert(entry.1[k as int] == (changed@[k as int].0, changed@[k as int].1@));
            let ghost before = rewritten@.map_values(|c: Citation| citation_view(c));
            if !(is_file && changed[k].0 == line) {
                let c = citation(root, path.as_str(), changed[k].0, changed[k].1.as_str());
                rewritten.push(c);
                assert(rewritten@.map_values(|c: Citation| citation_view(c)) =~= before.push(citation_view(c)));
            }
            k = k + 1;
        }
        proof {
            assert(base + file_citations(root@, file@, line, path@, entry.1, entry.1.len() as int)
                =~= rewritten_spec(root@, file@, line, av, i + 1));
            if heading_change(av, file@, line, i as int) is Some {
                lemma_heading_change_extends(av, file@, line, i as int, i + 1);
            }
        }
        i = i + 1;
    }
    let heading_text = match found {
        Some(t) => t,
        None => String::new(),
    };
    let heading_citation = citation(root, file, line, heading_text.as_str());
    let ghost ov = occurrences@.map_values(|h: (String, usize, String)| (h.0@, h.1, h.2@));
    let mut unrewritten: Vec<Citation> = Vec::new();
    if scope.is_degraded() {
        let mut j: usize = 0;
        while j < occurrences.len()
            invariant
                j <= occurrences@.len(),
                ov == occurrences@.map_values(|h: (String, usize, String)| (h.0@, h.1, h.2@)),
                fc@ == file@,
                line == heading.line,
                unrewritten@.map_values(|c: Citation| citation_view(c)) == unrewritten_spec(root@, file@, line, ov, j as int),
            decreases occurrences.len() - j,
        {
            assert(ov[j as int] == (occurrences@[j as int].0@, occurrences@[j as int].1, occurrences@[j as int].2@));
            let ghost before = unrewritten@.map_values(|c: Citation| citation_view(c));
            let o = &occurrences[j];
            if !(seq_eq(&chars_of(o.0.as_str()), &fc) && o.1 == line) {
                let c = citation(root, o.0.as_str(), o.1, o.2.as_str());
                unrewritten.push(c);
                assert(unrewritten@.map_values(|c: Citation| citation_view(c)) =~= before.push(citation_view(c)));
            }
            j = j + 1;
        }
    } else {
        assert(unrewritten@.map_values(|c: Citation| citation_view(c)) =~= Seq::<(Seq<char>, usize, Seq<char>)>::empty());
    }
    Report {
        old_id: heading.id.as_str().to_owned(),
        new_id: new_id.to_owned(),
        title: heading.title.as_str().to_owned(),
        heading: heading_citation,
        rewritten,
        unrewritten,
        scope,
        dry_run,
    }
}

} // verus!
