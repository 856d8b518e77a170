//! Invocation counts, from a runtime's own session transcripts.
//!
//! A second opinion, never the system of record: off unless asked for. Two
//! record shapes count, because a skill has two front doors — a `Skill`
//! tool call naming it, and a slash command, which shows up as a
//! `<command-name>` marker in user content.
//!
//! Derived counts only: a skill name reaches the output only after matching
//! a known skill, so nothing typed into a conversation is ever printed, and
//! dates are truncated to a day. The caller walks the transcript files and
//! decodes each JSON record into a `Content`; the counting is decided here.

use vstd::prelude::*;

use crate::json::{item_views, json_parse, json_view, lemma_item_views, member, member_of, parse_json, str_of, text_of, JsonValue, JsonView};

use crate::text::{
    chars_of, contains_seq, contains_str, find_from, is_digit, is_digit_exec, is_lower, is_lower_exec, lex_less, lex_lt, occurs_at, seq_eq,
    slice_vec, string_of,
};

verus! {

/// What the report shows for one skill.
#[derive(Debug, Clone, PartialEq, Eq)]
pub struct Seen {
    pub count: u64,
    /// The most recent day it was invoked, `YYYY-MM-DD`.
    pub last: Option<String>,
}

impl Default for Seen {
    fn default() -> (r: Seen)
        ensures
            r.count == 0 && r.last is None,
    {
        Seen { count: 0, last: None }
    }
}

/// A skill's tally as plain values.
pub type SeenView = (nat, Option<Seq<char>>);

pub open spec fn seen_view(s: Seen) -> SeenView {
    (s.count as nat, match s.last { Some(d) => Some(d@), None => None })
}

pub open spec fn counts_view(c: Seq<(String, Seen)>) -> Seq<(Seq<char>, SeenView)> {
    c.map_values(|e: (String, Seen)| (e.0@, seen_view(e.1)))
}

/// Where skill `name` is tallied, if it is.
pub open spec fn seen_index(c: Seq<(Seq<char>, SeenView)>, name: Seq<char>) -> Option<int>
    decreases c.len(),
{
    if c.len() == 0 {
        None
    } else if c.last().0 == name {
        Some(c.len() - 1)
    } else {
        seen_index(c.drop_last(), name)
    }
}

/// No skill is tallied twice.
pub open spec fn counts_wf(c: Seq<(Seq<char>, SeenView)>) -> bool {
    forall|i: int, j: int| 0 <= i < j < c.len() ==> (#[trigger] c[i]).0 != (#[trigger] c[j]).0
}

pub proof fn lemma_seen_index(c: Seq<(Seq<char>, SeenView)>, name: Seq<char>)
    ensures
        match seen_index(c, name) {
            Some(i) => 0 <= i < c.len() && c[i].0 == name,
            None => forall|j: int| 0 <= j < c.len() ==> (#[trigger] c[j]).0 != name,
        },
    decreases c.len(),
{
    if c.len() > 0 && c.last().0 != name {
        lemma_seen_index(c.drop_last(), name);
        assert forall|j: int| 0 <= j < c.len() - 1 implies c.drop_last()[j] == c[j] by {}
    }
}

/// What one more invocation of `name`, on `day` when the record had one,
/// does to the tallies: one more for `name`, whose last day becomes `day`
/// when that is later.
pub open spec fn bump_spec(c: Seq<(Seq<char>, SeenView)>, name: Seq<char>, day: Option<Seq<char>>) -> Seq<(Seq<char>, SeenView)> {
    let (i, old) = match seen_index(c, name) {
        Some(i) => (i, c[i].1),
        None => (c.len() as int, (0nat, None::<Seq<char>>)),
    };
    let last = match day {
        Some(d) => match old.1 {
            Some(l) => if lex_lt(l, d) { Some(d) } else { old.1 },
            None => Some(d),
        },
        None => old.1,
    };
    let count = if old.0 < u64::MAX { old.0 + 1 } else { old.0 };
    let new = (name, (count, last));
    if i < c.len() { c.update(i, new) } else { c.push(new) }
}

/// Counting an invocation adds exactly one to that skill's count (short of
/// the largest `u64`) and never moves its last day back: the day after is
/// the later of the two. Every other skill's tally is left alone.
pub proof fn lemma_bump_counts_once_and_keeps_the_latest_day(c: Seq<(Seq<char>, SeenView)>, name: Seq<char>, day: Option<Seq<char>>)
    ensures
        ({
            let after = bump_spec(c, name, day);
            let i = match seen_index(c, name) { Some(i) => i, None => c.len() as int };
            let before: SeenView = match seen_index(c, name) { Some(i) => c[i].1, None => (0nat, None) };
            &&& 0 <= i < after.len()
            &&& after[i].0 == name
            &&& after[i].1.0 == (if before.0 < u64::MAX { before.0 + 1 } else { before.0 })
            &&& match (before.1, after[i].1.1) {
                (Some(l), Some(n)) => n == l || lex_lt(l, n),
                (Some(_), None) => false,
                _ => true,
            }
            &&& forall|j: int| 0 <= j < c.len() && j != i ==> after[j] == c[j]
        }),
{
    lemma_seen_index(c, name);
}

/// Counts one invocation of `skill`. A count already at the largest `u64`
/// stays there.
pub fn bump(skill: &str, day: &Option<String>, counts: &mut Vec<(String, Seen)>)
    requires
        counts_wf(counts_view(old(counts)@)),
    ensures
        counts_wf(counts_view(final(counts)@)),
        counts_view(final(counts)@) == bump_spec(
            counts_view(old(counts)@),
            skill@,
            match day { Some(d) => Some(d@), None => None },
        ),
{
    let ghost cv = counts_view(counts@);
    let ghost dv: Option<Seq<char>> = match day { Some(d) => Some(d@), None => None };
    proof {
        lemma_seen_index(cv, skill@);
    }
    let name = chars_of(skill);
    let mut b = counts.len();
    assert(cv.take(b as int) =~= cv);
    while b > 0 && !seq_eq(&chars_of(counts[b - 1].0.as_str()), &name)
        invariant
            b <= counts@.len(),
            cv == counts_view(counts@),
            name@ == skill@,
            seen_index(cv, skill@) == seen_index(cv.take(b as int), skill@),
        decreases b,
    {
        assert(cv.take(b as int).drop_last() =~= cv.take(b - 1));
        assert(cv[b - 1] == (counts@[b - 1].0@, seen_view(counts@[b - 1].1)));
        b = b - 1;
    }
    if b > 0 {
        assert(cv[b - 1] == (counts@[b - 1].0@, seen_view(counts@[b - 1].1)));
        assert(cv.take(b as int).last() == cv[b - 1]);
        assert(seen_index(cv, skill@) == Some(b - 1));
        let i = b - 1;
        let old_count = counts[i].1.count;
        let last = match day {
            Some(d) => match &counts[i].1.last {
                Some(l) => {
                    if lex_less(&chars_of(l.as_str()), &chars_of(d.as_str())) {
                        Some(d.clone())
                    } else {
                        Some(l.clone())
                    }
                },
                None => Some(d.clone()),
            },
            None => counts[i].1.last.clone(),
        };
        let count = if old_count < u64::MAX { old_count + 1 } else { old_count };
        let entry = (counts[i].0.clone(), Seen { count, last });
        counts.set(i, entry);
        proof {
            assert(counts_view(counts@) =~= bump_spec(cv, skill@, dv));
            assert forall|p: int, q: int| 0 <= p < q < counts@.len() implies (#[trigger] counts_view(counts@)[p]).0 != (#[trigger] counts_view(counts@)[q]).0 by {
                assert(counts_view(counts@)[p].0 == cv[p].0);
                assert(counts_view(counts@)[q].0 == cv[q].0);
            }
        }
    } else {
        assert(seen_index(cv, skill@) is None) by {
            assert(cv.take(0) =~= Seq::<(Seq<char>, SeenView)>::empty());
        }
        let last = match day {
            Some(d) => Some(d.clone()),
            None => None,
        };
        counts.push((skill.to_owned(), Seen { count: 1, last }));
        proof {
            assert(counts_view(counts@) =~= bump_spec(cv, skill@, dv));
            assert forall|p: int, q: int| 0 <= p < q < counts@.len() implies (#[trigger] counts_view(counts@)[p]).0 != (#[trigger] counts_view(counts@)[q]).0 by {
                assert(counts_view(counts@)[p].0 == cv[p].0);
                if q < cv.len() {
                    assert(counts_view(counts@)[q].0 == cv[q].0);
                }
            }
        }
    }
}

/// What the report shows for skill `name`: its tally, when it has one.
pub fn seen_for<'a>(counts: &'a Vec<(String, Seen)>, name: &str) -> (r: Option<&'a Seen>)
    ensures
        match seen_index(counts_view(counts@), name@) {
            Some(i) => r == Some(&counts@[i].1),
            None => r is None,
        },
{
    let ghost cv = counts_view(counts@);
    let nc = chars_of(name);
    let mut b = counts.len();
    assert(cv.take(b as int) =~= cv);
    while b > 0 && !seq_eq(&chars_of(counts[b - 1].0.as_str()), &nc)
        invariant
            b <= counts@.len(),
            cv == counts_view(counts@),
            nc@ == name@,
            seen_index(cv, name@) == seen_index(cv.take(b as int), name@),
        decreases b,
    {
        assert(cv.take(b as int).drop_last() =~= cv.take(b - 1));
        assert(cv[b - 1] == (counts@[b - 1].0@, seen_view(counts@[b - 1].1)));
        b = b - 1;
    }
    if b > 0 {
        assert(cv[b - 1] == (counts@[b - 1].0@, seen_view(counts@[b - 1].1)));
        assert(cv.take(b as int).last() == cv[b - 1]);
        Some(&counts[b - 1].1)
    } else {
        assert(cv.take(0) =~= Seq::<(Seq<char>, SeenView)>::empty());
        None
    }
}

// --- finding names in text ------------------------------------------------------

/// The first index at or after `k` where `p` occurs in `s`.
pub open spec fn find_at(s: Seq<char>, p: Seq<char>, k: int) -> Option<int>
    decreases s.len() + 1 - k,
{
    if k < 0 || k + p.len() > s.len() {
        None
    } else if occurs_at(s, p, k) {
        Some(k)
    } else {
        find_at(s, p, k + 1)
    }
}

pub proof fn lemma_find_at(s: Seq<char>, p: Seq<char>, k: int)
    ensures
        match find_at(s, p, k) {
            Some(i) => k <= i && i + p.len() <= s.len() && occurs_at(s, p, i),
            None => true,
        },
    decreases s.len() + 1 - k,
{
    if !(k < 0 || k + p.len() > s.len()) && !occurs_at(s, p, k) {
        lemma_find_at(s, p, k + 1);
    }
}

proof fn lemma_find_at_first(s: Seq<char>, p: Seq<char>, k: int, i: int)
    requires
        0 <= k <= i,
        occurs_at(s, p, i),
        forall|j: int| k <= j < i ==> !occurs_at(s, p, j),
    ensures
        find_at(s, p, k) == Some(i),
    decreases i - k,
{
    if k < i {
        lemma_find_at_first(s, p, k + 1, i);
    }
}

proof fn lemma_find_at_none(s: Seq<char>, p: Seq<char>, k: int)
    requires
        0 <= k,
        forall|j: int| k <= j ==> !occurs_at(s, p, j),
    ensures
        find_at(s, p, k) is None,
    decreases s.len() + 1 - k,
{
    if k + p.len() <= s.len() {
        lemma_find_at_none(s, p, k + 1);
    }
}

fn find_exec(s: &[char], p: &[char], from: usize) -> (r: Option<usize>)
    requires
        from <= s@.len(),
    ensures
        match r {
            Some(i) => find_at(s@, p@, from as int) == Some(i as int) && from <= i && i + p@.len() <= s@.len(),
            None => find_at(s@, p@, from as int) is None,
        },
{
    match find_from(s, p, from) {
        Some(i) => {
            proof {
                lemma_find_at_first(s@, p@, from as int, i as int);
            }
            Some(i)
        },
        None => {
            proof {
                lemma_find_at_none(s@, p@, from as int);
            }
            None
        },
    }
}

pub open spec fn open_marker() -> Seq<char> {
    "<command-name>"@
}

pub open spec fn close_marker() -> Seq<char> {
    "</command-name>"@
}

pub proof fn lemma_marker_lens()
    ensures
        open_marker().len() == 14,
        close_marker().len() == 15,
{
    reveal_strlit("<command-name>");
    reveal_strlit("</command-name>");
}

/// A name without the `/`s it starts with (`trim_start_matches('/')`).
pub open spec fn strip_slashes(s: Seq<char>) -> Seq<char>
    decreases s.len(),
{
    if s.len() > 0 && s[0] == '/' { strip_slashes(s.drop_first()) } else { s }
}

/// The command names `<command-name>/foo</command-name>` markers name in
/// `s`, searching from `pos`; an unclosed marker ends the search.
pub open spec fn markers_from(s: Seq<char>, pos: int) -> Seq<Seq<char>>
    decreases s.len() - pos,
    when 0 <= pos <= s.len()
{
    match find_at(s, open_marker(), pos) {
        None => Seq::empty(),
        Some(st) => match find_at(s, close_marker(), st + 14) {
            None => Seq::empty(),
            Some(e) => {
                proof {
                    lemma_marker_lens();
                    lemma_find_at(s, open_marker(), pos);
                    lemma_find_at(s, close_marker(), st + 14);
                }
                seq![strip_slashes(s.subrange(st + 14, e))] + markers_from(s, e)
            },
        },
    }
}

/// The skill a command maps to, the last mapping for it winning.
pub open spec fn command_skill(commands: Seq<(Seq<char>, Seq<char>)>, name: Seq<char>) -> Option<Seq<char>>
    decreases commands.len(),
{
    if commands.len() == 0 {
        None
    } else if commands.last().0 == name {
        Some(commands.last().1)
    } else {
        command_skill(commands.drop_last(), name)
    }
}

/// The tallies after one invocation of each skill the first `n` names map
/// to.
pub open spec fn bump_names(c: Seq<(Seq<char>, SeenView)>, commands: Seq<(Seq<char>, Seq<char>)>, names: Seq<Seq<char>>, day: Option<Seq<char>>, n: int) -> Seq<(Seq<char>, SeenView)>
    decreases n,
{
    if n <= 0 {
        c
    } else {
        let before = bump_names(c, commands, names, day, n - 1);
        match command_skill(commands, names[n - 1]) {
            Some(skill) => bump_spec(before, skill, day),
            None => before,
        }
    }
}

proof fn lemma_bump_wf(c: Seq<(Seq<char>, SeenView)>, name: Seq<char>, day: Option<Seq<char>>)
    requires
        counts_wf(c),
    ensures
        counts_wf(bump_spec(c, name, day)),
{
    lemma_seen_index(c, name);
    let after = bump_spec(c, name, day);
    assert forall|p: int, q: int| 0 <= p < q < after.len() implies (#[trigger] after[p]).0 != (#[trigger] after[q]).0 by {
        match seen_index(c, name) {
            Some(i) => {
                assert(c[i].0 == name);
                if p != i { assert(after[p] == c[p]); }
                if q != i { assert(after[q] == c[q]); }
            },
            None => {
                if q < c.len() { assert(after[q] == c[q]); assert(after[p] == c[p]); }
                else { assert(after[p] == c[p]); }
            },
        }
    }
}

fn strip_slashes_exec(s: &[char]) -> (r: Vec<char>)
    ensures
        r@ == strip_slashes(s@),
{
    let n = s.len();
    let mut i: usize = 0;
    assert(s@.skip(0) =~= s@);
    while i < n && s[i] == '/'
        invariant
            i <= n,
            n == s@.len(),
            strip_slashes(s@) == strip_slashes(s@.skip(i as int)),
        decreases n - i,
    {
        assert(s@.skip(i as int).drop_first() =~= s@.skip(i + 1));
        i = i + 1;
    }
    let r = slice_vec(s, i, n);
    assert(r@ =~= s@.skip(i as int));
    r
}

fn command_skill_exec<'a>(commands: &'a Vec<(String, String)>, name: &[char]) -> (r: Option<&'a String>)
    ensures
        match command_skill(commands@.map_values(|e: (String, String)| (e.0@, e.1@)), name@) {
            Some(k) => r is Some && r->0@ == k,
            None => r is None,
        },
{
    let ghost cv = commands@.map_values(|e: (String, String)| (e.0@, e.1@));
    let mut b = commands.len();
    assert(cv.take(b as int) =~= cv);
    while b > 0 && !seq_eq(&chars_of(commands[b - 1].0.as_str()), name)
        invariant
            b <= commands@.len(),
            cv == commands@.map_values(|e: (String, String)| (e.0@, e.1@)),
            command_skill(cv, name@) == command_skill(cv.take(b as int), name@),
        decreases b,
    {
        assert(cv.take(b as int).drop_last() =~= cv.take(b - 1));
        b = b - 1;
    }
    if b > 0 {
        assert(cv.take(b as int).last() == cv[b - 1]);
        Some(&commands[b - 1].1)
    } else {
        assert(cv.take(0) =~= Seq::<(Seq<char>, Seq<char>)>::empty());
        None
    }
}

/// Counts the slash commands `text` shows: each `<command-name>` marker
/// whose command maps to a skill, through `commands` (command name to
/// skill), is one invocation of that skill on `day`.
pub fn scan_text(text: &str, commands: &Vec<(String, String)>, day: &Option<String>, counts: &mut Vec<(String, Seen)>)
    requires
        counts_wf(counts_view(old(counts)@)),
    ensures
        counts_wf(counts_view(final(counts)@)),
        counts_view(final(counts)@) == bump_names(
            counts_view(old(counts)@),
            commands@.map_values(|e: (String, String)| (e.0@, e.1@)),
            markers_from(text@, 0),
            match day { Some(d) => Some(d@), None => None },
            markers_from(text@, 0).len() as int,
        ),
{
    let ghost c0 = counts_view(counts@);
    let ghost cmds = commands@.map_values(|e: (String, String)| (e.0@, e.1@));
    let ghost dv: Option<Seq<char>> = match day { Some(d) => Some(d@), None => None };
    let s = chars_of(text);
    let open = chars_of("<command-name>");
    let close = chars_of("</command-name>");
    proof {
        lemma_marker_lens();
    }
    let n = s.len();
    let mut pos: usize = 0;
    let ghost mut done: Seq<Seq<char>> = Seq::empty();
    assert(markers_from(text@, 0) == done + markers_from(text@, 0));
    loop
        invariant
            pos <= n,
            n == s@.len(),
            s@ == text@,
            open@ == open_marker(),
            close@ == close_marker(),
            open@.len() == 14,
            close@.len() == 15,
            cmds == commands@.map_values(|e: (String, String)| (e.0@, e.1@)),
            dv == match day { Some(d) => Some(d@), None => None::<Seq<char>> },
            markers_from(text@, 0) == done + markers_from(text@, pos as int),
            counts_wf(counts_view(counts@)),
            counts_view(counts@) == bump_names(c0, cmds, done, dv, done.len() as int),
        ensures
            counts_wf(counts_view(counts@)),
            counts_view(counts@) == bump_names(c0, cmds, markers_from(text@, 0), dv, markers_from(text@, 0).len() as int),
        decreases n - pos,
    {
        let start = match find_exec(&s, &open, pos) {
            Some(st) => st,
            None => {
                assert(markers_from(text@, pos as int) =~= Seq::<Seq<char>>::empty());
                assert(done + markers_from(text@, pos as int) =~= done);
                break;
            },
        };
        let after = start + 14;
        let end = match find_exec(&s, &close, after) {
            Some(e) => e,
            None => {
                assert(markers_from(text@, pos as int) =~= Seq::<Seq<char>>::empty());
                assert(done + markers_from(text@, pos as int) =~= done);
                break;
            },
        };
        let raw = slice_vec(&s, after, end);
        let name = strip_slashes_exec(&raw);
        proof {
            assert(raw@ =~= text@.subrange(after as int, end as int));
            let tail = markers_from(text@, end as int);
            assert(markers_from(text@, pos as int) == seq![name@] + tail);
            assert(done + markers_from(text@, pos as int) =~= done.push(name@) + tail);
        }
        let ghost before = counts_view(counts@);
        let ghost d2 = done.push(name@);
        proof {
            assert(d2.take(done.len() as int) =~= done);
            lemma_bump_names_prefix(c0, cmds, done, d2, dv, done.len() as int);
            assert(d2[done.len() as int] == name@);
        }
        match command_skill_exec(commands, &name) {
            Some(skill) => {
                proof {
                    lemma_bump_wf(before, skill@, dv);
                }
                bump(skill.as_str(), day, counts);
                assert(counts_view(counts@) == bump_names(c0, cmds, d2, dv, d2.len() as int));
            },
            None => {
                assert(counts_view(counts@) == bump_names(c0, cmds, d2, dv, d2.len() as int));
            },
        }
        proof {
            done = d2;
        }
        pos = end;
    }
}

proof fn lemma_bump_names_prefix(c: Seq<(Seq<char>, SeenView)>, commands: Seq<(Seq<char>, Seq<char>)>, a: Seq<Seq<char>>, b: Seq<Seq<char>>, day: Option<Seq<char>>, n: int)
    requires
        0 <= n <= a.len(),
        n <= b.len(),
        forall|i: int| 0 <= i < n ==> a[i] == b[i],
    ensures
        bump_names(c, commands, a, day, n) == bump_names(c, commands, b, day, n),
    decreases n,
{
    if n > 0 {
        lemma_bump_names_prefix(c, commands, a, b, day, n - 1);
    }
}

// --- which skill a command file opens ----------------------------------------------

pub open spec fn skills_prefix() -> Seq<char> {
    ".agents/skills/"@
}

pub proof fn lemma_prefix_len()
    ensures
        skills_prefix().len() == 15,
{
    reveal_strlit(".agents/skills/");
}

pub open spec fn name_char(c: char) -> bool {
    is_lower(c) || is_digit(c) || c == '-'
}

/// The skill-name characters `s` starts with.
pub open spec fn name_run(s: Seq<char>) -> Seq<char>
    decreases s.len(),
{
    if s.len() > 0 && name_char(s[0]) { seq![s[0]] + name_run(s.drop_first()) } else { Seq::empty() }
}

/// The first `.agents/skills/<name>` path in `s`, from `pos` on, whose
/// name is a known skill.
pub open spec fn referenced_from(s: Seq<char>, known: Seq<Seq<char>>, pos: int) -> Option<Seq<char>>
    decreases s.len() - pos,
    when 0 <= pos <= s.len()
{
    match find_at(s, skills_prefix(), pos) {
        None => None,
        Some(at) => {
            proof {
                lemma_prefix_len();
                lemma_find_at(s, skills_prefix(), pos);
            }
            let name = name_run(s.skip(at + 15));
            if known.contains(name) { Some(name) } else { referenced_from(s, known, at + 15) }
        },
    }
}

fn name_run_exec(s: &[char], from: usize) -> (r: Vec<char>)
    requires
        from <= s@.len(),
    ensures
        r@ == name_run(s@.skip(from as int)),
{
    let n = s.len();
    let mut j = from;
    assert(name_run(s@.skip(from as int)) == s@.subrange(from as int, j as int) + name_run(s@.skip(j as int)));
    while j < n && (is_lower_exec(s[j]) || is_digit_exec(s[j]) || s[j] == '-')
        invariant
            from <= j <= n,
            n == s@.len(),
            name_run(s@.skip(from as int)) == s@.subrange(from as int, j as int) + name_run(s@.skip(j as int)),
        decreases n - j,
    {
        assert(s@.skip(j as int).drop_first() =~= s@.skip(j + 1));
        assert(s@.subrange(from as int, j + 1) =~= s@.subrange(from as int, j as int).push(s@[j as int]));
        assert(name_run(s@.skip(j as int)) == seq![s@[j as int]] + name_run(s@.skip(j + 1)));
        assert(s@.subrange(from as int, j as int) + (seq![s@[j as int]] + name_run(s@.skip(j + 1))) =~= s@.subrange(from as int, j + 1) + name_run(s@.skip(j + 1)));
        j = j + 1;
    }
    assert(name_run(s@.skip(j as int)) =~= Seq::<char>::empty());
    let r = slice_vec(s, from, j);
    assert(r@ =~= name_run(s@.skip(from as int)));
    r
}

/// The skill a command file tells the agent to open: the first
/// `.agents/skills/<name>` in its text whose name is a known skill.
pub fn referenced_skill(text: &str, known: &Vec<String>) -> (r: Option<String>)
    ensures
        match referenced_from(text@, known@.map_values(|k: String| k@), 0) {
            Some(name) => r is Some && r->0@ == name,
            None => r is None,
        },
{
    let ghost kv = known@.map_values(|k: String| k@);
    let s = chars_of(text);
    let prefix = chars_of(".agents/skills/");
    proof {
        lemma_prefix_len();
    }
    let n = s.len();
    let mut pos: usize = 0;
    loop
        invariant
            pos <= n,
            n == s@.len(),
            s@ == text@,
            prefix@ == skills_prefix(),
            prefix@.len() == 15,
            kv == known@.map_values(|k: String| k@),
            referenced_from(text@, kv, 0) == referenced_from(text@, kv, pos as int),
        decreases n - pos,
    {
        let at = match find_exec(&s, &prefix, pos) {
            Some(a) => a,
            None => {
                return None;
            },
        };
        let after = at + 15;
        let name = name_run_exec(&s, after);
        let mut k: usize = 0;
        while k < known.len() && !seq_eq(&chars_of(known[k].as_str()), &name)
            invariant
                k <= known@.len(),
                kv == known@.map_values(|k: String| k@),
                forall|q: int| 0 <= q < k ==> kv[q] != name@,
            decreases known.len() - k,
        {
            k = k + 1;
        }
        if k < known.len() {
            assert(kv[k as int] == name@);
            assert(kv.contains(name@));
            return Some(string_of(&name));
        }
        assert(!kv.contains(name@));
        pos = after;
    }
}

// --- one transcript record's content ------------------------------------------

/// One content block of a transcript record, as far as counting reads it.
pub enum Block {
    /// A `tool_use` block calling the `Skill` tool, with the skill it named
    /// when it named one.
    SkillCall(Option<String>),
    /// A `text` block with its text.
    Text(String),
    /// Anything else.
    Other,
}

/// A transcript record's `message.content`.
pub enum Content {
    Text(String),
    Blocks(Vec<Block>),
    Other,
}

/// A block as plain values.
pub enum BlockView {
    SkillCall(Option<Seq<char>>),
    Text(Seq<char>),
    Other,
}

/// A record's content as plain values.
pub enum ContentView {
    Text(Seq<char>),
    Blocks(Seq<BlockView>),
    Other,
}

pub open spec fn block_view(b: Block) -> BlockView {
    match b {
        Block::SkillCall(Some(s)) => BlockView::SkillCall(Some(s@)),
        Block::SkillCall(None) => BlockView::SkillCall(None),
        Block::Text(t) => BlockView::Text(t@),
        Block::Other => BlockView::Other,
    }
}

pub open spec fn content_view(c: Content) -> ContentView {
    match c {
        Content::Text(t) => ContentView::Text(t@),
        Content::Blocks(bs) => ContentView::Blocks(bs@.map_values(|b: Block| block_view(b))),
        Content::Other => ContentView::Other,
    }
}

/// The tallies after the first `n` blocks: a `Skill` call naming a known
/// skill is one invocation of it; a text block counts its slash commands.
pub open spec fn scan_blocks(c: Seq<(Seq<char>, SeenView)>, blocks: Seq<BlockView>, known: Seq<Seq<char>>, commands: Seq<(Seq<char>, Seq<char>)>, day: Option<Seq<char>>, n: int) -> Seq<(Seq<char>, SeenView)>
    decreases n,
{
    if n <= 0 {
        c
    } else {
        let before = scan_blocks(c, blocks, known, commands, day, n - 1);
        match blocks[n - 1] {
            BlockView::SkillCall(Some(skill)) => if known.contains(skill) { bump_spec(before, skill, day) } else { before },
            BlockView::Text(t) => {
                let ms = markers_from(t, 0);
                bump_names(before, commands, ms, day, ms.len() as int)
            },
            _ => before,
        }
    }
}

pub open spec fn scan_spec(c: Seq<(Seq<char>, SeenView)>, content: ContentView, known: Seq<Seq<char>>, commands: Seq<(Seq<char>, Seq<char>)>, day: Option<Seq<char>>) -> Seq<(Seq<char>, SeenView)> {
    match content {
        ContentView::Text(t) => {
            let ms = markers_from(t, 0);
            bump_names(c, commands, ms, day, ms.len() as int)
        },
        ContentView::Blocks(bs) => scan_blocks(c, bs, known, commands, day, bs.len() as int),
        ContentView::Other => c,
    }
}

fn contains_string(known: &Vec<String>, name: &str) -> (r: bool)
    ensures
        r == known@.map_values(|k: String| k@).contains(name@),
{
    let ghost kv = known@.map_values(|k: String| k@);
    let nc = chars_of(name);
    let mut k: usize = 0;
    while k < known.len() && !seq_eq(&chars_of(known[k].as_str()), &nc)
        invariant
            k <= known@.len(),
            nc@ == name@,
            kv == known@.map_values(|k: String| k@),
            forall|q: int| 0 <= q < k ==> kv[q] != name@,
        decreases known.len() - k,
    {
        k = k + 1;
    }
    if k < known.len() {
        assert(kv[k as int] == name@);
        true
    } else {
        false
    }
}

/// Counts one record's invocations: `known` are the skills that may be
/// named, `commands` maps command names to skills, `day` is the record's.
pub fn scan(content: &Content, known: &Vec<String>, commands: &Vec<(String, String)>, day: &Option<String>, counts: &mut Vec<(String, Seen)>)
    requires
        counts_wf(counts_view(old(counts)@)),
    ensures
        counts_wf(counts_view(final(counts)@)),
        counts_view(final(counts)@) == scan_spec(
            counts_view(old(counts)@),
            content_view(*content),
            known@.map_values(|k: String| k@),
            commands@.map_values(|e: (String, String)| (e.0@, e.1@)),
            match day { Some(d) => Some(d@), None => None },
        ),
{
    match content {
        Content::Text(t) => scan_text(t.as_str(), commands, day, counts),
        Content::Other => {},
        Content::Blocks(blocks) => {
            let ghost c0 = counts_view(counts@);
            let ghost kv = known@.map_values(|k: String| k@);
            let ghost cmds = commands@.map_values(|e: (String, String)| (e.0@, e.1@));
            let ghost dv: Option<Seq<char>> = match day { Some(d) => Some(d@), None => None };
            let mut i: usize = 0;
            while i < blocks.len()
                invariant
                    i <= blocks@.len(),
                    kv == known@.map_values(|k: String| k@),
                    cmds == commands@.map_values(|e: (String, String)| (e.0@, e.1@)),
                    dv == match day { Some(d) => Some(d@), None => None::<Seq<char>> },
                    counts_wf(counts_view(counts@)),
                    counts_view(counts@) == scan_blocks(c0, blocks@.map_values(|b: Block| block_view(b)), kv, cmds, dv, i as int),
                decreases blocks.len() - i,
            {
                assert(blocks@.map_values(|b: Block| block_view(b))[i as int] == block_view(blocks@[i as int]));
                match &blocks[i] {
                    Block::SkillCall(Some(skill)) => {
                        if contains_string(known, skill.as_str()) {
                            bump(skill.as_str(), day, counts);
                        }
                    },
                    Block::Text(t) => {
                        scan_text(t.as_str(), commands, day, counts);
                    },
                    _ => {},
                }
                i = i + 1;
            }
        },
    }
}

// --- only known names are ever counted --------------------------------------------

/// `name` may appear in tallies that started as `c`: it was already there,
/// it is a known skill, or a command maps to it.
pub open spec fn may_emit(c: Seq<(Seq<char>, SeenView)>, known: Seq<Seq<char>>, commands: Seq<(Seq<char>, Seq<char>)>, name: Seq<char>) -> bool {
    (exists|j: int| 0 <= j < c.len() && (#[trigger] c[j]).0 == name) || known.contains(name)
        || (exists|k: int| 0 <= k < commands.len() && (#[trigger] commands[k]).1 == name)
}

proof fn lemma_command_skill_is_a_target(commands: Seq<(Seq<char>, Seq<char>)>, name: Seq<char>)
    ensures
        match command_skill(commands, name) {
            Some(skill) => exists|k: int| 0 <= k < commands.len() && (#[trigger] commands[k]).1 == skill,
            None => true,
        },
    decreases commands.len(),
{
    if commands.len() > 0 {
        if commands.last().0 == name {
            assert(commands[commands.len() - 1].1 == commands.last().1);
        } else {
            lemma_command_skill_is_a_target(commands.drop_last(), name);
            match command_skill(commands.drop_last(), name) {
                Some(skill) => {
                    let k = choose|k: int| 0 <= k < commands.drop_last().len() && (#[trigger] commands.drop_last()[k]).1 == skill;
                    assert(commands[k].1 == skill);
                },
                None => {},
            }
        }
    }
}

proof fn lemma_bump_keeps_names(c: Seq<(Seq<char>, SeenView)>, name: Seq<char>, day: Option<Seq<char>>)
    ensures
        forall|i: int| 0 <= i < bump_spec(c, name, day).len() ==> (#[trigger] bump_spec(c, name, day)[i]).0 == name
            || exists|j: int| 0 <= j < c.len() && (#[trigger] c[j]).0 == bump_spec(c, name, day)[i].0,
{
    lemma_seen_index(c, name);
    let after = bump_spec(c, name, day);
    assert forall|i: int| 0 <= i < after.len() implies (#[trigger] after[i]).0 == name
        || exists|j: int| 0 <= j < c.len() && (#[trigger] c[j]).0 == after[i].0 by {
        if i < c.len() && after[i].0 != name {
            assert(after[i] == c[i]);
        }
    }
}

proof fn lemma_bump_names_keeps_names(
    c: Seq<(Seq<char>, SeenView)>,
    known: Seq<Seq<char>>,
    commands: Seq<(Seq<char>, Seq<char>)>,
    names: Seq<Seq<char>>,
    day: Option<Seq<char>>,
    n: int,
)
    requires
        0 <= n <= names.len(),
    ensures
        forall|i: int| 0 <= i < bump_names(c, commands, names, day, n).len() ==> may_emit(c, known, commands, (#[trigger] bump_names(c, commands, names, day, n)[i]).0),
    decreases n,
{
    if n > 0 {
        lemma_bump_names_keeps_names(c, known, commands, names, day, n - 1);
        let before = bump_names(c, commands, names, day, n - 1);
        lemma_command_skill_is_a_target(commands, names[n - 1]);
        match command_skill(commands, names[n - 1]) {
            Some(skill) => {
                lemma_bump_keeps_names(before, skill, day);
                let after = bump_names(c, commands, names, day, n);
                assert forall|i: int| 0 <= i < after.len() implies may_emit(c, known, commands, (#[trigger] after[i]).0) by {
                    if after[i].0 != skill {
                        let j = choose|j: int| 0 <= j < before.len() && (#[trigger] before[j]).0 == after[i].0;
                        assert(may_emit(c, known, commands, before[j].0));
                    }
                }
            },
            None => {},
        }
    }
}

proof fn lemma_may_emit_grows(
    c: Seq<(Seq<char>, SeenView)>,
    mid: Seq<(Seq<char>, SeenView)>,
    after: Seq<(Seq<char>, SeenView)>,
    known: Seq<Seq<char>>,
    commands: Seq<(Seq<char>, Seq<char>)>,
)
    requires
        forall|i: int| 0 <= i < mid.len() ==> may_emit(c, known, commands, (#[trigger] mid[i]).0),
        forall|i: int| 0 <= i < after.len() ==> may_emit(mid, known, commands, (#[trigger] after[i]).0),
    ensures
        forall|i: int| 0 <= i < after.len() ==> may_emit(c, known, commands, (#[trigger] after[i]).0),
{
    assert forall|i: int| 0 <= i < after.len() implies may_emit(c, known, commands, (#[trigger] after[i]).0) by {
        if exists|j: int| 0 <= j < mid.len() && (#[trigger] mid[j]).0 == after[i].0 {
            let j = choose|j: int| 0 <= j < mid.len() && (#[trigger] mid[j]).0 == after[i].0;
            assert(may_emit(c, known, commands, mid[j].0));
        }
    }
}

proof fn lemma_scan_blocks_keeps_names(
    c: Seq<(Seq<char>, SeenView)>,
    blocks: Seq<BlockView>,
    known: Seq<Seq<char>>,
    commands: Seq<(Seq<char>, Seq<char>)>,
    day: Option<Seq<char>>,
    n: int,
)
    requires
        0 <= n <= blocks.len(),
    ensures
        forall|i: int| 0 <= i < scan_blocks(c, blocks, known, commands, day, n).len() ==> may_emit(c, known, commands, (#[trigger] scan_blocks(c, blocks, known, commands, day, n)[i]).0),
    decreases n,
{
    if n == 0 {
        let after = scan_blocks(c, blocks, known, commands, day, n);
        assert forall|i: int| 0 <= i < after.len() implies may_emit(c, known, commands, (#[trigger] after[i]).0) by {
            assert(c[i].0 == after[i].0);
        }
    } else {
        lemma_scan_blocks_keeps_names(c, blocks, known, commands, day, n - 1);
        let before = scan_blocks(c, blocks, known, commands, day, n - 1);
        let after = scan_blocks(c, blocks, known, commands, day, n);
        match blocks[n - 1] {
            BlockView::SkillCall(Some(skill)) => {
                if known.contains(skill) {
                    lemma_bump_keeps_names(before, skill, day);
                    assert forall|i: int| 0 <= i < after.len() implies may_emit(before, known, commands, (#[trigger] after[i]).0) by {}
                    lemma_may_emit_grows(c, before, after, known, commands);
                }
            },
            BlockView::Text(t) => {
                let ms = markers_from(t, 0);
                lemma_bump_names_keeps_names(before, known, commands, ms, day, ms.len() as int);
                lemma_may_emit_grows(c, before, after, known, commands);
            },
            _ => {},
        }
    }
}

/// Only names that may be printed are ever counted: every skill in the
/// tallies after a record was already tallied, is a known skill, or is the
/// skill a known command opens — nothing typed into a conversation gets in.
pub proof fn lemma_only_known_names_are_counted(
    c: Seq<(Seq<char>, SeenView)>,
    content: ContentView,
    known: Seq<Seq<char>>,
    commands: Seq<(Seq<char>, Seq<char>)>,
    day: Option<Seq<char>>,
)
    ensures
        forall|i: int| 0 <= i < scan_spec(c, content, known, commands, day).len() ==> may_emit(c, known, commands, (#[trigger] scan_spec(c, content, known, commands, day)[i]).0),
{
    match content {
        ContentView::Text(t) => {
            let ms = markers_from(t, 0);
            lemma_bump_names_keeps_names(c, known, commands, ms, day, ms.len() as int);
        },
        ContentView::Blocks(bs) => {
            lemma_scan_blocks_keeps_names(c, bs, known, commands, day, bs.len() as int);
        },
        ContentView::Other => {
            assert forall|i: int| 0 <= i < c.len() implies may_emit(c, known, commands, (#[trigger] c[i]).0) by {}
        },
    }
}

// --- reading transcript lines --------------------------------------------------

/// The day of a `timestamp`: its first ten characters, when the stamp has
/// ten and they are ASCII (a `YYYY-MM-DD` prefix).
pub open spec fn day_of(stamp: Seq<char>) -> Option<Seq<char>> {
    if stamp.len() >= 10 && forall|i: int| 0 <= i < 10 ==> #[trigger] stamp[i] <= '\u{7f}' {
        Some(stamp.take(10))
    } else {
        None
    }
}

/// What one content block counts as: a `tool_use` of the `Skill` tool with
/// the skill its input names, a `text` block with its text, or nothing.
pub open spec fn block_of(b: JsonView) -> BlockView {
    let ty = str_of(member(b, "type"@));
    if ty == Some("tool_use"@) && str_of(member(b, "name"@)) == Some("Skill"@) {
        BlockView::SkillCall(match member(b, "input"@) {
            Some(input) => str_of(member(input, "skill"@)),
            None => None,
        })
    } else if ty == Some("text"@) {
        match str_of(member(b, "text"@)) {
            Some(t) => BlockView::Text(t),
            None => BlockView::Other,
        }
    } else {
        BlockView::Other
    }
}

/// A transcript record's day and `message.content`.
pub open spec fn record_spec(v: JsonView) -> (Option<Seq<char>>, ContentView) {
    let day = match str_of(member(v, "timestamp"@)) {
        Some(s) => day_of(s),
        None => None,
    };
    let content = match member(v, "message"@) {
        Some(m) => member(m, "content"@),
        None => None,
    };
    (day, match content {
        Some(JsonView::Str(t)) => ContentView::Text(t),
        Some(JsonView::Array(items)) => ContentView::Blocks(Seq::new(items.len(), |i: int| block_of(items[i]))),
        _ => ContentView::Other,
    })
}

fn is_lit(s: Option<String>, lit: &str) -> (r: bool)
    ensures
        r == (match s { Some(x) => x@ == lit@, None => false }),
{
    match s {
        Some(x) => seq_eq(&chars_of(x.as_str()), &chars_of(lit)),
        None => false,
    }
}

fn block_from(b: &JsonValue) -> (r: Block)
    ensures
        block_view(r) == block_of(json_view(*b)),
{
    proof {
        reveal_strlit("tool_use");
        reveal_strlit("Skill");
        reveal_strlit("text");
    }
    let ty = text_of(member_of(b, "type"));
    let is_tool_use = is_lit(text_of(member_of(b, "type")), "tool_use");
    let is_skill = is_lit(text_of(member_of(b, "name")), "Skill");
    if is_tool_use && is_skill {
        let skill = match member_of(b, "input") {
            Some(input) => text_of(member_of(input, "skill")),
            None => None,
        };
        Block::SkillCall(skill)
    } else if is_lit(ty, "text") {
        match text_of(member_of(b, "text")) {
            Some(t) => Block::Text(t),
            None => Block::Other,
        }
    } else {
        Block::Other
    }
}

fn day_from(stamp: Option<String>) -> (r: Option<String>)
    ensures
        match (match stamp { Some(s) => day_of(s@), None => None }) {
            Some(d) => r is Some && r->0@ == d,
            None => r is None,
        },
{
    match stamp {
        Some(s) => {
            let c = chars_of(s.as_str());
            if c.len() < 10 {
                return None;
            }
            let mut i: usize = 0;
            while i < 10
                invariant
                    i <= 10 <= c@.len(),
                    c@ == s@,
                    stamp is Some && stamp->0@ == s@,
                    forall|j: int| 0 <= j < i ==> #[trigger] c@[j] <= '\u{7f}',
                decreases 10 - i,
            {
                if c[i] > '\u{7f}' {
                    assert(!(s@[i as int] <= '\u{7f}'));
                    return None;
                }
                i = i + 1;
            }
            let d = slice_vec(&c, 0, 10);
            assert(d@ =~= s@.take(10));
            Some(string_of(&d))
        },
        None => None,
    }
}

/// One transcript record read: its day and its content.
pub fn record_of(v: &JsonValue) -> (r: (Option<String>, Content))
    ensures
        match r.0 { Some(d) => Some(d@), None => None::<Seq<char>> } == record_spec(json_view(*v)).0,
        content_view(r.1) == record_spec(json_view(*v)).1,
{
    let day = day_from(text_of(member_of(v, "timestamp")));
    let content = match member_of(v, "message") {
        Some(m) => member_of(m, "content"),
        None => None,
    };
    let c = match content {
        Some(JsonValue::Str(t)) => Content::Text(t.as_str().to_owned()),
        Some(JsonValue::Array(items)) => {
            proof {
                lemma_item_views(items@, items@.len() as int);
            }
            let ghost iv = item_views(items@, items@.len() as int);
            let mut blocks: Vec<Block> = Vec::new();
            let mut i: usize = 0;
            while i < items.len()
                invariant
                    i <= items@.len(),
                    iv == item_views(items@, items@.len() as int),
                    iv.len() == items@.len(),
                    forall|j: int| 0 <= j < items@.len() ==> #[trigger] iv[j] == json_view(items@[j]),
                    blocks@.len() == i,
                    forall|j: int| 0 <= j < i ==> #[trigger] block_view(blocks@[j]) == block_of(iv[j]),
                decreases items.len() - i,
            {
                assert(iv[i as int] == json_view(items@[i as int]));
                let b = block_from(&items[i]);
                blocks.push(b);
                i = i + 1;
            }
            assert(blocks@.map_values(|b: Block| block_view(b)) =~= Seq::new(iv.len(), |j: int| block_of(iv[j])));
            Content::Blocks(blocks)
        },
        _ => Content::Other,
    };
    proof {
        match content {
            Some(JsonValue::Array(items)) => {
                assert(json_view(JsonValue::Array(*items)) == JsonView::Array(item_views(items@, items@.len() as int)));
            },
            _ => {},
        }
    }
    (day, c)
}

/// The tallies after the first `n` lines of transcripts: a line that
/// mentions `Skill` or `command-name` and parses as JSON is read as a
/// record and counted.
pub open spec fn count_spec(lines: Seq<Seq<char>>, known: Seq<Seq<char>>, commands: Seq<(Seq<char>, Seq<char>)>, n: int) -> Seq<(Seq<char>, SeenView)>
    decreases n,
{
    if n <= 0 {
        Seq::empty()
    } else {
        let prev = count_spec(lines, known, commands, n - 1);
        let line = lines[n - 1];
        if (contains_seq(line, "Skill"@) || contains_seq(line, "command-name"@)) && json_parse(line) is Some {
            let (day, content) = record_spec(json_parse(line)->0);
            scan_spec(prev, content, known, commands, day)
        } else {
            prev
        }
    }
}

/// Counts the invocations in transcript lines, each skill once with its
/// count and latest day.
pub fn count_lines(lines: &[String], known: &Vec<String>, commands: &Vec<(String, String)>) -> (r: Vec<(String, Seen)>)
    ensures
        counts_wf(counts_view(r@)),
        counts_view(r@) == count_spec(
            lines@.map_values(|l: String| l@),
            known@.map_values(|k: String| k@),
            commands@.map_values(|e: (String, String)| (e.0@, e.1@)),
            lines@.len() as int,
        ),
{
    let ghost lv = lines@.map_values(|l: String| l@);
    let ghost kv = known@.map_values(|k: String| k@);
    let ghost cv = commands@.map_values(|e: (String, String)| (e.0@, e.1@));
    let mut counts: Vec<(String, Seen)> = Vec::new();
    assert(counts_view(counts@) =~= Seq::<(Seq<char>, SeenView)>::empty());
    let mut i: usize = 0;
    while i < lines.len()
        invariant
            i <= lines@.len(),
            lv == lines@.map_values(|l: String| l@),
            kv == known@.map_values(|k: String| k@),
            cv == commands@.map_values(|e: (String, String)| (e.0@, e.1@)),
            counts_wf(counts_view(counts@)),
            counts_view(counts@) == count_spec(lv, kv, cv, i as int),
        decreases lines.len() - i,
    {
        assert(lv[i as int] == lines@[i as int]@);
        let line = lines[i].as_str();
        proof {
            reveal_strlit("Skill");
            reveal_strlit("command-name");
        }
        if contains_str(line, "Skill") || contains_str(line, "command-name") {
            match parse_json(line) {
                Some(v) => {
                    let (day, content) = record_of(&v);
                    scan(&content, known, commands, &day, &mut counts);
                },
                None => {},
            }
        }
        i = i + 1;
    }
    counts
}

} // verus!
