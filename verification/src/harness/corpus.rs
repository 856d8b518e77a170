//! The plan corpus, as something the checks can ask questions of.
//!
//! This module only models: it decides nothing and reports nothing. Every
//! verdict about what is wrong with a corpus belongs to the checks, and
//! every rate to the skills report.
//!
//! Nothing here fails on a malformed plan either. A directory whose name
//! does not parse, a README with no frontmatter, a phase file numbered `ab`
//! are all modelled as far as they go and carry the reason they did not go
//! further, because a checker that stops at the first bad plan reports one
//! problem per run. Documents are held with their text, read once by the
//! caller, so every question about them is answered from that text.

use vstd::prelude::*;

use super::frontmatter::{
    first_index, lemma_first_index, lookup, parse, parse_spec, value_text, Frontmatter,
    ParseError,
};
use super::root::{ash_dir_of, CorpusRoot};
use crate::path::{join, join_path, relative_to, relative_path};
use crate::text::{
    all_digits, chars_of, find_char_from, is_digit, is_digit_exec, is_lower, is_lower_exec, lines, lines_vec, seq_eq, slice_vec, starts_with, starts_with_exec, string_of, trim, trim_end, trim_end_vec, trim_start, trim_start_vec, trim_vec, words, words_vec, parse_u64,
};

verus! {

/// A document that was supposed to carry frontmatter.
pub struct Document {
    pub path: String,
    /// The file's contents as read.
    pub body: String,
    /// `None` when the file has no `---` block at all, which is a different
    /// finding from one that is malformed.
    pub frontmatter: Option<Frontmatter>,
    /// Set when the block exists but is outside the accepted subset.
    pub error: Option<ParseError>,
}

/// One `phase-NN.md`.
pub struct Phase {
    pub document: Document,
    /// The number in the filename, which is the one the chain is checked
    /// against; `None` when the name is not `phase-<two digits>.md`.
    pub number: Option<u32>,
    pub file_name: String,
}

/// One directory under `.ash/plans/`.
pub struct Plan {
    pub dir: String,
    /// The directory's own name, which every finding id carries.
    pub name: String,
    /// `<yymmdd>-<six letters>`, split out of the directory name; `None`
    /// when the name does not have the required shape.
    pub id: Option<String>,
    pub slug: Option<String>,
    /// `None` when the directory has no `README.md`.
    pub readme: Option<Document>,
    pub phases: Vec<Phase>,
    pub has_learnings: bool,
    /// The text of `learnings.md`, when it could be read.
    pub learnings: Option<String>,
    /// True when some run under `logs/` recorded a `run_end`.
    pub has_finished_run: bool,
}

/// Everything under one corpus root.
pub struct Corpus {
    pub root: CorpusRoot,
    pub plans: Vec<Plan>,
    /// False when `.ash/plans` does not exist at all.
    pub plans_dir_exists: bool,
}

// --- what a document says -----------------------------------------------

/// The text of frontmatter key `key`, when the document has frontmatter
/// that declares it.
pub open spec fn doc_text(d: Document, key: Seq<char>) -> Option<Seq<char>> {
    match d.frontmatter {
        Some(fm) => match lookup(fm@, key) {
            Some(v) => Some(value_text(v)),
            None => None,
        },
        None => None,
    }
}

pub open spec fn doc_status(d: Document) -> Option<Seq<char>> {
    doc_text(d, "status"@)
}

/// Some line of `body`, trailing whitespace aside, is `## Status`.
pub open spec fn has_status_heading(body: Seq<char>) -> bool {
    exists|i: int| 0 <= i < lines(body).len() && trim_end(#[trigger] lines(body)[i]) == "## Status"@
}

pub open spec fn plan_status(p: Plan) -> Option<Seq<char>> {
    match p.readme {
        Some(d) => doc_status(d),
        None => None,
    }
}

pub open spec fn plan_is_done(p: Plan) -> bool {
    plan_status(p) == Some("Done"@)
}


impl Document {
    /// Models the file at `path` whose contents are `body`.
    pub fn load(path: &str, body: &str) -> (r: Document)
        ensures
            r.path@ == path@,
            r.body@ == body@,
            match parse_spec(body@) {
                Ok(fm) => r.error is None && match fm {
                    Some(entries) => r.frontmatter is Some && r.frontmatter->0@ == entries,
                    None => r.frontmatter is None,
                },
                Err((line, reason)) => r.frontmatter is None && r.error is Some
                    && r.error->0.line == line && r.error->0.reason@ == reason,
            },
    {
        match parse(body) {
            Ok(frontmatter) => Document {
                path: path.to_owned(),
                body: body.to_owned(),
                frontmatter,
                error: None,
            },
            Err(error) => Document {
                path: path.to_owned(),
                body: body.to_owned(),
                frontmatter: None,
                error: Some(error),
            },
        }
    }

    pub fn text(&self, key: &str) -> (r: Option<String>)
        ensures
            r is Some <==> doc_text(*self, key@) is Some,
            r is Some ==> r->0@ == doc_text(*self, key@)->0,
    {
        match &self.frontmatter {
            Some(fm) => fm.text(key),
            None => None,
        }
    }

    pub fn status(&self) -> (r: Option<String>)
        ensures
            r is Some <==> doc_status(*self) is Some,
            r is Some ==> r->0@ == doc_status(*self)->0,
    {
        self.text("status")
    }

    /// Whether the file declares a `## Status` section as well as
    /// frontmatter status: two copies of one mutable field.
    pub fn has_status_section(&self) -> (r: bool)
        ensures
            r == has_status_heading(self.body@),
    {
        let c = chars_of(self.body.as_str());
        let ls = lines_vec(&c);
        let want = chars_of("## Status");
        let mut i: usize = 0;
        while i < ls.len()
            invariant
                i <= ls@.len(),
                ls@.len() == lines(self.body@).len(),
                forall|j: int| 0 <= j < ls@.len() ==> #[trigger] ls@[j]@ == lines(self.body@)[j],
                want@ == "## Status"@,
                forall|j: int| 0 <= j < i ==> trim_end(#[trigger] lines(self.body@)[j]) != "## Status"@,
            decreases ls.len() - i,
        {
            let t = trim_end_vec(&ls[i]);
            if seq_eq(&t, &want) {
                assert(trim_end(lines(self.body@)[i as int]) == "## Status"@);
                return true;
            }
            i = i + 1;
        }
        false
    }
}

impl Plan {
    pub fn status(&self) -> (r: Option<String>)
        ensures
            r is Some <==> plan_status(*self) is Some,
            r is Some ==> r->0@ == plan_status(*self)->0,
    {
        match &self.readme {
            Some(d) => d.status(),
            None => None,
        }
    }

    pub fn is_done(&self) -> (r: bool)
        ensures
            r == plan_is_done(*self),
    {
        match self.status() {
            Some(s) => {
                let c = chars_of(s.as_str());
                let d = chars_of("Done");
                seq_eq(&c, &d)
            },
            None => false,
        }
    }

    pub fn learnings_file(&self) -> (r: String)
        ensures
            r@ == join(self.dir@, "learnings.md"@),
    {
        join_path(self.dir.as_str(), "learnings.md")
    }
}

impl Corpus {
    pub fn len(&self) -> (r: usize)
        ensures
            r == self.plans@.len(),
    {
        self.plans.len()
    }

    pub fn is_empty(&self) -> (r: bool)
        ensures
            r == (self.plans@.len() == 0),
    {
        self.plans.len() == 0
    }

    /// A path as a finding id carries it: relative to the corpus root, so
    /// the id does not change with the checkout location.
    pub fn relative(&self, path: &str) -> (r: String)
        ensures
            r@ == relative_to(path@, self.root@),
    {
        self.root.relative(path)
    }

    /// A path relative to `.ash/plans/`.
    pub fn plan_relative(&self, path: &str) -> (r: String)
        ensures
            r@ == relative_to(path@, join(ash_dir_of(self.root@), "plans"@)),
    {
        relative_path(path, self.root.plans_dir().as_str())
    }
}

// --- directory and file names -------------------------------------------

/// A slug: non-empty `-`-separated parts, each non-empty and made of
/// lower-case ASCII letters and digits.
pub open spec fn is_slug(s: Seq<char>) -> bool {
    &&& s.len() > 0
    &&& forall|k: int| 0 <= k < s.len() ==> is_lower(#[trigger] s[k]) || is_digit(s[k]) || s[k] == '-'
    &&& s[0] != '-'
    &&& s.last() != '-'
    &&& forall|k: int| 0 <= k < s.len() - 1 ==> !(#[trigger] s[k] == '-' && s[k + 1] == '-')
}

/// How `name` splits into `(<date>-<hash>, <slug>)`: `<date>` is the text
/// before the first `-`, `<hash>` the text between it and the second, and
/// the slug the rest; the split holds only when the date is six digits, the
/// hash six lower-case letters, and the rest a slug.
pub open spec fn split_dir_name_spec(name: Seq<char>) -> Option<(Seq<char>, Seq<char>)> {
    match first_index(name, '-') {
        None => None,
        Some(i) => {
            let date = name.take(i);
            let rest = name.skip(i + 1);
            match first_index(rest, '-') {
                None => None,
                Some(j) => {
                    let hash = rest.take(j);
                    let slug = rest.skip(j + 1);
                    if date.len() == 6 && all_digits(date) && hash.len() == 6 && (forall|k: int|
                        0 <= k < 6 ==> is_lower(#[trigger] hash[k])) && is_slug(slug) {
                        Some((date + seq!['-'] + hash, slug))
                    } else {
                        None
                    }
                },
            }
        },
    }
}

fn is_slug_exec(s: &[char]) -> (r: bool)
    ensures
        r == is_slug(s@),
{
    if s.len() == 0 || s[0] == '-' || s[s.len() - 1] == '-' {
        return false;
    }
    let mut k: usize = 0;
    while k < s.len()
        invariant
            s@.len() > 0,
            k <= s@.len(),
            forall|m: int| 0 <= m < k ==> is_lower(#[trigger] s@[m]) || is_digit(s@[m]) || s@[m] == '-',
            forall|m: int| 0 <= m < k && m < s@.len() - 1 ==> !(#[trigger] s@[m] == '-' && s@[m + 1] == '-'),
        decreases s.len() - k,
    {
        let c = s[k];
        if !(is_lower_exec(c) || is_digit_exec(c) || c == '-') {
            return false;
        }
        if k + 1 < s.len() && c == '-' && s[k + 1] == '-' {
            return false;
        }
        k = k + 1;
    }
    true
}

/// `260919-qwerty-add-mlflow` -> (`260919-qwerty`, `add-mlflow`).
///
/// Only a name of exactly the documented shape splits; anything else is
/// `None`, rather than half-parsed into an id that would then mismatch its
/// own frontmatter.
pub fn split_dir_name(name: &str) -> (r: Option<(String, String)>)
    ensures
        match split_dir_name_spec(name@) {
            Some((id, slug)) => r matches Some((a, b)) && a@ == id && b@ == slug,
            None => r is None,
        },
{
    let c = chars_of(name);
    let n = c.len();
    let i = match find_char_from(&c, '-', 0) {
        Some(i) => i,
        None => {
            return None;
        },
    };
    proof {
        lemma_first_index(name@, '-', i as int);
    }
    assert(i < n);
    let date = slice_vec(&c, 0, i);
    let rest = slice_vec(&c, i + 1, n);
    assert(date@ =~= name@.take(i as int));
    assert(rest@ =~= name@.skip(i + 1));
    let j = match find_char_from(&rest, '-', 0) {
        Some(j) => j,
        None => {
            return None;
        },
    };
    proof {
        lemma_first_index(rest@, '-', j as int);
    }
    let hash = slice_vec(&rest, 0, j);
    let slug = slice_vec(&rest, j + 1, rest.len());
    assert(hash@ =~= rest@.take(j as int));
    assert(slug@ =~= rest@.skip(j + 1));
    if date.len() != 6 || hash.len() != 6 {
        return None;
    }
    let mut k: usize = 0;
    while k < 6
        invariant
            date@.len() == 6,
            hash@.len() == 6,
            date@ == name@.take(i as int),
            hash@ == name@.skip(i + 1).take(j as int),
            first_index(name@, '-') == Some(i as int),
            first_index(name@.skip(i + 1), '-') == Some(j as int),
            k <= 6,
            forall|m: int| 0 <= m < k ==> is_digit(#[trigger] date@[m]),
            forall|m: int| 0 <= m < k ==> is_lower(#[trigger] hash@[m]),
        decreases 6 - k,
    {
        if !is_digit_exec(date[k]) || !is_lower_exec(hash[k]) {
            proof {
                let spec_date = name@.take(i as int);
                let spec_hash = name@.skip(i + 1).take(j as int);
                assert(spec_date == date@);
                assert(spec_hash == hash@);
                if !is_digit(date@[k as int]) {
                    assert(!is_digit(spec_date[k as int]));
                    assert(!all_digits(spec_date));
                } else {
                    assert(!is_lower(spec_hash[k as int]));
                }
            }
            return None;
        }
        k = k + 1;
    }
    assert(all_digits(date@));
    if !is_slug_exec(&slug) {
        return None;
    }
    let mut id = date.clone();
    id.push('-');
    let mut m: usize = 0;
    while m < 6
        invariant
            hash@.len() == 6,
            m <= 6,
            id@ == date@ + seq!['-'] + hash@.take(m as int),
        decreases 6 - m,
    {
        id.push(hash[m]);
        m = m + 1;
        assert(hash@.take(m as int) == hash@.take(m - 1).push(hash@[m - 1]));
    }
    assert(hash@.take(6) == hash@);
    Some((string_of(&id), string_of(&slug)))
}

/// The number a phase file name carries: `phase-NN.md` with exactly two
/// digits.
pub open spec fn phase_number_spec(file_name: Seq<char>) -> Option<nat> {
    if file_name.len() == 11 && file_name.take(6) == "phase-"@ && file_name.skip(8) == ".md"@
        && is_digit(file_name[6]) && is_digit(file_name[7]) {
        Some(((file_name[6] as nat) - ('0' as nat)) as nat * 10 + ((file_name[7] as nat) - ('0' as nat)) as nat)
    } else {
        None
    }
}

/// The number in a `phase-NN.md` file name.
pub fn phase_number(file_name: &str) -> (r: Option<u32>)
    ensures
        match phase_number_spec(file_name@) {
            Some(n) => r == Some(n as u32),
            None => r is None,
        },
{
    let c = chars_of(file_name);
    let pre = chars_of("phase-");
    let suf = chars_of(".md");
    if c.len() != 11 {
        return None;
    }
    let head = slice_vec(&c, 0, 6);
    let tail = slice_vec(&c, 8, 11);
    assert(head@ =~= file_name@.take(6));
    assert(tail@ =~= file_name@.skip(8));
    if !seq_eq(&head, &pre) || !seq_eq(&tail, &suf) || !is_digit_exec(c[6]) || !is_digit_exec(c[7]) {
        return None;
    }
    let d1 = (c[6] as u32) - ('0' as u32);
    let d2 = (c[7] as u32) - ('0' as u32);
    Some(d1 * 10 + d2)
}

// --- the distillation record ---------------------------------------------
// A plan's `learnings.md` records `ISSUE-NNN` entries, each optionally
// naming the skill it implicates and optionally carrying a one-line answer
// that retires it. `.ash/LEARNINGS.md` records `LESSON-NNN` entries with a
// lifecycle and a `Seen in:` line citing the plans and issues they came
// from. Every reader looks for the answer as well as the question.

/// One `### ISSUE-NNN` entry in a plan's `learnings.md`.
#[derive(Debug, PartialEq, Eq)]
pub struct Issue {
    pub id: String,
    /// The skill whose instructions would have had to change, or `none`;
    /// `None` when the entry says nothing.
    pub skill: Option<String>,
    /// `**Distilled:** declined`: triaged, and the answer was no.
    pub distilled_declined: bool,
    /// `**Gap:** answered`: needs no skill of its own.
    pub gap_answered: bool,
}

/// One `### LESSON-NNN` entry in `.ash/LEARNINGS.md`.
#[derive(Debug, PartialEq, Eq)]
pub struct Lesson {
    pub id: String,
    /// The heading's text after the id, trimmed.
    pub title: String,
    /// `prose`, `mechanized` or `retired`.
    pub status: Option<String>,
    /// The finding id that enforces it, on a `mechanized` lesson.
    pub check: Option<String>,
    /// `**Mechanize:** declined`: judgement no exit code can carry.
    pub mechanize_declined: bool,
    /// Every plan id its `Seen in:` line cites.
    pub plans: Vec<String>,
    /// Every issue id its `Seen in:` line cites.
    pub issues: Vec<String>,
}

/// One `.ash/CHANGELOG.log` line: the record of what actually shipped.
#[derive(Debug, PartialEq, Eq)]
pub struct LogEntry {
    pub id: String,
    pub phase: Option<u32>,
}

/// The first whitespace-separated word of `s`.
pub open spec fn first_word(s: Seq<char>) -> Option<Seq<char>> {
    if words(s).len() > 0 {
        Some(words(s)[0])
    } else {
        None
    }
}

fn first_word_exec(s: &[char]) -> (r: Option<String>)
    ensures
        match first_word(s@) {
            Some(w) => r is Some && r->0@ == w,
            None => r is None,
        },
{
    let ws = words_vec(s);
    if ws.len() > 0 {
        Some(string_of(&ws[0]))
    } else {
        None
    }
}

/// `s` without its trailing `:` characters.
pub open spec fn trim_colons(s: Seq<char>) -> Seq<char>
    decreases s.len(),
{
    if s.len() > 0 && s.last() == ':' {
        trim_colons(s.drop_last())
    } else {
        s
    }
}

fn trim_colons_exec(s: &Vec<char>) -> (r: Vec<char>)
    ensures
        r@ == trim_colons(s@),
{
    let mut e = s.len();
    assert(s@.take(s@.len() as int) == s@);
    while e > 0 && s[e - 1] == ':'
        invariant
            e <= s@.len(),
            trim_colons(s@) == trim_colons(s@.take(e as int)),
        decreases e,
    {
        assert(s@.take(e as int).drop_last() == s@.take(e - 1));
        e = e - 1;
    }
    assert(s@.take(s@.len() as int) == s@);
    let r = slice_vec(s, 0, e);
    assert(r@ == s@.take(e as int));
    r
}

/// `### ISSUE-001: Something` -> `ISSUE-001`: the first word after
/// `prefix`, which must start with `kind`, without trailing colons.
pub open spec fn heading_id_spec(line: Seq<char>, prefix: Seq<char>, kind: Seq<char>) -> Option<Seq<char>> {
    if starts_with(line, prefix) && starts_with(line.skip(prefix.len() as int), kind) {
        match first_word(line.skip(prefix.len() as int)) {
            Some(w) => Some(trim_colons(w)),
            None => None,
        }
    } else {
        None
    }
}

fn heading_id(line: &[char], prefix: &str, kind: &str) -> (r: Option<String>)
    ensures
        match heading_id_spec(line@, prefix@, kind@) {
            Some(id) => r is Some && r->0@ == id,
            None => r is None,
        },
{
    let p = chars_of(prefix);
    let k = chars_of(kind);
    if !starts_with_exec(line, &p) {
        return None;
    }
    let rest = slice_vec(line, p.len(), line.len());
    assert(rest@ =~= line@.skip(prefix@.len() as int));
    if !starts_with_exec(&rest, &k) {
        return None;
    }
    let ws = words_vec(&rest);
    if ws.len() == 0 {
        return None;
    }
    let t = trim_colons_exec(&ws[0]);
    Some(string_of(&t))
}

/// `**Distilled:** declined — ...`: `line` starts with `prefix`, and what
/// follows starts, after whitespace, with `word`.
pub open spec fn marker_spec(line: Seq<char>, prefix: Seq<char>, word: Seq<char>) -> bool {
    starts_with(line, prefix) && starts_with(trim_start(line.skip(prefix.len() as int)), word)
}

fn marker(line: &[char], prefix: &str, word: &str) -> (r: bool)
    ensures
        r == marker_spec(line@, prefix@, word@),
{
    let p = chars_of(prefix);
    let w = chars_of(word);
    if !starts_with_exec(line, &p) {
        return false;
    }
    let rest = slice_vec(line, p.len(), line.len());
    assert(rest@ =~= line@.skip(prefix@.len() as int));
    let t = trim_start_vec(&rest);
    starts_with_exec(&t, &w)
}

/// The text after `prefix`, when `line` starts with it.
pub open spec fn after_prefix(line: Seq<char>, prefix: Seq<char>) -> Option<Seq<char>> {
    if starts_with(line, prefix) {
        Some(line.skip(prefix.len() as int))
    } else {
        None
    }
}

fn after_prefix_exec(line: &[char], prefix: &str) -> (r: Option<Vec<char>>)
    ensures
        match after_prefix(line@, prefix@) {
            Some(rest) => r is Some && r->0@ == rest,
            None => r is None,
        },
{
    let p = chars_of(prefix);
    if !starts_with_exec(line, &p) {
        return None;
    }
    let rest = slice_vec(line, p.len(), line.len());
    assert(rest@ =~= line@.skip(prefix@.len() as int));
    Some(rest)
}

/// Every `<kind><digits>` token, in order: each occurrence of `kind`
/// followed by at least one digit, with all the digits that follow it.
pub open spec fn ids_from(s: Seq<char>, kind: Seq<char>, p: int) -> Seq<Seq<char>>
    decreases s.len() - p,
{
    if p < 0 || p >= s.len() {
        Seq::empty()
    } else {
        let rest = ids_from(s, kind, p + 1);
        if crate::text::occurs_at(s, kind, p) && crate::harness::renumber::digit_run(s, p + kind.len()) > 0 {
            seq![kind + s.subrange(p + kind.len(), p + kind.len() + crate::harness::renumber::digit_run(s, p + kind.len()))] + rest
        } else {
            rest
        }
    }
}

fn ids_exec(s: &[char], kind: &str) -> (r: Vec<String>)
    ensures
        r@.map_values(|x: String| x@) == ids_from(s@, kind@, 0),
{
    let k = chars_of(kind);
    let mut out: Vec<String> = Vec::new();
    let n = s.len();
    let mut p: usize = n;
    while p > 0
        invariant
            p <= s@.len(),
            n == s@.len(),
            k@ == kind@,
            out@.map_values(|x: String| x@) == ids_from(s@, kind@, p as int),
        decreases p,
    {
        p = p - 1;
        if crate::text::matches_at(s, &k, p) {
            assert(p + k@.len() <= s@.len());
            let start = p + k.len();
            let e = crate::harness::renumber::digit_run_exec(s, start);
            proof {
                crate::harness::renumber::lemma_digit_run(s@, start as int);
            }
            if e > start {
                let mut tok = k.clone();
                let digits = slice_vec(s, start, e);
                crate::text::push_all(&mut tok, &digits);
                let ghost before = out@.map_values(|x: String| x@);
                out.insert(0, string_of(&tok));
                assert(out@.map_values(|x: String| x@) =~= seq![tok@] + before);
            }
        }
    }
    out
}

/// Every `ISSUE-<digits>` in a string.
pub fn issue_ids(text: &str) -> (r: Vec<String>)
    ensures
        r@.map_values(|x: String| x@) == ids_from(text@, "ISSUE-"@, 0),
{
    let c = chars_of(text);
    ids_exec(&c, "ISSUE-")
}

/// Every `LESSON-<digits>` in a string.
pub fn lesson_ids(text: &str) -> (r: Vec<String>)
    ensures
        r@.map_values(|x: String| x@) == ids_from(text@, "LESSON-"@, 0),
{
    let c = chars_of(text);
    ids_exec(&c, "LESSON-")
}

/// A plan id at `start`: six digits, `-`, six lower-case letters, not
/// inside a longer run of digits before or letters after.
pub open spec fn plan_id_at(s: Seq<char>, start: int) -> bool {
    &&& 0 <= start && start + 13 <= s.len()
    &&& forall|k: int| start <= k < start + 6 ==> is_digit(#[trigger] s[k])
    &&& s[start + 6] == '-'
    &&& forall|k: int| start + 7 <= k < start + 13 ==> is_lower(#[trigger] s[k])
    &&& (start == 0 || !is_digit(s[start - 1]))
    &&& (start + 13 == s.len() || !is_lower(s[start + 13]))
}

/// Every `<yymmdd>-<six letters>` from `start` on, in order.
pub open spec fn plan_ids_from(s: Seq<char>, start: int) -> Seq<Seq<char>>
    decreases s.len() - start,
{
    if start < 0 || start + 13 > s.len() {
        Seq::empty()
    } else if plan_id_at(s, start) {
        seq![s.subrange(start, start + 13)] + plan_ids_from(s, start + 1)
    } else {
        plan_ids_from(s, start + 1)
    }
}

/// Every plan id in a string, even when followed by `-<slug>`.
pub fn plan_ids(text: &str) -> (r: Vec<String>)
    ensures
        r@.map_values(|x: String| x@) == plan_ids_from(text@, 0),
{
    let s = chars_of(text);
    let mut out: Vec<String> = Vec::new();
    if s.len() < 13 {
        return out;
    }
    let n = s.len();
    let mut start: usize = n - 12;
    while start > 0
        invariant
            start + 12 <= s@.len(),
            n == s@.len(),
            s@ == text@,
            out@.map_values(|x: String| x@) == plan_ids_from(s@, start as int),
        decreases start,
    {
        start = start - 1;
        let mut ok = true;
        let mut k: usize = 0;
        while k < 13
            invariant
                start + 13 <= s@.len(),
                n == s@.len(),
                k <= 13,
                ok == (forall|j: int| start <= j < start + k ==> if j < start + 6 {
                    is_digit(#[trigger] s@[j])
                } else if j == start + 6 {
                    s@[j] == '-'
                } else {
                    is_lower(s@[j])
                }),
            decreases 13 - k,
        {
            let c = s[start + k];
            let good = if k < 6 { is_digit_exec(c) } else if k == 6 { c == '-' } else { is_lower_exec(c) };
            ok = ok && good;
            k = k + 1;
        }
        let before_ok = start == 0 || !is_digit_exec(s[start - 1]);
        let after_ok = start + 13 == n || !is_lower_exec(s[start + 13]);
        proof {
            if ok {
                assert forall|j: int| start <= j < start + 6 implies is_digit(#[trigger] s@[j]) by {
                    assert(if j < start + 6 { is_digit(s@[j]) } else if j == start + 6 { s@[j] == '-' } else { is_lower(s@[j]) });
                }
                assert forall|j: int| start + 7 <= j < start + 13 implies is_lower(#[trigger] s@[j]) by {
                    assert(if j < start + 6 { is_digit(s@[j]) } else if j == start + 6 { s@[j] == '-' } else { is_lower(s@[j]) });
                }
                assert(if start + 6 < start + 6 { is_digit(s@[start + 6]) } else if start + 6 == start + 6 { s@[start + 6] == '-' } else { is_lower(s@[start + 6]) });
            } else {
                let j = choose|j: int| start <= j < start + 13 && !(if j < start + 6 {
                    is_digit(#[trigger] s@[j])
                } else if j == start + 6 {
                    s@[j] == '-'
                } else {
                    is_lower(s@[j])
                });
                assert(!plan_id_at(s@, start as int));
            }
        }
        if ok && before_ok && after_ok {
            let tok = slice_vec(&s, start, start + 13);
            let ghost before = out@.map_values(|x: String| x@);
            out.insert(0, string_of(&tok));
            assert(out@.map_values(|x: String| x@) =~= seq![tok@] + before);
        }
    }
    out
}

pub type IssueView = (Seq<char>, Option<Seq<char>>, bool, bool);

pub open spec fn issue_view(i: Issue) -> IssueView {
    (i.id@, match i.skill { Some(s) => Some(s@), None => None }, i.distilled_declined, i.gap_answered)
}

pub open spec fn push_opt<T>(done: Seq<T>, current: Option<T>) -> Seq<T> {
    match current {
        Some(c) => done.push(c),
        None => done,
    }
}

/// The issue reader after `n` lines: the finished entries and the one
/// being read. A `## ` heading closes the current entry.
pub open spec fn issues_state(ls: Seq<Seq<char>>, n: int) -> (Seq<IssueView>, Option<IssueView>)
    decreases n,
{
    if n <= 0 {
        (Seq::empty(), None)
    } else {
        let (done, current) = issues_state(ls, n - 1);
        let line = ls[n - 1];
        match heading_id_spec(line, "### "@, "ISSUE-"@) {
            Some(id) => (push_opt(done, current), Some((id, None, false, false))),
            None => if starts_with(line, "## "@) {
                (push_opt(done, current), None)
            } else {
                match current {
                    None => (done, None),
                    Some(iss) => {
                        let next = match after_prefix(line, "**Skill:**"@) {
                            Some(rest) => (iss.0, first_word(rest), iss.2, iss.3),
                            None => if marker_spec(line, "**Distilled:**"@, "declined"@) {
                                (iss.0, iss.1, true, iss.3)
                            } else if marker_spec(line, "**Gap:**"@, "answered"@) {
                                (iss.0, iss.1, iss.2, true)
                            } else {
                                iss
                            },
                        };
                        (done, Some(next))
                    },
                }
            },
        }
    }
}

pub open spec fn read_issues_spec(text: Seq<char>) -> Seq<IssueView> {
    let (done, current) = issues_state(lines(text), lines(text).len() as int);
    push_opt(done, current)
}

/// The `ISSUE-NNN` entries of one `learnings.md`.
pub fn read_issues(text: &str) -> (r: Vec<Issue>)
    ensures
        r@.map_values(|i: Issue| issue_view(i)) == read_issues_spec(text@),
{
    let c = chars_of(text);
    let ls = lines_vec(&c);
    let ghost lv = lines(text@);
    let mut done: Vec<Issue> = Vec::new();
    let mut current: Option<Issue> = None;
    let mut k: usize = 0;
    while k < ls.len()
        invariant
            k <= ls@.len(),
            lv == lines(text@),
            ls@.len() == lv.len(),
            forall|i: int| 0 <= i < ls@.len() ==> #[trigger] ls@[i]@ == lv[i],
            done@.map_values(|i: Issue| issue_view(i)) == issues_state(lv, k as int).0,
            match issues_state(lv, k as int).1 {
                Some(v) => current is Some && issue_view(current->0) == v,
                None => current is None,
            },
        decreases ls.len() - k,
    {
        let line = &ls[k];
        let ghost before = done@.map_values(|i: Issue| issue_view(i));
        if let Some(id) = heading_id(line, "### ", "ISSUE-") {
            if let Some(cur) = current {
                done.push(cur);
                assert(done@.map_values(|i: Issue| issue_view(i)) =~= before.push(issues_state(lv, k as int).1->0));
            }
            current = Some(Issue { id, skill: None, distilled_declined: false, gap_answered: false });
        } else if starts_with_exec(line, &chars_of("## ")) {
            if let Some(cur) = current {
                done.push(cur);
                assert(done@.map_values(|i: Issue| issue_view(i)) =~= before.push(issues_state(lv, k as int).1->0));
            }
            current = None;
        } else {
            match current {
                None => {},
                Some(mut iss) => {
                    match after_prefix_exec(line, "**Skill:**") {
                        Some(rest) => {
                            iss.skill = first_word_exec(&rest);
                        },
                        None => {
                            if marker(line, "**Distilled:**", "declined") {
                                iss.distilled_declined = true;
                            } else if marker(line, "**Gap:**", "answered") {
                                iss.gap_answered = true;
                            }
                        },
                    }
                    current = Some(iss);
                },
            }
        }
        k = k + 1;
    }
    if let Some(cur) = current {
        let ghost before = done@.map_values(|i: Issue| issue_view(i));
        done.push(cur);
        assert(done@.map_values(|i: Issue| issue_view(i)) =~= before.push(issues_state(lv, k as int).1->0));
    }
    done
}

pub type LessonView = (Seq<char>, Seq<char>, Option<Seq<char>>, Option<Seq<char>>, bool, Seq<Seq<char>>, Seq<Seq<char>>);

pub open spec fn opt_view(o: Option<String>) -> Option<Seq<char>> {
    match o {
        Some(s) => Some(s@),
        None => None,
    }
}

pub open spec fn lesson_view(l: Lesson) -> LessonView {
    (l.id@, l.title@, opt_view(l.status), opt_view(l.check), l.mechanize_declined,
        l.plans@.map_values(|x: String| x@), l.issues@.map_values(|x: String| x@))
}

/// `s` with its leading non-whitespace run removed.
pub open spec fn drop_word(s: Seq<char>) -> Seq<char>
    decreases s.len(),
{
    if s.len() > 0 && !crate::text::is_ws(s[0]) {
        drop_word(s.drop_first())
    } else {
        s
    }
}

/// A lesson heading's title: the heading after its id, trimmed.
pub open spec fn lesson_title(line: Seq<char>) -> Seq<char> {
    trim(drop_word(trim_start(line.skip(4))))
}

/// The lesson with what a `Seen in:` buffer cites added to it.
pub open spec fn flush_into(current: Option<LessonView>, buffer: Seq<char>) -> Option<LessonView> {
    match current {
        Some(l) => Some((l.0, l.1, l.2, l.3, l.4, l.5 + plan_ids_from(buffer, 0), l.6 + ids_from(buffer, "ISSUE-"@, 0))),
        None => None,
    }
}

/// The lesson reader after `n` lines: finished lessons, the one being
/// read, the buffered `Seen in:` text and whether it is still being read.
/// A `Seen in:` line may wrap, so it runs to the next blank line.
pub open spec fn lessons_state(ls: Seq<Seq<char>>, n: int) -> (Seq<LessonView>, Option<LessonView>, Seq<char>, bool)
    decreases n,
{
    if n <= 0 {
        (Seq::empty(), None, Seq::empty(), false)
    } else {
        let (done, current, buffer, in_seen) = lessons_state(ls, n - 1);
        let line = ls[n - 1];
        match heading_id_spec(line, "### "@, "LESSON-"@) {
            Some(id) => (
                push_opt(done, flush_into(current, buffer)),
                Some((id, lesson_title(line), None, None, false, Seq::empty(), Seq::empty())),
                Seq::empty(),
                false,
            ),
            None => if !starts_with(line, "**Seen in:**"@) && trim(line).len() == 0 && in_seen {
                (done, flush_into(current, buffer), Seq::empty(), false)
            } else {
                let seen = in_seen || starts_with(line, "**Seen in:**"@);
                let buf = if seen { buffer + seq![' '] + line } else { buffer };
                let next = match current {
                    None => None,
                    Some(l) => Some(match after_prefix(line, "**Status:**"@) {
                        Some(rest) => (l.0, l.1, first_word(rest), l.3, l.4, l.5, l.6),
                        None => match after_prefix(line, "**Check:**"@) {
                            Some(rest) => (l.0, l.1, l.2, first_word(rest), l.4, l.5, l.6),
                            None => if marker_spec(line, "**Mechanize:**"@, "declined"@) {
                                (l.0, l.1, l.2, l.3, true, l.5, l.6)
                            } else {
                                l
                            },
                        },
                    }),
                };
                (done, next, buf, seen)
            },
        }
    }
}

pub open spec fn read_lessons_spec(text: Seq<char>) -> Seq<LessonView> {
    let (done, current, buffer, _) = lessons_state(lines(text), lines(text).len() as int);
    push_opt(done, flush_into(current, buffer))
}

fn drop_word_exec(s: &Vec<char>) -> (r: Vec<char>)
    ensures
        r@ == drop_word(s@),
{
    let mut b: usize = 0;
    assert(s@.skip(0) == s@);
    while b < s.len() && !crate::text::is_ws_exec(s[b])
        invariant
            b <= s@.len(),
            drop_word(s@) == drop_word(s@.skip(b as int)),
        decreases s.len() - b,
    {
        assert(s@.skip(b as int).drop_first() == s@.skip(b + 1));
        b = b + 1;
    }
    let r = slice_vec(s, b, s.len());
    assert(r@ == s@.skip(b as int));
    r
}

fn lesson_title_exec(line: &Vec<char>) -> (r: String)
    requires
        line@.len() >= 4,
    ensures
        r@ == lesson_title(line@),
{
    let rest = slice_vec(line, 4, line.len());
    assert(rest@ == line@.skip(4));
    let t = trim_start_vec(&rest);
    let d = drop_word_exec(&t);
    string_of(&trim_vec(&d))
}

fn flush_lesson(current: Option<Lesson>, buffer: &Vec<char>) -> (r: Option<Lesson>)
    ensures
        match flush_into(match current { Some(l) => Some(lesson_view(l)), None => None }, buffer@) {
            Some(v) => r is Some && lesson_view(r->0) == v,
            None => r is None,
        },
{
    let text = string_of(buffer);
    match current {
        Some(lesson) => {
            let mut plans = lesson.plans;
            let mut issues = lesson.issues;
            let ps = plan_ids(text.as_str());
            let is = issue_ids(text.as_str());
            let mut k: usize = 0;
            let ghost p0 = plans@.map_values(|x: String| x@);
            while k < ps.len()
                invariant
                    k <= ps@.len(),
                    plans@.map_values(|x: String| x@) == p0 + ps@.map_values(|x: String| x@).take(k as int),
                decreases ps.len() - k,
            {
                let ghost b = plans@.map_values(|x: String| x@);
                plans.push(ps[k].clone());
                assert(plans@.map_values(|x: String| x@) =~= b.push(ps@[k as int]@));
                assert(ps@.map_values(|x: String| x@).take(k + 1) =~= ps@.map_values(|x: String| x@).take(k as int).push(ps@[k as int]@));
                k = k + 1;
            }
            let mut j: usize = 0;
            let ghost i0 = issues@.map_values(|x: String| x@);
            while j < is.len()
                invariant
                    j <= is@.len(),
                    issues@.map_values(|x: String| x@) == i0 + is@.map_values(|x: String| x@).take(j as int),
                decreases is.len() - j,
            {
                let ghost b = issues@.map_values(|x: String| x@);
                issues.push(is[j].clone());
                assert(issues@.map_values(|x: String| x@) =~= b.push(is@[j as int]@));
                assert(is@.map_values(|x: String| x@).take(j + 1) =~= is@.map_values(|x: String| x@).take(j as int).push(is@[j as int]@));
                j = j + 1;
            }
            assert(ps@.map_values(|x: String| x@).take(ps@.len() as int) == ps@.map_values(|x: String| x@));
            assert(is@.map_values(|x: String| x@).take(is@.len() as int) == is@.map_values(|x: String| x@));
            Some(Lesson {
                id: lesson.id,
                title: lesson.title,
                status: lesson.status,
                check: lesson.check,
                mechanize_declined: lesson.mechanize_declined,
                plans,
                issues,
            })
        },
        None => None,
    }
}

/// The `LESSON-NNN` entries of `.ash/LEARNINGS.md`.
pub fn read_lessons(text: &str) -> (r: Vec<Lesson>)
    ensures
        r@.map_values(|l: Lesson| lesson_view(l)) == read_lessons_spec(text@),
{
    let c = chars_of(text);
    let ls = lines_vec(&c);
    let ghost lv = lines(text@);
    let mut done: Vec<Lesson> = Vec::new();
    let mut current: Option<Lesson> = None;
    let mut buffer: Vec<char> = Vec::new();
    let mut in_seen = false;
    let seen_prefix = chars_of("**Seen in:**");
    let mut k: usize = 0;
    while k < ls.len()
        invariant
            k <= ls@.len(),
            lv == lines(text@),
            ls@.len() == lv.len(),
            seen_prefix@ == "**Seen in:**"@,
            forall|i: int| 0 <= i < ls@.len() ==> #[trigger] ls@[i]@ == lv[i],
            done@.map_values(|l: Lesson| lesson_view(l)) == lessons_state(lv, k as int).0,
            match lessons_state(lv, k as int).1 {
                Some(v) => current is Some && lesson_view(current->0) == v,
                None => current is None,
            },
            buffer@ == lessons_state(lv, k as int).2,
            in_seen == lessons_state(lv, k as int).3,
        decreases ls.len() - k,
    {
        let line = &ls[k];
        let ghost before = done@.map_values(|l: Lesson| lesson_view(l));
        if let Some(id) = heading_id(line, "### ", "LESSON-") {
            proof {
                reveal_strlit("### ");
            }
            current = flush_lesson(current, &buffer);
            buffer = Vec::new();
            in_seen = false;
            if let Some(cur) = current {
                done.push(cur);
                assert(done@.map_values(|l: Lesson| lesson_view(l)) =~= push_opt(before, flush_into(lessons_state(lv, k as int).1, lessons_state(lv, k as int).2)));
            }
            let title = lesson_title_exec(line);
            current = Some(Lesson {
                id,
                title,
                status: None,
                check: None,
                mechanize_declined: false,
                plans: Vec::new(),
                issues: Vec::new(),
            });
            assert(lesson_view(current->0).5 =~= Seq::<Seq<char>>::empty());
            assert(lesson_view(current->0).6 =~= Seq::<Seq<char>>::empty());
        } else {
            let starts_seen = starts_with_exec(line, &seen_prefix);
            let blank = trim_vec(line).len() == 0;
            if !starts_seen && blank && in_seen {
                current = flush_lesson(current, &buffer);
                buffer = Vec::new();
                in_seen = false;
            } else {
                if starts_seen {
                    in_seen = true;
                }
                if in_seen {
                    buffer.push(' ');
                    crate::text::push_all(&mut buffer, line);
                }
                match current {
                    None => {},
                    Some(mut lesson) => {
                        match after_prefix_exec(line, "**Status:**") {
                            Some(rest) => {
                                lesson.status = first_word_exec(&rest);
                            },
                            None => match after_prefix_exec(line, "**Check:**") {
                                Some(rest) => {
                                    lesson.check = first_word_exec(&rest);
                                },
                                None => {
                                    if marker(line, "**Mechanize:**", "declined") {
                                        lesson.mechanize_declined = true;
                                    }
                                },
                            },
                        }
                        current = Some(lesson);
                    },
                }
            }
        }
        k = k + 1;
    }
    current = flush_lesson(current, &buffer);
    if let Some(cur) = current {
        let ghost before = done@.map_values(|l: Lesson| lesson_view(l));
        done.push(cur);
        assert(done@.map_values(|l: Lesson| lesson_view(l)) =~= before.push(lesson_view(cur)));
    }
    done
}

/// ASCII whitespace, as `u8::is_ascii_whitespace` has it.
pub open spec fn is_ascii_ws(c: char) -> bool {
    c == ' ' || c == '\t' || c == '\n' || c == '\x0C' || c == '\r'
}

/// How many non-whitespace characters start at `k`.
pub open spec fn token_run(s: Seq<char>, k: int) -> nat
    decreases s.len() - k,
{
    if 0 <= k < s.len() && !crate::text::is_ws(s[k]) {
        1 + token_run(s, k + 1)
    } else {
        0
    }
}

/// The value of the first `key=` field, from position `at` on, that starts
/// the line or follows ASCII whitespace and has a non-empty value.
pub open spec fn logfmt_from(line: Seq<char>, key: Seq<char>, at: int) -> Option<Seq<char>>
    decreases line.len() - at,
{
    let needle = key + seq!['='];
    if at < 0 || at >= line.len() {
        None
    } else if crate::text::occurs_at(line, needle, at) && (at == 0 || is_ascii_ws(line[at - 1]))
        && token_run(line, at + needle.len()) > 0 {
        Some(line.subrange(at + needle.len(), at + needle.len() + token_run(line, at + needle.len())))
    } else {
        logfmt_from(line, key, at + 1)
    }
}

proof fn lemma_token_run(s: Seq<char>, k: int)
    requires
        0 <= k <= s.len(),
    ensures
        k + token_run(s, k) <= s.len(),
    decreases s.len() - k,
{
    if k < s.len() && !crate::text::is_ws(s[k]) {
        lemma_token_run(s, k + 1);
    }
}

/// One unquoted logfmt field of a line.
pub fn logfmt(line: &[char], key: &str) -> (r: Option<String>)
    ensures
        match logfmt_from(line@, key@, 0) {
            Some(v) => r is Some && r->0@ == v,
            None => r is None,
        },
{
    let mut needle = chars_of(key);
    needle.push('=');
    assert(needle@ == key@ + seq!['=']);
    let n = line.len();
    let mut at: usize = 0;
    while at < n
        invariant
            at <= n,
            n == line@.len(),
            needle@ == key@ + seq!['='],
            logfmt_from(line@, key@, 0) == logfmt_from(line@, key@, at as int),
        decreases n - at,
    {
        if crate::text::matches_at(line, &needle, at) {
            let c = if at > 0 { line[at - 1] } else { ' ' };
            if at == 0 || c == ' ' || c == '\t' || c == '\n' || c == '\x0C' || c == '\r' {
                let start = at + needle.len();
                let mut e = start;
                proof {
                    lemma_token_run(line@, start as int);
                }
                while e < n && !crate::text::is_ws_exec(line[e])
                    invariant
                        start <= e <= n,
                        n == line@.len(),
                        token_run(line@, start as int) == (e - start) + token_run(line@, e as int),
                    decreases n - e,
                {
                    e = e + 1;
                }
                if e > start {
                    let v = slice_vec(line, start, e);
                    return Some(string_of(&v));
                }
            }
        }
        at = at + 1;
    }
    None
}

pub open spec fn log_entry_at(line: Seq<char>) -> Option<(Seq<char>, Option<u32>)> {
    match logfmt_from(line, "id"@, 0) {
        None => None,
        Some(id) => Some((id, match logfmt_from(line, "phase"@, 0) {
            Some(v) => match crate::text::parse_u64_spec(v) {
                Some(n) => if n <= u32::MAX { Some(n as u32) } else { None },
                None => None,
            },
            None => None,
        })),
    }
}

/// The entries among the first `n` lines of the log.
pub open spec fn changelog_upto(ls: Seq<Seq<char>>, n: int) -> Seq<(Seq<char>, Option<u32>)>
    decreases n,
{
    if n <= 0 {
        Seq::empty()
    } else {
        match log_entry_at(ls[n - 1]) {
            Some(e) => changelog_upto(ls, n - 1).push(e),
            None => changelog_upto(ls, n - 1),
        }
    }
}

pub open spec fn log_entry_view(e: LogEntry) -> (Seq<char>, Option<u32>) {
    (e.id@, e.phase)
}

/// The entries of `.ash/CHANGELOG.log`: every line with an `id=` field.
pub fn read_changelog(text: &str) -> (r: Vec<LogEntry>)
    ensures
        r@.map_values(|e: LogEntry| log_entry_view(e)) == changelog_upto(lines(text@), lines(text@).len() as int),
{
    let c = chars_of(text);
    let ls = lines_vec(&c);
    let ghost lv = lines(text@);
    let mut out: Vec<LogEntry> = Vec::new();
    let mut k: usize = 0;
    while k < ls.len()
        invariant
            k <= ls@.len(),
            lv == lines(text@),
            ls@.len() == lv.len(),
            forall|i: int| 0 <= i < ls@.len() ==> #[trigger] ls@[i]@ == lv[i],
            out@.map_values(|e: LogEntry| log_entry_view(e)) == changelog_upto(lv, k as int),
        decreases ls.len() - k,
    {
        let ghost before = out@.map_values(|e: LogEntry| log_entry_view(e));
        if let Some(id) = logfmt(&ls[k], "id") {
            let phase = match logfmt(&ls[k], "phase") {
                Some(v) => {
                    let vc = chars_of(v.as_str());
                    match parse_u64(&vc) {
                        Some(n) => if n <= u32::MAX as u64 { Some(n as u32) } else { None },
                        None => None,
                    }
                },
                None => None,
            };
            out.push(LogEntry { id, phase });
            assert(out@.map_values(|e: LogEntry| log_entry_view(e)) =~= before.push(log_entry_at(lv[k as int])->0));
        }
        k = k + 1;
    }
    out
}

} // verus!
