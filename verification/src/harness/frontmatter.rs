//! The YAML frontmatter block, parsed strictly.
//!
//! The parser accepts a deliberately small subset — flat `key: value`
//! entries whose value is a plain scalar, a single- or double-quoted scalar,
//! or an inline `[a, b]` list — and refuses anything else with the 1-based
//! line number, so a document outside the subset becomes a finding naming
//! the line rather than a silently wrong value.

use vstd::prelude::*;

use crate::text::{
    chars_of, contains_seq, lines, lines_vec, find_char_from, is_alnum, seq_eq, slice_vec, split_char, string_of, trim, trim_end, trim_start, lit, push_all,
};

verus! {

/// A frontmatter value: a scalar or an inline list.
#[derive(Debug, Clone, PartialEq, Eq)]
pub enum Value {
    Scalar(String),
    List(Vec<String>),
}

/// The mathematical shape of a [`Value`].
pub enum ValueView {
    Scalar(Seq<char>),
    List(Seq<Seq<char>>),
}

impl View for Value {
    type V = ValueView;

    open spec fn view(&self) -> ValueView {
        match self {
            Value::Scalar(s) => ValueView::Scalar(s@),
            Value::List(items) => ValueView::List(items@.map_values(|s: String| s@)),
        }
    }
}

/// `items` joined with `sep` between consecutive items.
pub open spec fn join(items: Seq<Seq<char>>, sep: Seq<char>) -> Seq<char>
    decreases items.len(),
{
    if items.len() == 0 {
        Seq::empty()
    } else if items.len() == 1 {
        items[0]
    } else {
        join(items.drop_last(), sep) + sep + items.last()
    }
}

/// The text the index renders for a value: a list joins with `", "`.
pub open spec fn value_text(v: ValueView) -> Seq<char> {
    match v {
        ValueView::Scalar(s) => s,
        ValueView::List(items) => join(items, seq![',', ' ']),
    }
}

/// `items` joined by `sep`, as a `String`.
pub fn join_strings(items: &[String], sep: &str) -> (r: String)
    ensures
        r@ == join(items@.map_values(|s: String| s@), sep@),
{
    let ghost views = items@.map_values(|s: String| s@);
    let sep_chars = chars_of(sep);
    let mut out: Vec<char> = Vec::new();
    let mut i: usize = 0;
    while i < items.len()
        invariant
            i <= items@.len(),
            views == items@.map_values(|s: String| s@),
            sep_chars@ == sep@,
            out@ == join(views.take(i as int), sep@),
        decreases items.len() - i,
    {
        let piece = chars_of(items[i].as_str());
        proof {
            let t = views.take(i + 1);
            assert(t.drop_last() == views.take(i as int));
            assert(t.last() == items@[i as int]@);
        }
        if i > 0 {
            let mut k: usize = 0;
            let ghost base = out@;
            while k < sep_chars.len()
                invariant
                    k <= sep_chars@.len(),
                    out@ == base + sep_chars@.take(k as int),
                decreases sep_chars.len() - k,
            {
                out.push(sep_chars[k]);
                k = k + 1;
                assert(sep_chars@.take(k as int) == sep_chars@.take(k - 1).push(sep_chars@[k - 1]));
            }
            assert(sep_chars@.take(sep_chars@.len() as int) == sep_chars@);
        }
        let mut k: usize = 0;
        let ghost base2 = out@;
        while k < piece.len()
            invariant
                k <= piece@.len(),
                out@ == base2 + piece@.take(k as int),
            decreases piece.len() - k,
        {
            out.push(piece[k]);
            k = k + 1;
            assert(piece@.take(k as int) == piece@.take(k - 1).push(piece@[k - 1]));
        }
        proof {
            assert(piece@.take(piece@.len() as int) == piece@);
            if i == 0 {
                assert(views.take(1).len() == 1);
                assert(out@ == piece@);
            }
        }
        i = i + 1;
    }
    assert(views.take(items@.len() as int) == views);
    string_of(&out)
}

impl Value {
    /// The value as the index renders it: a list joins with `", "`.
    pub fn text(&self) -> (r: String)
        ensures
            r@ == value_text(self@),
    {
        match self {
            Value::Scalar(s) => s.clone(),
            Value::List(items) => {
                let r = join_strings(items.as_slice(), ", ");
                proof {
                    reveal_strlit(", ");
                    assert(", "@ == seq![',', ' ']);
                }
                r
            },
        }
    }
}

/// A parse failure: the 1-based line, counted over the whole file, and why.
#[derive(Debug, Clone, PartialEq, Eq)]
pub struct ParseError {
    pub line: usize,
    pub reason: String,
}

impl ParseError {
    /// `line <n>: <reason>`, as the error is reported.
    pub fn message(&self) -> (r: String)
        ensures
            r@ == "line "@ + crate::text::decimal(self.line as nat) + ": "@ + self.reason@,
    {
        let mut out: Vec<char> = Vec::new();
        crate::text::push_str(&mut out, "line ");
        crate::text::push_decimal(&mut out, self.line as u64);
        crate::text::push_str(&mut out, ": ");
        crate::text::push_str(&mut out, self.reason.as_str());
        assert(out@ =~= "line "@ + crate::text::decimal(self.line as nat) + ": "@ + self.reason@);
        crate::text::string_of(&out)
    }
}

/// The entries of a frontmatter block, in the order the document declares
/// them.
#[derive(Debug, Clone, Default, PartialEq, Eq)]
pub struct Frontmatter {
    entries: Vec<(String, Value)>,
}

/// The value of the first entry named `key`.
pub open spec fn lookup(entries: Seq<(Seq<char>, ValueView)>, key: Seq<char>) -> Option<ValueView>
    decreases entries.len(),
{
    if entries.len() == 0 {
        None
    } else if entries[0].0 == key {
        Some(entries[0].1)
    } else {
        lookup(entries.drop_first(), key)
    }
}

impl View for Frontmatter {
    type V = Seq<(Seq<char>, ValueView)>;

    closed spec fn view(&self) -> Seq<(Seq<char>, ValueView)> {
        self.entries@.map_values(|e: (String, Value)| (e.0@, e.1@))
    }
}

impl Frontmatter {
    pub fn get(&self, key: &str) -> (r: Option<&Value>)
        ensures
            match r {
                Some(v) => lookup(self@, key@) == Some(v@),
                None => lookup(self@, key@).is_none(),
            },
    {
        let k = chars_of(key);
        let mut i: usize = 0;
        assert(self@.skip(0) == self@);
        while i < self.entries.len()
            invariant
                i <= self.entries@.len(),
                k@ == key@,
                lookup(self@, key@) == lookup(self@.skip(i as int), key@),
            decreases self.entries.len() - i,
        {
            let name = chars_of(self.entries[i].0.as_str());
            proof {
                assert(self@.skip(i as int)[0] == self@[i as int]);
                assert(self@.skip(i as int).drop_first() == self@.skip(i + 1));
            }
            if seq_eq(&name, &k) {
                return Some(&self.entries[i].1);
            }
            i = i + 1;
        }
        None
    }

    /// The value as text, whatever shape it has; `None` when the key is
    /// absent.
    pub fn text(&self, key: &str) -> (r: Option<String>)
        ensures
            match lookup(self@, key@) {
                Some(v) => r is Some && r->0@ == value_text(v),
                None => r is None,
            },
    {
        match self.get(key) {
            Some(v) => Some(v.text()),
            None => None,
        }
    }

    /// The value only if it is a scalar.
    pub fn scalar(&self, key: &str) -> (r: Option<&str>)
        ensures
            match lookup(self@, key@) {
                Some(ValueView::Scalar(s)) => r is Some && r->0@ == s,
                _ => r is None,
            },
    {
        match self.get(key) {
            Some(Value::Scalar(s)) => Some(s.as_str()),
            _ => None,
        }
    }

    /// The value only if it is an inline list.
    pub fn list(&self, key: &str) -> (r: Option<&[String]>)
        ensures
            match lookup(self@, key@) {
                Some(ValueView::List(items)) => r is Some && r->0@.map_values(|s: String| s@)
                    == items,
                _ => r is None,
            },
    {
        match self.get(key) {
            Some(Value::List(items)) => Some(items.as_slice()),
            _ => None,
        }
    }

    pub fn has(&self, key: &str) -> (r: bool)
        ensures
            r == lookup(self@, key@).is_some(),
    {
        self.get(key).is_some()
    }

    pub fn is_empty(&self) -> (r: bool)
        ensures
            r == (self@.len() == 0),
    {
        self.entries.len() == 0
    }
}

// --- the accepted subset, stated ---------------------------------------

pub open spec fn is_fence(line: Seq<char>) -> bool {
    trim_end(line) == seq!['-', '-', '-']
}

pub open spec fn reason_never_closed() -> Seq<char> {
    "the frontmatter block is opened by '---' but never closed"@
}

pub open spec fn reason_indented() -> Seq<char> {
    "indented — nested mappings and multi-line values are not supported here; keep the block flat"@
}

pub open spec fn reason_block_sequence() -> Seq<char> {
    "a block sequence — write the list inline as [a, b, c]"@
}

pub open spec fn reason_no_colon() -> Seq<char> {
    "expected 'key: value'"@
}

pub open spec fn reason_not_plain_key(key: Seq<char>) -> Seq<char> {
    seq!['\''] + key + "' is not a plain key"@
}

pub open spec fn reason_no_space() -> Seq<char> {
    "a key and its value must be separated by ': '"@
}

pub open spec fn reason_declared_twice(key: Seq<char>) -> Seq<char> {
    seq!['\''] + key + "' is declared twice — the second wins silently in YAML"@
}

pub open spec fn reason_block_scalar() -> Seq<char> {
    "a block scalar — put the value on one line, quoting it if needed"@
}

pub open spec fn reason_list_unclosed() -> Seq<char> {
    "an inline list that is never closed — expected a trailing ']'"@
}

pub open spec fn reason_single_unclosed() -> Seq<char> {
    "a single-quoted scalar that is never closed"@
}

pub open spec fn reason_single_unescaped() -> Seq<char> {
    "a single-quoted scalar with an unescaped quote — write a literal ' as ''"@
}

pub open spec fn reason_double_unclosed() -> Seq<char> {
    "a double-quoted scalar that is never closed"@
}

pub open spec fn reason_double_escape() -> Seq<char> {
    "a double-quoted scalar with an escape — use a single-quoted scalar instead"@
}

pub open spec fn reason_comment() -> Seq<char> {
    "a plain scalar containing ' #', which YAML reads as a comment — quote the value"@
}

/// A key character: ASCII alphanumeric, `_` or `-`.
pub open spec fn is_key_char(c: char) -> bool {
    is_alnum(c) || c == '_' || c == '-'
}

pub open spec fn is_plain_key(key: Seq<char>) -> bool {
    key.len() > 0 && forall|i: int| 0 <= i < key.len() ==> is_key_char(#[trigger] key[i])
}

/// The first index of `c` in `s`, if any.
pub open spec fn first_index(s: Seq<char>, c: char) -> Option<int> {
    if exists|i: int| 0 <= i < s.len() && s[i] == c {
        Some(choose|i: int| 0 <= i < s.len() && s[i] == c && forall|j: int| 0 <= j < i ==> s[j] != c)
    } else {
        None
    }
}

/// `s[i..j]` is a maximal run of `'`.
pub open spec fn quote_run(s: Seq<char>, i: int, j: int) -> bool {
    &&& 0 <= i < j <= s.len()
    &&& forall|k: int| i <= k < j ==> s[k] == '\''
    &&& i == 0 || s[i - 1] != '\''
    &&& j == s.len() || s[j] != '\''
}

/// A maximal run of `'` of odd length somewhere in `s`: a quote that is not
/// part of a doubled pair.
pub open spec fn has_odd_quote_run(s: Seq<char>) -> bool {
    exists|i: int, j: int| #[trigger] quote_run(s, i, j) && (j - i) % 2 == 1
}

/// Every `''` replaced by `'`, left to right (`str::replace("''", "'")`).
pub open spec fn unquote(s: Seq<char>) -> Seq<char>
    decreases s.len(),
{
    if s.len() >= 2 && s[0] == '\'' && s[1] == '\'' {
        seq!['\''] + unquote(s.skip(2))
    } else if s.len() >= 1 {
        seq![s[0]] + unquote(s.skip(1))
    } else {
        s
    }
}

/// What a value text parses to, or the reason it is refused.
pub open spec fn value_spec(v: Seq<char>) -> Result<ValueView, Seq<char>> {
    if v.len() == 0 {
        Ok(ValueView::Scalar(Seq::empty()))
    } else if v[0] == '|' || v[0] == '>' {
        Err(reason_block_scalar())
    } else if v[0] == '[' {
        if v.len() < 2 || v.last() != ']' {
            Err(reason_list_unclosed())
        } else {
            let inner = v.subrange(1, v.len() - 1);
            if trim(inner).len() == 0 {
                Ok(ValueView::List(Seq::empty()))
            } else {
                Ok(ValueView::List(split_char(inner, ',').map_values(|p: Seq<char>| trim(p))))
            }
        }
    } else if v[0] == '\'' {
        if v.len() < 2 || v.last() != '\'' {
            Err(reason_single_unclosed())
        } else {
            let inner = v.subrange(1, v.len() - 1);
            if has_odd_quote_run(inner) {
                Err(reason_single_unescaped())
            } else {
                Ok(ValueView::Scalar(unquote(inner)))
            }
        }
    } else if v[0] == '"' {
        if v.len() < 2 || v.last() != '"' {
            Err(reason_double_unclosed())
        } else {
            let inner = v.subrange(1, v.len() - 1);
            if inner.contains('\\') || inner.contains('"') {
                Err(reason_double_escape())
            } else {
                Ok(ValueView::Scalar(inner))
            }
        }
    } else if contains_seq(v, seq![' ', '#']) {
        Err(reason_comment())
    } else {
        Ok(ValueView::Scalar(v))
    }
}

/// What one non-blank, non-comment line parses to.
pub open spec fn entry_spec(line: Seq<char>) -> Result<(Seq<char>, ValueView), Seq<char>> {
    if line.len() > 0 && (line[0] == ' ' || line[0] == '\t') {
        Err(reason_indented())
    } else if line.len() >= 2 && line[0] == '-' && line[1] == ' ' {
        Err(reason_block_sequence())
    } else {
        match first_index(line, ':') {
            None => Err(reason_no_colon()),
            Some(c) => {
                let key = line.take(c);
                let rest = line.skip(c + 1);
                if !is_plain_key(key) {
                    Err(reason_not_plain_key(key))
                } else if rest.len() > 0 && rest[0] != ' ' {
                    Err(reason_no_space())
                } else {
                    match value_spec(trim(rest)) {
                        Ok(v) => Ok((key, v)),
                        Err(r) => Err(r),
                    }
                }
            },
        }
    }
}

/// A line the parser skips: blank, or a `#` comment.
pub open spec fn is_skippable(line: Seq<char>) -> bool {
    trim(line).len() == 0 || (trim_start(line).len() > 0 && trim_start(line)[0] == '#')
}

/// The parse of lines `k..` after the opening fence, given the entries so
/// far: `Ok` at the closing fence, an error at the first refused line, or
/// the never-closed error at the end of the file.
pub open spec fn block_spec(ls: Seq<Seq<char>>, k: int, acc: Seq<(Seq<char>, ValueView)>) -> Result<
    Option<Seq<(Seq<char>, ValueView)>>,
    (int, Seq<char>),
>
    decreases ls.len() - k,
{
    if k < 0 || k >= ls.len() {
        Err((ls.len() as int, reason_never_closed()))
    } else if is_fence(ls[k]) {
        Ok(Some(acc))
    } else {
        let line = trim_end(ls[k]);
        if is_skippable(line) {
            block_spec(ls, k + 1, acc)
        } else {
            match entry_spec(line) {
                Err(r) => Err((k + 1, r)),
                Ok((key, v)) => if lookup(acc, key).is_some() {
                    Err((k + 1, reason_declared_twice(key)))
                } else {
                    block_spec(ls, k + 1, acc.push((key, v)))
                },
            }
        }
    }
}

/// The whole parse: `Ok(None)` when the first line is not a `---` fence.
pub open spec fn parse_spec(text: Seq<char>) -> Result<
    Option<Seq<(Seq<char>, ValueView)>>,
    (int, Seq<char>),
> {
    let ls = lines(text);
    if ls.len() == 0 || !is_fence(ls[0]) {
        Ok(None)
    } else {
        block_spec(ls, 1, Seq::empty())
    }
}


// --- what a lookup answers --------------------------------------------------------

/// Line `j` of the block lies before its closing fence: no line from `k`
/// through `j` is a fence.
pub open spec fn before_fence(ls: Seq<Seq<char>>, k: int, j: int) -> bool {
    k <= j < ls.len() && forall|m: int| k <= m <= j ==> !is_fence(#[trigger] ls[m])
}

/// Line `j` declares `key` with the value `v`.
pub open spec fn declares(ls: Seq<Seq<char>>, j: int, key: Seq<char>, v: ValueView) -> bool {
    !is_skippable(trim_end(ls[j])) && entry_spec(trim_end(ls[j])) == Ok::<(Seq<char>, ValueView), Seq<char>>((key, v))
}

proof fn lemma_lookup_push(acc: Seq<(Seq<char>, ValueView)>, key2: Seq<char>, v2: ValueView, key: Seq<char>)
    ensures
        lookup(acc.push((key2, v2)), key) == match lookup(acc, key) {
            Some(x) => Some(x),
            None => if key2 == key { Some(v2) } else { None },
        },
    decreases acc.len(),
{
    let pushed = acc.push((key2, v2));
    if acc.len() > 0 {
        assert(pushed[0] == acc[0]);
        assert(pushed.drop_first() =~= acc.drop_first().push((key2, v2)));
        lemma_lookup_push(acc.drop_first(), key2, v2, key);
    } else {
        assert(pushed[0] == (key2, v2));
        assert(pushed.drop_first() =~= Seq::<(Seq<char>, ValueView)>::empty());
        assert(lookup(Seq::<(Seq<char>, ValueView)>::empty(), key) is None);
    }
}

proof fn lemma_block_lookup(ls: Seq<Seq<char>>, k: int, acc: Seq<(Seq<char>, ValueView)>, es: Seq<(Seq<char>, ValueView)>, key: Seq<char>, v: ValueView)
    requires
        0 <= k,
        block_spec(ls, k, acc) == Ok::<Option<Seq<(Seq<char>, ValueView)>>, (int, Seq<char>)>(Some(es)),
    ensures
        lookup(es, key) == Some(v) <==> (lookup(acc, key) == Some(v) || exists|j: int| #[trigger] before_fence(ls, k, j) && declares(ls, j, key, v)),
        lookup(acc, key) is Some ==> forall|j: int, w: ValueView| before_fence(ls, k, j) ==> !(#[trigger] declares(ls, j, key, w)),
    decreases ls.len() - k,
{
    if k < ls.len() && !is_fence(ls[k]) {
        let line = trim_end(ls[k]);
        if is_skippable(line) {
            lemma_block_lookup(ls, k + 1, acc, es, key, v);
            assert forall|j: int| #[trigger] before_fence(ls, k, j) && j != k implies before_fence(ls, k + 1, j) by {}
            assert forall|j: int| #[trigger] before_fence(ls, k + 1, j) implies before_fence(ls, k, j) by {}
            if lookup(acc, key) is Some {
                assert forall|j: int, w: ValueView| before_fence(ls, k, j) implies !(#[trigger] declares(ls, j, key, w)) by {
                    if j != k {
                        assert(before_fence(ls, k + 1, j));
                    }
                }
            }
        } else {
            let (key2, v2) = entry_spec(line)->Ok_0;
            lemma_lookup_push(acc, key2, v2, key);
            lemma_block_lookup(ls, k + 1, acc.push((key2, v2)), es, key, v);
            assert forall|j: int| #[trigger] before_fence(ls, k, j) && j != k implies before_fence(ls, k + 1, j) by {}
            assert forall|j: int| #[trigger] before_fence(ls, k + 1, j) implies before_fence(ls, k, j) by {}
            assert(before_fence(ls, k, k));
            if lookup(acc, key) is Some {
                assert(key2 != key);
                assert forall|j: int, w: ValueView| before_fence(ls, k, j) implies !(#[trigger] declares(ls, j, key, w)) by {
                    if j != k {
                        assert(before_fence(ls, k + 1, j));
                    }
                }
            }
            if key2 == key && lookup(acc, key) is None {
                assert forall|j: int, w: ValueView| before_fence(ls, k + 1, j) implies !(#[trigger] declares(ls, j, key, w)) by {}
                if exists|j: int| #[trigger] before_fence(ls, k, j) && declares(ls, j, key, v) {
                    let j = choose|j: int| #[trigger] before_fence(ls, k, j) && declares(ls, j, key, v);
                    if j != k {
                        assert(before_fence(ls, k + 1, j));
                    }
                }
            }
            if exists|j: int| #[trigger] before_fence(ls, k, j) && declares(ls, j, key, v) {
                let j = choose|j: int| #[trigger] before_fence(ls, k, j) && declares(ls, j, key, v);
                if j != k {
                    assert(before_fence(ls, k + 1, j));
                }
            }
        }
    } else if k < ls.len() {
        assert forall|j: int| !(#[trigger] before_fence(ls, k, j)) by {
            if k <= j < ls.len() {
                assert(is_fence(ls[k]));
            }
        }
    }
}

/// What `get` answers is what the block declares: a key's value is the one
/// a line before the closing fence gives it, and a key no such line
/// declares has none, so the value a key is given is unique.
pub proof fn lemma_get_answers_the_declared_line(text: Seq<char>, es: Seq<(Seq<char>, ValueView)>, key: Seq<char>, v: ValueView)
    requires
        parse_spec(text) == Ok::<Option<Seq<(Seq<char>, ValueView)>>, (int, Seq<char>)>(Some(es)),
    ensures
        lookup(es, key) == Some(v) <==> exists|j: int| #[trigger] before_fence(lines(text), 1, j) && declares(lines(text), j, key, v),
{
    lemma_block_lookup(lines(text), 1, Seq::empty(), es, key, v);
}

// --- the parser --------------------------------------------------------

/// `'<key><tail>`.
fn quoted_key_message(key: &[char], tail: &str) -> (r: String)
    ensures
        r@ == seq!['\''] + key@ + tail@,
{
    let mut out: Vec<char> = Vec::new();
    out.push('\'');
    push_all(&mut out, key);
    let t = chars_of(tail);
    push_all(&mut out, &t);
    string_of(&out)
}

pub fn is_fence_exec(line: &[char]) -> (r: bool)
    ensures
        r == is_fence(line@),
{
    let t = crate::text::trim_end_vec(line);
    let r = t.len() == 3 && t[0] == '-' && t[1] == '-' && t[2] == '-';
    proof {
        if r {
            assert(t@ =~= seq!['-', '-', '-']);
        }
    }
    r
}

/// Whether a single-quoted body holds a quote that is not doubled.
pub fn odd_quote_run(v: &[char]) -> (r: bool)
    ensures
        r == has_odd_quote_run(v@),
{
    let mut run_start: usize = 0;
    let mut i: usize = 0;
    while i < v.len()
        invariant
            run_start <= i <= v@.len(),
            forall|k: int| run_start <= k < i ==> v@[k] == '\'',
            run_start == 0 || v@[run_start - 1] != '\'',
            forall|a: int, b: int| #[trigger] quote_run(v@, a, b) && b < i ==> (b - a) % 2 == 0,
        decreases v.len() - i,
    {
        if v[i] != '\'' {
            if (i - run_start) % 2 == 1 {
                assert(quote_run(v@, run_start as int, i as int));
                return true;
            }
            assert forall|a: int, b: int| #[trigger] quote_run(v@, a, b) && b < i + 1 implies (b
                - a) % 2 == 0 by {
                if b == i {
                    if a < run_start {
                        assert(v@[run_start - 1] == '\'');
                    }
                    if a > run_start {
                        assert(v@[a - 1] == '\'');
                    }
                }
            }
            run_start = i + 1;
        }
        i = i + 1;
    }
    if (i - run_start) % 2 == 1 {
        assert(quote_run(v@, run_start as int, i as int));
        return true;
    }
    assert forall|a: int, b: int| #[trigger] quote_run(v@, a, b) implies (b - a) % 2 == 0 by {
        if b == i {
            if a < run_start {
                assert(v@[run_start - 1] == '\'');
            }
            if a > run_start {
                assert(v@[a - 1] == '\'');
            }
        }
    }
    false
}

/// `str::replace("''", "'")`.
pub fn unquote_exec(v: &[char]) -> (r: Vec<char>)
    ensures
        r@ == unquote(v@),
{
    let mut out: Vec<char> = Vec::new();
    let mut i: usize = 0;
    assert(v@.skip(0) == v@);
    while i < v.len()
        invariant
            i <= v@.len(),
            out@ + unquote(v@.skip(i as int)) == unquote(v@),
        decreases v.len() - i,
    {
        let ghost rest = v@.skip(i as int);
        if i + 1 < v.len() && v[i] == '\'' && v[i + 1] == '\'' {
            proof {
                assert(rest.skip(2) == v@.skip(i + 2));
                assert(unquote(rest) == seq!['\''] + unquote(rest.skip(2)));
                assert(out@.push('\'') + unquote(v@.skip(i + 2)) == out@ + unquote(rest));
            }
            out.push('\'');
            i = i + 2;
        } else {
            proof {
                assert(rest.skip(1) == v@.skip(i + 1));
                assert(unquote(rest) == seq![v@[i as int]] + unquote(rest.skip(1)));
                assert(out@.push(v@[i as int]) + unquote(v@.skip(i + 1)) == out@ + unquote(rest));
            }
            out.push(v[i]);
            i = i + 1;
        }
    }
    assert(unquote(v@.skip(i as int)) == Seq::<char>::empty());
    assert(out@ + Seq::<char>::empty() == out@);
    out
}

/// Parses one trimmed value.
pub fn parse_value(v: &[char]) -> (r: Result<Value, String>)
    ensures
        match value_spec(v@) {
            Ok(vv) => r is Ok && r->Ok_0@ == vv,
            Err(reason) => r is Err && r->Err_0@ == reason,
        },
{
    let n = v.len();
    if n == 0 {
        return Ok(Value::Scalar(String::new()));
    }
    if v[0] == '|' || v[0] == '>' {
        return Err(lit("a block scalar — put the value on one line, quoting it if needed"));
    }
    if v[0] == '[' {
        if n < 2 || v[n - 1] != ']' {
            return Err(lit("an inline list that is never closed — expected a trailing ']'"));
        }
        let inner = slice_vec(v, 1, n - 1);
        let trimmed = crate::text::trim_vec(&inner);
        if trimmed.len() == 0 {
            let empty: Vec<String> = Vec::new();
            assert(empty@.map_values(|s: String| s@) =~= Seq::<Seq<char>>::empty());
            return Ok(Value::List(empty));
        }
        let pieces = crate::text::split_char_vec(&inner, ',');
        let mut items: Vec<String> = Vec::new();
        let mut i: usize = 0;
        while i < pieces.len()
            invariant
                i <= pieces@.len(),
                pieces@.len() == split_char(inner@, ',').len(),
                forall|j: int| 0 <= j < pieces@.len() ==> #[trigger] pieces@[j]@ == split_char(inner@, ',')[j],
                items@.len() == i,
                forall|j: int| 0 <= j < i ==> #[trigger] items@[j]@ == trim(split_char(inner@, ',')[j]),
            decreases pieces.len() - i,
        {
            let t = crate::text::trim_vec(&pieces[i]);
            items.push(string_of(&t));
            i = i + 1;
        }
        assert(items@.map_values(|s: String| s@) =~= split_char(inner@, ',').map_values(
            |p: Seq<char>| trim(p),
        ));
        return Ok(Value::List(items));
    }
    if v[0] == '\'' {
        if n < 2 || v[n - 1] != '\'' {
            return Err(lit("a single-quoted scalar that is never closed"));
        }
        let inner = slice_vec(v, 1, n - 1);
        if odd_quote_run(&inner) {
            return Err(lit("a single-quoted scalar with an unescaped quote — write a literal ' as ''"));
        }
        let u = unquote_exec(&inner);
        return Ok(Value::Scalar(string_of(&u)));
    }
    if v[0] == '"' {
        if n < 2 || v[n - 1] != '"' {
            return Err(lit("a double-quoted scalar that is never closed"));
        }
        let inner = slice_vec(v, 1, n - 1);
        let bs = find_char_from(&inner, '\\', 0);
        let dq = find_char_from(&inner, '"', 0);
        if bs.is_some() || dq.is_some() {
            return Err(lit("a double-quoted scalar with an escape — use a single-quoted scalar instead"));
        }
        proof {
            if inner@.contains('\\') {
                let k = choose|k: int| 0 <= k < inner@.len() && inner@[k] == '\\';
            }
            if inner@.contains('"') {
                let k = choose|k: int| 0 <= k < inner@.len() && inner@[k] == '"';
            }
        }
        return Ok(Value::Scalar(string_of(&inner)));
    }
    let pat = vec![' ', '#'];
    let hit = crate::text::find_from(v, &pat, 0);
    proof {
        assert(pat@ == seq![' ', '#']);
    }
    if hit.is_some() {
        return Err(lit("a plain scalar containing ' #', which YAML reads as a comment — quote the value"));
    }
    Ok(Value::Scalar(string_of(v)))
}

pub proof fn lemma_first_index(s: Seq<char>, c: char, i: int)
    requires
        0 <= i < s.len(),
        s[i] == c,
        forall|j: int| 0 <= j < i ==> s[j] != c,
    ensures
        first_index(s, c) == Some(i),
{
    let w = choose|w: int| 0 <= w < s.len() && s[w] == c && forall|j: int| 0 <= j < w ==> s[j] != c;
    assert(0 <= w < s.len() && s[w] == c && forall|j: int| 0 <= j < w ==> s[j] != c);
    if w < i {
        assert(s[w] != c);
    }
    if w > i {
        assert(s[i] != c);
    }
}

/// Parses one entry line: `key: value`.
pub fn split_entry(line: &[char]) -> (r: Result<(String, Value), String>)
    ensures
        match entry_spec(line@) {
            Ok((k, vv)) => r matches Ok((k2, v2)) && k2@ == k && v2@ == vv,
            Err(reason) => r is Err && r->Err_0@ == reason,
        },
{
    let n = line.len();
    if n > 0 && (line[0] == ' ' || line[0] == '\t') {
        return Err(lit("indented — nested mappings and multi-line values are not supported here; keep the block flat"));
    }
    if n >= 2 && line[0] == '-' && line[1] == ' ' {
        return Err(lit("a block sequence — write the list inline as [a, b, c]"));
    }
    let colon = match find_char_from(line, ':', 0) {
        Some(c) => c,
        None => {
            return Err(lit("expected 'key: value'"));
        },
    };
    proof {
        lemma_first_index(line@, ':', colon as int);
    }
    let key = slice_vec(line, 0, colon);
    assert(key@ == line@.take(colon as int));
    let mut plain = key.len() > 0;
    let mut i: usize = 0;
    while i < key.len()
        invariant
            i <= key@.len(),
            plain == (key@.len() > 0 && forall|j: int| 0 <= j < i ==> is_key_char(#[trigger] key@[j])),
        decreases key.len() - i,
    {
        let c = key[i];
        if !(crate::text::is_alnum_exec(c) || c == '_' || c == '-') {
            plain = false;
        }
        i = i + 1;
    }
    if !plain {
        return Err(quoted_key_message(&key, "' is not a plain key"));
    }
    let rest = slice_vec(line, colon + 1, n);
    assert(rest@ == line@.skip(colon + 1));
    if rest.len() > 0 && rest[0] != ' ' {
        return Err(lit("a key and its value must be separated by ': '"));
    }
    let value = crate::text::trim_vec(&rest);
    match parse_value(&value) {
        Ok(v) => Ok((string_of(&key), v)),
        Err(e) => Err(e),
    }
}

/// Whether a line is blank or a `#` comment.
fn skippable(line: &[char]) -> (r: bool)
    ensures
        r == is_skippable(line@),
{
    let t = crate::text::trim_vec(line);
    if t.len() == 0 {
        return true;
    }
    let s = crate::text::trim_start_vec(line);
    s.len() > 0 && s[0] == '#'
}

/// Parses the block between the first two `---` lines. `Ok(None)` means
/// the file has no frontmatter at all, a different state from a malformed
/// block.
pub fn parse(text: &str) -> (r: Result<Option<Frontmatter>, ParseError>)
    ensures
        match parse_spec(text@) {
            Ok(None) => r is Ok && r->Ok_0 is None,
            Ok(Some(es)) => r is Ok && r->Ok_0 is Some && r->Ok_0->0@ == es,
            Err((line, reason)) => r is Err && r->Err_0.line == line && r->Err_0.reason@ == reason,
        },
{
    let chars = chars_of(text);
    let ls = lines_vec(&chars);
    let ghost l = lines(text@);
    assert(ls@.len() == l.len());
    if ls.len() == 0 || !is_fence_exec(&ls[0]) {
        return Ok(None);
    }
    assert(ls@[0]@ == l[0]);
    assert(parse_spec(text@) == block_spec(l, 1, Seq::empty()));
    let mut fm = Frontmatter { entries: Vec::new() };
    assert(fm@ =~= Seq::<(Seq<char>, ValueView)>::empty());
    let mut k: usize = 1;
    while k < ls.len()
        invariant
            1 <= k <= ls@.len(),
            ls@.len() == l.len(),
            forall|j: int| 0 <= j < ls@.len() ==> #[trigger] ls@[j]@ == l[j],
            l == lines(text@),
            parse_spec(text@) == block_spec(l, 1, Seq::empty()),
            block_spec(l, 1, Seq::empty()) == block_spec(l, k as int, fm@),
        decreases ls.len() - k,
    {
        let raw = &ls[k];
        assert(raw@ == l[k as int]);
        if is_fence_exec(raw) {
            assert(block_spec(l, k as int, fm@) == Ok::<_, (int, Seq<char>)>(Some(fm@)));
            return Ok(Some(fm));
        }
        let line = crate::text::trim_end_vec(raw);
        if !skippable(&line) {
            match split_entry(&line) {
                Err(reason) => {
                    return Err(ParseError { line: k + 1, reason });
                },
                Ok((key, value)) => {
                    if fm.has(key.as_str()) {
                        let kc = chars_of(key.as_str());
                        let reason = quoted_key_message(
                            &kc,
                            "' is declared twice — the second wins silently in YAML",
                        );
                        return Err(ParseError { line: k + 1, reason });
                    }
                    let ghost before = fm@;
                    fm.entries.push((key, value));
                    assert(fm@ =~= before.push((key@, value@)));
                },
            }
        }
        k = k + 1;
    }
    Err(ParseError { line: ls.len(), reason: lit("the frontmatter block is opened by '---' but never closed") })
}

} // verus!
