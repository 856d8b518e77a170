//! `${VAR}` substitution for configs carrying machine-specific values.
//!
//! Deliberately not a template engine: the need is a git identity and the
//! odd host path, and an unresolved variable must be a loud failure rather
//! than an empty string silently written into someone's `.gitconfig`.
//!
//! The values file comes first and the environment second; the caller
//! resolves both into one [`Values`] before rendering.

use vstd::prelude::*;

use crate::harness::frontmatter::{join, join_strings};
use crate::path::join_path;
use crate::text::{chars_of, is_alnum, is_alnum_exec, is_lower, is_upper, push_all, push_str, seq_eq, string_of};

verus! {

/// Values available to templates, first entry for a name winning.
pub struct Values {
    map: Vec<(String, String)>,
}

pub open spec fn value_of(vals: Seq<(String, String)>, key: Seq<char>) -> Option<Seq<char>>
    decreases vals.len(),
{
    if vals.len() == 0 {
        None
    } else if vals[0].0@ == key {
        Some(vals[0].1@)
    } else {
        value_of(vals.drop_first(), key)
    }
}

/// Where the values file is: `$PINST_VALUES` when set (`explicit`), else
/// `.config/pinst/values.toml` under `$HOME` (`home`), else nowhere.
pub open spec fn values_path_spec(explicit: Option<Seq<char>>, home: Option<Seq<char>>) -> Option<Seq<char>> {
    match explicit {
        Some(p) => Some(p),
        None => match home {
            Some(h) => Some(crate::path::join(h, ".config/pinst/values.toml"@)),
            None => None,
        },
    }
}

pub fn values_path(explicit: Option<&str>, home: Option<&str>) -> (r: Option<String>)
    ensures
        match values_path_spec(
            match explicit { Some(p) => Some(p@), None => None },
            match home { Some(h) => Some(h@), None => None },
        ) {
            Some(p) => r is Some && r->0@ == p,
            None => r is None,
        },
{
    match explicit {
        Some(p) => Some(p.to_owned()),
        None => match home {
            Some(h) => Some(join_path(h, ".config/pinst/values.toml")),
            None => None,
        },
    }
}

/// What `toml::from_str` reads from a values file's text: each top-level key
/// with its value (a string as it stands, anything else as TOML writes it),
/// in key order; `None` when the text is not such a table.
pub uninterp spec fn toml_pairs(text: Seq<char>) -> Option<Seq<(Seq<char>, Seq<char>)>>;

pub open spec fn pairs_view(p: Option<Vec<(String, String)>>) -> Option<Seq<(Seq<char>, Seq<char>)>> {
    match p {
        Some(v) => Some(v@.map_values(|e: (String, String)| (e.0@, e.1@))),
        None => None,
    }
}

/// `toml::from_str::<BTreeMap<String, toml::Value>>`, each value a string
/// or its TOML text; the outcome is [`toml_pairs`] of the text.
#[verifier::external_body]
fn values_toml(text: &str) -> (r: Option<Vec<(String, String)>>)
    ensures
        pairs_view(r) == toml_pairs(text@),
{
    let parsed: std::collections::BTreeMap<String, toml::Value> = toml::from_str(text).ok()?;
    Some(parsed.into_iter().map(|(k, v)| match v {
        toml::Value::String(s) => (k, s),
        other => (k, other.to_string()),
    }).collect())
}

/// The values a values file at `path` gives: none when there is no file
/// (`text` is `None`), its pairs when it parses, else an error naming the
/// file.
pub fn values_from_text(path: &str, text: Option<&str>) -> (r: Result<Values, String>)
    ensures
        match text {
            None => r is Ok && r->Ok_0@.len() == 0,
            Some(t) => match toml_pairs(t@) {
                Some(ps) => r is Ok && r->Ok_0@.map_values(|e: (String, String)| (e.0@, e.1@)) == ps,
                None => r is Err && r->Err_0@ == "parsing "@ + path@,
            },
        },
{
    match text {
        None => Ok(Values::new(Vec::new())),
        Some(t) => match values_toml(t) {
            Some(pairs) => Ok(Values::new(pairs)),
            None => {
                let mut m: Vec<char> = Vec::new();
                push_str(&mut m, "parsing ");
                push_str(&mut m, path);
                Err(string_of(&m))
            },
        },
    }
}

impl View for Values {
    type V = Seq<(String, String)>;

    closed spec fn view(&self) -> Seq<(String, String)> {
        self.map@
    }
}

impl Values {
    pub fn new(map: Vec<(String, String)>) -> (r: Values)
        ensures
            r@ == map@,
    {
        Values { map }
    }

    /// Where the values file is looked for, for an error message: its path,
    /// or the usual place when there is no `$HOME` to put it under.
    pub fn path_hint(explicit: Option<&str>, home: Option<&str>) -> (r: String)
        ensures
            match values_path_spec(
                match explicit { Some(p) => Some(p@), None => None },
                match home { Some(h) => Some(h@), None => None },
            ) {
                Some(p) => r@ == p,
                None => r@ == "~/.config/pinst/values.toml"@,
            },
    {
        match values_path(explicit, home) {
            Some(p) => p,
            None => "~/.config/pinst/values.toml".to_owned(),
        }
    }

    /// These values, then `env` (the process environment, as the caller
    /// read it) for any name they leave out: a name found in both takes
    /// the values file's value.
    pub fn with_fallback(self, env: Vec<(String, String)>) -> (r: Values)
        ensures
            r@ == self@ + env@,
    {
        let mut map = self.map;
        let mut env = env;
        map.append(&mut env);
        Values { map }
    }

    pub fn get(&self, key: &str) -> (r: Option<String>)
        ensures
            match value_of(self@, key@) {
                Some(v) => r is Some && r->0@ == v,
                None => r is None,
            },
    {
        let k = chars_of(key);
        let mut i: usize = 0;
        assert(self.map@.skip(0) == self.map@);
        while i < self.map.len()
            invariant
                i <= self.map@.len(),
                k@ == key@,
                value_of(self.map@, key@) == value_of(self.map@.skip(i as int), key@),
            decreases self.map.len() - i,
        {
            assert(self.map@.skip(i as int)[0] == self.map@[i as int]);
            assert(self.map@.skip(i as int).drop_first() == self.map@.skip(i + 1));
            let name = chars_of(self.map[i].0.as_str());
            if seq_eq(&name, &k) {
                return Some(self.map[i].1.clone());
            }
            i = i + 1;
        }
        None
    }
}

impl Default for Values {
    /// No values at all.
    fn default() -> (r: Values)
        ensures
            r@.len() == 0,
    {
        Values { map: Vec::new() }
    }
}

/// The first `}` at or after `k`.
pub open spec fn close_from(s: Seq<char>, k: int) -> Option<int>
    decreases s.len() - k,
{
    if k < 0 || k >= s.len() {
        None
    } else if s[k] == '}' {
        Some(k)
    } else {
        close_from(s, k + 1)
    }
}

/// A placeholder's name: an ASCII letter or `_`, then letters, digits and
/// `_`. Anything else between `${` and `}` is shell syntax, not a name.
pub open spec fn is_placeholder_name(name: Seq<char>) -> bool {
    &&& name.len() > 0
    &&& (is_lower(name[0]) || is_upper(name[0]) || name[0] == '_')
    &&& forall|i: int| 0 <= i < name.len() ==> is_alnum(#[trigger] name[i]) || name[i] == '_'
}

fn is_placeholder_name_exec(name: &Vec<char>) -> (r: bool)
    ensures
        r == is_placeholder_name(name@),
{
    if name.len() == 0 {
        return false;
    }
    let c0 = name[0];
    if !(('a' <= c0 && c0 <= 'z') || ('A' <= c0 && c0 <= 'Z') || c0 == '_') {
        return false;
    }
    let mut i: usize = 0;
    while i < name.len()
        invariant
            i <= name@.len(),
            forall|j: int| 0 <= j < i ==> is_alnum(#[trigger] name@[j]) || name@[j] == '_',
        decreases name.len() - i,
    {
        if !(is_alnum_exec(name[i]) || name[i] == '_') {
            return false;
        }
        i = i + 1;
    }
    true
}

/// Rendering `s` from `pos` on: the text produced, and the name of every
/// placeholder with no value, in order of appearance. A `${` with no `}`
/// after it is literal text, and so is every `$` not followed by `{`; a
/// `${…}` whose contents are not a name (`${SHELL##*/}`) is copied as it
/// stands.
pub open spec fn render_from(s: Seq<char>, pos: int, vals: Seq<(String, String)>) -> (Seq<char>, Seq<Seq<char>>)
    decreases s.len() - pos, 1int,
{
    if pos < 0 || pos >= s.len() {
        (Seq::empty(), Seq::empty())
    } else if pos + 1 < s.len() && s[pos] == '$' && s[pos + 1] == '{' {
        match close_from(s, pos + 2) {
            None => (s.skip(pos), Seq::empty()),
            Some(e) => {
                proof {
                    lemma_close_bounds(s, pos + 2);
                }
                let name = s.subrange(pos + 2, e);
                let rest = render_from(s, e + 1, vals);
                if !is_placeholder_name(name) {
                    ("${"@ + name + "}"@ + rest.0, rest.1)
                } else {
                    match value_of(vals, name) {
                        Some(v) => (v + rest.0, rest.1),
                        None => ("${"@ + name + "}"@ + rest.0, seq![name] + rest.1),
                    }
                }
            },
        }
    } else {
        let rest = render_from(s, pos + 1, vals);
        (seq![s[pos]] + rest.0, rest.1)
    }
}

/// `names` with repeats removed, first occurrences kept in order.
pub open spec fn dedup(names: Seq<Seq<char>>) -> Seq<Seq<char>>
    decreases names.len(),
{
    if names.len() == 0 {
        Seq::empty()
    } else {
        let d = dedup(names.drop_last());
        if d.contains(names.last()) {
            d
        } else {
            d.push(names.last())
        }
    }
}

pub proof fn lemma_close_bounds(s: Seq<char>, k: int)
    ensures
        close_from(s, k) matches Some(e) ==> k <= e < s.len() && s[e] == '}',
    decreases s.len() - k,
{
    if 0 <= k < s.len() && s[k] != '}' {
        lemma_close_bounds(s, k + 1);
    }
}

/// Text with no `${` in it renders as it stands, whatever the values, and
/// nothing is missing: `$HOME` and other shell syntax pass through.
pub proof fn lemma_text_without_placeholders_passes_through(s: Seq<char>, pos: int, vals: Seq<(String, String)>)
    requires
        0 <= pos <= s.len(),
        forall|i: int| 0 <= i < s.len() - 1 ==> !(s[i] == '$' && #[trigger] s[i + 1] == '{'),
    ensures
        render_from(s, pos, vals) == (s.skip(pos), Seq::<Seq<char>>::empty()),
    decreases s.len() - pos,
{
    if pos < s.len() {
        if pos + 1 < s.len() {
            assert(!(s[pos] == '$' && s[pos + 1] == '{'));
        }
        lemma_text_without_placeholders_passes_through(s, pos + 1, vals);
        assert(s.skip(pos) =~= seq![s[pos]] + s.skip(pos + 1));
    }
}

/// Rendering only ever puts in values it has: with no values at all the
/// text comes out exactly as it went in, every `${NAME}` left standing.
pub proof fn lemma_no_values_leave_the_text_as_it_is(s: Seq<char>, pos: int)
    requires
        0 <= pos <= s.len(),
    ensures
        render_from(s, pos, Seq::empty()).0 == s.skip(pos),
    decreases s.len() - pos,
{
    if pos < s.len() {
        if pos + 1 < s.len() && s[pos] == '$' && s[pos + 1] == '{' {
            lemma_close_bounds(s, pos + 2);
            if let Some(e) = close_from(s, pos + 2) {
                lemma_no_values_leave_the_text_as_it_is(s, e + 1);
                reveal_strlit("${");
                reveal_strlit("}");
                assert(s.skip(pos) =~= "${"@ + s.subrange(pos + 2, e) + "}"@ + s.skip(e + 1));
            }
        } else {
            lemma_no_values_leave_the_text_as_it_is(s, pos + 1);
            assert(s.skip(pos) =~= seq![s[pos]] + s.skip(pos + 1));
        }
    }
}

/// A placeholder is reported missing only when it is a name and the values
/// have nothing for it.
pub proof fn lemma_missing_names_have_no_value(s: Seq<char>, pos: int, vals: Seq<(String, String)>)
    ensures
        forall|k: int|
            0 <= k < render_from(s, pos, vals).1.len() ==> is_placeholder_name(
                #[trigger] render_from(s, pos, vals).1[k],
            ) && value_of(vals, render_from(s, pos, vals).1[k]) is None,
    decreases s.len() - pos,
{
    if 0 <= pos < s.len() {
        if pos + 1 < s.len() && s[pos] == '$' && s[pos + 1] == '{' {
            lemma_close_bounds(s, pos + 2);
            if let Some(e) = close_from(s, pos + 2) {
                lemma_missing_names_have_no_value(s, e + 1, vals);
                let rest = render_from(s, e + 1, vals);
                let name = s.subrange(pos + 2, e);
                assert forall|k: int|
                    0 <= k < render_from(s, pos, vals).1.len() implies is_placeholder_name(
                    #[trigger] render_from(s, pos, vals).1[k],
                ) && value_of(vals, render_from(s, pos, vals).1[k]) is None by {
                    if is_placeholder_name(name) && value_of(vals, name) is None {
                        assert(render_from(s, pos, vals).1 == seq![name] + rest.1);
                        if k > 0 {
                            assert(render_from(s, pos, vals).1[k] == rest.1[k - 1]);
                        }
                    } else {
                        assert(render_from(s, pos, vals).1 == rest.1);
                    }
                }
            }
        } else {
            lemma_missing_names_have_no_value(s, pos + 1, vals);
        }
    }
}

proof fn lemma_close_from(s: Seq<char>, k: int, e: int)
    requires
        0 <= k <= e < s.len(),
        s[e] == '}',
        forall|j: int| k <= j < e ==> s[j] != '}',
    ensures
        close_from(s, k) == Some(e),
    decreases e - k,
{
    if k < e {
        lemma_close_from(s, k + 1, e);
    }
}

proof fn lemma_no_close(s: Seq<char>, k: int)
    requires
        0 <= k,
        forall|j: int| k <= j < s.len() ==> s[j] != '}',
    ensures
        close_from(s, k) is None,
    decreases s.len() - k,
{
    if k < s.len() {
        lemma_no_close(s, k + 1);
    }
}

proof fn lemma_dedup_empty(names: Seq<Seq<char>>)
    ensures
        dedup(names).len() == 0 <==> names.len() == 0,
    decreases names.len(),
{
    if names.len() > 0 {
        lemma_dedup_empty(names.drop_last());
        let d = dedup(names.drop_last());
        if d.contains(names.last()) {
            assert(d.len() > 0);
        }
    }
}

fn contains_name(list: &Vec<Vec<char>>, name: &Vec<char>) -> (r: bool)
    ensures
        r == list@.map_values(|v: Vec<char>| v@).contains(name@),
{
    let ghost views = list@.map_values(|v: Vec<char>| v@);
    let mut i: usize = 0;
    while i < list.len()
        invariant
            i <= list@.len(),
            views == list@.map_values(|v: Vec<char>| v@),
            forall|j: int| 0 <= j < i ==> views[j] != name@,
        decreases list.len() - i,
    {
        if seq_eq(&list[i], name) {
            assert(views[i as int] == name@);
            return true;
        }
        i = i + 1;
    }
    false
}

/// Substitutes every `${NAME}` that has a value, leaving other shell
/// syntax (`$HOME`, `${SHELL##*/}`) as it stands. When some have none, the
/// error is their names, each once, in order of first appearance, so an
/// operator fixes their values file in one pass.
pub fn render(input: &str, values: &Values) -> (r: Result<String, Vec<String>>)
    ensures
        ({
            let (out, missing) = render_from(input@, 0, values@);
            &&& missing.len() == 0 ==> r is Ok && r->Ok_0@ == out
            &&& missing.len() > 0 ==> r is Err && r->Err_0@.map_values(|s: String| s@) == dedup(missing)
        }),
{
    let s = chars_of(input);
    let ghost vals = values@;
    let mut out: Vec<char> = Vec::new();
    let mut names: Vec<Vec<char>> = Vec::new();
    let mut pos: usize = 0;
    let mut done = false;
    while pos < s.len() && !done
        invariant
            pos <= s@.len(),
            s@ == input@,
            vals == values@,
            !done ==> render_from(s@, 0, vals) == (out@ + render_from(s@, pos as int, vals).0,
                names@.map_values(|v: Vec<char>| v@) + render_from(s@, pos as int, vals).1),
            done ==> render_from(s@, 0, vals) == (out@, names@.map_values(|v: Vec<char>| v@)),
        decreases s.len() - pos, if done { 0int } else { 1int },
    {
        let ghost names_before = names@.map_values(|v: Vec<char>| v@);
        let ghost out_before = out@;
        if pos + 1 < s.len() && s[pos] == '$' && s[pos + 1] == '{' {
            let mut e: usize = pos + 2;
            while e < s.len() && s[e] != '}'
                invariant
                    pos + 2 <= e <= s@.len(),
                    forall|j: int| pos + 2 <= j < e ==> s@[j] != '}',
                decreases s.len() - e,
            {
                e = e + 1;
            }
            if e == s.len() {
                proof {
                    lemma_no_close(s@, pos + 2);
                }
                let mut k = pos;
                while k < s.len()
                    invariant
                        pos <= k <= s@.len(),
                        out@ == out_before + s@.subrange(pos as int, k as int),
                    decreases s.len() - k,
                {
                    out.push(s[k]);
                    k = k + 1;
                    assert(out@ =~= out_before + s@.subrange(pos as int, k as int));
                }
                assert(s@.subrange(pos as int, s@.len() as int) == s@.skip(pos as int));
                assert(out@ =~= out_before + render_from(s@, pos as int, vals).0);
                assert(names_before =~= names_before + render_from(s@, pos as int, vals).1);
                done = true;
            } else {
                proof {
                    lemma_close_from(s@, pos + 2, e as int);
                }
                let name = crate::text::slice_vec(&s, pos + 2, e);
                let name_str = string_of(&name);
                if !is_placeholder_name_exec(&name) {
                    push_str(&mut out, "${");
                    push_all(&mut out, &name);
                    push_str(&mut out, "}");
                } else {
                    match values.get(name_str.as_str()) {
                        Some(v) => {
                            let vc = chars_of(v.as_str());
                            push_all(&mut out, &vc);
                        },
                        None => {
                            push_str(&mut out, "${");
                            push_all(&mut out, &name);
                            push_str(&mut out, "}");
                            names.push(name);
                            assert(names@.map_values(|v: Vec<char>| v@) =~= names_before.push(name@));
                        },
                    }
                }
                proof {
                    let rest = render_from(s@, e + 1, vals);
                    assert(names_before.push(name@) + rest.1 =~= names_before + (seq![name@] + rest.1));
                    assert(out@ + rest.0 =~= out_before + render_from(s@, pos as int, vals).0);
                }
                pos = e + 1;
            }
        } else {
            out.push(s[pos]);
            proof {
                let rest = render_from(s@, pos + 1, vals);
                assert(out@ + rest.0 =~= out_before + (seq![s@[pos as int]] + rest.0));
            }
            pos = pos + 1;
        }
    }
    proof {
        if !done {
            assert(render_from(s@, pos as int, vals) == (Seq::<char>::empty(), Seq::<Seq<char>>::empty()));
            assert(out@ + Seq::<char>::empty() == out@);
            assert(names@.map_values(|v: Vec<char>| v@) + Seq::<Seq<char>>::empty() == names@.map_values(|v: Vec<char>| v@));
        }
    }
    let ghost all = names@.map_values(|v: Vec<char>| v@);
    let mut missing: Vec<Vec<char>> = Vec::new();
    let mut i: usize = 0;
    while i < names.len()
        invariant
            i <= names@.len(),
            all == names@.map_values(|v: Vec<char>| v@),
            missing@.map_values(|v: Vec<char>| v@) == dedup(all.take(i as int)),
        decreases names.len() - i,
    {
        assert(all.take(i + 1).drop_last() == all.take(i as int));
        if !contains_name(&missing, &names[i]) {
            let n = names[i].clone();
            missing.push(n);
            assert(missing@.map_values(|v: Vec<char>| v@) =~= dedup(all.take(i as int)).push(all[i as int]));
        }
        i = i + 1;
    }
    assert(all.take(names@.len() as int) == all);
    proof {
        lemma_dedup_empty(all);
    }
    if missing.len() == 0 {
        return Ok(string_of(&out));
    }
    let mut strs: Vec<String> = Vec::new();
    let mut j: usize = 0;
    while j < missing.len()
        invariant
            j <= missing@.len(),
            strs@.len() == j,
            forall|k: int| 0 <= k < j ==> #[trigger] strs@[k]@ == missing@[k]@,
        decreases missing.len() - j,
    {
        let st = string_of(&missing[j]);
        strs.push(st);
        j = j + 1;
    }
    assert(strs@.map_values(|s: String| s@) =~= missing@.map_values(|v: Vec<char>| v@));
    Err(strs)
}

/// The sentence a failed render is reported with: the missing names and
/// where values can be set (`hint`, the values file's path).
pub fn unresolved_message(missing: &[String], hint: &str) -> (r: String)
    ensures
        r@ == "unresolved template variable(s): "@ + join(missing@.map_values(|s: String| s@), ", "@)
            + ". Set them in "@ + hint@ + " or in the environment"@,
{
    let mut out: Vec<char> = Vec::new();
    push_str(&mut out, "unresolved template variable(s): ");
    let joined = join_strings(missing, ", ");
    push_str(&mut out, joined.as_str());
    push_str(&mut out, ". Set them in ");
    push_str(&mut out, hint);
    push_str(&mut out, " or in the environment");
    assert(out@ =~= "unresolved template variable(s): "@ + join(missing@.map_values(|s: String| s@), ", "@)
        + ". Set them in "@ + hint@ + " or in the environment"@);
    string_of(&out)
}

} // verus!
