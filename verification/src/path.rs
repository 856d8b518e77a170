//! Paths as the text they display as, with the two operations the library
//! needs: joining a relative part on, and taking a path relative to a base.
//!
//! Separators are `/`. A base with a trailing separator is joined without
//! doubling it; an absolute part replaces the base, as `Path::join` does.

use vstd::prelude::*;
use vstd::relations::{sorted_by, total_ordering};

use crate::text::{chars_of, push_all, string_of};

verus! {

/// `base` joined with `part`.
pub open spec fn join(base: Seq<char>, part: Seq<char>) -> Seq<char> {
    if part.len() > 0 && part[0] == '/' {
        part
    } else if base.len() == 0 {
        part
    } else if base.last() == '/' {
        base + part
    } else {
        base + seq!['/'] + part
    }
}

/// What `Path::strip_prefix` gives for `path` and `base`: the rest of
/// `path` after the components of `base`, or `None` when `path` does not
/// begin with them.
pub uninterp spec fn path_strip_prefix(path: Seq<char>, base: Seq<char>) -> Option<Seq<char>>;

/// `path` relative to `base`, component by component, as `Path` takes it.
pub open spec fn strip_prefix(path: Seq<char>, base: Seq<char>) -> Option<Seq<char>> {
    path_strip_prefix(path, base)
}

/// `path` relative to `base` when it lies under it, else `path` unchanged.
pub open spec fn relative_to(path: Seq<char>, base: Seq<char>) -> Seq<char> {
    match strip_prefix(path, base) {
        Some(rest) => rest,
        None => path,
    }
}

/// `base` joined with `part`.
pub fn join_path(base: &str, part: &str) -> (r: String)
    ensures
        r@ == join(base@, part@),
{
    let b = chars_of(base);
    let p = chars_of(part);
    if p.len() > 0 && p[0] == '/' {
        return part.to_owned();
    }
    if b.len() == 0 {
        return part.to_owned();
    }
    let mut out = b.clone();
    if b[b.len() - 1] != '/' {
        out.push('/');
    }
    push_all(&mut out, &p);
    assert(out@ =~= join(base@, part@));
    string_of(&out)
}

/// `std::path::Path::strip_prefix`, whose result is [`path_strip_prefix`]
/// of the two paths.
#[verifier::external_body]
pub(crate) fn strip_prefix_exec(path: &str, base: &str) -> (r: Option<String>)
    ensures
        match path_strip_prefix(path@, base@) {
            Some(rest) => r is Some && r->0@ == rest,
            None => r is None,
        },
{
    std::path::Path::new(path).strip_prefix(base).ok().map(|q| q.to_string_lossy().into_owned())
}

/// `path` relative to `base` when it lies under it, else `path` unchanged.
pub fn relative_path(path: &str, base: &str) -> (r: String)
    ensures
        r@ == relative_to(path@, base@),
{
    match strip_prefix_exec(path, base) {
        Some(rest) => rest,
        None => path.to_owned(),
    }
}

/// What `Path::file_name` gives for `path`: its final component, or `None`
/// when the path ends in `..` or is a root or empty.
pub uninterp spec fn path_file_name(path: Seq<char>) -> Option<Seq<char>>;

/// `std::path::Path::file_name`, whose result is [`path_file_name`] of the
/// argument.
#[verifier::external_body]
pub(crate) fn file_name_of(path: &str) -> (r: Option<String>)
    ensures
        match r {
            Some(q) => path_file_name(path@) == Some(q@),
            None => path_file_name(path@) is None,
        },
{
    std::path::Path::new(path).file_name().map(|q| q.to_string_lossy().into_owned())
}

/// What `Path::parent` gives for `path`: the path without its final
/// component, or `None` for a root, a prefix or the empty path.
pub uninterp spec fn path_parent(path: Seq<char>) -> Option<Seq<char>>;

/// `std::path::Path::parent`. Its result is [`path_parent`] of the argument;
/// the documentation says it drops the final component, so a parent is
/// shorter than the path, and that the empty path has none.
#[verifier::external_body]
pub(crate) fn parent_of(path: &str) -> (r: Option<String>)
    ensures
        match r {
            Some(q) => path_parent(path@) == Some(q@),
            None => path_parent(path@) is None,
        },
        r matches Some(q) ==> q@.len() < path@.len(),
        path@.len() == 0 ==> r is None,
{
    std::path::Path::new(path).parent().map(|q| q.to_string_lossy().into_owned())
}

/// `path`, then its parent, then that one's, up to the last that has none:
/// what `Path::ancestors` walks.
pub open spec fn ancestors_spec(path: Seq<char>, chain: Seq<Seq<char>>) -> bool {
    &&& chain.len() >= 1
    &&& chain[0] == path
    &&& forall|i: int| 0 <= i < chain.len() - 1 ==> path_parent(#[trigger] chain[i]) == Some(chain[i + 1])
    &&& path_parent(chain.last()) is None
}

/// Every ancestor of `start`, `start` itself first.
pub fn ancestors(start: &str) -> (r: Vec<String>)
    ensures
        ancestors_spec(start@, r@.map_values(|s: String| s@)),
{
    let mut out: Vec<String> = Vec::new();
    out.push(start.to_owned());
    let mut cur: String = start.to_owned();
    loop
        invariant
            out@.len() >= 1,
            out@[0]@ == start@,
            out@.last()@ == cur@,
            forall|i: int| 0 <= i < out@.len() - 1 ==> path_parent(#[trigger] out@[i]@) == Some(out@[i + 1]@),
        decreases cur@.len(),
    {
        match parent_of(cur.as_str()) {
            Some(p) => {
                let ghost before = out@;
                out.push(p.clone());
                assert(out@[before.len() - 1]@ == cur@);
                cur = p;
            }
            None => {
                let ghost chain = out@.map_values(|s: String| s@);
                assert(chain.last() == cur@);
                assert forall|i: int| 0 <= i < chain.len() - 1 implies path_parent(#[trigger] chain[i]) == Some(chain[i + 1]) by {
                    assert(chain[i] == out@[i]@);
                }
                return out;
            }
        }
    }
}

// --- ordering paths the way `Path`'s `Ord` does ------------------------------

/// `x` before `y` in path order: the separator before everything else, so
/// that paths compare component by component; otherwise by code point.
pub open spec fn path_char_lt(x: char, y: char) -> bool {
    if x == '/' {
        y != '/'
    } else if y == '/' {
        false
    } else {
        (x as int) < (y as int)
    }
}

/// `a < b` in path order: character by character with the separator
/// first, a proper prefix first. For paths without empty components this
/// is the order of their components.
pub open spec fn path_lt(a: Seq<char>, b: Seq<char>) -> bool
    decreases a.len(),
{
    if b.len() == 0 {
        false
    } else if a.len() == 0 {
        true
    } else if a[0] != b[0] {
        path_char_lt(a[0], b[0])
    } else {
        path_lt(a.drop_first(), b.drop_first())
    }
}

/// `a <= b` in path order.
pub open spec fn path_le(a: Seq<char>, b: Seq<char>) -> bool {
    !path_lt(b, a)
}

proof fn lemma_path_irreflexive(a: Seq<char>)
    ensures
        !path_lt(a, a),
    decreases a.len(),
{
    if a.len() > 0 {
        lemma_path_irreflexive(a.drop_first());
    }
}

proof fn lemma_path_transitive(a: Seq<char>, b: Seq<char>, c: Seq<char>)
    requires
        path_lt(a, b),
        path_lt(b, c),
    ensures
        path_lt(a, c),
    decreases a.len(),
{
    if a.len() > 0 && b.len() > 0 && c.len() > 0 && a[0] == b[0] && b[0] == c[0] {
        lemma_path_transitive(a.drop_first(), b.drop_first(), c.drop_first());
    }
}

proof fn lemma_path_total(a: Seq<char>, b: Seq<char>)
    requires
        a != b,
    ensures
        path_lt(a, b) || path_lt(b, a),
    decreases a.len(),
{
    if a.len() > 0 && b.len() > 0 && a[0] == b[0] {
        if a.drop_first() == b.drop_first() {
            assert(a =~= seq![a[0]] + a.drop_first());
            assert(b =~= seq![b[0]] + b.drop_first());
        }
        lemma_path_total(a.drop_first(), b.drop_first());
    } else if a.len() == 0 && b.len() == 0 {
        assert(a =~= b);
    } else if a.len() > 0 && b.len() > 0 {
        assert((a[0] as int) != (b[0] as int));
    }
}

/// Path order is a total order.
pub proof fn lemma_path_le_total_ordering()
    ensures
        total_ordering(|a: Seq<char>, b: Seq<char>| path_le(a, b)),
{
    let le = |a: Seq<char>, b: Seq<char>| path_le(a, b);
    assert forall|a: Seq<char>| #[trigger] le(a, a) by {
        lemma_path_irreflexive(a);
    }
    assert forall|a: Seq<char>, b: Seq<char>| #[trigger] le(a, b) && #[trigger] le(b, a) implies a == b by {
        if a != b {
            lemma_path_total(a, b);
        }
    }
    assert forall|a: Seq<char>, b: Seq<char>, c: Seq<char>| #[trigger] le(a, b) && #[trigger] le(b, c) implies le(a, c) by {
        if path_lt(c, a) {
            if a == b {
            } else {
                lemma_path_total(a, b);
                lemma_path_transitive(c, a, b);
            }
        }
    }
    assert forall|a: Seq<char>, b: Seq<char>| #[trigger] le(a, b) || #[trigger] le(b, a) by {
        if path_lt(b, a) && path_lt(a, b) {
            lemma_path_transitive(a, b, a);
            lemma_path_irreflexive(a);
        }
    }
}

/// `a < b` in path order.
pub fn path_less(a: &[char], b: &[char]) -> (r: bool)
    ensures
        r == path_lt(a@, b@),
{
    let mut i: usize = 0;
    assert(a@.skip(0) =~= a@);
    assert(b@.skip(0) =~= b@);
    while i < a.len() && i < b.len() && a[i] == b[i]
        invariant
            i <= a@.len(),
            i <= b@.len(),
            path_lt(a@, b@) == path_lt(a@.skip(i as int), b@.skip(i as int)),
        decreases a.len() - i,
    {
        assert(a@.skip(i as int).drop_first() =~= a@.skip(i + 1));
        assert(b@.skip(i as int).drop_first() =~= b@.skip(i + 1));
        i = i + 1;
    }
    if i == b.len() {
        false
    } else if i == a.len() {
        true
    } else if a[i] == '/' {
        assert(a@.skip(i as int)[0] == a@[i as int] && b@.skip(i as int)[0] == b@[i as int]);
        true
    } else if b[i] == '/' {
        assert(a@.skip(i as int)[0] == a@[i as int] && b@.skip(i as int)[0] == b@[i as int]);
        false
    } else {
        assert(a@.skip(i as int)[0] == a@[i as int] && b@.skip(i as int)[0] == b@[i as int]);
        a[i] < b[i]
    }
}

/// `paths` in path order, as `sort` orders a list of paths.
pub fn sort_paths(paths: Vec<String>) -> (r: Vec<String>)
    ensures
        r@.map_values(|s: String| s@) == paths@.map_values(|s: String| s@).sort_by(
            |a: Seq<char>, b: Seq<char>| path_le(a, b),
        ),
{
    let ghost le = |a: Seq<char>, b: Seq<char>| path_le(a, b);
    let ghost pv = paths@.map_values(|s: String| s@);
    let mut out: Vec<String> = Vec::new();
    let mut i: usize = 0;
    assert(out@.map_values(|s: String| s@) =~= Seq::<Seq<char>>::empty());
    assert(pv.take(0) =~= Seq::<Seq<char>>::empty());
    while i < paths.len()
        invariant
            i <= paths@.len(),
            pv == paths@.map_values(|s: String| s@),
            pv.len() == paths@.len(),
            le == (|a: Seq<char>, b: Seq<char>| path_le(a, b)),
            sorted_by(out@.map_values(|s: String| s@), le),
            out@.map_values(|s: String| s@).to_multiset() == pv.take(i as int).to_multiset(),
        decreases paths.len() - i,
    {
        let x = chars_of(paths[i].as_str());
        let mut j: usize = 0;
        while j < out.len() && !path_less(&x, &chars_of(out[j].as_str()))
            invariant
                j <= out@.len(),
                i < pv.len(),
                x@ == pv[i as int],
                forall|k: int| 0 <= k < j ==> !path_lt(x@, #[trigger] out@[k]@),
            decreases out.len() - j,
        {
            j = j + 1;
        }
        let ghost ov = out@.map_values(|s: String| s@);
        proof {
            lemma_path_le_total_ordering();
        }
        out.insert(j, string_of(&x));
        let ghost nv = out@.map_values(|s: String| s@);
        proof {
            assert(nv =~= ov.insert(j as int, x@));
            vstd::seq_lib::to_multiset_insert(ov, j as int, x@);
            assert(pv.take(i + 1) =~= pv.take(i as int).push(x@));
            vstd::seq_lib::to_multiset_build(pv.take(i as int), x@);
            assert forall|a: int, b: int| 0 <= a < b < nv.len() implies #[trigger] le(nv[a], nv[b]) by {
                if b < j {
                    assert(nv[a] == ov[a] && nv[b] == ov[b]);
                } else if b == j {
                    assert(nv[a] == ov[a]);
                    assert(!path_lt(x@, ov[a]));
                } else if a == j {
                    assert(nv[b] == ov[b - 1]);
                    if b - 1 == j {
                        assert(path_lt(x@, ov[j as int]));
                        lemma_path_irreflexive(x@);
                        if path_lt(ov[j as int], x@) {
                            lemma_path_transitive(x@, ov[j as int], x@);
                        }
                    } else {
                        assert(le(ov[j as int], ov[b - 1]));
                        assert(path_lt(x@, ov[j as int]));
                        if path_lt(ov[b - 1], x@) {
                            if ov[b - 1] == ov[j as int] {
                                lemma_path_transitive(x@, ov[j as int], x@);
                                lemma_path_irreflexive(x@);
                            } else {
                                lemma_path_total(ov[b - 1], ov[j as int]);
                                if path_lt(ov[j as int], ov[b - 1]) {
                                    lemma_path_transitive(ov[j as int], ov[b - 1], x@);
                                    lemma_path_transitive(x@, ov[j as int], x@);
                                    lemma_path_irreflexive(x@);
                                }
                            }
                        }
                    }
                } else if a < j {
                    assert(nv[a] == ov[a] && nv[b] == ov[b - 1]);
                } else {
                    assert(nv[a] == ov[a - 1] && nv[b] == ov[b - 1]);
                }
            }
        }
        i = i + 1;
    }
    proof {
        assert(pv.take(paths@.len() as int) =~= pv);
        lemma_path_le_total_ordering();
        pv.lemma_sort_by_ensures(le);
        vstd::seq_lib::lemma_sorted_unique(out@.map_values(|s: String| s@), pv.sort_by(le), le);
    }
    out
}

} // verus!
