//! Where a set of bundled files is read from: a checkout's source tree, or
//! the copy embedded in the binary.
//!
//! A tree counts only when it is a checkout: a `manifest.toml` beside the
//! subdirectory. The caller probes the disk; the rules are here.

use vstd::prelude::*;

use crate::path::{ancestors, ancestors_spec, join, join_path};
use crate::text::{ends_with, ends_with_exec, chars_of, push_str, string_of};

verus! {

pub enum Source {
    /// A directory on disk, absolute.
    Tree(String),
    Embedded,
}

pub open spec fn describe_spec(s: Source) -> Seq<char> {
    match s {
        Source::Tree(p) => "source tree ("@ + p@ + ")"@,
        Source::Embedded => "embedded in binary"@,
    }
}

/// `path` ends with the components of `subdir`.
pub open spec fn ends_with_components(path: Seq<char>, subdir: Seq<char>) -> bool {
    path == subdir || ends_with(path, seq!['/'] + subdir)
}

/// Where an override names the tree: the path itself when it already ends
/// with the subdirectory, else the subdirectory under it.
pub open spec fn override_candidate(path: Seq<char>, subdir: Seq<char>) -> Seq<char> {
    if ends_with_components(path, subdir) {
        path
    } else {
        join(path, subdir)
    }
}

impl Source {
    pub fn describe(&self) -> (r: String)
        ensures
            r@ == describe_spec(*self),
    {
        match self {
            Source::Tree(path) => {
                let mut out: Vec<char> = Vec::new();
                push_str(&mut out, "source tree (");
                push_str(&mut out, path.as_str());
                push_str(&mut out, ")");
                assert(out@ =~= describe_spec(*self));
                string_of(&out)
            },
            Source::Embedded => "embedded in binary".to_owned(),
        }
    }

    pub fn is_tree(&self) -> (r: bool)
        ensures
            r == (self is Tree),
    {
        match self {
            Source::Tree(_) => true,
            Source::Embedded => false,
        }
    }
}

/// The directory an override pointing at `path` names for `subdir`.
pub fn candidate(path: &str, subdir: &str) -> (r: String)
    ensures
        r@ == override_candidate(path@, subdir@),
{
    let p = chars_of(path);
    let s = chars_of(subdir);
    if crate::text::seq_eq(&p, &s) {
        return path.to_owned();
    }
    let mut tail: Vec<char> = Vec::new();
    tail.push('/');
    crate::text::push_all(&mut tail, &s);
    assert(tail@ =~= seq!['/'] + subdir@);
    if ends_with_exec(&p, &tail) {
        return path.to_owned();
    }
    join_path(path, subdir)
}

/// What the caller found at one candidate checkout root: whether a
/// `manifest.toml` file is there, and the subdirectory under it made
/// absolute, when it is a directory.
#[derive(Debug)]
pub struct Checkout {
    pub has_manifest: bool,
    pub subdir_tree: Option<String>,
}

/// The tree a candidate root yields: its subdirectory, only when the root
/// is this project's checkout.
pub open spec fn checkout_tree_spec(c: Checkout) -> Option<Seq<char>> {
    if c.has_manifest {
        match c.subdir_tree {
            Some(t) => Some(t@),
            None => None,
        }
    } else {
        None
    }
}

/// The first tree among the first `n` candidate roots.
pub open spec fn first_tree(cs: Seq<Checkout>, n: int) -> Option<Seq<char>>
    decreases n,
{
    if n <= 0 {
        None
    } else {
        match first_tree(cs, n - 1) {
            Some(t) => Some(t),
            None => checkout_tree_spec(cs[n - 1]),
        }
    }
}

/// The text an optional string holds.
pub open spec fn opt_view(o: Option<String>) -> Option<Seq<char>> {
    match o {
        Some(s) => Some(s@),
        None => None,
    }
}

/// Where a tree is read from: the override when it named a directory, else
/// the first checkout among the candidate roots, else the embedded copy.
pub open spec fn resolve_spec(override_tree: Option<Seq<char>>, cs: Seq<Checkout>) -> Option<Seq<char>> {
    match override_tree {
        Some(t) => Some(t),
        None => first_tree(cs, cs.len() as int),
    }
}

proof fn lemma_first_tree_extends(cs: Seq<Checkout>, a: int, b: int)
    requires
        a <= b,
        first_tree(cs, a) is Some,
    ensures
        first_tree(cs, b) == first_tree(cs, a),
    decreases b - a,
{
    if a < b {
        lemma_first_tree_extends(cs, a, b - 1);
    }
}

/// Resolves where a tree is read from. `override_tree` is the override's
/// [`candidate`] made absolute, when the variable was set and that is a
/// directory; `checkouts` are the caller's findings at [`checkout_roots`],
/// in that order.
pub fn resolve(override_tree: Option<String>, checkouts: &[Checkout]) -> (r: Source)
    ensures
        match resolve_spec(opt_view(override_tree), checkouts@) {
            Some(t) => r matches Source::Tree(p) && p@ == t,
            None => r is Embedded,
        },
{
    if override_tree.is_some() {
        return Source::Tree(override_tree.unwrap());
    }
    let mut i: usize = 0;
    while i < checkouts.len()
        invariant
            i <= checkouts@.len(),
            override_tree is None,
            first_tree(checkouts@, i as int) is None,
        decreases checkouts.len() - i,
    {
        let c = &checkouts[i];
        if c.has_manifest {
            if let Some(t) = &c.subdir_tree {
                proof {
                    assert(first_tree(checkouts@, i + 1) == Some(t@));
                    lemma_first_tree_extends(checkouts@, i + 1, checkouts@.len() as int);
                }
                return Source::Tree(t.as_str().to_owned());
            }
        }
        i = i + 1;
    }
    Source::Embedded
}

/// The roots a checkout is looked for at: the working directory, then the
/// four directories above the running binary `exe`.
pub open spec fn checkout_roots_spec(exe: Option<Seq<char>>, chain: Seq<Seq<char>>, roots: Seq<Seq<char>>) -> bool {
    &&& roots.len() >= 1
    &&& roots[0] == "."@
    &&& match exe {
        None => roots.len() == 1,
        Some(_) => {
            &&& roots.len() == 1 + if chain.len() - 1 < 4 { chain.len() - 1 } else { 4 }
            &&& forall|i: int| 1 <= i < roots.len() ==> #[trigger] roots[i] == chain[i]
        },
    }
}

pub fn checkout_roots(exe: Option<&str>) -> (r: Vec<String>)
    ensures
        match exe {
            None => checkout_roots_spec(None, Seq::empty(), r@.map_values(|s: String| s@)),
            Some(e) => exists|chain: Seq<Seq<char>>| ancestors_spec(e@, chain)
                && checkout_roots_spec(Some(e@), chain, r@.map_values(|s: String| s@)),
        },
{
    let mut out: Vec<String> = Vec::new();
    out.push(".".to_owned());
    proof {
        reveal_strlit(".");
    }
    match exe {
        None => {
            assert(out@.map_values(|s: String| s@) =~= seq!["."@]);
            out
        }
        Some(e) => {
            let chain = ancestors(e);
            let ghost cv = chain@.map_values(|s: String| s@);
            let n: usize = if chain.len() - 1 < 4 { chain.len() - 1 } else { 4 };
            let mut i: usize = 1;
            while i <= n
                invariant
                    1 <= i <= n + 1,
                    n <= 4,
                    n < chain@.len(),
                    out@.len() == i,
                    out@[0]@ == "."@,
                    forall|k: int| 1 <= k < i ==> #[trigger] out@[k]@ == cv[k],
                    cv == chain@.map_values(|s: String| s@),
                decreases n + 1 - i,
            {
                out.push(chain[i].clone());
                i = i + 1;
            }
            proof {
                let rv = out@.map_values(|s: String| s@);
                assert forall|k: int| 1 <= k < rv.len() implies #[trigger] rv[k] == cv[k] by {
                    assert(rv[k] == out@[k]@);
                }
                assert(rv[0] == "."@);
                assert(checkout_roots_spec(Some(e@), cv, rv));
            }
            out
        }
    }
}

} // verus!
