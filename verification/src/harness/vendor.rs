//! The one table naming where an agent runtime looks for skills and
//! commands.
//!
//! A runtime keeps both under a dot-directory named after it, at the root of
//! a scope — the same layout for a project root and for `$HOME`, which is
//! why the directories take a root rather than a scope. The runtimes an
//! installation knows are handed in by the caller as a list; nothing else in
//! the library spells a runtime's directory itself.

use vstd::prelude::*;

use crate::path::{join, join_path};
use crate::text::{chars_of, push_str, seq_eq, string_of};

verus! {

/// One agent runtime, named by its label.
#[derive(Debug, Clone)]
pub struct Vendor {
    pub label: String,
}

/// The runtime's directory at the root of a scope: its label behind a dot.
pub open spec fn root_name_spec(label: Seq<char>) -> Seq<char> {
    "."@ + label
}

/// Where the runtime reads skills under `root`.
pub open spec fn skills_dir_spec(label: Seq<char>, root: Seq<char>) -> Seq<char> {
    join(join(root, root_name_spec(label)), "skills"@)
}

/// Where the runtime reads commands under `root`.
pub open spec fn commands_dir_spec(label: Seq<char>, root: Seq<char>) -> Seq<char> {
    join(join(root, root_name_spec(label)), "commands"@)
}

/// The index of the first runtime in `known` labelled `name`.
pub open spec fn find_label(known: Seq<Vendor>, name: Seq<char>, n: int) -> Option<int>
    decreases n,
{
    if n <= 0 {
        None
    } else {
        match find_label(known, name, n - 1) {
            Some(i) => Some(i),
            None => if known[n - 1].label@ == name { Some(n - 1) } else { None },
        }
    }
}

proof fn lemma_find_label_bounds(known: Seq<Vendor>, name: Seq<char>, n: int)
    ensures
        find_label(known, name, n) matches Some(i) ==> 0 <= i < n && known[i].label@ == name,
        find_label(known, name, n) is None ==> forall|j: int| 0 <= j < n ==> #[trigger] known[j].label@ != name,
    decreases n,
{
    if n > 0 {
        lemma_find_label_bounds(known, name, n - 1);
    }
}

impl Vendor {
    pub fn label(&self) -> (r: &str)
        ensures
            r@ == self.label@,
    {
        self.label.as_str()
    }

    /// `.<label>`, the directory both the skills and the commands live in.
    pub fn root_name(&self) -> (r: String)
        ensures
            r@ == root_name_spec(self.label@),
    {
        let mut out: Vec<char> = Vec::new();
        push_str(&mut out, ".");
        push_str(&mut out, self.label.as_str());
        string_of(&out)
    }

    pub fn skills_dir(&self, root: &str) -> (r: String)
        ensures
            r@ == skills_dir_spec(self.label@, root@),
    {
        let dir = join_path(root, self.root_name().as_str());
        join_path(dir.as_str(), "skills")
    }

    pub fn commands_dir(&self, root: &str) -> (r: String)
        ensures
            r@ == commands_dir_spec(self.label@, root@),
    {
        let dir = join_path(root, self.root_name().as_str());
        join_path(dir.as_str(), "commands")
    }

    /// The runtime in `known` labelled `name`: the first such, or `None`.
    pub fn parse(name: &str, known: &[Vendor]) -> (r: Option<Vendor>)
        ensures
            match find_label(known@, name@, known@.len() as int) {
                Some(i) => r is Some && r->0.label@ == known@[i].label@,
                None => r is None,
            },
    {
        let wanted = chars_of(name);
        let mut k: usize = 0;
        while k < known.len()
            invariant
                k <= known@.len(),
                wanted@ == name@,
                find_label(known@, name@, k as int) is None,
            decreases known.len() - k,
        {
            let have = chars_of(known[k].label.as_str());
            if seq_eq(&have, &wanted) {
                let found = Vendor { label: string_of(&have) };
                assert(find_label(known@, name@, k + 1) == Some(k as int));
                proof {
                    lemma_find_label_extends(known@, name@, k + 1, known@.len() as int);
                }
                return Some(found);
            }
            k = k + 1;
        }
        None
    }
}

proof fn lemma_find_label_extends(known: Seq<Vendor>, name: Seq<char>, a: int, b: int)
    requires
        a <= b,
        find_label(known, name, a) is Some,
    ensures
        find_label(known, name, b) == find_label(known, name, a),
    decreases b - a,
{
    if a < b {
        lemma_find_label_extends(known, name, a, b - 1);
    }
}

/// Parsing a runtime's label gives that runtime back, whenever no two known
/// runtimes share a label.
pub proof fn lemma_parse_round_trips_the_label(known: Seq<Vendor>, i: int)
    requires
        0 <= i < known.len(),
        forall|a: int, b: int| 0 <= a < b < known.len() ==> known[a].label@ != known[b].label@,
    ensures
        find_label(known, known[i].label@, known.len() as int) == Some(i),
{
    let name = known[i].label@;
    lemma_find_label_bounds(known, name, known.len() as int);
    lemma_find_label_bounds(known, name, i);
    assert(find_label(known, name, i) is None) by {
        if find_label(known, name, i) is Some {
            let j = find_label(known, name, i)->0;
            assert(known[j].label@ == name);
        }
    }
    assert(find_label(known, name, i + 1) == Some(i));
    lemma_find_label_extends(known, name, i + 1, known.len() as int);
}

} // verus!
