//! Where the `.ash` corpus lives, and the paths hanging off it.

use vstd::prelude::*;

use crate::harness::vendor::{commands_dir_spec, skills_dir_spec, Vendor};
use crate::path::{
    ancestors, ancestors_spec, file_name_of, join, join_path, parent_of, path_file_name, path_parent, relative_path, relative_to,
};
use crate::text::{chars_of, push_str, seq_eq, string_of};

verus! {

/// The directory, directly under a repository root, that holds the corpus.
pub const ASH_DIR: &'static str = ".ash";

/// Names the corpus root explicitly, overriding discovery.
pub const ROOT_ENV: &'static str = "PINST_ASH_DIR";

/// A repository root that holds an `.ash/` corpus.
#[derive(Debug)]
pub struct CorpusRoot {
    root: String,
}

impl View for CorpusRoot {
    type V = Seq<char>;

    closed spec fn view(&self) -> Seq<char> {
        self.root@
    }
}

pub open spec fn ash_dir_of(root: Seq<char>) -> Seq<char> {
    join(root, ".ash"@)
}

/// What the caller found at one candidate path: whether it is a directory,
/// and whether it holds an `.ash` directory.
#[derive(Debug)]
pub struct Located {
    pub path: String,
    pub is_dir: bool,
    pub holds_ash: bool,
}

/// The root a path names, taken either way round: the `.ash` directory
/// itself names its parent, a directory holding one names itself.
pub open spec fn at_spec(path: Seq<char>, is_dir: bool, holds_ash: bool) -> Option<Seq<char>> {
    if path_file_name(path) == Some(".ash"@) && is_dir {
        path_parent(path)
    } else if holds_ash {
        Some(path)
    } else {
        None
    }
}

/// The root discovery finds from `start`, given the answers for its ancestors.
pub open spec fn discovered(start: Seq<char>, holds: Seq<bool>, found: Option<Seq<char>>) -> bool {
    forall|chain: Seq<Seq<char>>| #[trigger] ancestors_spec(start, chain) ==>
        found == first_holding(chain, holds, chain.len() as int)
}

/// The first of the first `n` paths of `chain` that `holds` answers yes for.
pub open spec fn first_holding(chain: Seq<Seq<char>>, holds: Seq<bool>, n: int) -> Option<Seq<char>>
    decreases n,
{
    if n <= 0 {
        None
    } else {
        match first_holding(chain, holds, n - 1) {
            Some(p) => Some(p),
            None => if n - 1 < holds.len() && holds[n - 1] { Some(chain[n - 1]) } else { None },
        }
    }
}

proof fn lemma_first_holding_extends(chain: Seq<Seq<char>>, holds: Seq<bool>, a: int, b: int)
    requires
        a <= b,
        first_holding(chain, holds, a) is Some,
    ensures
        first_holding(chain, holds, b) == first_holding(chain, holds, a),
    decreases b - a,
{
    if a < b {
        lemma_first_holding_extends(chain, holds, a, b - 1);
    }
}

/// A path has one chain of ancestors.
proof fn lemma_ancestors_unique(p: Seq<char>, a: Seq<Seq<char>>, b: Seq<Seq<char>>)
    requires
        ancestors_spec(p, a),
        ancestors_spec(p, b),
    ensures
        a == b,
{
    assert forall|k: int| 0 <= k < a.len() && k < b.len() implies a[k] == b[k] by {
        lemma_ancestors_agree(p, a, b, k);
    }
    if a.len() < b.len() {
        lemma_ancestors_agree(p, a, b, a.len() - 1);
        assert(path_parent(b[a.len() - 1]) == Some(b[a.len() as int]));
    } else if b.len() < a.len() {
        lemma_ancestors_agree(p, a, b, b.len() - 1);
        assert(path_parent(a[b.len() - 1]) == Some(a[b.len() as int]));
    }
    assert(a =~= b);
}

proof fn lemma_ancestors_agree(p: Seq<char>, a: Seq<Seq<char>>, b: Seq<Seq<char>>, k: int)
    requires
        ancestors_spec(p, a),
        ancestors_spec(p, b),
        0 <= k < a.len(),
        k < b.len(),
    ensures
        a[k] == b[k],
    decreases k,
{
    if k > 0 {
        lemma_ancestors_agree(p, a, b, k - 1);
        assert(path_parent(a[k - 1]) == Some(a[k]));
        assert(path_parent(b[k - 1]) == Some(b[k]));
    }
}

impl CorpusRoot {
    pub fn new(root: &str) -> (r: CorpusRoot)
        ensures
            r@ == root@,
    {
        CorpusRoot { root: root.to_owned() }
    }

    pub fn path(&self) -> (r: &str)
        ensures
            r@ == self@,
    {
        self.root.as_str()
    }

    pub fn ash_dir(&self) -> (r: String)
        ensures
            r@ == ash_dir_of(self@),
    {
        join_path(self.root.as_str(), ASH_DIR)
    }

    pub fn plans_dir(&self) -> (r: String)
        ensures
            r@ == join(ash_dir_of(self@), "plans"@),
    {
        join_path(self.ash_dir().as_str(), "plans")
    }

    pub fn index_file(&self) -> (r: String)
        ensures
            r@ == join(ash_dir_of(self@), "INDEX.md"@),
    {
        join_path(self.ash_dir().as_str(), "INDEX.md")
    }

    pub fn changelog_file(&self) -> (r: String)
        ensures
            r@ == join(ash_dir_of(self@), "CHANGELOG.log"@),
    {
        join_path(self.ash_dir().as_str(), "CHANGELOG.log")
    }

    pub fn learnings_file(&self) -> (r: String)
        ensures
            r@ == join(ash_dir_of(self@), "LEARNINGS.md"@),
    {
        join_path(self.ash_dir().as_str(), "LEARNINGS.md")
    }

    /// The canonical, vendor-neutral skills.
    pub fn skills_dir(&self) -> (r: String)
        ensures
            r@ == join(self@, ".agents/skills"@),
    {
        join_path(self.root.as_str(), ".agents/skills")
    }

    /// The corpus a path names, taken either way round: the repo root, or
    /// the `.ash` directory itself. `is_dir` says whether `path` is a
    /// directory, `holds_ash` whether it holds an `.ash` directory.
    pub fn at(path: &str, is_dir: bool, holds_ash: bool) -> (r: Option<CorpusRoot>)
        ensures
            match r {
                Some(c) => at_spec(path@, is_dir, holds_ash) == Some(c@),
                None => at_spec(path@, is_dir, holds_ash) is None,
            },
    {
        let is_ash = match file_name_of(path) {
            Some(name) => seq_eq(&chars_of(name.as_str()), &chars_of(".ash")),
            None => false,
        };
        if is_ash && is_dir {
            return match parent_of(path) {
                Some(p) => Some(CorpusRoot::new(p.as_str())),
                None => None,
            };
        }
        if holds_ash {
            Some(CorpusRoot::new(path))
        } else {
            None
        }
    }

    /// An explicit path, then the value of `PINST_ASH_DIR`, then a walk up
    /// from the working directory `cwd` (`cwd_holds` as for [`Self::discover`]).
    /// The error names the path it looked at.
    pub fn resolve(explicit: Option<&Located>, env_value: Option<&Located>, cwd: &str, cwd_holds: &[bool]) -> (r: Result<CorpusRoot, String>)
        ensures
            match explicit {
                Some(l) => match r {
                    Ok(c) => at_spec(l.path@, l.is_dir, l.holds_ash) == Some(c@),
                    Err(e) => at_spec(l.path@, l.is_dir, l.holds_ash) is None
                        && e@ == "no .ash/ at or below "@ + l.path@,
                },
                None => match env_value {
                    Some(l) => match r {
                        Ok(c) => at_spec(l.path@, l.is_dir, l.holds_ash) == Some(c@),
                        Err(e) => at_spec(l.path@, l.is_dir, l.holds_ash) is None
                            && e@ == "PINST_ASH_DIR points at "@ + l.path@ + ", which has no .ash/"@,
                    },
                    None => match r {
                        Ok(c) => discovered(cwd@, cwd_holds@, Some(c@)),
                        Err(e) => discovered(cwd@, cwd_holds@, None)
                            && e@ == "no .ash/ in "@ + cwd@ + " or any parent directory"@,
                    },
                },
            },
    {
        if let Some(l) = explicit {
            return match CorpusRoot::at(l.path.as_str(), l.is_dir, l.holds_ash) {
                Some(c) => Ok(c),
                None => {
                    let mut m: Vec<char> = Vec::new();
                    push_str(&mut m, "no .ash/ at or below ");
                    push_str(&mut m, l.path.as_str());
                    Err(string_of(&m))
                }
            };
        }
        if let Some(l) = env_value {
            return match CorpusRoot::at(l.path.as_str(), l.is_dir, l.holds_ash) {
                Some(c) => Ok(c),
                None => {
                    let mut m: Vec<char> = Vec::new();
                    push_str(&mut m, "PINST_ASH_DIR points at ");
                    push_str(&mut m, l.path.as_str());
                    push_str(&mut m, ", which has no .ash/");
                    Err(string_of(&m))
                }
            };
        }
        match CorpusRoot::discover(cwd, cwd_holds) {
            Some(c) => Ok(c),
            None => {
                let mut m: Vec<char> = Vec::new();
                push_str(&mut m, "no .ash/ in ");
                push_str(&mut m, cwd);
                push_str(&mut m, " or any parent directory");
                Err(string_of(&m))
            }
        }
    }

    /// Where the runtime `vendor` is wired to read the skills.
    pub fn wired_dir(&self, vendor: &Vendor) -> (r: String)
        ensures
            r@ == skills_dir_spec(vendor.label@, self@),
    {
        vendor.skills_dir(self.root.as_str())
    }

    /// Where the runtime `vendor` reads commands.
    pub fn commands_dir(&self, vendor: &Vendor) -> (r: String)
        ensures
            r@ == commands_dir_spec(vendor.label@, self@),
    {
        vendor.commands_dir(self.root.as_str())
    }

    /// The first ancestor of `start`, `start` itself included, that holds an
    /// `.ash` directory. `holds_ash[i]` is the caller's answer for the `i`th
    /// of [`ancestors`]`(start)`; an ancestor with no answer does not hold one.
    pub fn discover(start: &str, holds_ash: &[bool]) -> (r: Option<CorpusRoot>)
        ensures
            forall|chain: Seq<Seq<char>>| #[trigger] ancestors_spec(start@, chain) ==> match r {
                Some(c) => first_holding(chain, holds_ash@, chain.len() as int) == Some(c@),
                None => first_holding(chain, holds_ash@, chain.len() as int) is None,
            },
    {
        let chain = ancestors(start);
        let ghost cv = chain@.map_values(|s: String| s@);
        let mut i: usize = 0;
        while i < chain.len()
            invariant
                i <= chain@.len(),
                cv == chain@.map_values(|s: String| s@),
                ancestors_spec(start@, cv),
                first_holding(cv, holds_ash@, i as int) is None,
            decreases chain.len() - i,
        {
            if i < holds_ash.len() && holds_ash[i] {
                let found = CorpusRoot::new(chain[i].as_str());
                proof {
                    assert(first_holding(cv, holds_ash@, i + 1) == Some(cv[i as int]));
                    lemma_first_holding_extends(cv, holds_ash@, i + 1, cv.len() as int);
                    assert forall|other: Seq<Seq<char>>| #[trigger] ancestors_spec(start@, other) implies other == cv by {
                        lemma_ancestors_unique(start@, other, cv);
                    }
                }
                return Some(found);
            }
            i = i + 1;
        }
        proof {
            assert forall|other: Seq<Seq<char>>| #[trigger] ancestors_spec(start@, other) implies other == cv by {
                lemma_ancestors_unique(start@, other, cv);
            }
        }
        None
    }

    /// `path` relative to the root, for display; unchanged when outside it.
    pub fn relative(&self, path: &str) -> (r: String)
        ensures
            r@ == relative_to(path@, self@),
    {
        relative_path(path, self.root.as_str())
    }
}

} // verus!
