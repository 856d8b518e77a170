//! Which repository a project-scoped install lands in.
//!
//! Precedence: an explicit root, then the nearest ancestor holding `.ash/`,
//! then the git top level, then the working directory itself. The caller
//! looks on disk and asks git; the choice among the answers is made here.

use vstd::prelude::*;

verus! {

/// The root of a project install.
#[derive(Debug)]
pub struct InstallRoot {
    root: String,
}

impl View for InstallRoot {
    type V = Seq<char>;

    closed spec fn view(&self) -> Seq<char> {
        self.root@
    }
}

/// The root chosen from, in order of precedence, an explicit path, the
/// nearest ancestor holding `.ash/`, the git top level, and the working
/// directory.
pub open spec fn chosen_root(
    explicit: Option<Seq<char>>,
    ash: Option<Seq<char>>,
    git_top: Option<Seq<char>>,
    cwd: Seq<char>,
) -> Seq<char> {
    match explicit {
        Some(p) => p,
        None => match ash {
            Some(p) => p,
            None => match git_top {
                Some(p) => p,
                None => cwd,
            },
        },
    }
}

pub open spec fn view_opt(s: Option<&str>) -> Option<Seq<char>> {
    match s {
        Some(v) => Some(v@),
        None => None,
    }
}

impl InstallRoot {
    pub fn new(root: &str) -> (r: InstallRoot)
        ensures
            r@ == root@,
    {
        InstallRoot { root: root.to_owned() }
    }

    pub fn path(&self) -> (r: &str)
        ensures
            r@ == self@,
    {
        self.root.as_str()
    }

    /// The root given what the caller found: `ash` is the nearest ancestor
    /// of `cwd` holding `.ash/`, `git_top` what git names as the top level.
    pub fn resolve_from(
        explicit: Option<&str>,
        ash: Option<&str>,
        git_top: Option<&str>,
        cwd: &str,
    ) -> (r: InstallRoot)
        ensures
            r@ == chosen_root(view_opt(explicit), view_opt(ash), view_opt(git_top), cwd@),
    {
        if let Some(path) = explicit {
            return InstallRoot::new(path);
        }
        if let Some(found) = ash {
            return InstallRoot::new(found);
        }
        if let Some(top) = git_top {
            return InstallRoot::new(top);
        }
        InstallRoot::new(cwd)
    }
}

/// What `git rev-parse --show-toplevel` printed, trimmed; nothing when it
/// printed only whitespace.
pub fn git_top_from_output(stdout: &str) -> (r: Option<String>)
    ensures
        crate::text::trim(stdout@).len() == 0 ==> r is None,
        crate::text::trim(stdout@).len() > 0 ==> r is Some && r->0@ == crate::text::trim(stdout@),
{
    let c = crate::text::chars_of(stdout);
    let t = crate::text::trim_vec(&c);
    if t.len() == 0 {
        None
    } else {
        Some(crate::text::string_of(&t))
    }
}

} // verus!
