//! Dotfiles health: Stow symlink integrity per package, and a PATH
//! cross-check for registry tools that reuses the probe results.
//!
//! The caller walks the packages, classifies each target on disk and looks
//! binaries up on `PATH`; which packages there are and what each tool's
//! PATH status is are decided here.

use vstd::prelude::*;

use crate::path::{join, join_path, path_le, sort_paths};
use crate::probe::ProbeResult;
use crate::registry::ToolSpec;
use crate::text::{
    chars_of, lines, lines_vec, seq_eq, slice_vec, starts_with, starts_with_exec, string_of, trim, trim_start,
    trim_start_vec, trim_vec, words, words_vec,
};

verus! {

#[derive(Debug, Clone, Copy, PartialEq, Eq, Structural)]
pub enum LinkStatus {
    /// Linked to the repo's file, or a plain file with the same contents.
    Intact,
    Missing,
    Broken,
    /// A plain file sits at the stow target and its contents differ from
    /// the repo's tracked version. A plain file that matches the repo is
    /// `Intact`.
    Conflict,
}

#[derive(Debug, Clone)]
pub struct FileHealth {
    pub package: String,
    pub relative_path: String,
    pub target: String,
    pub status: LinkStatus,
}

#[derive(Debug, Clone, Copy, PartialEq, Eq, Structural)]
pub enum ToolPathStatus {
    OnPath,
    Missing,
    Unknown,
}

#[derive(Debug, Clone)]
pub struct ToolHealth {
    pub tool: String,
    pub status: ToolPathStatus,
}

// --- the package list --------------------------------------------------------

pub open spec fn strip_quotes_start(s: Seq<char>) -> Seq<char>
    decreases s.len(),
{
    if s.len() > 0 && s[0] == '"' { strip_quotes_start(s.drop_first()) } else { s }
}

pub open spec fn strip_quotes_end(s: Seq<char>) -> Seq<char>
    decreases s.len(),
{
    if s.len() > 0 && s.last() == '"' { strip_quotes_end(s.drop_last()) } else { s }
}

/// The packages a `packages := "a b c"` line of a justfile lists, when it
/// is one and lists any.
pub open spec fn package_line(line: Seq<char>) -> Option<Seq<Seq<char>>> {
    let l = trim(line);
    if starts_with(l, "packages"@) {
        let r = trim_start(l.skip(8));
        if starts_with(r, ":="@) {
            let w = words(strip_quotes_end(strip_quotes_start(trim(r.skip(2)))));
            if w.len() > 0 { Some(w) } else { None }
        } else {
            None
        }
    } else {
        None
    }
}

pub open spec fn packages_from(ls: Seq<Seq<char>>, k: int) -> Option<Seq<Seq<char>>>
    decreases ls.len() - k,
{
    if k < 0 || k >= ls.len() {
        None
    } else {
        match package_line(ls[k]) {
            Some(w) => Some(w),
            None => packages_from(ls, k + 1),
        }
    }
}

/// The packages when the justfile names none.
pub open spec fn default_packages() -> Seq<Seq<char>> {
    seq!["nvim"@, "zsh"@, "herdr"@, "git"@]
}

pub open spec fn packages_spec(justfile: Option<Seq<char>>) -> Seq<Seq<char>> {
    match justfile {
        Some(t) => match packages_from(lines(t), 0) {
            Some(w) => w,
            None => default_packages(),
        },
        None => default_packages(),
    }
}

fn strip_quotes(s: &Vec<char>) -> (r: Vec<char>)
    ensures
        r@ == strip_quotes_end(strip_quotes_start(s@)),
{
    let n = s.len();
    let mut a: usize = 0;
    assert(s@.skip(0) =~= s@);
    while a < n && s[a] == '"'
        invariant
            a <= n,
            n == s@.len(),
            strip_quotes_start(s@) == strip_quotes_start(s@.skip(a as int)),
        decreases n - a,
    {
        assert(s@.skip(a as int).drop_first() =~= s@.skip(a + 1));
        a = a + 1;
    }
    let t = slice_vec(s, a, n);
    assert(t@ =~= s@.skip(a as int));
    assert(strip_quotes_start(t@) == t@);
    let mut b = t.len();
    assert(t@.take(b as int) =~= t@);
    while b > 0 && t[b - 1] == '"'
        invariant
            b <= t@.len(),
            strip_quotes_end(t@) == strip_quotes_end(t@.take(b as int)),
        decreases b,
    {
        assert(t@.take(b as int).drop_last() =~= t@.take(b - 1));
        b = b - 1;
    }
    let r = slice_vec(&t, 0, b);
    assert(r@ =~= t@.take(b as int));
    r
}

/// The `packages` a dotfiles justfile's text lists — the same list `just
/// install` and `just restow` use — or the documented default when there
/// is no justfile or no such line.
pub fn dotfiles_packages(justfile: Option<&str>) -> (r: Vec<String>)
    ensures
        r@.map_values(|s: String| s@) == packages_spec(match justfile {
            Some(t) => Some(t@),
            None => None,
        }),
{
    let mut out: Vec<String> = Vec::new();
    match justfile {
        Some(text) => {
            let c = chars_of(text);
            let ls = lines_vec(&c);
            let ghost lv = lines(text@);
            let key = chars_of("packages");
            let assign = chars_of(":=");
            proof {
                reveal_strlit("packages");
                reveal_strlit(":=");
            }
            assert(key@.len() == 8 && assign@.len() == 2);
            let mut k: usize = 0;
            while k < ls.len()
                invariant
                    k <= ls@.len(),
                    ls@.len() == lv.len(),
                    lv == lines(text@),
                    forall|i: int| 0 <= i < ls@.len() ==> #[trigger] ls@[i]@ == lv[i],
                    key@ == "packages"@,
                    assign@ == ":="@,
                    key@.len() == 8,
                    assign@.len() == 2,
                    packages_from(lv, 0) == packages_from(lv, k as int),
                    out@.len() == 0,
                    justfile == Some(text),
                decreases ls.len() - k,
            {
                let l = trim_vec(&ls[k]);
                if starts_with_exec(&l, &key) {
                    let n = l.len();
                    let after = slice_vec(&l, 8, n);
                    assert(after@ =~= l@.skip(8));
                    let r = trim_start_vec(&after);
                    if starts_with_exec(&r, &assign) {
                        let m = r.len();
                        let value = slice_vec(&r, 2, m);
                        assert(value@ =~= r@.skip(2));
                        let v = strip_quotes(&trim_vec(&value));
                        let ws = words_vec(&v);
                        assert(package_line(lv[k as int]) == if ws@.len() > 0 { Some(ws@.map_values(|w: Vec<char>| w@)) } else { None });
                        if ws.len() > 0 {
                            let mut i: usize = 0;
                            while i < ws.len()
                                invariant
                                    i <= ws@.len(),
                                    out@.map_values(|s: String| s@) == ws@.take(i as int).map_values(|w: Vec<char>| w@),
                                decreases ws.len() - i,
                            {
                                out.push(string_of(&ws[i]));
                                assert(ws@.take(i + 1).map_values(|w: Vec<char>| w@) =~= ws@.take(i as int).map_values(
                                    |w: Vec<char>| w@,
                                ).push(ws@[i as int]@));
                                i = i + 1;
                            }
                            assert(ws@.take(ws@.len() as int) =~= ws@);
                            assert(packages_from(lv, k as int) == Some(ws@.map_values(|w: Vec<char>| w@)));
                            assert(out@.map_values(|s: String| s@) =~= ws@.map_values(|w: Vec<char>| w@));
                            assert(packages_spec(Some(text@)) == ws@.map_values(|w: Vec<char>| w@));
                            return out;
                        }
                    }
                }
                k = k + 1;
            }
            assert(packages_from(lv, k as int) is None);
        },
        None => {},
    }
    out.push("nvim".to_owned());
    out.push("zsh".to_owned());
    out.push("herdr".to_owned());
    out.push("git".to_owned());
    assert(out@.map_values(|s: String| s@) =~= default_packages());
    out
}

// --- tools on PATH -------------------------------------------------------------

/// The first probe of tool `name`.
pub open spec fn probe_of(probes: Seq<ProbeResult>, name: Seq<char>) -> Option<ProbeResult>
    decreases probes.len(),
{
    if probes.len() == 0 {
        None
    } else if probes[0].tool@ == name {
        Some(probes[0])
    } else {
        probe_of(probes.drop_first(), name)
    }
}

/// A tool's PATH status: its probe's answer when it was probed, else what
/// looking its binary up found (`bin_found`, when it names one).
pub open spec fn path_status_spec(probe: Option<ProbeResult>, bin_found: Option<bool>) -> ToolPathStatus {
    match probe {
        Some(p) => if p.installed { ToolPathStatus::OnPath } else { ToolPathStatus::Missing },
        None => match bin_found {
            Some(true) => ToolPathStatus::OnPath,
            Some(false) => ToolPathStatus::Missing,
            None => ToolPathStatus::Unknown,
        },
    }
}

fn find_probe<'a>(probes: &'a Vec<ProbeResult>, name: &str) -> (r: Option<&'a ProbeResult>)
    ensures
        match probe_of(probes@, name@) {
            Some(p) => r == Some(&p),
            None => r is None,
        },
{
    let nc = chars_of(name);
    let mut i: usize = 0;
    assert(probes@.skip(0) =~= probes@);
    while i < probes.len()
        invariant
            i <= probes@.len(),
            nc@ == name@,
            probe_of(probes@, name@) == probe_of(probes@.skip(i as int), name@),
        decreases probes.len() - i,
    {
        assert(probes@.skip(i as int)[0] == probes@[i as int]);
        assert(probes@.skip(i as int).drop_first() =~= probes@.skip(i + 1));
        if seq_eq(&chars_of(probes[i].tool.as_str()), &nc) {
            return Some(&probes[i]);
        }
        i = i + 1;
    }
    None
}

/// PATH-checks every registry tool, reusing a completed probe when there
/// is one. `bin_found[i]` is whether tool `i`'s `bin_name` resolved on
/// `PATH`, when it has one and was looked up.
pub fn check_tool_paths(registry: &Vec<ToolSpec>, probes: &Vec<ProbeResult>, bin_found: &Vec<Option<bool>>) -> (r: Vec<ToolHealth>)
    requires
        bin_found@.len() == registry@.len(),
    ensures
        r@.len() == registry@.len(),
        forall|i: int| 0 <= i < registry@.len() ==> (#[trigger] r@[i]).tool@ == registry@[i].name@
            && r@[i].status == path_status_spec(probe_of(probes@, registry@[i].name@), bin_found@[i]),
{
    let mut out: Vec<ToolHealth> = Vec::new();
    let mut i: usize = 0;
    while i < registry.len()
        invariant
            i <= registry@.len(),
            bin_found@.len() == registry@.len(),
            out@.len() == i,
            forall|j: int| 0 <= j < i ==> (#[trigger] out@[j]).tool@ == registry@[j].name@
                && out@[j].status == path_status_spec(probe_of(probes@, registry@[j].name@), bin_found@[j]),
        decreases registry.len() - i,
    {
        let spec = &registry[i];
        let status = match find_probe(probes, spec.name.as_str()) {
            Some(p) => if p.installed { ToolPathStatus::OnPath } else { ToolPathStatus::Missing },
            None => match bin_found[i] {
                Some(true) => ToolPathStatus::OnPath,
                Some(false) => ToolPathStatus::Missing,
                None => ToolPathStatus::Unknown,
            },
        };
        out.push(ToolHealth { tool: spec.name.clone(), status });
        i = i + 1;
    }
    out
}

// --- the Stow targets --------------------------------------------------------

/// What the caller found at a file's stow target in `$HOME`.
#[derive(Debug, Clone, Copy, PartialEq, Eq, Structural)]
pub enum TargetFound {
    /// Nothing there.
    Absent,
    /// A symlink; whether it resolves to the repo's file.
    Symlink { points_at_source: bool },
    /// A plain file; whether its bytes are the repo's file's.
    File { same_contents: bool },
}

pub open spec fn link_status_spec(t: TargetFound) -> LinkStatus {
    match t {
        TargetFound::Absent => LinkStatus::Missing,
        TargetFound::Symlink { points_at_source } => if points_at_source { LinkStatus::Intact } else { LinkStatus::Broken },
        TargetFound::File { same_contents } => if same_contents { LinkStatus::Intact } else { LinkStatus::Conflict },
    }
}

/// A target's health: missing, a symlink to the repo's file or a stray one,
/// a plain copy of it or a conflicting file.
pub fn link_status(t: TargetFound) -> (r: LinkStatus)
    ensures
        r == link_status_spec(t),
{
    match t {
        TargetFound::Absent => LinkStatus::Missing,
        TargetFound::Symlink { points_at_source } => if points_at_source { LinkStatus::Intact } else { LinkStatus::Broken },
        TargetFound::File { same_contents } => if same_contents { LinkStatus::Intact } else { LinkStatus::Conflict },
    }
}

/// One package of the dotfiles: every regular file under it, relative to the
/// package's directory, with what the caller found at its target.
#[derive(Debug)]
pub struct PackageListing {
    pub package: String,
    pub files: Vec<(String, TargetFound)>,
}

/// What the caller found for `rel`: the first entry naming it.
pub open spec fn found_for(files: Seq<(String, TargetFound)>, rel: Seq<char>) -> TargetFound
    decreases files.len(),
{
    if files.len() == 0 {
        TargetFound::Absent
    } else if files[0].0@ == rel {
        files[0].1
    } else {
        found_for(files.drop_first(), rel)
    }
}

pub open spec fn health_view(h: FileHealth) -> (Seq<char>, Seq<char>, Seq<char>, LinkStatus) {
    (h.package@, h.relative_path@, h.target@, h.status)
}

/// A package's rows: its files in path order, each with its target under
/// `home` and that target's health.
pub open spec fn package_rows(l: PackageListing, home: Seq<char>) -> Seq<(Seq<char>, Seq<char>, Seq<char>, LinkStatus)> {
    let sorted = l.files@.map_values(|f: (String, TargetFound)| f.0@).sort_by(|a: Seq<char>, b: Seq<char>| path_le(a, b));
    Seq::new(
        sorted.len(),
        |k: int| (l.package@, sorted[k], join(home, sorted[k]), link_status_spec(found_for(l.files@, sorted[k]))),
    )
}

pub open spec fn all_rows(ls: Seq<PackageListing>, home: Seq<char>, n: int) -> Seq<(Seq<char>, Seq<char>, Seq<char>, LinkStatus)>
    decreases n,
{
    if n <= 0 {
        Seq::empty()
    } else {
        all_rows(ls, home, n - 1) + package_rows(ls[n - 1], home)
    }
}

fn found_exec(files: &Vec<(String, TargetFound)>, rel: &str) -> (r: TargetFound)
    ensures
        r == found_for(files@, rel@),
{
    let want = chars_of(rel);
    let mut i: usize = 0;
    assert(files@.skip(0) =~= files@);
    while i < files.len()
        invariant
            i <= files@.len(),
            want@ == rel@,
            found_for(files@, rel@) == found_for(files@.skip(i as int), rel@),
        decreases files.len() - i,
    {
        assert(files@.skip(i as int)[0] == files@[i as int]);
        assert(files@.skip(i as int).drop_first() =~= files@.skip(i + 1));
        if seq_eq(&chars_of(files[i].0.as_str()), &want) {
            return files[i].1;
        }
        i = i + 1;
    }
    TargetFound::Absent
}

/// The health of every file of every package, package by package and each
/// package's files in path order, their targets under `home`.
pub fn check_files(packages: &[PackageListing], home: &str) -> (r: Vec<FileHealth>)
    ensures
        r@.map_values(|h: FileHealth| health_view(h)) == all_rows(packages@, home@, packages@.len() as int),
{
    let mut out: Vec<FileHealth> = Vec::new();
    let mut p: usize = 0;
    while p < packages.len()
        invariant
            p <= packages@.len(),
            out@.map_values(|h: FileHealth| health_view(h)) == all_rows(packages@, home@, p as int),
        decreases packages.len() - p,
    {
        let l = &packages[p];
        let mut rels: Vec<String> = Vec::new();
        let mut k: usize = 0;
        while k < l.files.len()
            invariant
                k <= l.files@.len(),
                rels@.map_values(|s: String| s@) == l.files@.map_values(|f: (String, TargetFound)| f.0@).take(k as int),
            decreases l.files.len() - k,
        {
            let ghost prev = rels@.map_values(|s: String| s@);
            rels.push(l.files[k].0.as_str().to_owned());
            assert(rels@.map_values(|s: String| s@) =~= prev.push(l.files@[k as int].0@));
            assert(l.files@.map_values(|f: (String, TargetFound)| f.0@).take(k + 1) =~= l.files@.map_values(
                |f: (String, TargetFound)| f.0@,
            ).take(k as int).push(l.files@[k as int].0@));
            k = k + 1;
        }
        assert(l.files@.map_values(|f: (String, TargetFound)| f.0@).take(l.files@.len() as int) =~= l.files@.map_values(
            |f: (String, TargetFound)| f.0@,
        ));
        let sorted = sort_paths(rels);
        let ghost sv = sorted@.map_values(|s: String| s@);
        let ghost rows = package_rows(*l, home@);
        let ghost base = out@.map_values(|h: FileHealth| health_view(h));
        let mut q: usize = 0;
        while q < sorted.len()
            invariant
                q <= sorted@.len(),
                sv == sorted@.map_values(|s: String| s@),
                rows == package_rows(*l, home@),
                sv.len() == rows.len(),
                forall|m: int| 0 <= m < rows.len() ==> #[trigger] rows[m] == (l.package@, sv[m], join(home@, sv[m]), link_status_spec(found_for(l.files@, sv[m]))),
                out@.map_values(|h: FileHealth| health_view(h)) == base + rows.take(q as int),
            decreases sorted.len() - q,
        {
            let rel = sorted[q].as_str();
            let status = link_status(found_exec(&l.files, rel));
            let h = FileHealth {
                package: l.package.as_str().to_owned(),
                relative_path: rel.to_owned(),
                target: join_path(home, rel),
                status,
            };
            let ghost prev = out@.map_values(|h: FileHealth| health_view(h));
            assert(sv[q as int] == sorted@[q as int]@);
            assert(health_view(h) == rows[q as int]);
            out.push(h);
            assert(out@.map_values(|h: FileHealth| health_view(h)) =~= prev.push(rows[q as int]));
            assert(rows.take(q + 1) =~= rows.take(q as int).push(rows[q as int]));
            q = q + 1;
        }
        assert(rows.take(rows.len() as int) =~= rows);
        p = p + 1;
    }
    out
}

} // verus!
