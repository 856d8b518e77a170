//! The tool registry: the declarative list of tools and how each one's
//! latest version is looked up, and reading the answers those lookups
//! print.

use vstd::prelude::*;

use crate::text::{
    chars_of, lines, lines_vec, seq_eq, slice_vec, split_char, split_char_vec, starts_with, starts_with_exec,
    string_of, trim, trim_vec,
};

verus! {

#[derive(Debug, Clone, Copy, PartialEq, Eq, Structural)]
pub enum InstallMethod {
    Apt,
    Cargo,
    CurlScript,
    Nvm,
}

#[derive(Debug, Clone)]
pub struct ToolSpec {
    pub name: String,
    pub package: String,
    pub check_cmd: String,
    pub version_cmd: Option<String>,
    pub version_regex: Option<String>,
    pub bin_name: Option<String>,
    pub install_method: InstallMethod,
    pub apt_package: Option<String>,
    pub cargo_crate: Option<String>,
    pub github_repo: Option<String>,
}

#[derive(Debug, Clone, Copy, PartialEq, Eq, Structural)]
pub enum UpgradeStrategy {
    Apt,
    Cargo,
    GithubRelease,
    Nvm,
    /// No queryable "latest version" source for this tool's install method
    /// (a curl-script installer with no known GitHub releases feed).
    Unsupported,
}

pub open spec fn strategy_spec(method: InstallMethod, has_repo: bool) -> UpgradeStrategy {
    match method {
        InstallMethod::Apt => UpgradeStrategy::Apt,
        InstallMethod::Cargo => UpgradeStrategy::Cargo,
        InstallMethod::Nvm => UpgradeStrategy::Nvm,
        InstallMethod::CurlScript => if has_repo { UpgradeStrategy::GithubRelease } else { UpgradeStrategy::Unsupported },
    }
}

/// How a tool's latest version is found, by its install method.
pub fn strategy_for(spec: &ToolSpec) -> (r: UpgradeStrategy)
    ensures
        r == strategy_spec(spec.install_method, spec.github_repo is Some),
{
    match spec.install_method {
        InstallMethod::Apt => UpgradeStrategy::Apt,
        InstallMethod::Cargo => UpgradeStrategy::Cargo,
        InstallMethod::Nvm => UpgradeStrategy::Nvm,
        InstallMethod::CurlScript => {
            if spec.github_repo.is_some() {
                UpgradeStrategy::GithubRelease
            } else {
                UpgradeStrategy::Unsupported
            }
        },
    }
}

// --- reading what a lookup printed ------------------------------------------------

/// The version a `Candidate:` line of `apt-cache policy` names, when it
/// names one.
pub open spec fn candidate_line(line: Seq<char>) -> Option<Seq<char>> {
    let l = trim(line);
    if starts_with(l, "Candidate:"@) {
        let v = trim(l.skip(10));
        if v.len() > 0 && v != "(none)"@ { Some(v) } else { None }
    } else {
        None
    }
}

pub open spec fn candidate_from(ls: Seq<Seq<char>>, k: int) -> Option<Seq<char>>
    decreases ls.len() - k,
{
    if k < 0 || k >= ls.len() {
        None
    } else {
        match candidate_line(ls[k]) {
            Some(v) => Some(v),
            None => candidate_from(ls, k + 1),
        }
    }
}

/// The first installable candidate `apt-cache policy` reports.
pub fn apt_candidate(text: &str) -> (r: Option<String>)
    ensures
        match candidate_from(lines(text@), 0) {
            Some(v) => r is Some && r->0@ == v,
            None => r is None,
        },
{
    let c = chars_of(text);
    let ls = lines_vec(&c);
    let ghost lv = lines(text@);
    let prefix = chars_of("Candidate:");
    let none = chars_of("(none)");
    proof {
        reveal_strlit("Candidate:");
        reveal_strlit("(none)");
    }
    assert(prefix@.len() == 10);
    let mut k: usize = 0;
    while k < ls.len()
        invariant
            k <= ls@.len(),
            ls@.len() == lv.len(),
            lv == lines(text@),
            forall|i: int| 0 <= i < ls@.len() ==> #[trigger] ls@[i]@ == lv[i],
            prefix@ == "Candidate:"@,
            prefix@.len() == 10,
            none@ == "(none)"@,
            candidate_from(lv, 0) == candidate_from(lv, k as int),
        decreases ls.len() - k,
    {
        let l = trim_vec(&ls[k]);
        if starts_with_exec(&l, &prefix) {
            let n = l.len();
            let rest = slice_vec(&l, 10, n);
            assert(rest@ =~= l@.skip(10));
            let v = trim_vec(&rest);
            if v.len() > 0 && !seq_eq(&v, &none) {
                return Some(string_of(&v));
            }
        }
        k = k + 1;
    }
    None
}

/// What `cargo search <crate> --limit 1` prints first, between its first
/// pair of `"`: `crate_name = "1.2.3"    # description`.
pub open spec fn cargo_search_spec(text: Seq<char>) -> Option<Seq<char>> {
    let ls = lines(text);
    if ls.len() == 0 {
        None
    } else {
        let parts = split_char(ls[0], '"');
        if parts.len() >= 2 { Some(parts[1]) } else { None }
    }
}

pub fn cargo_search_version(text: &str) -> (r: Option<String>)
    ensures
        match cargo_search_spec(text@) {
            Some(v) => r is Some && r->0@ == v,
            None => r is None,
        },
{
    let c = chars_of(text);
    let ls = lines_vec(&c);
    if ls.len() == 0 {
        return None;
    }
    let parts = split_char_vec(&ls[0], '"');
    if parts.len() >= 2 {
        Some(string_of(&parts[1]))
    } else {
        None
    }
}

/// A release tag without its leading `v`s (`str::trim_start_matches('v')`).
pub open spec fn strip_v_spec(tag: Seq<char>) -> Seq<char>
    decreases tag.len(),
{
    if tag.len() > 0 && tag[0] == 'v' { strip_v_spec(tag.drop_first()) } else { tag }
}

pub fn strip_v(tag: &str) -> (r: String)
    ensures
        r@ == strip_v_spec(tag@),
{
    let c = chars_of(tag);
    let mut i: usize = 0;
    assert(c@.skip(0) =~= c@);
    while i < c.len() && c[i] == 'v'
        invariant
            i <= c@.len(),
            strip_v_spec(tag@) == strip_v_spec(c@.skip(i as int)),
            c@ == tag@,
        decreases c.len() - i,
    {
        assert(c@.skip(i as int).drop_first() =~= c@.skip(i + 1));
        i = i + 1;
    }
    let n = c.len();
    let r = slice_vec(&c, i, n);
    assert(r@ =~= c@.skip(i as int));
    string_of(&r)
}

/// Where an edited registry may be, in the order they are preferred:
/// `$PINST_REGISTRY` (`env`), `.config/pinst/registry.toml` under `$HOME`
/// (`home`), then `registry.toml` in the working directory.
pub open spec fn registry_candidates_spec(env: Option<Seq<char>>, home: Option<Seq<char>>) -> Seq<Seq<char>> {
    (match env {
        Some(e) => seq![e],
        None => Seq::empty(),
    }) + (match home {
        Some(h) => seq![crate::path::join(h, ".config/pinst/registry.toml"@)],
        None => Seq::empty(),
    }) + seq!["registry.toml"@]
}

pub fn registry_candidates(env: Option<&str>, home: Option<&str>) -> (r: Vec<String>)
    ensures
        r@.map_values(|s: String| s@) == registry_candidates_spec(
            match env { Some(e) => Some(e@), None => None },
            match home { Some(h) => Some(h@), None => None },
        ),
{
    let mut out: Vec<String> = Vec::new();
    match env {
        Some(e) => out.push(e.to_owned()),
        None => {}
    }
    match home {
        Some(h) => out.push(crate::path::join_path(h, ".config/pinst/registry.toml")),
        None => {}
    }
    out.push("registry.toml".to_owned());
    proof {
        reveal_strlit("registry.toml");
    }
    assert(out@.map_values(|s: String| s@) =~= registry_candidates_spec(
        match env { Some(e) => Some(e@), None => None },
        match home { Some(h) => Some(h@), None => None },
    ));
    out
}

/// The first of the first `n` candidates the caller found to be a file.
pub open spec fn first_file(candidates: Seq<Seq<char>>, is_file: Seq<bool>, n: int) -> Option<Seq<char>>
    decreases n,
{
    if n <= 0 {
        None
    } else {
        match first_file(candidates, is_file, n - 1) {
            Some(p) => Some(p),
            None => if n - 1 < is_file.len() && is_file[n - 1] { Some(candidates[n - 1]) } else { None },
        }
    }
}

proof fn lemma_first_file_extends(candidates: Seq<Seq<char>>, is_file: Seq<bool>, a: int, b: int)
    requires
        a <= b,
        first_file(candidates, is_file, a) is Some,
    ensures
        first_file(candidates, is_file, b) == first_file(candidates, is_file, a),
    decreases b - a,
{
    if a < b {
        lemma_first_file_extends(candidates, is_file, a, b - 1);
    }
}

/// The registry file to read: the first of `candidates` that is a file
/// (`is_file[i]` answers for `candidates[i]`), or `None` for the copy
/// built into the binary.
pub fn registry_source(candidates: &[String], is_file: &[bool]) -> (r: Option<String>)
    ensures
        match first_file(candidates@.map_values(|s: String| s@), is_file@, candidates@.len() as int) {
            Some(p) => r is Some && r->0@ == p,
            None => r is None,
        },
{
    let ghost cv = candidates@.map_values(|s: String| s@);
    let mut i: usize = 0;
    while i < candidates.len()
        invariant
            i <= candidates@.len(),
            cv == candidates@.map_values(|s: String| s@),
            first_file(cv, is_file@, i as int) is None,
        decreases candidates.len() - i,
    {
        if i < is_file.len() && is_file[i] {
            proof {
                assert(cv[i as int] == candidates@[i as int]@);
                assert(first_file(cv, is_file@, i + 1) == Some(cv[i as int]));
                lemma_first_file_extends(cv, is_file@, i + 1, cv.len() as int);
            }
            return Some(candidates[i].as_str().to_owned());
        }
        i = i + 1;
    }
    None
}

} // verus!
