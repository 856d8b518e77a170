//! The harness's own assets: skills (directories) and commands (single
//! markdown files) under `.agents/`, as listed by the caller from a source
//! tree or the copy embedded in the binary.

use vstd::prelude::*;

use crate::source::{opt_view, resolve, resolve_spec, Checkout, Source};
use crate::harness::install::check::{entry_name, entry_name_exec};
use crate::path::{file_name_of, path_file_name, path_le, sort_paths};
use crate::text::{chars_of, lex_less, lex_lt, seq_eq, string_of};
use vstd::relations::sorted_by;

verus! {

/// Where assets live in a checkout.
pub const SUBDIR: &'static str = ".agents";

/// Names the source tree explicitly.
pub const SOURCE_ENV: &'static str = "PINST_HARNESS_SOURCE";

/// Where `.agents/` is read from for this run: the tree `$PINST_HARNESS_SOURCE`
/// names, else a checkout found at the working directory or above the
/// binary, else the copy embedded at compile time (see [`resolve`], which
/// takes the caller's findings for [`SUBDIR`]).
pub fn resolve_source(override_tree: Option<String>, checkouts: &[Checkout]) -> (r: Source)
    ensures
        match resolve_spec(opt_view(override_tree), checkouts@) {
            Some(t) => r matches Source::Tree(p) && p@ == t,
            None => r is Embedded,
        },
{
    resolve(override_tree, checkouts)
}

/// The path of `relative` (relative to `.agents/`) in a tree source, for
/// symlinking; the embedded copy has no path on disk.
pub fn source_path(source: &Source, relative: &str) -> (r: Result<String, String>)
    ensures
        match source {
            Source::Tree(root) => r is Ok && r->Ok_0@ == crate::path::join(root@, relative@),
            Source::Embedded => r is Err && r->Err_0@ == "no source path: this binary carries .agents/ embedded"@,
        },
{
    match source {
        Source::Tree(root) => Ok(crate::path::join_path(root.as_str(), relative)),
        Source::Embedded => Err("no source path: this binary carries .agents/ embedded".to_owned()),
    }
}

#[derive(Debug, Clone, Copy, PartialEq, Eq, Structural, PartialOrd, Ord)]
pub enum AssetKind {
    Skill,
    Command,
}

/// One skill or command, with its files relative to `.agents/`, sorted.
#[derive(Debug)]
pub struct Asset {
    pub kind: AssetKind,
    pub name: String,
    pub files: Vec<String>,
}

/// A path's final component as `Path::file_name` gives it, or nothing.
pub open spec fn file_name(p: Seq<char>) -> Seq<char> {
    match path_file_name(p) {
        Some(f) => f,
        None => Seq::empty(),
    }
}

/// The file an asset is opened at: a skill's `SKILL.md` (its first file
/// when it has none), a command's one file.
pub open spec fn entry_index(a: Asset) -> int {
    match a.kind {
        AssetKind::Skill => if exists|k: int| 0 <= k < a.files@.len() && file_name(#[trigger] a.files@[k]@) == "SKILL.md"@ {
            choose|k: int| 0 <= k < a.files@.len() && file_name(a.files@[k]@) == "SKILL.md"@ && forall|j: int|
                0 <= j < k ==> file_name(#[trigger] a.files@[j]@) != "SKILL.md"@
        } else {
            0
        },
        AssetKind::Command => 0,
    }
}

pub fn file_name_exec(p: &str) -> (r: Vec<char>)
    ensures
        r@ == file_name(p@),
{
    match file_name_of(p) {
        Some(f) => chars_of(f.as_str()),
        None => Vec::new(),
    }
}

impl Asset {
    /// The file the asset is opened at.
    pub fn entry(&self) -> (r: &str)
        requires
            self.files@.len() > 0,
        ensures
            r@ == self.files@[entry_index(*self)]@,
    {
        match self.kind {
            AssetKind::Skill => {
                let want = chars_of("SKILL.md");
                let mut k: usize = 0;
                while k < self.files.len()
                    invariant
                        k <= self.files@.len(),
                        want@ == "SKILL.md"@,
                        self.kind == AssetKind::Skill,
                        forall|j: int| 0 <= j < k ==> file_name(#[trigger] self.files@[j]@) != "SKILL.md"@,
                    decreases self.files.len() - k,
                {
                    let n = file_name_exec(self.files[k].as_str());
                    if seq_eq(&n, &want) {
                        proof {
                            let c = choose|c: int| 0 <= c < self.files@.len() && file_name(self.files@[c]@) == "SKILL.md"@
                                && forall|j: int| 0 <= j < c ==> file_name(#[trigger] self.files@[j]@) != "SKILL.md"@;
                            assert(file_name(self.files@[k as int]@) == "SKILL.md"@);
                            if c < k {
                            } else if c > k {
                            }
                        }
                        return self.files[k].as_str();
                    }
                    k = k + 1;
                }
                self.files[0].as_str()
            },
            AssetKind::Command => self.files[0].as_str(),
        }
    }
}

// --- enumerating the assets of a tree ----------------------------------------

/// What an asset is, as plain values: its kind, name and files.
pub open spec fn asset_view(a: Asset) -> (AssetKind, Seq<char>, Seq<Seq<char>>) {
    (a.kind, a.name@, a.files@.map_values(|f: String| f@))
}

/// `a` before `b` in asset order: skills before commands, then by name.
pub open spec fn asset_lt(a: (AssetKind, Seq<char>, Seq<Seq<char>>), b: (AssetKind, Seq<char>, Seq<Seq<char>>)) -> bool {
    (a.0 == AssetKind::Skill && b.0 == AssetKind::Command) || (a.0 == b.0 && lex_lt(a.1, b.1))
}

/// `a` not after `b` in asset order.
pub open spec fn asset_le(a: (AssetKind, Seq<char>, Seq<Seq<char>>), b: (AssetKind, Seq<char>, Seq<Seq<char>>)) -> bool {
    !asset_lt(b, a)
}

proof fn lemma_asset_le_transitive(
    a: (AssetKind, Seq<char>, Seq<Seq<char>>),
    b: (AssetKind, Seq<char>, Seq<Seq<char>>),
    c: (AssetKind, Seq<char>, Seq<Seq<char>>),
)
    requires
        asset_le(a, b),
        asset_le(b, c),
    ensures
        asset_le(a, c),
{
    if asset_lt(c, a) {
        if a.0 == b.0 && a.1 == b.1 {
        } else if a.0 == b.0 {
            crate::text::lemma_lex_total(a.1, b.1);
            if lex_lt(a.1, b.1) && c.0 == a.0 {
                crate::text::lemma_lex_transitive(c.1, a.1, b.1);
            }
        }
    }
}

/// What the caller listed for one skill directory: its name, and every
/// file under it, relative to the tree's root.
#[derive(Debug)]
pub struct SkillDir {
    pub name: String,
    pub files: Vec<String>,
}

/// The assets a tree's listings make, before ordering: each skill with at
/// least one file, its files in path order; then each `.md` command file,
/// named by its stem.
pub open spec fn built_assets(skills: Seq<SkillDir>, commands: Seq<Seq<char>>) -> Seq<(AssetKind, Seq<char>, Seq<Seq<char>>)> {
    built_skills(skills, skills.len() as int) + built_commands(commands, commands.len() as int)
}

pub open spec fn built_skills(skills: Seq<SkillDir>, n: int) -> Seq<(AssetKind, Seq<char>, Seq<Seq<char>>)>
    decreases n,
{
    if n <= 0 {
        Seq::empty()
    } else {
        let prev = built_skills(skills, n - 1);
        let s = skills[n - 1];
        if s.files@.len() > 0 {
            prev.push((
                AssetKind::Skill,
                s.name@,
                s.files@.map_values(|f: String| f@).sort_by(|a: Seq<char>, b: Seq<char>| path_le(a, b)),
            ))
        } else {
            prev
        }
    }
}

pub open spec fn built_commands(commands: Seq<Seq<char>>, n: int) -> Seq<(AssetKind, Seq<char>, Seq<Seq<char>>)>
    decreases n,
{
    if n <= 0 {
        Seq::empty()
    } else {
        let prev = built_commands(commands, n - 1);
        match entry_name(commands[n - 1], true) {
            Some(name) => prev.push((AssetKind::Command, name, seq![commands[n - 1]])),
            None => prev,
        }
    }
}

/// `v` in asset order: a sorted rearrangement of it.
fn sort_assets(v: &Vec<Asset>) -> (r: Vec<Asset>)
    ensures
        sorted_by(r@.map_values(|a: Asset| asset_view(a)), |a: (AssetKind, Seq<char>, Seq<Seq<char>>), b: (AssetKind, Seq<char>, Seq<Seq<char>>)| asset_le(a, b)),
        r@.map_values(|a: Asset| asset_view(a)).to_multiset() == v@.map_values(|a: Asset| asset_view(a)).to_multiset(),
{
    let ghost le = |a: (AssetKind, Seq<char>, Seq<Seq<char>>), b: (AssetKind, Seq<char>, Seq<Seq<char>>)| asset_le(a, b);
    let ghost pv = v@.map_values(|a: Asset| asset_view(a));
    let mut out: Vec<Asset> = Vec::new();
    let mut i: usize = 0;
    assert(out@.map_values(|a: Asset| asset_view(a)) =~= Seq::<(AssetKind, Seq<char>, Seq<Seq<char>>)>::empty());
    assert(pv.take(0) =~= Seq::<(AssetKind, Seq<char>, Seq<Seq<char>>)>::empty());
    while i < v.len()
        invariant
            i <= v@.len(),
            pv == v@.map_values(|a: Asset| asset_view(a)),
            pv.len() == v@.len(),
            le == (|a: (AssetKind, Seq<char>, Seq<Seq<char>>), b: (AssetKind, Seq<char>, Seq<Seq<char>>)| asset_le(a, b)),
            sorted_by(out@.map_values(|a: Asset| asset_view(a)), le),
            out@.map_values(|a: Asset| asset_view(a)).to_multiset() == pv.take(i as int).to_multiset(),
        decreases v.len() - i,
    {
        let x = copy_asset(&v[i]);
        let xname = chars_of(x.name.as_str());
        let mut j: usize = 0;
        while j < out.len() && !before(x.kind, &xname, &out[j])
            invariant
                j <= out@.len(),
                i < pv.len(),
                asset_view(x) == pv[i as int],
                xname@ == x.name@,
                forall|k: int| 0 <= k < j ==> !asset_lt(asset_view(x), asset_view(#[trigger] out@[k])),
            decreases out.len() - j,
        {
            j = j + 1;
        }
        let ghost ov = out@.map_values(|a: Asset| asset_view(a));
        let ghost xv = asset_view(x);
        out.insert(j, x);
        let ghost nv = out@.map_values(|a: Asset| asset_view(a));
        proof {
            assert(nv =~= ov.insert(j as int, xv));
            vstd::seq_lib::to_multiset_insert(ov, j as int, xv);
            assert(pv.take(i + 1) =~= pv.take(i as int).push(xv));
            vstd::seq_lib::to_multiset_build(pv.take(i as int), xv);
            assert forall|a: int, b: int| 0 <= a < b < nv.len() implies #[trigger] le(nv[a], nv[b]) by {
                if b < j {
                    assert(nv[a] == ov[a] && nv[b] == ov[b]);
                } else if b == j {
                    assert(nv[a] == ov[a]);
                    assert(!asset_lt(xv, ov[a]));
                } else if a == j {
                    assert(nv[b] == ov[b - 1]);
                    assert(asset_lt(xv, ov[j as int]));
                    if b - 1 > j {
                        assert(le(ov[j as int], ov[b - 1]));
                    }
                    if asset_lt(ov[b - 1], xv) {
                        if xv.0 == ov[j as int].0 {
                            crate::text::lemma_lex_asymmetric(xv.1, ov[j as int].1);
                        }
                        lemma_asset_le_transitive(xv, ov[j as int], ov[b - 1]);
                        if xv.0 == ov[b - 1].0 {
                            crate::text::lemma_lex_asymmetric(xv.1, ov[b - 1].1);
                        }
                    }
                } else if a < j {
                    assert(nv[a] == ov[a] && nv[b] == ov[b - 1]);
                } else {
                    assert(nv[a] == ov[a - 1] && nv[b] == ov[b - 1]);
                }
            }
        }
        i = i + 1;
    }
    proof {
        assert(pv.take(v@.len() as int) =~= pv);
    }
    out
}

/// Whether an asset of kind `kind` named `name` comes before `b`.
fn before(kind: AssetKind, name: &Vec<char>, b: &Asset) -> (r: bool)
    ensures
        r == asset_lt((kind, name@, Seq::empty()), asset_view(*b)),
{
    match (kind, b.kind) {
        (AssetKind::Skill, AssetKind::Command) => true,
        (AssetKind::Command, AssetKind::Skill) => false,
        _ => lex_less(name, &chars_of(b.name.as_str())),
    }
}

/// A copy of `a`.
fn copy_asset(a: &Asset) -> (r: Asset)
    ensures
        asset_view(r) == asset_view(*a),
{
    let mut files: Vec<String> = Vec::new();
    let mut k: usize = 0;
    while k < a.files.len()
        invariant
            k <= a.files@.len(),
            files@.map_values(|f: String| f@) == a.files@.map_values(|f: String| f@).take(k as int),
        decreases a.files.len() - k,
    {
        let f = a.files[k].as_str().to_owned();
        let ghost prev = files@.map_values(|f: String| f@);
        files.push(f);
        assert(files@.map_values(|f: String| f@) =~= prev.push(a.files@[k as int]@));
        assert(a.files@.map_values(|f: String| f@).take(k + 1) =~= a.files@.map_values(|f: String| f@).take(k as int).push(a.files@[k as int]@));
        k = k + 1;
        assert(files@.map_values(|f: String| f@) =~= a.files@.map_values(|f: String| f@).take(k as int));
    }
    assert(a.files@.map_values(|f: String| f@).take(a.files@.len() as int) =~= a.files@.map_values(|f: String| f@));
    Asset { kind: a.kind, name: a.name.as_str().to_owned(), files }
}

/// Every skill and every `.md` command of a tree, skills first and each
/// kind in name order, from the caller's listings: `skills` the skill
/// directories with their files, `commands` the files directly under
/// `commands/`, relative to the tree's root.
pub fn assets_from(skills: &[SkillDir], commands: &[String]) -> (r: Vec<Asset>)
    ensures
        sorted_by(r@.map_values(|a: Asset| asset_view(a)), |a: (AssetKind, Seq<char>, Seq<Seq<char>>), b: (AssetKind, Seq<char>, Seq<Seq<char>>)| asset_le(a, b)),
        r@.map_values(|a: Asset| asset_view(a)).to_multiset()
            == built_assets(skills@, commands@.map_values(|c: String| c@)).to_multiset(),
{
    let ghost cv = commands@.map_values(|c: String| c@);
    let mut built: Vec<Asset> = Vec::new();
    let mut i: usize = 0;
    while i < skills.len()
        invariant
            i <= skills@.len(),
            built@.map_values(|a: Asset| asset_view(a)) == built_skills(skills@, i as int),
        decreases skills.len() - i,
    {
        let s = &skills[i];
        let mut copies: Vec<String> = Vec::new();
        let mut k: usize = 0;
        while k < s.files.len()
            invariant
                k <= s.files@.len(),
                copies@.map_values(|f: String| f@) == s.files@.map_values(|f: String| f@).take(k as int),
            decreases s.files.len() - k,
        {
            let f = s.files[k].as_str().to_owned();
            let ghost prev = copies@.map_values(|f: String| f@);
            copies.push(f);
            assert(copies@.map_values(|f: String| f@) =~= prev.push(s.files@[k as int]@));
            assert(s.files@.map_values(|f: String| f@).take(k + 1) =~= s.files@.map_values(|f: String| f@).take(k as int).push(s.files@[k as int]@));
            k = k + 1;
            assert(copies@.map_values(|f: String| f@) =~= s.files@.map_values(|f: String| f@).take(k as int));
        }
        assert(s.files@.map_values(|f: String| f@).take(s.files@.len() as int) =~= s.files@.map_values(|f: String| f@));
        let files = sort_paths(copies);
        let ghost before_v = built@.map_values(|a: Asset| asset_view(a));
        if s.files.len() > 0 {
            built.push(Asset { kind: AssetKind::Skill, name: s.name.as_str().to_owned(), files });
        }
        assert(built@.map_values(|a: Asset| asset_view(a)) =~= built_skills(skills@, i + 1));
        i = i + 1;
    }
    let ghost skill_part = built_skills(skills@, skills@.len() as int);
    let mut c: usize = 0;
    while c < commands.len()
        invariant
            c <= commands@.len(),
            cv == commands@.map_values(|c: String| c@),
            skill_part == built_skills(skills@, skills@.len() as int),
            built@.map_values(|a: Asset| asset_view(a)) == skill_part + built_commands(cv, c as int),
        decreases commands.len() - c,
    {
        assert(cv[c as int] == commands@[c as int]@);
        let ghost prev = built@.map_values(|a: Asset| asset_view(a));
        match entry_name_exec(commands[c].as_str(), true) {
            Some(name) => {
                let path = commands[c].as_str().to_owned();
                let files = vec![path];
                assert(files@.map_values(|f: String| f@) =~= seq![cv[c as int]]);
                let asset = Asset { kind: AssetKind::Command, name: string_of(&name), files };
                assert(asset_view(asset) == (AssetKind::Command, name@, seq![cv[c as int]]));
                built.push(asset);
                assert(built@.map_values(|a: Asset| asset_view(a)) =~= prev.push(asset_view(asset)));
            }
            None => {}
        }
        assert(built@.map_values(|a: Asset| asset_view(a)) =~= skill_part + built_commands(cv, c + 1));
        c = c + 1;
    }
    sort_assets(&built)
}

} // verus!
