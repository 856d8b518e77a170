//! What is installed where: each asset's target path under a vendor's
//! directories, and the state of what is there.
//!
//! The caller looks at the target (is it there, is it a link and to what,
//! do the bytes match); the state those observations mean is decided here.

use vstd::prelude::*;
use vstd::std_specs::convert::FromSpecImpl;

use super::super::asset::{entry_index, Asset, AssetKind};
use crate::path::{join, join_path, strip_prefix, strip_prefix_exec};
use crate::text::{chars_of, lex_less, lex_lt, push_str, string_of};
use super::check::{contains_name, entry_name, entry_name_exec, DirEntry};

verus! {

#[derive(Debug, Clone, Copy, PartialEq, Eq, Structural)]
pub enum AssetState {
    /// A symlink to this asset's source.
    Linked,
    /// A copy whose contents match the source.
    Copied,
    /// Nothing at the target.
    Missing,
    /// A copy whose contents differ from the source.
    Drifted,
    /// A symlink pointing somewhere else.
    Foreign,
    /// In a vendor directory with no asset of that name.
    Unmanaged,
}

impl AssetState {
    /// The target already holds this asset.
    pub fn satisfied(self) -> (r: bool)
        ensures
            r == (self == AssetState::Linked || self == AssetState::Copied),
    {
        match self {
            AssetState::Linked | AssetState::Copied => true,
            _ => false,
        }
    }
}

#[derive(Debug, Clone, Copy, PartialEq, Eq, Structural)]
pub enum AssetKindLabel {
    Skill,
    Command,
}

impl From<AssetKind> for AssetKindLabel {
    fn from(kind: AssetKind) -> (r: AssetKindLabel) {
        match kind {
            AssetKind::Skill => AssetKindLabel::Skill,
            AssetKind::Command => AssetKindLabel::Command,
        }
    }
}

impl FromSpecImpl<AssetKind> for AssetKindLabel {
    open spec fn obeys_from_spec() -> bool {
        true
    }

    open spec fn from_spec(kind: AssetKind) -> AssetKindLabel {
        match kind {
            AssetKind::Skill => AssetKindLabel::Skill,
            AssetKind::Command => AssetKindLabel::Command,
        }
    }
}

impl From<AssetKindLabel> for AssetKind {
    fn from(kind: AssetKindLabel) -> (r: AssetKind) {
        match kind {
            AssetKindLabel::Skill => AssetKind::Skill,
            AssetKindLabel::Command => AssetKind::Command,
        }
    }
}

impl FromSpecImpl<AssetKindLabel> for AssetKind {
    open spec fn obeys_from_spec() -> bool {
        true
    }

    open spec fn from_spec(kind: AssetKindLabel) -> AssetKind {
        match kind {
            AssetKindLabel::Skill => AssetKind::Skill,
            AssetKindLabel::Command => AssetKind::Command,
        }
    }
}

/// The asset kind a label names.
pub open spec fn kind_of_label(k: AssetKindLabel) -> AssetKind {
    match k {
        AssetKindLabel::Skill => AssetKind::Skill,
        AssetKindLabel::Command => AssetKind::Command,
    }
}

pub open spec fn kind_label(k: AssetKindLabel) -> Seq<char> {
    match k {
        AssetKindLabel::Skill => "skill"@,
        AssetKindLabel::Command => "command"@,
    }
}

impl AssetKindLabel {
    pub fn label(self) -> (r: &'static str)
        ensures
            r@ == kind_label(self),
    {
        match self {
            AssetKindLabel::Skill => "skill",
            AssetKindLabel::Command => "command",
        }
    }
}

/// One asset, or one unmanaged entry, as found at its target.
#[derive(Debug)]
pub struct AssetStatus {
    /// The vendor's label.
    pub vendor: String,
    pub kind: AssetKindLabel,
    pub name: String,
    pub target: String,
    pub state: AssetState,
}

/// An asset's path relative to `.agents/`: a skill's directory, a
/// command's file.
pub open spec fn source_relative_spec(a: Asset) -> Seq<char> {
    match a.kind {
        AssetKind::Skill => join("skills"@, a.name@),
        AssetKind::Command => a.files@[entry_index(a)]@,
    }
}

pub fn source_relative(asset: &Asset) -> (r: String)
    requires
        asset.kind == AssetKind::Command ==> asset.files@.len() > 0,
    ensures
        r@ == source_relative_spec(*asset),
{
    match asset.kind {
        AssetKind::Skill => join_path("skills", asset.name.as_str()),
        AssetKind::Command => asset.entry().to_owned(),
    }
}

/// Where an asset is placed: a skill's directory under the vendor's skills
/// directory, a command's `<name>.md` under its commands directory.
pub open spec fn target_spec(skills_dir: Seq<char>, commands_dir: Seq<char>, kind: AssetKind, name: Seq<char>) -> Seq<char> {
    match kind {
        AssetKind::Skill => join(skills_dir, name),
        AssetKind::Command => join(commands_dir, name + ".md"@),
    }
}

pub fn target_path(skills_dir: &str, commands_dir: &str, asset: &Asset) -> (r: String)
    ensures
        r@ == target_spec(skills_dir@, commands_dir@, asset.kind, asset.name@),
{
    match asset.kind {
        AssetKind::Skill => join_path(skills_dir, asset.name.as_str()),
        AssetKind::Command => {
            let mut file: Vec<char> = Vec::new();
            push_str(&mut file, asset.name.as_str());
            push_str(&mut file, ".md");
            let f = string_of(&file);
            join_path(commands_dir, f.as_str())
        },
    }
}

/// What is at an asset's target.
#[derive(Debug, Clone, Copy, PartialEq, Eq, Structural)]
pub enum Observed {
    /// Nothing.
    Absent,
    /// A symlink; whether it resolves to this asset's source.
    Symlink { to_source: bool },
    /// A file or directory; whether its contents match the source
    /// exactly, file for file.
    Present { matches: bool },
}

/// The state an observation means.
pub open spec fn state_of(o: Observed) -> AssetState {
    match o {
        Observed::Absent => AssetState::Missing,
        Observed::Symlink { to_source } => if to_source { AssetState::Linked } else { AssetState::Foreign },
        Observed::Present { matches } => if matches { AssetState::Copied } else { AssetState::Drifted },
    }
}

/// Classifies what is at an asset's target.
pub fn classify(observed: Observed) -> (r: AssetState)
    ensures
        r == state_of(observed),
{
    match observed {
        Observed::Absent => AssetState::Missing,
        Observed::Symlink { to_source } => if to_source { AssetState::Linked } else { AssetState::Foreign },
        Observed::Present { matches } => if matches { AssetState::Copied } else { AssetState::Drifted },
    }
}

// --- a skill installed by copy ---------------------------------------------------

/// Where a skill's file lies within its directory: the file relative to
/// `skills/<name>`, or `None` for a file outside it.
pub open spec fn within_skill(name: Seq<char>, file: Seq<char>) -> Option<Seq<char>> {
    strip_prefix(file, join("skills"@, name))
}

pub fn within_skill_dir(asset: &Asset, file: &str) -> (r: Option<String>)
    ensures
        match within_skill(asset.name@, file@) {
            Some(w) => r is Some && r->0@ == w,
            None => r is None,
        },
{
    let root = join_path("skills", asset.name.as_str());
    proof {
        reveal_strlit("skills");
    }
    strip_prefix_exec(file, root.as_str())
}

/// Whether a directory holds a skill's copy whole: every file of the skill
/// within its directory matches byte for byte (`same[i]` answers for
/// `asset.files[i]` at its place under the target), and the target holds as
/// many files as the skill has. A missing or extra file is a mismatch.
pub open spec fn copy_matches_spec(is_dir: bool, asset: Asset, same: Seq<bool>, on_disk: nat) -> bool {
    &&& is_dir
    &&& forall|i: int| 0 <= i < asset.files@.len() ==> #[trigger] file_copied(asset, same, i)
    &&& on_disk == asset.files@.len()
}

/// The `i`th file of a skill is in its copy: it lies outside the skill's
/// directory, or the copy's file matches it.
pub open spec fn file_copied(asset: Asset, same: Seq<bool>, i: int) -> bool {
    within_skill(asset.name@, asset.files@[i]@) is Some ==> i < same.len() && same[i]
}

pub fn copy_matches(is_dir: bool, asset: &Asset, same: &[bool], on_disk: usize) -> (r: bool)
    ensures
        r == copy_matches_spec(is_dir, *asset, same@, on_disk as nat),
{
    if !is_dir {
        return false;
    }
    let mut i: usize = 0;
    while i < asset.files.len()
        invariant
            i <= asset.files@.len(),
            is_dir,
            forall|k: int| 0 <= k < i ==> #[trigger] file_copied(*asset, same@, k),
        decreases asset.files.len() - i,
    {
        if within_skill_dir(asset, asset.files[i].as_str()).is_some() {
            if i >= same.len() || !same[i] {
                assert(!file_copied(*asset, same@, i as int));
                return false;
            }
        }
        i = i + 1;
    }
    on_disk == asset.files.len()
}

// --- the status table ------------------------------------------------------------

/// The `(name, path)` of each of the first `n` entries that names no asset
/// in `known`, in directory order.
pub open spec fn unmanaged_candidates(entries: Seq<DirEntry>, known: Seq<Seq<char>>, commands: bool, n: int) -> Seq<(Seq<char>, Seq<char>)>
    decreases n,
{
    if n <= 0 {
        Seq::empty()
    } else {
        let e = entries[n - 1];
        unmanaged_candidates(entries, known, commands, n - 1) + match entry_name(e.path@, commands) {
            Some(name) => if known.contains(name) { Seq::empty() } else { seq![(name, e.path@)] },
            None => Seq::empty(),
        }
    }
}

/// No two entries name the same asset.
pub open spec fn names_distinct(entries: Seq<DirEntry>, commands: bool) -> bool {
    forall|i: int, j: int| 0 <= i < j < entries.len() && (#[trigger] entry_name(entries[i].path@, commands)) is Some
        && (#[trigger] entry_name(entries[j].path@, commands)) is Some ==> entry_name(entries[i].path@, commands)
        != entry_name(entries[j].path@, commands)
}

/// Some row is for `name` at `path`.
pub open spec fn row_has(rows: Seq<AssetStatus>, name: Seq<char>, path: Seq<char>) -> bool {
    exists|x: int| 0 <= x < rows.len() && (#[trigger] rows[x]).name@ == name && rows[x].target@ == path
}

/// Some candidate is `name` at `path`.
pub open spec fn cand_has(cands: Seq<(Vec<char>, String)>, name: Seq<char>, path: Seq<char>) -> bool {
    exists|x: int| 0 <= x < cands.len() && (#[trigger] cands[x]).0@ == name && cands[x].1@ == path
}

/// `rows` is the unmanaged entries of a vendor directory: every candidate
/// once, as an `Unmanaged` row of `kind`, sorted by name.
pub open spec fn unmanaged_ok(rows: Seq<AssetStatus>, cands: Seq<(Seq<char>, Seq<char>)>, vendor: Seq<char>, kind: AssetKindLabel) -> bool {
    &&& rows.len() == cands.len()
    &&& forall|i: int| 0 <= i < rows.len() ==> {
        let r = #[trigger] rows[i];
        r.kind == kind && r.state == AssetState::Unmanaged && r.vendor@ == vendor && cands.contains((r.name@, r.target@))
    }
    &&& forall|j: int| 0 <= j < cands.len() ==> row_has(rows, (#[trigger] cands[j]).0, cands[j].1)
    &&& forall|i: int, j: int| 0 <= i < j < rows.len() ==> lex_lt((#[trigger] rows[i]).name@, (#[trigger] rows[j]).name@)
}

proof fn lemma_candidates_distinct(entries: Seq<DirEntry>, known: Seq<Seq<char>>, commands: bool, n: int)
    requires
        names_distinct(entries, commands),
        0 <= n <= entries.len(),
    ensures
        forall|i: int, j: int| 0 <= i < j < unmanaged_candidates(entries, known, commands, n).len() ==>
            (#[trigger] unmanaged_candidates(entries, known, commands, n)[i]).0 != (#[trigger] unmanaged_candidates(entries, known, commands, n)[j]).0,
        forall|i: int| 0 <= i < unmanaged_candidates(entries, known, commands, n).len() ==> exists|k: int| 0 <= k < n
            && entry_name(entries[k].path@, commands) == Some((#[trigger] unmanaged_candidates(entries, known, commands, n)[i]).0),
    decreases n,
{
    if n > 0 {
        lemma_candidates_distinct(entries, known, commands, n - 1);
        let prev = unmanaged_candidates(entries, known, commands, n - 1);
        let cur = unmanaged_candidates(entries, known, commands, n);
        assert forall|i: int| 0 <= i < prev.len() implies cur[i] == prev[i] by {}
        assert forall|i: int| 0 <= i < cur.len() implies exists|k: int| 0 <= k < n
            && entry_name(entries[k].path@, commands) == Some((#[trigger] cur[i]).0) by {
            if i < prev.len() {
                assert(cur[i] == prev[i]);
                let k = choose|k: int| 0 <= k < n - 1 && entry_name(entries[k].path@, commands) == Some(prev[i].0);
                assert(0 <= k < n && entry_name(entries[k].path@, commands) == Some(cur[i].0));
            } else {
                assert(entry_name(entries[n - 1].path@, commands) == Some(cur[i].0));
            }
        }
        assert forall|i: int, j: int| 0 <= i < j < cur.len() implies (#[trigger] cur[i]).0 != (#[trigger] cur[j]).0 by {
            if j >= prev.len() {
                assert(cur[i] == prev[i]);
                let k = choose|k: int| 0 <= k < n - 1 && entry_name(entries[k].path@, commands) == Some(prev[i].0);
                assert(entry_name(entries[n - 1].path@, commands) == Some(cur[j].0));
                assert(entry_name(entries[k].path@, commands) != entry_name(entries[n - 1].path@, commands));
            } else {
                assert(cur[i] == prev[i]);
                assert(cur[j] == prev[j]);
            }
        }
    }
}

/// The entries of a vendor directory that name no known asset, as
/// `Unmanaged` rows sorted by name.
pub fn unmanaged_entries(entries: &[DirEntry], vendor: &str, kind: AssetKindLabel, known: &Vec<Vec<char>>) -> (r: Vec<AssetStatus>)
    requires
        names_distinct(entries@, kind == AssetKindLabel::Command),
    ensures
        unmanaged_ok(
            r@,
            unmanaged_candidates(
                entries@,
                known@.map_values(|v: Vec<char>| v@),
                kind == AssetKindLabel::Command,
                entries@.len() as int,
            ),
            vendor@,
            kind,
        ),
{
    let commands = match kind {
        AssetKindLabel::Command => true,
        AssetKindLabel::Skill => false,
    };
    let ghost kv = known@.map_values(|v: Vec<char>| v@);
    let mut cands: Vec<(Vec<char>, String)> = Vec::new();
    let mut i: usize = 0;
    while i < entries.len()
        invariant
            i <= entries@.len(),
            kv == known@.map_values(|v: Vec<char>| v@),
            cands@.map_values(|c: (Vec<char>, String)| (c.0@, c.1@)) == unmanaged_candidates(entries@, kv, commands, i as int),
        decreases entries.len() - i,
    {
        let e = &entries[i];
        let ghost before = cands@.map_values(|c: (Vec<char>, String)| (c.0@, c.1@));
        match entry_name_exec(e.path.as_str(), commands) {
            Some(name) => {
                if !contains_name(known, &name) {
                    cands.push((name, e.path.clone()));
                }
            },
            None => {},
        }
        assert(cands@.map_values(|c: (Vec<char>, String)| (c.0@, c.1@)) =~= unmanaged_candidates(entries@, kv, commands, i + 1));
        i = i + 1;
    }
    let ghost cv = cands@.map_values(|c: (Vec<char>, String)| (c.0@, c.1@));
    proof {
        lemma_candidates_distinct(entries@, kv, commands, entries@.len() as int);
    }
    let mut rem = cands;
    let mut out: Vec<AssetStatus> = Vec::new();
    assert forall|x: int| 0 <= x < rem@.len() implies cv.contains(((#[trigger] rem@[x]).0@, rem@[x].1@)) by {
        assert(cv[x] == (rem@[x].0@, rem@[x].1@));
    }
    assert forall|q: int| 0 <= q < cv.len() implies row_has(out@, (#[trigger] cv[q]).0, cv[q].1) || cand_has(rem@, cv[q].0, cv[q].1) by {
        assert(rem@[q].0@ == cv[q].0 && rem@[q].1@ == cv[q].1);
    }
    assert forall|a: int, b: int| 0 <= a < b < rem@.len() implies (#[trigger] rem@[a]).0@ != (#[trigger] rem@[b]).0@ by {
        assert(cv[a].0 == rem@[a].0@ && cv[b].0 == rem@[b].0@);
    }
    while rem.len() > 0
        invariant
            out@.len() + rem@.len() == cv.len(),
            forall|a: int, b: int| 0 <= a < b < cv.len() ==> (#[trigger] cv[a]).0 != (#[trigger] cv[b]).0,
            forall|x: int| 0 <= x < rem@.len() ==> cv.contains(((#[trigger] rem@[x]).0@, rem@[x].1@)),
            forall|x: int| 0 <= x < out@.len() ==> {
                let r = #[trigger] out@[x];
                r.kind == kind && r.state == AssetState::Unmanaged && r.vendor@ == vendor@ && cv.contains((r.name@, r.target@))
            },
            forall|q: int| 0 <= q < cv.len() ==> row_has(out@, (#[trigger] cv[q]).0, cv[q].1) || cand_has(rem@, cv[q].0, cv[q].1),
            forall|a: int, b: int| 0 <= a < b < rem@.len() ==> (#[trigger] rem@[a]).0@ != (#[trigger] rem@[b]).0@,
            forall|a: int, b: int| 0 <= a < out@.len() && 0 <= b < rem@.len() ==> lex_lt((#[trigger] out@[a]).name@, (#[trigger] rem@[b]).0@),
            forall|a: int, b: int| 0 <= a < b < out@.len() ==> lex_lt((#[trigger] out@[a]).name@, (#[trigger] out@[b]).name@),
        decreases rem@.len(),
    {
        let mut b: usize = 0;
        let mut j: usize = 1;
        while j < rem.len()
            invariant
                b < j <= rem@.len(),
                forall|q: int| 0 <= q < j && q != b ==> !lex_lt((#[trigger] rem@[q]).0@, rem@[b as int].0@),
            decreases rem.len() - j,
        {
            if lex_less(&rem[j].0, &rem[b].0) {
                proof {
                    let nj = rem@[j as int].0@;
                    let nb = rem@[b as int].0@;
                    assert forall|q: int| 0 <= q < j + 1 && q != j implies !lex_lt((#[trigger] rem@[q]).0@, nj) by {
                        let nq = rem@[q].0@;
                        crate::text::lemma_lex_asymmetric(nj, nb);
                        if lex_lt(nq, nj) {
                            crate::text::lemma_lex_transitive(nq, nj, nb);
                        }
                    }
                }
                b = j;
            }
            j = j + 1;
        }
        let ghost before_rem = rem@;
        let ghost before_out = out@;
        let ghost best = rem@[b as int];
        proof {
            assert forall|q: int| 0 <= q < before_rem.len() && q != b implies lex_lt(best.0@, (#[trigger] before_rem[q]).0@) by {
                crate::text::lemma_lex_total(before_rem[q].0@, best.0@);
            }
        }
        let g = rem.remove(b);
        let name = string_of(&g.0);
        out.push(AssetStatus { vendor: vendor.to_owned(), kind, name, target: g.1, state: AssetState::Unmanaged });
        proof {
            let last = before_out.len() as int;
            assert(out@[last].name@ == best.0@);
            assert(out@[last].target@ == best.1@);
            assert forall|x: int| 0 <= x < rem@.len() implies cv.contains(((#[trigger] rem@[x]).0@, rem@[x].1@)) by {
                if x < b { assert(rem@[x] == before_rem[x]); } else { assert(rem@[x] == before_rem[x + 1]); }
            }
            assert forall|x: int| 0 <= x < out@.len() implies {
                let r = #[trigger] out@[x];
                r.kind == kind && r.state == AssetState::Unmanaged && r.vendor@ == vendor@ && cv.contains((r.name@, r.target@))
            } by {
                if x < last { assert(out@[x] == before_out[x]); }
            }
            assert forall|q: int| 0 <= q < cv.len() implies row_has(out@, (#[trigger] cv[q]).0, cv[q].1) || cand_has(rem@, cv[q].0, cv[q].1) by {
                if row_has(before_out, cv[q].0, cv[q].1) {
                    let x = choose|x: int| 0 <= x < before_out.len() && (#[trigger] before_out[x]).name@ == cv[q].0 && before_out[x].target@ == cv[q].1;
                    assert(out@[x] == before_out[x]);
                } else {
                    assert(cand_has(before_rem, cv[q].0, cv[q].1));
                    let x = choose|x: int| 0 <= x < before_rem.len() && (#[trigger] before_rem[x]).0@ == cv[q].0 && before_rem[x].1@ == cv[q].1;
                    if x == b {
                        assert(out@[last].name@ == cv[q].0);
                    } else if x < b {
                        assert(rem@[x] == before_rem[x]);
                    } else {
                        assert(rem@[x - 1] == before_rem[x]);
                    }
                }
            }
            assert forall|a: int, c: int| 0 <= a < c < rem@.len() implies (#[trigger] rem@[a]).0@ != (#[trigger] rem@[c]).0@ by {
                let oa = if a < b { a } else { a + 1 };
                let oc = if c < b { c } else { c + 1 };
                assert(rem@[a] == before_rem[oa]);
                assert(rem@[c] == before_rem[oc]);
            }
            assert forall|a: int, c: int| 0 <= a < out@.len() && 0 <= c < rem@.len() implies lex_lt((#[trigger] out@[a]).name@, (#[trigger] rem@[c]).0@) by {
                let oc = if c < b { c } else { c + 1 };
                assert(rem@[c] == before_rem[oc]);
                if a < last { assert(out@[a] == before_out[a]); }
            }
            assert forall|a: int, c: int| 0 <= a < c < out@.len() implies lex_lt((#[trigger] out@[a]).name@, (#[trigger] out@[c]).name@) by {
                assert(out@[a] == before_out[a]);
                if c < last { assert(out@[c] == before_out[c]); }
            }
        }
    }
    assert(cv == unmanaged_candidates(entries@, kv, commands, entries@.len() as int));
    out
}

/// The names of the assets of `kind` among the first `n`.
pub open spec fn asset_names(assets: Seq<Asset>, kind: AssetKind, n: int) -> Seq<Seq<char>>
    decreases n,
{
    if n <= 0 {
        Seq::empty()
    } else if assets[n - 1].kind == kind {
        asset_names(assets, kind, n - 1).push(assets[n - 1].name@)
    } else {
        asset_names(assets, kind, n - 1)
    }
}

/// Row `i` is asset `a` as observed at its target.
pub open spec fn asset_row_ok(row: AssetStatus, vendor: Seq<char>, skills_dir: Seq<char>, commands_dir: Seq<char>, a: Asset, o: Observed) -> bool {
    &&& row.vendor@ == vendor
    &&& row.kind == (match a.kind { AssetKind::Skill => AssetKindLabel::Skill, AssetKind::Command => AssetKindLabel::Command })
    &&& row.name@ == a.name@
    &&& row.target@ == target_spec(skills_dir, commands_dir, a.kind, a.name@)
    &&& row.state == state_of(o)
}

/// Every asset's state, in order — `observed[i]` is what is at asset `i`'s
/// target — then whatever sits in the vendor's skills and commands
/// directories that names no known asset, each group sorted by name.
pub fn status(
    vendor: &str,
    skills_dir: &str,
    commands_dir: &str,
    assets: &Vec<Asset>,
    observed: &Vec<Observed>,
    skill_entries: &[DirEntry],
    command_entries: &[DirEntry],
) -> (r: Vec<AssetStatus>)
    requires
        observed@.len() == assets@.len(),
        names_distinct(skill_entries@, false),
        names_distinct(command_entries@, true),
    ensures
        ({
            let n = assets@.len() as int;
            let sk = unmanaged_candidates(skill_entries@, asset_names(assets@, AssetKind::Skill, n), false, skill_entries@.len() as int);
            let cm = unmanaged_candidates(command_entries@, asset_names(assets@, AssetKind::Command, n), true, command_entries@.len() as int);
            &&& r@.len() == n + sk.len() + cm.len()
            &&& forall|i: int| 0 <= i < n ==> asset_row_ok(#[trigger] r@[i], vendor@, skills_dir@, commands_dir@, assets@[i], observed@[i])
            &&& unmanaged_ok(r@.subrange(n, n + sk.len()), sk, vendor@, AssetKindLabel::Skill)
            &&& unmanaged_ok(r@.subrange(n + sk.len(), r@.len() as int), cm, vendor@, AssetKindLabel::Command)
        }),
{
    let mut out: Vec<AssetStatus> = Vec::new();
    let mut known_skills: Vec<Vec<char>> = Vec::new();
    let mut known_commands: Vec<Vec<char>> = Vec::new();
    let mut i: usize = 0;
    while i < assets.len()
        invariant
            i <= assets@.len(),
            observed@.len() == assets@.len(),
            out@.len() == i,
            forall|j: int| 0 <= j < i ==> asset_row_ok(#[trigger] out@[j], vendor@, skills_dir@, commands_dir@, assets@[j], observed@[j]),
            known_skills@.map_values(|v: Vec<char>| v@) == asset_names(assets@, AssetKind::Skill, i as int),
            known_commands@.map_values(|v: Vec<char>| v@) == asset_names(assets@, AssetKind::Command, i as int),
        decreases assets.len() - i,
    {
        let a = &assets[i];
        let target = target_path(skills_dir, commands_dir, a);
        let state = classify(observed[i]);
        let kind = match a.kind {
            AssetKind::Skill => {
                let ghost b = known_skills@.map_values(|v: Vec<char>| v@);
                known_skills.push(chars_of(a.name.as_str()));
                assert(known_skills@.map_values(|v: Vec<char>| v@) =~= b.push(a.name@));
                AssetKindLabel::Skill
            },
            AssetKind::Command => {
                let ghost b = known_commands@.map_values(|v: Vec<char>| v@);
                known_commands.push(chars_of(a.name.as_str()));
                assert(known_commands@.map_values(|v: Vec<char>| v@) =~= b.push(a.name@));
                AssetKindLabel::Command
            },
        };
        let ghost before = out@;
        out.push(AssetStatus { vendor: vendor.to_owned(), kind, name: a.name.clone(), target, state });
        assert forall|j: int| 0 <= j < i + 1 implies asset_row_ok(#[trigger] out@[j], vendor@, skills_dir@, commands_dir@, assets@[j], observed@[j]) by {
            if j < i {
                assert(out@[j] == before[j]);
            }
        }
        i = i + 1;
    }
    let ghost n = assets@.len() as int;
    let skills = unmanaged_entries(skill_entries, vendor, AssetKindLabel::Skill, &known_skills);
    let commands = unmanaged_entries(command_entries, vendor, AssetKindLabel::Command, &known_commands);
    let ghost head = out@;
    let ghost sv = skills@;
    let ghost cmv = commands@;
    let mut skills = skills;
    let mut commands = commands;
    out.append(&mut skills);
    out.append(&mut commands);
    proof {
        assert(out@ =~= head + sv + cmv);
        assert(out@.subrange(n, n + sv.len()) =~= sv);
        assert(out@.subrange(n + sv.len(), out@.len() as int) =~= cmv);
        assert forall|j: int| 0 <= j < n implies asset_row_ok(#[trigger] out@[j], vendor@, skills_dir@, commands_dir@, assets@[j], observed@[j]) by {
            assert(out@[j] == head[j]);
        }
    }
    out
}

} // verus!
