//! The projection invariants: every skill's `SKILL.md` frontmatter is
//! well-formed, and the project scope's vendor directories agree with
//! `.agents/`.
//!
//! The caller reads each `SKILL.md`, classifies each asset's target and
//! lists the vendor directories; the findings are decided here.

use vstd::prelude::*;

use super::state::AssetState;
use crate::doctor::{findings_view, push_finding, Finding, FindingView, Severity};
use crate::harness::asset::{file_name, file_name_exec, AssetKind};
use crate::harness::frontmatter::{lookup, parse, parse_spec, ValueView};
use crate::path::{join, join_path};
use crate::text::{
    chars_of, contains_seq, push_all, slice_vec, contains_str, lines, lines_vec, push_str, seq_eq, string_of, trim_end, trim_end_vec, trim_start, trim_start_vec,
};

verus! {

/// The frontmatter a `SKILL.md` text parses to, when it parses and has one.
pub open spec fn skill_frontmatter(text: Seq<char>) -> Option<Seq<(Seq<char>, ValueView)>> {
    match parse_spec(text) {
        Ok(Some(entries)) => Some(entries),
        _ => None,
    }
}

/// A line of a frontmatter block whose key is plain lower-case, whose value
/// is not quoted, and whose value contains `: ` — the key, if so.
pub open spec fn unquoted_key(line: Seq<char>) -> Option<Seq<char>> {
    match crate::harness::frontmatter::first_index(line, ':') {
        None => None,
        Some(colon) => {
            let key = line.take(colon);
            let value = trim_start(line.skip(colon + 1));
            if key.len() > 0 && (forall|k: int| 0 <= k < key.len() ==> crate::text::is_lower(#[trigger] key[k]) || key[k] == '_' || key[k] == '-')
                && value.len() > 0 && value[0] != '"' && value[0] != '\'' && contains_seq(value, ": "@) {
                Some(key)
            } else {
                None
            }
        },
    }
}

/// The unquoted keys among lines `k..` of a block, up to its closing fence.
pub open spec fn unquoted_from(ls: Seq<Seq<char>>, k: int) -> Seq<Seq<char>>
    decreases ls.len() - k,
{
    if k < 1 || k >= ls.len() || trim_end(ls[k]) == "---"@ {
        Seq::empty()
    } else {
        match unquoted_key(ls[k]) {
            Some(key) => seq![key] + unquoted_from(ls, k + 1),
            None => unquoted_from(ls, k + 1),
        }
    }
}

/// The keys whose values read as YAML only by accident, space-separated;
/// none when the text does not open with a `---` line or there are none.
pub open spec fn unquoted_spec(text: Seq<char>) -> Option<Seq<char>> {
    let ls = lines(text);
    if ls.len() == 0 || ls[0] != "---"@ {
        None
    } else {
        let keys = unquoted_from(ls, 1);
        if keys.len() == 0 {
            None
        } else {
            Some(crate::harness::frontmatter::join(keys, " "@))
        }
    }
}

fn unquoted_key_exec(line: &Vec<char>) -> (r: Option<Vec<char>>)
    ensures
        match unquoted_key(line@) {
            Some(k) => r is Some && r->0@ == k,
            None => r is None,
        },
{
    let n = line.len();
    let colon = match crate::text::find_char_from(line, ':', 0) {
        Some(c) => c,
        None => {
            return None;
        },
    };
    proof {
        crate::harness::frontmatter::lemma_first_index(line@, ':', colon as int);
    }
    let key = crate::text::slice_vec(line, 0, colon);
    let after = crate::text::slice_vec(line, colon + 1, n);
    assert(key@ =~= line@.take(colon as int));
    assert(after@ =~= line@.skip(colon + 1));
    let value = trim_start_vec(&after);
    if key.len() == 0 || value.len() == 0 || value[0] == '"' || value[0] == '\'' {
        return None;
    }
    let mut k: usize = 0;
    while k < key.len()
        invariant
            k <= key@.len(),
            key@ == line@.take(colon as int),
            crate::harness::frontmatter::first_index(line@, ':') == Some(colon as int),
            forall|j: int| 0 <= j < k ==> crate::text::is_lower(#[trigger] key@[j]) || key@[j] == '_' || key@[j] == '-',
        decreases key.len() - k,
    {
        let c = key[k];
        if !(crate::text::is_lower_exec(c) || c == '_' || c == '-') {
            assert(!(crate::text::is_lower(key@[k as int]) || key@[k as int] == '_' || key@[k as int] == '-'));
            return None;
        }
        k = k + 1;
    }
    let vs = string_of(&value);
    if !contains_str(vs.as_str(), ": ") {
        return None;
    }
    Some(key)
}

/// The hygiene warning's subject: frontmatter keys whose unquoted values
/// contain `": "`.
pub fn unquoted_values(text: &str) -> (r: Option<String>)
    ensures
        match unquoted_spec(text@) {
            Some(s) => r is Some && r->0@ == s,
            None => r is None,
        },
{
    let c = chars_of(text);
    let ls = lines_vec(&c);
    let ghost lv = lines(text@);
    if ls.len() == 0 || !seq_eq(&ls[0], &chars_of("---")) {
        return None;
    }
    let mut keys: Vec<String> = Vec::new();
    let mut k: usize = 1;
    let mut stop = false;
    while k < ls.len() && !stop
        invariant
            1 <= k <= ls@.len(),
            stop ==> unquoted_from(lv, k as int) == Seq::<Seq<char>>::empty(),
            !stop ==> k >= 1,
            ls@.len() == lv.len(),
            lv == lines(text@),
            forall|i: int| 0 <= i < ls@.len() ==> #[trigger] ls@[i]@ == lv[i],
            unquoted_from(lv, 1) == keys@.map_values(|s: String| s@) + unquoted_from(lv, k as int),
        decreases (ls.len() - k) * 2 + (if stop { 0int } else { 1int }),
    {
        let t = trim_end_vec(&ls[k]);
        if seq_eq(&t, &chars_of("---")) {
            stop = true;
        } else {
        match unquoted_key_exec(&ls[k]) {
            Some(key) => {
                let ghost before = keys@.map_values(|s: String| s@);
                keys.push(string_of(&key));
                assert(keys@.map_values(|s: String| s@) =~= before.push(key@));
                assert(before + unquoted_from(lv, k as int) =~= before.push(key@) + unquoted_from(lv, k + 1));
            },
            None => {},
        }
        k = k + 1;
        }
    }
    assert(keys@.map_values(|s: String| s@) + Seq::<Seq<char>>::empty() == keys@.map_values(|s: String| s@));
    if keys.len() == 0 {
        return None;
    }
    Some(crate::harness::frontmatter::join_strings(keys.as_slice(), " "))
}

pub open spec fn opt_scalar(fm: Option<Seq<(Seq<char>, ValueView)>>, key: Seq<char>) -> Option<Seq<char>> {
    match fm {
        Some(entries) => match lookup(entries, key) {
            Some(ValueView::Scalar(s)) => Some(s),
            _ => None,
        },
        None => None,
    }
}

/// A skill's `SKILL.md`: present, naming the skill's own directory, with a
/// description, and no value a real YAML parser would misread.
pub open spec fn skill_source_findings(root: Seq<char>, name: Seq<char>, text: Option<Seq<char>>) -> Seq<FindingView> {
    let dir = join(join(root, "skills"@), name);
    let file = join(dir, "SKILL.md"@);
    match text {
        None => seq![(
            "skill.no-manifest."@ + name,
            Severity::Error,
            dir + " has no SKILL.md"@,
            "add SKILL.md with name/description frontmatter, or remove the directory"@,
        )],
        Some(t) => {
            let fm = skill_frontmatter(t);
            let name_f: Seq<FindingView> = match opt_scalar(fm, "name"@) {
                None => seq![("skill.no-name."@ + name, Severity::Error, file + " frontmatter has no 'name:'"@, "add 'name: "@ + name + "'"@)],
                Some(declared) => if declared != name {
                    seq![(
                        "skill.name-mismatch."@ + name,
                        Severity::Error,
                        file + " declares name '"@ + declared + "' but lives in '"@ + name + "/'"@,
                        "make them agree — the directory name is what gets invoked"@,
                    )]
                } else {
                    Seq::empty()
                },
            };
            let desc_f: Seq<FindingView> = if match fm { Some(e) => lookup(e, "description"@) is None, None => true } {
                seq![(
                    "skill.no-description."@ + name,
                    Severity::Error,
                    file + " frontmatter has no 'description:'"@,
                    "add one — it is the only thing a model sees when deciding to load the skill"@,
                )]
            } else {
                Seq::empty()
            };
            let quote_f: Seq<FindingView> = match unquoted_spec(t) {
                Some(u) => seq![(
                    "skill.unquoted-value."@ + name,
                    Severity::Warning,
                    file + " frontmatter value(s) contain a colon and are not quoted: "@ + u,
                    "wrap the value in single quotes, doubling any apostrophe inside it"@,
                )],
                None => Seq::empty(),
            };
            name_f + desc_f + quote_f
        },
    }
}

/// Checks one skill's source: `root` is the `.agents/` tree, `text` the
/// skill's `SKILL.md` when it could be read.
pub fn check_skill_source(root: &str, name: &str, text: Option<&str>) -> (r: Vec<Finding>)
    ensures
        findings_view(r@) == skill_source_findings(root@, name@, match text { Some(t) => Some(t@), None => None }),
{
    let mut out: Vec<Finding> = Vec::new();
    let skills = join_path(root, "skills");
    let dir = join_path(skills.as_str(), name);
    let file = join_path(dir.as_str(), "SKILL.md");
    let t = match text {
        None => {
            let mut fid: Vec<char> = Vec::new();
            push_str(&mut fid, "skill.no-manifest.");
            push_str(&mut fid, name);
            let mut m: Vec<char> = Vec::new();
            push_str(&mut m, dir.as_str());
            push_str(&mut m, " has no SKILL.md");
            push_finding(&mut out, string_of(&fid), Severity::Error, string_of(&m),
                "add SKILL.md with name/description frontmatter, or remove the directory".to_owned());
            assert(findings_view(out@) =~= skill_source_findings(root@, name@, None));
            return out;
        },
        Some(t) => t,
    };
    let fm = match parse(t) {
        Ok(f) => f,
        Err(_) => None,
    };
    let ghost fmv: Option<Seq<(Seq<char>, ValueView)>> = match &fm { Some(f) => Some(f@), None => None };
    assert(fmv == skill_frontmatter(t@));
    let declared: Option<&str> = match &fm {
        Some(f) => f.scalar("name"),
        None => None,
    };
    match declared {
        None => {
            let mut fid: Vec<char> = Vec::new();
            push_str(&mut fid, "skill.no-name.");
            push_str(&mut fid, name);
            let mut m: Vec<char> = Vec::new();
            push_str(&mut m, file.as_str());
            push_str(&mut m, " frontmatter has no 'name:'");
            let mut rem: Vec<char> = Vec::new();
            push_str(&mut rem, "add 'name: ");
            push_str(&mut rem, name);
            push_str(&mut rem, "'");
            push_finding(&mut out, string_of(&fid), Severity::Error, string_of(&m), string_of(&rem));
        },
        Some(d) => {
            let dc = chars_of(d);
            if !seq_eq(&dc, &chars_of(name)) {
                let mut fid: Vec<char> = Vec::new();
                push_str(&mut fid, "skill.name-mismatch.");
                push_str(&mut fid, name);
                let mut m: Vec<char> = Vec::new();
                push_str(&mut m, file.as_str());
                push_str(&mut m, " declares name '");
                push_str(&mut m, d);
                push_str(&mut m, "' but lives in '");
                push_str(&mut m, name);
                push_str(&mut m, "/'");
                push_finding(&mut out, string_of(&fid), Severity::Error, string_of(&m),
                    "make them agree — the directory name is what gets invoked".to_owned());
            }
        },
    }
    let ghost after_name = findings_view(out@);
    let has_desc = match &fm {
        Some(f) => f.has("description"),
        None => false,
    };
    if !has_desc {
        let mut fid: Vec<char> = Vec::new();
        push_str(&mut fid, "skill.no-description.");
        push_str(&mut fid, name);
        let mut m: Vec<char> = Vec::new();
        push_str(&mut m, file.as_str());
        push_str(&mut m, " frontmatter has no 'description:'");
        push_finding(&mut out, string_of(&fid), Severity::Error, string_of(&m),
            "add one — it is the only thing a model sees when deciding to load the skill".to_owned());
    }
    match unquoted_values(t) {
        Some(u) => {
            let mut fid: Vec<char> = Vec::new();
            push_str(&mut fid, "skill.unquoted-value.");
            push_str(&mut fid, name);
            let mut m: Vec<char> = Vec::new();
            push_str(&mut m, file.as_str());
            push_str(&mut m, " frontmatter value(s) contain a colon and are not quoted: ");
            push_str(&mut m, u.as_str());
            push_finding(&mut out, string_of(&fid), Severity::Warning, string_of(&m),
                "wrap the value in single quotes, doubling any apostrophe inside it".to_owned());
        },
        None => {},
    }
    assert(findings_view(out@) =~= skill_source_findings(root@, name@, Some(t@)));
    out
}

/// One asset's wiring in the project scope: its target and, when it could
/// be classified, the state there.
pub struct Wiring {
    pub kind: AssetKind,
    pub name: String,
    pub target: String,
    pub state: Option<AssetState>,
}

/// One entry of a vendor directory: its path, and whether it is a symlink.
pub struct DirEntry {
    pub path: String,
    pub is_symlink: bool,
}

/// The findings for one asset's wiring: every asset must be linked.
pub open spec fn wiring_findings(w: Wiring) -> Seq<FindingView> {
    match w.state {
        Some(AssetState::Missing) => seq![(
            "wire.missing."@ + w.name@,
            Severity::Error,
            w.name@ + " is not wired into "@ + w.target@,
            "run: pinst harness install --scope project --"@ + crate::harness::install::plan::kind_word(w.kind) + " "@
                + w.name@ + " --drift overwrite"@,
        )],
        Some(AssetState::Foreign) => seq![(
            "wire.broken."@ + w.name@,
            Severity::Error,
            w.target@ + " is a symlink that does not resolve to the harness source"@,
            "run: pinst harness install --scope project --force"@,
        )],
        Some(AssetState::Copied) | Some(AssetState::Drifted) => seq![(
            "wire.not-a-link."@ + w.name@,
            Severity::Error,
            w.target@ + " exists but is not a symlink"@,
            "run: pinst harness install --scope project --drift overwrite"@,
        )],
        _ => Seq::empty(),
    }
}

/// The index of the last `.` in a name, if any.
pub open spec fn last_dot(name: Seq<char>) -> Option<int>
    decreases name.len(),
{
    if name.len() == 0 {
        None
    } else if name.last() == '.' {
        Some(name.len() - 1)
    } else {
        last_dot(name.drop_last())
    }
}

/// Where `last_dot` points: at a `.`, with none after it.
pub proof fn lemma_last_dot(name: Seq<char>)
    ensures
        match last_dot(name) {
            Some(i) => 0 <= i < name.len() && name[i] == '.' && forall|j: int| i < j < name.len() ==> name[j] != '.',
            None => forall|j: int| 0 <= j < name.len() ==> name[j] != '.',
        },
    decreases name.len(),
{
    if name.len() > 0 && name.last() != '.' {
        let d = name.drop_last();
        lemma_last_dot(d);
        assert forall|j: int| 0 <= j < d.len() implies d[j] == name[j] by {}
    }
}

/// The `.`-extension of a file name, when it has one: the text after its
/// last `.`, when that `.` is not the name's first character (and the name
/// is not `..`).
pub open spec fn extension(name: Seq<char>) -> Option<Seq<char>> {
    match last_dot(name) {
        Some(i) => if i > 0 && name != ".."@ { Some(name.skip(i + 1)) } else { None },
        None => None,
    }
}

/// A file name without its extension.
pub open spec fn stem(name: Seq<char>) -> Seq<char> {
    match extension(name) {
        Some(ext) => name.take(name.len() - ext.len() - 1),
        None => name,
    }
}

/// The asset name a vendor-directory entry stands for: a command file's
/// stem (only for `.md` files), a skill directory's name.
pub open spec fn entry_name(path: Seq<char>, commands: bool) -> Option<Seq<char>> {
    let f = file_name(path);
    if commands {
        if extension(f) == Some("md"@) { Some(stem(f)) } else { None }
    } else {
        Some(f)
    }
}

/// An entry in a vendor directory that names no known asset: a dangling
/// link left by this harness, or something put there by hand.
pub open spec fn unmanaged_findings(entries: Seq<DirEntry>, known: Seq<Seq<char>>, commands: bool, n: int) -> Seq<FindingView>
    decreases n,
{
    if n <= 0 {
        Seq::empty()
    } else {
        let e = entries[n - 1];
        unmanaged_findings(entries, known, commands, n - 1) + match entry_name(e.path@, commands) {
            None => Seq::empty(),
            Some(name) => if known.contains(name) {
                Seq::<FindingView>::empty()
            } else if e.is_symlink {
                seq![(
                    "wire.orphan."@ + name,
                    Severity::Warning,
                    e.path@ + " links to a skill that no longer exists"@,
                    "remove it, or run: pinst harness uninstall --scope project --all --force"@,
                )]
            } else {
                seq![(
                    "wire.unmanaged."@ + name,
                    Severity::Warning,
                    e.path@ + " is not managed by .agents/"@,
                    "move it into .agents/skills/<name> (or commands/) so it is versioned with the rest of the harness"@,
                )]
            },
        }
    }
}

/// The names of the assets of `kind` among the first `n`.
pub open spec fn known_names(ws: Seq<Wiring>, kind: AssetKind, n: int) -> Seq<Seq<char>>
    decreases n,
{
    if n <= 0 {
        Seq::empty()
    } else if ws[n - 1].kind == kind {
        known_names(ws, kind, n - 1).push(ws[n - 1].name@)
    } else {
        known_names(ws, kind, n - 1)
    }
}

pub open spec fn all_wiring_findings(ws: Seq<Wiring>, n: int) -> Seq<FindingView>
    decreases n,
{
    if n <= 0 {
        Seq::empty()
    } else {
        all_wiring_findings(ws, n - 1) + wiring_findings(ws[n - 1])
    }
}

/// The project scope's wiring: every asset linked, then whatever the
/// skills and commands directories hold that names no asset.
pub open spec fn check_wiring_spec(ws: Seq<Wiring>, skills: Seq<DirEntry>, commands: Seq<DirEntry>) -> Seq<FindingView> {
    all_wiring_findings(ws, ws.len() as int)
        + unmanaged_findings(skills, known_names(ws, AssetKind::Skill, ws.len() as int), false, skills.len() as int)
        + unmanaged_findings(commands, known_names(ws, AssetKind::Command, ws.len() as int), true, commands.len() as int)
}

fn push_wiring(out: &mut Vec<Finding>, w: &Wiring)
    ensures
        findings_view(final(out)@) == findings_view(old(out)@) + wiring_findings(*w),
{
    let ghost before = findings_view(out@);
    match w.state {
        Some(AssetState::Missing) => {
            let mut fid: Vec<char> = Vec::new();
            push_str(&mut fid, "wire.missing.");
            push_str(&mut fid, w.name.as_str());
            let mut m: Vec<char> = Vec::new();
            push_str(&mut m, w.name.as_str());
            push_str(&mut m, " is not wired into ");
            push_str(&mut m, w.target.as_str());
            let mut rem: Vec<char> = Vec::new();
            push_str(&mut rem, "run: pinst harness install --scope project --");
            match w.kind {
                AssetKind::Skill => push_str(&mut rem, "skill"),
                AssetKind::Command => push_str(&mut rem, "command"),
            }
            push_str(&mut rem, " ");
            push_str(&mut rem, w.name.as_str());
            push_str(&mut rem, " --drift overwrite");
            push_finding(out, string_of(&fid), Severity::Error, string_of(&m), string_of(&rem));
        },
        Some(AssetState::Foreign) => {
            let mut fid: Vec<char> = Vec::new();
            push_str(&mut fid, "wire.broken.");
            push_str(&mut fid, w.name.as_str());
            let mut m: Vec<char> = Vec::new();
            push_str(&mut m, w.target.as_str());
            push_str(&mut m, " is a symlink that does not resolve to the harness source");
            push_finding(out, string_of(&fid), Severity::Error, string_of(&m),
                "run: pinst harness install --scope project --force".to_owned());
        },
        Some(AssetState::Copied) | Some(AssetState::Drifted) => {
            let mut fid: Vec<char> = Vec::new();
            push_str(&mut fid, "wire.not-a-link.");
            push_str(&mut fid, w.name.as_str());
            let mut m: Vec<char> = Vec::new();
            push_str(&mut m, w.target.as_str());
            push_str(&mut m, " exists but is not a symlink");
            push_finding(out, string_of(&fid), Severity::Error, string_of(&m),
                "run: pinst harness install --scope project --drift overwrite".to_owned());
        },
        _ => {},
    }
    assert(findings_view(out@) =~= before + wiring_findings(*w));
}

fn last_dot_exec(name: &[char]) -> (r: Option<usize>)
    ensures
        match last_dot(name@) {
            Some(i) => r == Some(i as usize),
            None => r is None,
        },
{
    let mut b = name.len();
    assert(name@.take(b as int) == name@);
    while b > 0 && name[b - 1] != '.'
        invariant
            b <= name@.len(),
            last_dot(name@) == last_dot(name@.take(b as int)),
        decreases b,
    {
        assert(name@.take(b as int).drop_last() == name@.take(b - 1));
        b = b - 1;
    }
    if b == 0 {
        None
    } else {
        Some(b - 1)
    }
}

/// The asset name a vendor-directory entry stands for, if any.
pub(crate) fn entry_name_exec(path: &str, commands: bool) -> (r: Option<Vec<char>>)
    ensures
        match entry_name(path@, commands) {
            Some(n) => r is Some && r->0@ == n,
            None => r is None,
        },
{
    let f = file_name_exec(path);
    if !commands {
        return Some(f);
    }
    let ghost fv = f@;
    let dots = chars_of("..");
    proof {
        reveal_strlit("..");
        reveal_strlit("md");
    }
    proof {
        lemma_last_dot(fv);
    }
    match last_dot_exec(&f) {
        Some(i) => {
            if i > 0 && !seq_eq(&f, &dots) {
                let ext = slice_vec(&f, i + 1, f.len());
                assert(ext@ =~= fv.skip(i + 1));
                if seq_eq(&ext, &chars_of("md")) {
                    let st = slice_vec(&f, 0, i);
                    assert(st@ =~= fv.take(fv.len() - ext@.len() - 1));
                    Some(st)
                } else {
                    None
                }
            } else {
                None
            }
        },
        None => None,
    }
}

pub(crate) fn contains_name(known: &Vec<Vec<char>>, name: &[char]) -> (r: bool)
    ensures
        r == known@.map_values(|v: Vec<char>| v@).contains(name@),
{
    let ghost kv = known@.map_values(|v: Vec<char>| v@);
    let mut i: usize = 0;
    while i < known.len()
        invariant
            i <= known@.len(),
            kv == known@.map_values(|v: Vec<char>| v@),
            forall|j: int| 0 <= j < i ==> kv[j] != name@,
        decreases known.len() - i,
    {
        if seq_eq(&known[i], name) {
            assert(kv[i as int] == name@);
            return true;
        }
        i = i + 1;
    }
    false
}

fn push_unmanaged(out: &mut Vec<Finding>, entries: &[DirEntry], known: &Vec<Vec<char>>, commands: bool)
    ensures
        findings_view(final(out)@) == findings_view(old(out)@)
            + unmanaged_findings(entries@, known@.map_values(|v: Vec<char>| v@), commands, entries@.len() as int),
{
    let ghost kv = known@.map_values(|v: Vec<char>| v@);
    let ghost start = findings_view(out@);
    let mut i: usize = 0;
    while i < entries.len()
        invariant
            i <= entries@.len(),
            kv == known@.map_values(|v: Vec<char>| v@),
            findings_view(out@) == start + unmanaged_findings(entries@, kv, commands, i as int),
        decreases entries.len() - i,
    {
        let e = &entries[i];
        let ghost before = findings_view(out@);
        match entry_name_exec(e.path.as_str(), commands) {
            None => {},
            Some(name) => {
                if !contains_name(known, &name) {
                    if e.is_symlink {
                        let mut fid: Vec<char> = Vec::new();
                        push_str(&mut fid, "wire.orphan.");
                        push_all(&mut fid, &name);
                        let mut m: Vec<char> = Vec::new();
                        push_str(&mut m, e.path.as_str());
                        push_str(&mut m, " links to a skill that no longer exists");
                        push_finding(out, string_of(&fid), Severity::Warning, string_of(&m),
                            "remove it, or run: pinst harness uninstall --scope project --all --force".to_owned());
                    } else {
                        let mut fid: Vec<char> = Vec::new();
                        push_str(&mut fid, "wire.unmanaged.");
                        push_all(&mut fid, &name);
                        let mut m: Vec<char> = Vec::new();
                        push_str(&mut m, e.path.as_str());
                        push_str(&mut m, " is not managed by .agents/");
                        push_finding(out, string_of(&fid), Severity::Warning, string_of(&m),
                            "move it into .agents/skills/<name> (or commands/) so it is versioned with the rest of the harness".to_owned());
                    }
                }
            },
        }
        assert(findings_view(out@) =~= start + unmanaged_findings(entries@, kv, commands, i + 1));
        i = i + 1;
    }
}

/// The project scope's wiring findings: `ws` holds every asset's target
/// and its classified state, `skills` and `commands` what the vendor's
/// skills and commands directories hold.
pub fn check_wiring(ws: &[Wiring], skills: &[DirEntry], commands: &[DirEntry]) -> (r: Vec<Finding>)
    ensures
        findings_view(r@) == check_wiring_spec(ws@, skills@, commands@),
{
    let mut out: Vec<Finding> = Vec::new();
    let mut known_skills: Vec<Vec<char>> = Vec::new();
    let mut known_commands: Vec<Vec<char>> = Vec::new();
    let mut i: usize = 0;
    while i < ws.len()
        invariant
            i <= ws@.len(),
            findings_view(out@) == all_wiring_findings(ws@, i as int),
            known_skills@.map_values(|v: Vec<char>| v@) == known_names(ws@, AssetKind::Skill, i as int),
            known_commands@.map_values(|v: Vec<char>| v@) == known_names(ws@, AssetKind::Command, i as int),
        decreases ws.len() - i,
    {
        let w = &ws[i];
        let nm = chars_of(w.name.as_str());
        match w.kind {
            AssetKind::Skill => {
                let ghost b = known_skills@.map_values(|v: Vec<char>| v@);
                known_skills.push(nm);
                assert(known_skills@.map_values(|v: Vec<char>| v@) =~= b.push(w.name@));
            },
            AssetKind::Command => {
                let ghost b = known_commands@.map_values(|v: Vec<char>| v@);
                known_commands.push(nm);
                assert(known_commands@.map_values(|v: Vec<char>| v@) =~= b.push(w.name@));
            },
        }
        push_wiring(&mut out, w);
        i = i + 1;
    }
    push_unmanaged(&mut out, skills, &known_skills, false);
    push_unmanaged(&mut out, commands, &known_commands, true);
    out
}

} // verus!
