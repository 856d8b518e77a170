//! The receipt an install leaves behind: what it placed, where, and how,
//! so an uninstall removes exactly that and nothing else.
//!
//! Reading and writing the JSON file is the caller's; the receipt's
//! contents, its path and the entries it keeps are decided here.

use vstd::prelude::*;

use super::state::AssetKindLabel;
use crate::path::{join, join_path};
use crate::prompt::ScopeArg;
use crate::text::{push_str, string_of};

verus! {

#[derive(Debug, Clone, Copy, PartialEq, Eq, Structural)]
pub enum LinkStyle {
    Symlink,
    Copy,
}

#[derive(Debug, Clone, Copy, PartialEq, Eq, Structural)]
pub enum ReceiptScope {
    Project,
    Global,
}

pub open spec fn scope_label(s: ReceiptScope) -> Seq<char> {
    match s {
        ReceiptScope::Project => "project"@,
        ReceiptScope::Global => "global"@,
    }
}

impl ReceiptScope {
    pub fn label(self) -> (r: &'static str)
        ensures
            r@ == scope_label(self),
    {
        match self {
            ReceiptScope::Project => "project",
            ReceiptScope::Global => "global",
        }
    }

    /// The scope a receipt describes; `both` is two scopes, not one.
    pub fn from_scope_arg(value: ScopeArg) -> (r: Result<ReceiptScope, String>)
        ensures
            value == ScopeArg::Project ==> r == Ok::<ReceiptScope, String>(ReceiptScope::Project),
            value == ScopeArg::Global ==> r == Ok::<ReceiptScope, String>(ReceiptScope::Global),
            value == ScopeArg::Both ==> r is Err && r->Err_0@ == "a receipt describes one scope; `both` is not one"@,
    {
        match value {
            ScopeArg::Project => Ok(ReceiptScope::Project),
            ScopeArg::Global => Ok(ReceiptScope::Global),
            ScopeArg::Both => Err("a receipt describes one scope; `both` is not one".to_owned()),
        }
    }
}

/// One placed asset.
#[derive(Debug)]
pub struct Entry {
    pub kind: AssetKindLabel,
    pub name: String,
    pub path: String,
    pub style: LinkStyle,
}

#[derive(Debug)]
pub struct Receipt {
    pub schema_version: u32,
    pub scope: ReceiptScope,
    pub vendor: String,
    pub source: String,
    pub installed_at: String,
    pub pinst_version: String,
    pub entries: Vec<Entry>,
}

pub const RECEIPT_SCHEMA_VERSION: u32 = 1;

/// An entry as plain values.
pub type EntryView = (AssetKindLabel, Seq<char>, Seq<char>, LinkStyle);

pub open spec fn entry_view(e: Entry) -> EntryView {
    (e.kind, e.name@, e.path@, e.style)
}

pub open spec fn entries_view(es: Seq<Entry>) -> Seq<EntryView> {
    es.map_values(|e: Entry| entry_view(e))
}

/// `entries` without the one for (`kind`, `name`).
pub open spec fn without(es: Seq<EntryView>, kind: AssetKindLabel, name: Seq<char>) -> Seq<EntryView>
    decreases es.len(),
{
    if es.len() == 0 {
        Seq::empty()
    } else if es.last().0 == kind && es.last().1 == name {
        without(es.drop_last(), kind, name)
    } else {
        without(es.drop_last(), kind, name).push(es.last())
    }
}

impl Receipt {
    /// A receipt at the current schema version, stamped `installed_at` by
    /// the caller's clock.
    pub fn new(
        scope: ReceiptScope,
        vendor: &str,
        source: &str,
        entries: Vec<Entry>,
        installed_at: String,
        pinst_version: &str,
    ) -> (r: Receipt)
        ensures
            r.schema_version == RECEIPT_SCHEMA_VERSION,
            r.scope == scope,
            r.vendor@ == vendor@,
            r.source@ == source@,
            r.installed_at == installed_at,
            r.pinst_version@ == pinst_version@,
            r.entries == entries,
    {
        Receipt {
            schema_version: RECEIPT_SCHEMA_VERSION,
            scope,
            vendor: vendor.to_owned(),
            source: source.to_owned(),
            installed_at,
            pinst_version: pinst_version.to_owned(),
            entries,
        }
    }

    /// Where the receipt of a scope lives: in the project's `.ash/`, or in
    /// the user's state directory.
    pub fn path_for(scope: ReceiptScope, project_root: &str, state_dir: &str) -> (r: String)
        ensures
            scope == ReceiptScope::Project ==> r@ == join(join(project_root@, ".ash"@), "harness.json"@),
            scope == ReceiptScope::Global ==> r@ == join(join(state_dir@, "pinst"@), "harness.json"@),
    {
        match scope {
            ReceiptScope::Project => {
                let ash = join_path(project_root, ".ash");
                join_path(ash.as_str(), "harness.json")
            },
            ReceiptScope::Global => {
                let p = join_path(state_dir, "pinst");
                join_path(p.as_str(), "harness.json")
            },
        }
    }

    pub fn is_empty(&self) -> (r: bool)
        ensures
            r == (self.entries@.len() == 0),
    {
        self.entries.len() == 0
    }

    /// Forgets the entry for (`kind`, `name`), keeping the rest in order.
    pub fn remove_entry(&mut self, kind: AssetKindLabel, name: &str)
        ensures
            entries_view(final(self).entries@) == without(entries_view(old(self).entries@), kind, name@),
            final(self).schema_version == old(self).schema_version,
            final(self).scope == old(self).scope,
            final(self).vendor == old(self).vendor,
            final(self).source == old(self).source,
            final(self).installed_at == old(self).installed_at,
            final(self).pinst_version == old(self).pinst_version,
    {
        let ghost ov = entries_view(self.entries@);
        let mut kept: Vec<Entry> = Vec::new();
        let rest = &self.entries;
        let n = rest.len();
        let nc = crate::text::chars_of(name);
        let mut i: usize = 0;
        while i < n
            invariant
                i <= n,
                n == ov.len(),
                rest@.len() == n,
                entries_view(rest@) == ov,
                nc@ == name@,
                entries_view(kept@) == without(ov.take(i as int), kind, name@),
            decreases n - i,
        {
            assert(ov.take(i + 1).drop_last() == ov.take(i as int));
            let e = &rest[i];
            assert(ov[i as int] == entry_view(rest@[i as int]));
            let ec = crate::text::chars_of(e.name.as_str());
            let same = e.kind == kind && crate::text::seq_eq(&ec, &nc);
            if !same {
                let copy = Entry { kind: e.kind, name: e.name.clone(), path: e.path.clone(), style: e.style };
                let ghost before = entries_view(kept@);
                kept.push(copy);
                assert(entries_view(kept@) =~= before.push(ov[i as int]));
            }
            i = i + 1;
        }
        assert(ov.take(n as int) == ov);
        self.entries = kept;
    }
}

/// The user's state directory: `$XDG_STATE_HOME` when it is set and not
/// empty, else `~/.local/state`.
pub fn state_dir_from(xdg_state_home: Option<&str>, home: &str) -> (r: String)
    ensures
        match xdg_state_home {
            Some(x) => if x@.len() > 0 { r@ == x@ } else { r@ == join(home@, ".local/state"@) },
            None => r@ == join(home@, ".local/state"@),
        },
{
    if let Some(x) = xdg_state_home {
        let c = crate::text::chars_of(x);
        if c.len() > 0 {
            return x.to_owned();
        }
    }
    join_path(home, ".local/state")
}

/// `YYYY-MM-DDTHH:MM:SSZ` of a Unix time in seconds.
pub open spec fn rfc3339_spec(secs: int) -> Seq<char> {
    let (y, mo, d) = crate::harness::id::civil_spec(secs / 86400);
    let rem = secs % 86400;
    crate::harness::renumber::padded(y as nat, 4) + "-"@ + crate::harness::renumber::padded(mo as nat, 2) + "-"@
        + crate::harness::renumber::padded(d as nat, 2) + "T"@ + crate::harness::renumber::padded((rem / 3600) as nat, 2) + ":"@
        + crate::harness::renumber::padded(((rem % 3600) / 60) as nat, 2) + ":"@ + crate::harness::renumber::padded((rem % 60) as nat, 2)
        + "Z"@
}

fn push_padded_to(out: &mut Vec<char>, n: u64, width: usize)
    ensures
        final(out)@ == old(out)@ + crate::harness::renumber::padded(n as nat, width as nat),
{
    let mut digits: Vec<char> = Vec::new();
    crate::text::push_decimal(&mut digits, n);
    assert(digits@ =~= crate::text::decimal(n as nat));
    if digits.len() < width {
        let pad = width - digits.len();
        let ghost base = out@;
        let mut k: usize = 0;
        while k < pad
            invariant
                k <= pad,
                out@ == base + Seq::new(k as nat, |i: int| '0'),
            decreases pad - k,
        {
            out.push('0');
            k = k + 1;
            assert(out@ =~= base + Seq::new(k as nat, |i: int| '0'));
        }
    }
    crate::text::push_all(out, &digits);
    assert(final(out)@ =~= old(out)@ + crate::harness::renumber::padded(n as nat, width as nat));
}

/// The time a receipt is stamped with, from the clock's seconds since the
/// Unix epoch (years from 0 on).
pub fn rfc3339(secs: i64) -> (r: String)
    requires
        0 <= secs <= 1_000_000_000_000,
    ensures
        r@ == rfc3339_spec(secs as int),
{
    let days = secs / 86400;
    let rem = secs % 86400;
    let (y, mo, d) = crate::harness::id::civil_from_days(days);
    assert(y >= 0) by {
        assert(days >= 0);
    }
    let mut out: Vec<char> = Vec::new();
    push_padded_to(&mut out, y as u64, 4);
    push_str(&mut out, "-");
    push_padded_to(&mut out, mo as u64, 2);
    push_str(&mut out, "-");
    push_padded_to(&mut out, d as u64, 2);
    push_str(&mut out, "T");
    push_padded_to(&mut out, (rem / 3600) as u64, 2);
    push_str(&mut out, ":");
    push_padded_to(&mut out, ((rem % 3600) / 60) as u64, 2);
    push_str(&mut out, ":");
    push_padded_to(&mut out, (rem % 60) as u64, 2);
    push_str(&mut out, "Z");
    assert(out@ =~= rfc3339_spec(secs as int));
    string_of(&out)
}

} // verus!
