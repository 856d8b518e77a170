//! What an install or uninstall run leaves in the receipt.
//!
//! An install records the steps that ran or were already satisfied, and
//! nothing at all when any step failed; an uninstall forgets the entries it
//! removed. Loading, saving and deleting the file is the caller's.

use vstd::prelude::*;

use super::plan::{parse_step_id, parse_step_id_spec};
use super::receipt::{entries_view, entry_view, without, Entry, EntryView, LinkStyle, Receipt, ReceiptScope};
use super::state::{target_spec, AssetKindLabel};
use crate::harness::asset::AssetKind;
use crate::plan::{Outcome, StepReport};

verus! {

pub open spec fn label_of(k: AssetKind) -> AssetKindLabel {
    match k {
        AssetKind::Skill => AssetKindLabel::Skill,
        AssetKind::Command => AssetKindLabel::Command,
    }
}

pub open spec fn done(o: Outcome) -> bool {
    o == Outcome::Ran || o == Outcome::Skipped
}

/// The entries the first `n` reports add.
pub open spec fn new_entries(reports: Seq<StepReport>, skills_dir: Seq<char>, commands_dir: Seq<char>, style: LinkStyle, n: int) -> Seq<EntryView>
    decreases n,
{
    if n <= 0 {
        Seq::empty()
    } else {
        let r = reports[n - 1];
        let prev = new_entries(reports, skills_dir, commands_dir, style, n - 1);
        if done(r.outcome) {
            match parse_step_id_spec(r.id@) {
                Some((kind, name)) => prev.push((label_of(kind), name, target_spec(skills_dir, commands_dir, kind, name), style)),
                None => prev,
            }
        } else {
            prev
        }
    }
}

/// `existing` with each of `added` replacing any entry of its kind and
/// name, at the end.
pub open spec fn merged(existing: Seq<EntryView>, added: Seq<EntryView>) -> Seq<EntryView>
    decreases added.len(),
{
    if added.len() == 0 {
        existing
    } else {
        let m = merged(existing, added.drop_last());
        without(m, added.last().0, added.last().1).push(added.last())
    }
}

/// What an install run records: nothing when a step failed or nothing was
/// placed, else the existing entries merged with the placed ones. A
/// project install from a checkout is recorded as links, anything else as
/// copies.
pub open spec fn install_record(existing: Seq<EntryView>, reports: Seq<StepReport>, scope: ReceiptScope, tree: bool, skills_dir: Seq<char>, commands_dir: Seq<char>) -> Option<Seq<EntryView>> {
    let style = if tree && scope == ReceiptScope::Project { LinkStyle::Symlink } else { LinkStyle::Copy };
    let added = new_entries(reports, skills_dir, commands_dir, style, reports.len() as int);
    if (exists|k: int| 0 <= k < reports.len() && #[trigger] reports[k].outcome == Outcome::Failed) || added.len() == 0 {
        None
    } else {
        Some(merged(existing, added))
    }
}

fn clone_entry(e: &Entry) -> (r: Entry)
    ensures
        entry_view(r) == entry_view(*e),
{
    Entry { kind: e.kind, name: e.name.clone(), path: e.path.clone(), style: e.style }
}

fn remove_matching(entries: Vec<Entry>, kind: AssetKindLabel, name: &String) -> (r: Vec<Entry>)
    ensures
        entries_view(r@) == without(entries_view(entries@), kind, name@),
{
    let mut holder = Receipt {
        schema_version: 0,
        scope: ReceiptScope::Project,
        vendor: String::new(),
        source: String::new(),
        installed_at: String::new(),
        pinst_version: String::new(),
        entries,
    };
    holder.remove_entry(kind, name.as_str());
    holder.entries
}

/// The entries to save after an install run, or `None` to write nothing.
pub fn record_install(
    existing: Vec<Entry>,
    reports: &[StepReport],
    scope: ReceiptScope,
    tree: bool,
    skills_dir: &str,
    commands_dir: &str,
) -> (r: Option<Vec<Entry>>)
    ensures
        match install_record(entries_view(existing@), reports@, scope, tree, skills_dir@, commands_dir@) {
            Some(es) => r is Some && entries_view(r->0@) == es,
            None => r is None,
        },
{
    let mut k: usize = 0;
    while k < reports.len()
        invariant
            k <= reports@.len(),
            forall|j: int| 0 <= j < k ==> (#[trigger] reports@[j]).outcome != Outcome::Failed,
        decreases reports.len() - k,
    {
        if reports[k].outcome == Outcome::Failed {
            return None;
        }
        k = k + 1;
    }
    let style = if tree && scope == ReceiptScope::Project { LinkStyle::Symlink } else { LinkStyle::Copy };
    let mut added: Vec<Entry> = Vec::new();
    let mut i: usize = 0;
    while i < reports.len()
        invariant
            i <= reports@.len(),
            entries_view(added@) == new_entries(reports@, skills_dir@, commands_dir@, style, i as int),
        decreases reports.len() - i,
    {
        let r = &reports[i];
        if r.outcome == Outcome::Ran || r.outcome == Outcome::Skipped {
            match parse_step_id(r.id.as_str()) {
                Some((kind, name)) => {
                    let probe = crate::harness::asset::Asset { kind, name: name.clone(), files: Vec::new() };
                    let target = super::state::target_path(skills_dir, commands_dir, &probe);
                    let label = match kind {
                        AssetKind::Skill => AssetKindLabel::Skill,
                        AssetKind::Command => AssetKindLabel::Command,
                    };
                    let ghost before = entries_view(added@);
                    added.push(Entry { kind: label, name, path: target, style });
                    assert(entries_view(added@) =~= before.push(entries_view(added@).last()));
                },
                None => {},
            }
        }
        i = i + 1;
    }
    if added.len() == 0 {
        return None;
    }
    let mut out = existing;
    let mut j: usize = 0;
    let ghost ev = entries_view(out@);
    let ghost av = entries_view(added@);
    while j < added.len()
        invariant
            j <= added@.len(),
            av == entries_view(added@),
            entries_view(out@) == merged(ev, av.take(j as int)),
        decreases added.len() - j,
    {
        assert(av.take(j + 1).drop_last() == av.take(j as int));
        let e = clone_entry(&added[j]);
        let trimmed = remove_matching(out, e.kind, &e.name);
        out = trimmed;
        let ghost before = entries_view(out@);
        out.push(e);
        assert(entries_view(out@) =~= before.push(av[j as int]));
        j = j + 1;
    }
    assert(av.take(added@.len() as int) == av);
    Some(out)
}

/// What became of a receipt after an uninstall.
#[derive(Debug, Clone, Copy, PartialEq, Eq, Structural)]
pub enum UninstallOutcome {
    /// Entries remain; the receipt is saved.
    Updated,
    /// Nothing remains; the receipt is deleted.
    DeletedEmpty,
    /// `--purge`: the receipt is deleted though entries remain.
    Purged,
}

/// The entries left once every removed or already-gone step among the
/// first `n` reports is forgotten.
pub open spec fn after_uninstall(entries: Seq<EntryView>, reports: Seq<StepReport>, n: int) -> Seq<EntryView>
    decreases n,
{
    if n <= 0 {
        entries
    } else {
        let prev = after_uninstall(entries, reports, n - 1);
        let r = reports[n - 1];
        if done(r.outcome) {
            match parse_step_id_spec(r.id@) {
                Some((kind, name)) => without(prev, label_of(kind), name),
                None => prev,
            }
        } else {
            prev
        }
    }
}

/// Forgets what an uninstall removed, and says what to do with the file.
pub fn record_uninstall(receipt: Receipt, reports: &[StepReport], purge: bool) -> (r: (Receipt, UninstallOutcome))
    ensures
        entries_view(r.0.entries@) == after_uninstall(entries_view(receipt.entries@), reports@, reports@.len() as int),
        r.0.scope == receipt.scope && r.0.vendor == receipt.vendor && r.0.source == receipt.source,
        r.1 == (if r.0.entries@.len() == 0 {
            UninstallOutcome::DeletedEmpty
        } else if purge {
            UninstallOutcome::Purged
        } else {
            UninstallOutcome::Updated
        }),
{
    let mut receipt = receipt;
    let ghost start = entries_view(receipt.entries@);
    let ghost scope = receipt.scope;
    let ghost vendor = receipt.vendor;
    let ghost source = receipt.source;
    let mut i: usize = 0;
    while i < reports.len()
        invariant
            i <= reports@.len(),
            entries_view(receipt.entries@) == after_uninstall(start, reports@, i as int),
            receipt.scope == scope && receipt.vendor == vendor && receipt.source == source,
        decreases reports.len() - i,
    {
        let r = &reports[i];
        if r.outcome == Outcome::Ran || r.outcome == Outcome::Skipped {
            match parse_step_id(r.id.as_str()) {
                Some((kind, name)) => {
                    let label = match kind {
                        AssetKind::Skill => AssetKindLabel::Skill,
                        AssetKind::Command => AssetKindLabel::Command,
                    };
                    receipt.remove_entry(label, name.as_str());
                },
                None => {},
            }
        }
        i = i + 1;
    }
    let outcome = if receipt.is_empty() {
        UninstallOutcome::DeletedEmpty
    } else if purge {
        UninstallOutcome::Purged
    } else {
        UninstallOutcome::Updated
    };
    (receipt, outcome)
}

} // verus!
