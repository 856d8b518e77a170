//! What the dashboard's harness tab shows, as text: each state's label, an
//! asset's preview section and the install/uninstall confirmation. The
//! terminal front end only lays these out and colours them by tone.

use vstd::prelude::*;

use crate::harness::install::receipt::{scope_label, ReceiptScope};
use crate::harness::install::state::AssetState;
use crate::harness::preview::{Preview, MAX_PREVIEW_BYTES};
use crate::upgrade::{opt_view, UpgradeCheck, UpgradeCheckState};
use crate::text::{chars_of, decimal, lines, lines_vec, push_decimal, push_str, string_of};

verus! {

/// How a piece of text is coloured.
#[derive(Debug, Clone, Copy, PartialEq, Eq, Structural)]
pub enum Tone {
    Good,
    Bad,
    Warn,
    Muted,
    Accent,
    Title,
    Plain,
}

pub open spec fn state_label_spec(state: AssetState) -> (Seq<char>, Tone) {
    match state {
        AssetState::Linked | AssetState::Copied => ("ok"@, Tone::Good),
        AssetState::Missing => ("missing"@, Tone::Bad),
        AssetState::Drifted | AssetState::Foreign => ("drifted"@, Tone::Warn),
        AssetState::Unmanaged => ("unmanaged"@, Tone::Muted),
    }
}

/// A state as the tab names and colours it.
pub fn state_label(state: AssetState) -> (r: (&'static str, Tone))
    ensures
        (r.0@, r.1) == state_label_spec(state),
{
    match state {
        AssetState::Linked | AssetState::Copied => ("ok", Tone::Good),
        AssetState::Missing => ("missing", Tone::Bad),
        AssetState::Drifted | AssetState::Foreign => ("drifted", Tone::Warn),
        AssetState::Unmanaged => ("unmanaged", Tone::Muted),
    }
}

/// One displayed line: its spans, each with a tone.
pub type LineView = Seq<(Seq<char>, Tone)>;

pub open spec fn line_view(l: Vec<(String, Tone)>) -> LineView {
    l@.map_values(|s: (String, Tone)| (s.0@, s.1))
}

/// What a preview shows below its `label: path` heading, then a blank line.
pub open spec fn preview_body(preview: Preview) -> Seq<LineView> {
    match preview {
        Preview::Text { body, total_bytes, truncated } => {
            let text = lines(body@).map_values(|l: Seq<char>| seq![(l, Tone::Plain)]);
            if truncated {
                text.push(seq![(
                    "… truncated: showing first "@ + decimal(MAX_PREVIEW_BYTES as nat) + " of "@ + decimal(total_bytes as nat) + " bytes"@,
                    Tone::Warn,
                )])
            } else {
                text
            }
        },
        Preview::Empty => seq![seq![("(empty file)"@, Tone::Muted)]],
        Preview::Missing => seq![seq![("(not installed — nothing at this path)"@, Tone::Bad)]],
        Preview::Binary { bytes } => seq![seq![("(binary content, "@ + decimal(bytes as nat) + " bytes)"@, Tone::Warn)]],
        Preview::Error(e) => seq![seq![("(could not read: "@ + e@ + ")"@, Tone::Bad)]],
    }
}

pub open spec fn preview_section_spec(label: Seq<char>, path: Seq<char>, preview: Preview) -> Seq<LineView> {
    seq![seq![(label + ": "@, Tone::Accent), (path, Tone::Muted)]] + preview_body(preview) + seq![Seq::<(Seq<char>, Tone)>::empty()]
}

fn one(text: String, tone: Tone) -> (r: Vec<(String, Tone)>)
    ensures
        line_view(r) == seq![(text@, tone)],
{
    let mut l: Vec<(String, Tone)> = Vec::new();
    l.push((text, tone));
    assert(line_view(l) =~= seq![(text@, tone)]);
    l
}

/// A preview, as the tab shows it under `label: path`.
pub fn preview_section(label: &str, path: &str, preview: &Preview) -> (r: Vec<Vec<(String, Tone)>>)
    ensures
        r@.map_values(|l: Vec<(String, Tone)>| line_view(l)) == preview_section_spec(label@, path@, *preview),
{
    let mut out: Vec<Vec<(String, Tone)>> = Vec::new();
    let mut head_label: Vec<char> = chars_of(label);
    push_str(&mut head_label, ": ");
    let mut head: Vec<(String, Tone)> = Vec::new();
    head.push((string_of(&head_label), Tone::Accent));
    head.push((path.to_owned(), Tone::Muted));
    assert(line_view(head) =~= seq![(label@ + ": "@, Tone::Accent), (path@, Tone::Muted)]);
    out.push(head);
    let ghost start = out@.map_values(|l: Vec<(String, Tone)>| line_view(l));
    assert(start =~= seq![seq![(label@ + ": "@, Tone::Accent), (path@, Tone::Muted)]]);
    match preview {
        Preview::Text { body, total_bytes, truncated } => {
            let c = chars_of(body.as_str());
            let ls = lines_vec(&c);
            let ghost lv = lines(body@);
            let mut i: usize = 0;
            while i < ls.len()
                invariant
                    i <= ls@.len(),
                    ls@.len() == lv.len(),
                    lv == lines(body@),
                    forall|j: int| 0 <= j < ls@.len() ==> #[trigger] ls@[j]@ == lv[j],
                    out@.map_values(|l: Vec<(String, Tone)>| line_view(l)) == start + lv.take(i as int).map_values(
                        |l: Seq<char>| seq![(l, Tone::Plain)],
                    ),
                decreases ls.len() - i,
            {
                let ghost before = out@.map_values(|l: Vec<(String, Tone)>| line_view(l));
                out.push(one(string_of(&ls[i]), Tone::Plain));
                assert(lv.take(i + 1).map_values(|l: Seq<char>| seq![(l, Tone::Plain)]) =~= lv.take(i as int).map_values(
                    |l: Seq<char>| seq![(l, Tone::Plain)],
                ).push(seq![(lv[i as int], Tone::Plain)]));
                assert(out@.map_values(|l: Vec<(String, Tone)>| line_view(l)) =~= before.push(seq![(lv[i as int], Tone::Plain)]));
                i = i + 1;
            }
            assert(lv.take(ls@.len() as int) =~= lv);
            let ghost mid = out@.map_values(|l: Vec<(String, Tone)>| line_view(l));
            if *truncated {
                let mut m: Vec<char> = Vec::new();
                push_str(&mut m, "… truncated: showing first ");
                push_decimal(&mut m, MAX_PREVIEW_BYTES as u64);
                push_str(&mut m, " of ");
                push_decimal(&mut m, *total_bytes as u64);
                push_str(&mut m, " bytes");
                out.push(one(string_of(&m), Tone::Warn));
                assert(out@.map_values(|l: Vec<(String, Tone)>| line_view(l)) =~= mid.push(seq![(m@, Tone::Warn)]));
            }
            assert(out@.map_values(|l: Vec<(String, Tone)>| line_view(l)) =~= start + preview_body(*preview));
        },
        Preview::Empty => {
            out.push(one("(empty file)".to_owned(), Tone::Muted));
            assert(out@.map_values(|l: Vec<(String, Tone)>| line_view(l)) =~= start + preview_body(*preview));
        },
        Preview::Missing => {
            out.push(one("(not installed — nothing at this path)".to_owned(), Tone::Bad));
            assert(out@.map_values(|l: Vec<(String, Tone)>| line_view(l)) =~= start + preview_body(*preview));
        },
        Preview::Binary { bytes } => {
            let mut m: Vec<char> = Vec::new();
            push_str(&mut m, "(binary content, ");
            push_decimal(&mut m, *bytes as u64);
            push_str(&mut m, " bytes)");
            out.push(one(string_of(&m), Tone::Warn));
            assert(out@.map_values(|l: Vec<(String, Tone)>| line_view(l)) =~= start + preview_body(*preview));
        },
        Preview::Error(e) => {
            let mut m: Vec<char> = Vec::new();
            push_str(&mut m, "(could not read: ");
            push_str(&mut m, e.as_str());
            push_str(&mut m, ")");
            out.push(one(string_of(&m), Tone::Bad));
            assert(out@.map_values(|l: Vec<(String, Tone)>| line_view(l)) =~= start + preview_body(*preview));
        },
    }
    let ghost body_done = out@.map_values(|l: Vec<(String, Tone)>| line_view(l));
    assert(body_done == start + preview_body(*preview));
    let blank: Vec<(String, Tone)> = Vec::new();
    assert(line_view(blank) =~= Seq::<(Seq<char>, Tone)>::empty());
    out.push(blank);
    assert(out@.map_values(|l: Vec<(String, Tone)>| line_view(l)) =~= body_done.push(Seq::<(Seq<char>, Tone)>::empty()));
    assert(out@.map_values(|l: Vec<(String, Tone)>| line_view(l)) =~= preview_section_spec(label@, path@, *preview));
    out
}

pub open spec fn modal_text_spec(scope: ReceiptScope, install: bool, selected: bool, steps: Option<usize>) -> Seq<char> {
    let verb = if install { "install"@ } else { "uninstall"@ };
    let target = if selected { " selected asset"@ } else { " all assets"@ };
    match steps {
        Some(n) => verb + target + " at "@ + scope_label(scope) + " scope: "@ + decimal(n as nat)
            + " step(s)\ndrift: overwrite with backup\n\n[Enter] confirm   [Esc] cancel"@,
        None => "calculating "@ + verb + target + " for "@ + scope_label(scope) + " scope...\n\n[Esc] cancel"@,
    }
}

/// The install/uninstall confirmation: what is about to happen and at which
/// scope, or that its plan is still being worked out.
pub fn modal_text(scope: ReceiptScope, install: bool, selected: bool, steps: Option<usize>) -> (r: String)
    ensures
        r@ == modal_text_spec(scope, install, selected, steps),
{
    let verb = if install { "install" } else { "uninstall" };
    let target = if selected { " selected asset" } else { " all assets" };
    let mut m: Vec<char> = Vec::new();
    match steps {
        Some(n) => {
            push_str(&mut m, verb);
            push_str(&mut m, target);
            push_str(&mut m, " at ");
            push_str(&mut m, scope.label());
            push_str(&mut m, " scope: ");
            push_decimal(&mut m, n as u64);
            push_str(&mut m, " step(s)\ndrift: overwrite with backup\n\n[Enter] confirm   [Esc] cancel");
        },
        None => {
            push_str(&mut m, "calculating ");
            push_str(&mut m, verb);
            push_str(&mut m, target);
            push_str(&mut m, " for ");
            push_str(&mut m, scope.label());
            push_str(&mut m, " scope...\n\n[Esc] cancel");
        },
    }
    assert(m@ =~= modal_text_spec(scope, install, selected, steps));
    string_of(&m)
}

// --- the upgrades tab --------------------------------------------------------

/// A completed check carries its result: what the upgrades tab reads.
pub open spec fn check_shown(check: Option<&UpgradeCheck>) -> bool {
    match check {
        Some(c) => (c.state == UpgradeCheckState::Cached || c.state == UpgradeCheckState::Checked) ==> c.result is Some,
        None => true,
    }
}

/// A tool's row in the upgrades tab: the latest version, the status and its
/// tone. `check` is the tool's check so far, `loading` whether checks are
/// still running.
pub open spec fn upgrade_row_spec(check: Option<&UpgradeCheck>, loading: bool) -> (Seq<char>, Seq<char>, Tone) {
    match check {
        None => if loading { ("-"@, "checking..."@, Tone::Muted) } else { ("-"@, "unavailable"@, Tone::Muted) },
        Some(c) => match c.state {
            UpgradeCheckState::Unsupported => ("-"@, "unsupported"@, Tone::Muted),
            UpgradeCheckState::NotApplicable => ("-"@, "not checkable"@, Tone::Muted),
            UpgradeCheckState::Unavailable => ("-"@, "unavailable"@, Tone::Muted),
            _ => {
                let r = c.result->0;
                let latest = match opt_view(r.latest) {
                    Some(l) => l,
                    None => "-"@,
                };
                let cached = c.state == UpgradeCheckState::Cached;
                if r.upgrade_available {
                    (latest, if cached { "cached upgrade"@ } else { "upgrade available"@ }, Tone::Warn)
                } else {
                    (latest, if cached { "cached current"@ } else { "up to date"@ }, Tone::Good)
                }
            },
        },
    }
}

pub fn upgrade_row(check: Option<&UpgradeCheck>, loading: bool) -> (r: (String, &'static str, Tone))
    requires
        check_shown(check),
    ensures
        (r.0@, r.1@, r.2) == upgrade_row_spec(check, loading),
{
    proof {
        reveal_strlit("-");
        reveal_strlit("checking...");
        reveal_strlit("unavailable");
        reveal_strlit("unsupported");
        reveal_strlit("not checkable");
        reveal_strlit("cached upgrade");
        reveal_strlit("upgrade available");
        reveal_strlit("cached current");
        reveal_strlit("up to date");
    }
    match check {
        None => if loading { ("-".to_owned(), "checking...", Tone::Muted) } else { ("-".to_owned(), "unavailable", Tone::Muted) },
        Some(c) => match c.state {
            UpgradeCheckState::Unsupported => ("-".to_owned(), "unsupported", Tone::Muted),
            UpgradeCheckState::NotApplicable => ("-".to_owned(), "not checkable", Tone::Muted),
            UpgradeCheckState::Unavailable => ("-".to_owned(), "unavailable", Tone::Muted),
            _ => {
                let r = match &c.result {
                    Some(r) => r,
                    None => {
                        return ("-".to_owned(), "unavailable", Tone::Muted);
                    },
                };
                let latest = match &r.latest {
                    Some(l) => l.as_str().to_owned(),
                    None => "-".to_owned(),
                };
                let cached = match c.state {
                    UpgradeCheckState::Cached => true,
                    _ => false,
                };
                if r.upgrade_available {
                    (latest, if cached { "cached upgrade" } else { "upgrade available" }, Tone::Warn)
                } else {
                    (latest, if cached { "cached current" } else { "up to date" }, Tone::Good)
                }
            },
        },
    }
}

/// The installed version a tool's row shows: the check's, or `-`.
pub open spec fn upgrade_current_spec(check: Option<&UpgradeCheck>) -> Seq<char> {
    match check {
        Some(c) => match c.result {
            Some(r) => match opt_view(r.current) {
                Some(v) => v,
                None => "-"@,
            },
            None => "-"@,
        },
        None => "-"@,
    }
}

pub fn upgrade_current(check: Option<&UpgradeCheck>) -> (r: String)
    ensures
        r@ == upgrade_current_spec(check),
{
    match check {
        Some(c) => match &c.result {
            Some(r) => match &r.current {
                Some(v) => v.as_str().to_owned(),
                None => "-".to_owned(),
            },
            None => "-".to_owned(),
        },
        None => "-".to_owned(),
    }
}

/// `es` after a count other than one.
pub open spec fn plural_es(n: nat) -> Seq<char> {
    if n == 1 { ""@ } else { "es"@ }
}

/// The upgrades tab's title: while checks run, how many have finished out of
/// all; under a search, how many tools match.
pub open spec fn upgrades_title_spec(loading: bool, query_empty: bool, matches: nat, checked: nat, total: nat) -> Seq<char> {
    if loading && query_empty {
        " Upgrades ("@ + decimal(checked) + "/"@ + decimal(total) + " checked) "@
    } else if loading {
        " Upgrades ("@ + decimal(matches) + " match"@ + plural_es(matches) + ", "@ + decimal(checked) + "/"@ + decimal(total)
            + " checked) "@
    } else if query_empty {
        " Upgrades "@
    } else {
        " Upgrades ("@ + decimal(matches) + " match"@ + plural_es(matches) + ") "@
    }
}

pub fn upgrades_title(loading: bool, query_empty: bool, matches: usize, checked: usize, total: usize) -> (r: String)
    ensures
        r@ == upgrades_title_spec(loading, query_empty, matches as nat, checked as nat, total as nat),
{
    let mut out: Vec<char> = Vec::new();
    if loading && query_empty {
        push_str(&mut out, " Upgrades (");
        push_decimal(&mut out, checked as u64);
        push_str(&mut out, "/");
        push_decimal(&mut out, total as u64);
        push_str(&mut out, " checked) ");
    } else if loading {
        push_str(&mut out, " Upgrades (");
        push_decimal(&mut out, matches as u64);
        push_str(&mut out, " match");
        if matches != 1 {
            push_str(&mut out, "es");
        } else {
            push_str(&mut out, "");
        }
        push_str(&mut out, ", ");
        push_decimal(&mut out, checked as u64);
        push_str(&mut out, "/");
        push_decimal(&mut out, total as u64);
        push_str(&mut out, " checked) ");
    } else if query_empty {
        push_str(&mut out, " Upgrades ");
    } else {
        push_str(&mut out, " Upgrades (");
        push_decimal(&mut out, matches as u64);
        push_str(&mut out, " match");
        if matches != 1 {
            push_str(&mut out, "es");
        } else {
            push_str(&mut out, "");
        }
        push_str(&mut out, ") ");
    }
    assert(out@ =~= upgrades_title_spec(loading, query_empty, matches as nat, checked as nat, total as nat));
    string_of(&out)
}

} // verus!
