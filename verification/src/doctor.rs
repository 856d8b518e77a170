//! Findings: what a check reports, with a stable id an agent can match on,
//! a severity, what is wrong and what to do about it.

use vstd::prelude::*;


verus! {

#[derive(Debug, Clone, Copy, PartialEq, Eq, Structural)]
pub enum Severity {
    Error,
    Warning,
    Info,
}

#[derive(Debug)]
pub struct Finding {
    /// Stable and literal, e.g. `phase.chain-gap.<plan>`.
    pub id: String,
    pub severity: Severity,
    pub message: String,
    pub remediation: String,
    /// Whether a fixer could resolve it without a decision.
    pub fixable: bool,
}

/// A finding as plain values: id, severity, message, remediation.
pub type FindingView = (Seq<char>, Severity, Seq<char>, Seq<char>);

pub open spec fn finding_view(f: Finding) -> FindingView {
    (f.id@, f.severity, f.message@, f.remediation@)
}

pub open spec fn findings_view(fs: Seq<Finding>) -> Seq<FindingView> {
    fs.map_values(|f: Finding| finding_view(f))
}

/// Appends one finding that no fixer could resolve.
pub fn push_finding(out: &mut Vec<Finding>, id: String, severity: Severity, message: String, remediation: String)
    ensures
        findings_view(final(out)@) == findings_view(old(out)@).push((id@, severity, message@, remediation@)),
{
    out.push(Finding { id, severity, message, remediation, fixable: false });
    assert(findings_view(final(out)@) =~= findings_view(old(out)@).push((id@, severity, message@, remediation@)));
}

} // verus!
