//! Security findings of the risk analysis.
use vstd::prelude::*;
use crate::text::owned;

verus! {

/// How severe a finding is.
#[derive(Debug, Clone, Copy, PartialEq, Eq, Structural)]
pub enum Severity {
    Low,
    Medium,
    High,
}

/// The display name of a severity.
pub open spec fn severity_text(s: Severity) -> Seq<char> {
    match s {
        Severity::Low => "Low"@,
        Severity::Medium => "Medium"@,
        Severity::High => "High"@,
    }
}

impl Severity {
    /// The display name: `Low`, `Medium` or `High`.
    pub fn to_text(&self) -> (r: String)
        ensures
            r@ == severity_text(*self),
    {
        match self {
            Severity::Low => owned("Low"),
            Severity::Medium => owned("Medium"),
            Severity::High => owned("High"),
        }
    }
}

/// A security finding.
pub struct Finding {
    pub title: String,
    pub severity: Severity,
    pub impact: String,
    pub description: String,
    pub recommendation: String,
}

/// The content of a finding.
pub struct FindingSpec {
    pub title: Seq<char>,
    pub severity: Severity,
    pub impact: Seq<char>,
    pub description: Seq<char>,
    pub recommendation: Seq<char>,
}

impl View for Finding {
    type V = FindingSpec;

    open spec fn view(&self) -> FindingSpec {
        FindingSpec {
            title: self.title@,
            severity: self.severity,
            impact: self.impact@,
            description: self.description@,
            recommendation: self.recommendation@,
        }
    }
}

/// The contents of a list of findings.
pub open spec fn finding_views(v: Seq<Finding>) -> Seq<FindingSpec> {
    Seq::new(v.len(), |i: int| v[i]@)
}

impl Finding {
    pub fn new(title: &str, severity: Severity, impact: &str, description: &str, recommendation: &str) -> (r: Finding)
        ensures
            r.title@ == title@,
            r.severity == severity,
            r.impact@ == impact@,
            r.description@ == description@,
            r.recommendation@ == recommendation@,
    {
        Finding {
            title: owned(title),
            severity,
            impact: owned(impact),
            description: owned(description),
            recommendation: owned(recommendation),
        }
    }
}

} // verus!
