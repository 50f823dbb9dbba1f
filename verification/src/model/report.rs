//! Analysis reports.
use vstd::prelude::*;
use crate::text::owned;
use crate::model::finding::Finding;
use crate::policy_eval::context_keys::utc_now;

verus! {

/// An instant, as Unix seconds and the nanoseconds within the second.
pub struct Timestamp {
    pub seconds: i64,
    pub nanos: u32,
}

/// The findings for an account, with when they were made.
pub struct Report {
    pub account_id: String,
    pub generated_at: Timestamp,
    pub findings: Vec<Finding>,
    pub description: String,
}

impl Report {
    /// A report made at the given instant.
    pub fn new_at(account_id: &str, findings: Vec<Finding>, generated_at: Timestamp) -> (r: Report)
        ensures
            r.account_id@ == account_id@,
            r.generated_at == generated_at,
            r.findings == findings,
            r.description@ == "IAM Recon analysis report"@,
    {
        Report { account_id: owned(account_id), generated_at, findings, description: owned("IAM Recon analysis report") }
    }

    /// A report made now.
    pub fn new(account_id: &str, findings: Vec<Finding>) -> (r: Report)
        ensures
            r.account_id@ == account_id@,
            r.findings == findings,
            r.description@ == "IAM Recon analysis report"@,
    {
        let (seconds, nanos) = utc_now();
        Report::new_at(account_id, findings, Timestamp { seconds, nanos })
    }
}

} // verus!
