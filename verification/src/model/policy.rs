//! IAM policies (inline or managed). For an inline policy `arn` is the
//! principal's ARN; for a managed one, the policy's own ARN.
use vstd::prelude::*;
use crate::json::JsonValue;
use crate::text::owned;

verus! {

pub struct Policy {
    pub arn: String,
    pub name: String,
    pub policy_doc: JsonValue,
}

/// A reference to a policy by ARN and name.
pub struct PolicyRef {
    pub arn: String,
    pub name: String,
}

impl Policy {
    pub fn new(arn: &str, name: &str, policy_doc: JsonValue) -> (r: Policy)
        ensures
            r.arn@ == arn@,
            r.name@ == name@,
            r.policy_doc == policy_doc,
    {
        Policy { arn: owned(arn), name: owned(name), policy_doc }
    }

    pub fn to_ref(&self) -> (r: PolicyRef)
        ensures
            r.arn@ == self.arn@,
            r.name@ == self.name@,
    {
        PolicyRef { arn: self.arn.clone(), name: self.name.clone() }
    }

    /// Whether two policies hold the same ARN, name and document.
    pub open spec fn same_as(self, other: Policy) -> bool {
        self.arn@ == other.arn@ && self.name@ == other.name@ && self.policy_doc@ == other.policy_doc@
    }

    /// A copy of the policy.
    pub fn copy(&self) -> (r: Policy)
        ensures
            r.same_as(*self),
    {
        Policy { arn: self.arn.clone(), name: self.name.clone(), policy_doc: self.policy_doc.deep_copy() }
    }
}

} // verus!
