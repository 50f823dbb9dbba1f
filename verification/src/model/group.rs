//! IAM groups.
use vstd::prelude::*;
use crate::model::policy::{Policy, PolicyRef};
use crate::text::{contains_seq, contains_str, owned};

verus! {

pub struct Group {
    pub arn: String,
    pub attached_policies: Vec<Policy>,
}

/// A group with its policies given by reference.
pub struct GroupData {
    pub arn: String,
    pub attached_policies: Vec<PolicyRef>,
}

/// `d` refers to the policies of `v` in order, by ARN and name.
pub open spec fn refs_of(d: Seq<PolicyRef>, v: Seq<Policy>) -> bool {
    &&& d.len() == v.len()
    &&& forall|i: int| 0 <= i < d.len() ==> (#[trigger] d[i]).arn@ == v[i].arn@ && d[i].name@ == v[i].name@
}

/// `d` is the stored form of the group `g`.
pub open spec fn stored_group(d: GroupData, g: Group) -> bool {
    d.arn@ == g.arn@ && refs_of(d.attached_policies@, g.attached_policies@)
}

impl Group {
    /// A group; its ARN must contain `group/`.
    pub fn new(arn: &str, attached_policies: Vec<Policy>) -> (r: Group)
        requires
            contains_seq(arn@, "group/"@),
        ensures
            r.arn@ == arn@,
            r.attached_policies == attached_policies,
    {
        Group { arn: owned(arn), attached_policies }
    }

    pub fn to_data(&self) -> (r: GroupData)
        ensures
            stored_group(r, *self),
            r.arn@ == self.arn@,
            r.attached_policies@.len() == self.attached_policies@.len(),
            forall|i: int| #![trigger r.attached_policies@[i]] 0 <= i < r.attached_policies@.len() ==>
                r.attached_policies@[i].arn@ == self.attached_policies@[i].arn@
                && r.attached_policies@[i].name@ == self.attached_policies@[i].name@,
    {
        let mut refs: Vec<PolicyRef> = Vec::new();
        let mut i: usize = 0;
        while i < self.attached_policies.len()
            invariant
                i <= self.attached_policies.len(),
                refs@.len() == i,
                forall|k: int| #![trigger refs@[k]] 0 <= k < i ==>
                    refs@[k].arn@ == self.attached_policies@[k].arn@
                    && refs@[k].name@ == self.attached_policies@[k].name@,
            decreases self.attached_policies.len() - i,
        {
            refs.push(self.attached_policies[i].to_ref());
            i = i + 1;
        }
        GroupData { arn: self.arn.clone(), attached_policies: refs }
    }

    /// Whether two groups hold the same ARN and the same policies.
    pub open spec fn same_as(self, other: Group) -> bool {
        self.arn@ == other.arn@ && self.attached_policies@.len() == other.attached_policies@.len()
            && forall|i: int| 0 <= i < self.attached_policies@.len() ==>
                #[trigger] self.attached_policies@[i].same_as(other.attached_policies@[i])
    }

    /// A copy of the group.
    pub fn copy(&self) -> (r: Group)
        ensures
            r.same_as(*self),
    {
        let mut ps: Vec<Policy> = Vec::new();
        let mut i: usize = 0;
        while i < self.attached_policies.len()
            invariant
                i <= self.attached_policies.len(),
                ps@.len() == i,
                forall|k: int| 0 <= k < i ==> #[trigger] ps@[k].same_as(self.attached_policies@[k]),
            decreases self.attached_policies.len() - i,
        {
            ps.push(self.attached_policies[i].copy());
            i = i + 1;
        }
        Group { arn: self.arn.clone(), attached_policies: ps }
    }
}

/// Whether a group ARN names the group `name`, as the membership lookup does.
pub fn arn_names_group(arn: &str, name: &str) -> (r: bool)
    ensures
        r == contains_seq(arn@, "group/"@ + name@),
{
    let mut pat = owned("group/");
    proof {
        reveal_strlit("group/");
    }
    pat.append(name);
    contains_str(arn, pat.as_str())
}

} // verus!
