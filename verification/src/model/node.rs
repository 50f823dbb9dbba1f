//! IAM principals (users and roles).
use vstd::prelude::*;
use crate::json::JsonValue;
use crate::model::policy::{Policy, PolicyRef};
use crate::ci_map::strings_view;
use crate::model::group::{Group, refs_of};
use crate::text::{contains_seq, contains_str};
use crate::arns::{get_resource, resource_of};

verus! {

/// A principal tag.
pub struct Tag {
    pub key: String,
    pub value: String,
}

/// An IAM user or role.
pub struct Node {
    pub arn: String,
    pub id_value: String,
    pub attached_policies: Vec<Policy>,
    pub group_memberships: Vec<Group>,
    pub trust_policy: Option<JsonValue>,
    pub instance_profile: Option<Vec<String>>,
    pub active_password: bool,
    pub access_keys: u32,
    pub is_admin: bool,
    pub permissions_boundary: Option<Policy>,
    pub has_mfa: bool,
    pub tags: Vec<Tag>,
}

/// A principal with policies and groups given by reference.
pub struct NodeData {
    pub arn: String,
    pub id_value: String,
    pub attached_policies: Vec<PolicyRef>,
    pub group_memberships: Vec<String>,
    pub trust_policy: Option<JsonValue>,
    pub instance_profile: Option<Vec<String>>,
    pub active_password: bool,
    pub access_keys: u32,
    pub is_admin: bool,
    pub permissions_boundary: Option<PolicyRef>,
    pub has_mfa: bool,
    pub tags: Vec<Tag>,
}

impl Node {
    pub open spec fn spec_is_user(&self) -> bool {
        contains_seq(self.arn@, ":user/"@)
    }

    pub open spec fn spec_is_role(&self) -> bool {
        contains_seq(self.arn@, ":role/"@)
    }

    pub open spec fn spec_searchable_name(&self) -> Seq<char> {
        resource_of(self.arn@)
    }

    /// The searchable name, such as `user/Alice` or `role/Admin`.
    pub fn searchable_name(&self) -> (r: String)
        ensures
            r@ == self.spec_searchable_name(),
    {
        get_resource(self.arn.as_str())
    }

    /// The ARN contains `:user/`.
    pub fn is_user(&self) -> (r: bool)
        ensures
            r == self.spec_is_user(),
    {
        contains_str(self.arn.as_str(), ":user/")
    }

    /// The ARN contains `:role/`.
    pub fn is_role(&self) -> (r: bool)
        ensures
            r == self.spec_is_role(),
    {
        contains_str(self.arn.as_str(), ":role/")
    }

    /// All policies of the principal: its own, then those of its groups in order.
    pub fn all_policies(&self) -> (r: Vec<&Policy>)
        ensures
            r@.map_values(|p: &Policy| *p) == self.attached_policies@ + group_policies(self.group_memberships@),
    {
        let mut out: Vec<&Policy> = Vec::new();
        let mut i: usize = 0;
        while i < self.attached_policies.len()
            invariant
                i <= self.attached_policies.len(),
                out@.map_values(|p: &Policy| *p) == self.attached_policies@.take(i as int),
            decreases self.attached_policies.len() - i,
        {
            out.push(&self.attached_policies[i]);
            proof {
                assert(self.attached_policies@.take(i + 1) =~= self.attached_policies@.take(i as int).push(self.attached_policies@[i as int]));
                assert(out@.map_values(|p: &Policy| *p) =~= self.attached_policies@.take(i + 1));
            }
            i = i + 1;
        }
        proof {
            assert(self.attached_policies@.take(i as int) =~= self.attached_policies@);
            assert(self.group_memberships@.take(0) =~= Seq::<Group>::empty());
            assert(self.attached_policies@ + group_policies(self.group_memberships@.take(0)) =~= self.attached_policies@);
        }
        let mut g: usize = 0;
        while g < self.group_memberships.len()
            invariant
                g <= self.group_memberships.len(),
                out@.map_values(|p: &Policy| *p) == self.attached_policies@ + group_policies(self.group_memberships@.take(g as int)),
            decreases self.group_memberships.len() - g,
        {
            let group = &self.group_memberships[g];
            let mut p: usize = 0;
            let ghost base = out@.map_values(|p: &Policy| *p);
            proof {
                assert(group.attached_policies@.take(0) =~= Seq::<Policy>::empty());
                assert(base + group.attached_policies@.take(0) =~= base);
            }
            while p < group.attached_policies.len()
                invariant
                    p <= group.attached_policies.len(),
                    out@.map_values(|q: &Policy| *q) == base + group.attached_policies@.take(p as int),
                decreases group.attached_policies.len() - p,
            {
                let ghost prev = out@;
                out.push(&group.attached_policies[p]);
                proof {
                    assert(out@.map_values(|q: &Policy| *q) =~= prev.map_values(|q: &Policy| *q).push(group.attached_policies@[p as int]));
                    assert(group.attached_policies@.take(p + 1) =~= group.attached_policies@.take(p as int).push(group.attached_policies@[p as int]));
                    assert(out@.map_values(|q: &Policy| *q) =~= base + group.attached_policies@.take(p + 1));
                }
                p = p + 1;
            }
            proof {
                assert(group.attached_policies@.take(p as int) =~= group.attached_policies@);
                assert(self.group_memberships@.take(g + 1).drop_last() =~= self.group_memberships@.take(g as int));
                assert(out@.map_values(|q: &Policy| *q) =~= self.attached_policies@ + group_policies(self.group_memberships@.take(g + 1)));
            }
            g = g + 1;
        }
        proof {
            assert(self.group_memberships@.take(self.group_memberships@.len() as int) =~= self.group_memberships@);
        }
        out
    }
}

/// The policies of a list of groups, group by group.
pub open spec fn group_policies(gs: Seq<Group>) -> Seq<Policy>
    decreases gs.len(),
{
    if gs.len() == 0 {
        Seq::empty()
    } else {
        group_policies(gs.drop_last()) + gs.last().attached_policies@
    }
}

/// The view of an optional JSON document.
pub open spec fn opt_json(o: Option<JsonValue>) -> Option<crate::json::Json> {
    match o {
        Some(j) => Some(j@),
        None => None,
    }
}

/// The view of an optional list of strings.
pub open spec fn opt_strings(o: Option<Vec<String>>) -> Option<Seq<Seq<char>>> {
    match o {
        Some(v) => Some(strings_view(v@)),
        None => None,
    }
}

/// Two optional policies are both absent, or both present with the same content.
pub open spec fn same_opt_policy(a: Option<Policy>, b: Option<Policy>) -> bool {
    match (a, b) {
        (Some(x), Some(y)) => x.same_as(y),
        (None, None) => true,
        _ => false,
    }
}

/// The tags as (key, value) pairs.
pub open spec fn tag_pairs_view(tags: Seq<Tag>) -> Seq<(Seq<char>, Seq<char>)> {
    tags.map_values(|t: Tag| (t.key@, t.value@))
}

impl Node {
    /// The principals hold the same content, except perhaps the admin flag.
    pub open spec fn same_except_admin(self, other: Node) -> bool {
        &&& self.arn@ == other.arn@
        &&& self.id_value@ == other.id_value@
        &&& self.attached_policies@.len() == other.attached_policies@.len()
        &&& (forall|i: int| 0 <= i < self.attached_policies@.len() ==>
                #[trigger] self.attached_policies@[i].same_as(other.attached_policies@[i]))
        &&& self.group_memberships@.len() == other.group_memberships@.len()
        &&& (forall|i: int| 0 <= i < self.group_memberships@.len() ==>
                #[trigger] self.group_memberships@[i].same_as(other.group_memberships@[i]))
        &&& opt_json(self.trust_policy) == opt_json(other.trust_policy)
        &&& opt_strings(self.instance_profile) == opt_strings(other.instance_profile)
        &&& self.active_password == other.active_password
        &&& self.access_keys == other.access_keys
        &&& same_opt_policy(self.permissions_boundary, other.permissions_boundary)
        &&& self.has_mfa == other.has_mfa
        &&& tag_pairs_view(self.tags@) == tag_pairs_view(other.tags@)
    }

    /// A copy of the principal with the admin flag set to `is_admin`.
    pub fn copy_with_admin(&self, is_admin: bool) -> (r: Node)
        ensures
            r.same_except_admin(*self),
            r.is_admin == is_admin,
    {
        let mut policies: Vec<Policy> = Vec::new();
        let mut i: usize = 0;
        while i < self.attached_policies.len()
            invariant
                i <= self.attached_policies.len(),
                policies@.len() == i,
                forall|k: int| 0 <= k < i ==> #[trigger] policies@[k].same_as(self.attached_policies@[k]),
            decreases self.attached_policies.len() - i,
        {
            policies.push(self.attached_policies[i].copy());
            i = i + 1;
        }
        let mut groups: Vec<Group> = Vec::new();
        let mut g: usize = 0;
        while g < self.group_memberships.len()
            invariant
                g <= self.group_memberships.len(),
                groups@.len() == g,
                forall|k: int| 0 <= k < g ==> #[trigger] groups@[k].same_as(self.group_memberships@[k]),
            decreases self.group_memberships.len() - g,
        {
            groups.push(self.group_memberships[g].copy());
            g = g + 1;
        }
        let trust_policy = match &self.trust_policy {
            Some(tp) => Some(tp.deep_copy()),
            None => None,
        };
        let instance_profile = match &self.instance_profile {
            Some(v) => Some(copy_strings(v)),
            None => None,
        };
        let permissions_boundary = match &self.permissions_boundary {
            Some(b) => Some(b.copy()),
            None => None,
        };
        Node {
            arn: self.arn.clone(),
            id_value: self.id_value.clone(),
            attached_policies: policies,
            group_memberships: groups,
            trust_policy,
            instance_profile,
            active_password: self.active_password,
            access_keys: self.access_keys,
            is_admin,
            permissions_boundary,
            has_mfa: self.has_mfa,
            tags: copy_tags(&self.tags),
        }
    }

    /// The principal with its policies and groups given by reference.
    pub fn to_data(&self) -> (r: NodeData)
        ensures
            stored_node(r, *self),
            r.arn@ == self.arn@,
            r.id_value@ == self.id_value@,
            r.attached_policies@.len() == self.attached_policies@.len(),
            forall|i: int| 0 <= i < r.attached_policies@.len() ==>
                (#[trigger] r.attached_policies@[i]).arn@ == self.attached_policies@[i].arn@
                && r.attached_policies@[i].name@ == self.attached_policies@[i].name@,
            strings_view(r.group_memberships@) == self.group_memberships@.map_values(|g: Group| g.arn@),
            opt_json(r.trust_policy) == opt_json(self.trust_policy),
            opt_strings(r.instance_profile) == opt_strings(self.instance_profile),
            r.active_password == self.active_password,
            r.access_keys == self.access_keys,
            r.is_admin == self.is_admin,
            match (r.permissions_boundary, self.permissions_boundary) {
                (Some(a), Some(b)) => a.arn@ == b.arn@ && a.name@ == b.name@,
                (None, None) => true,
                _ => false,
            },
            r.has_mfa == self.has_mfa,
            tag_pairs_view(r.tags@) == tag_pairs_view(self.tags@),
    {
        let mut refs: Vec<PolicyRef> = Vec::new();
        let mut i: usize = 0;
        while i < self.attached_policies.len()
            invariant
                i <= self.attached_policies.len(),
                refs@.len() == i,
                forall|k: int| 0 <= k < i ==> (#[trigger] refs@[k]).arn@ == self.attached_policies@[k].arn@
                    && refs@[k].name@ == self.attached_policies@[k].name@,
            decreases self.attached_policies.len() - i,
        {
            refs.push(self.attached_policies[i].to_ref());
            i = i + 1;
        }
        let mut groups: Vec<String> = Vec::new();
        let mut g: usize = 0;
        while g < self.group_memberships.len()
            invariant
                g <= self.group_memberships.len(),
                strings_view(groups@) == self.group_memberships@.take(g as int).map_values(|x: Group| x.arn@),
            decreases self.group_memberships.len() - g,
        {
            let ghost prev = groups@;
            groups.push(self.group_memberships[g].arn.clone());
            proof {
                assert(strings_view(groups@) =~= strings_view(prev).push(self.group_memberships@[g as int].arn@));
                assert(self.group_memberships@.take(g + 1).map_values(|x: Group| x.arn@)
                    =~= self.group_memberships@.take(g as int).map_values(|x: Group| x.arn@).push(self.group_memberships@[g as int].arn@));
            }
            g = g + 1;
        }
        proof {
            assert(self.group_memberships@.take(g as int) =~= self.group_memberships@);
        }
        let trust_policy = match &self.trust_policy {
            Some(tp) => Some(tp.deep_copy()),
            None => None,
        };
        let instance_profile = match &self.instance_profile {
            Some(v) => Some(copy_strings(v)),
            None => None,
        };
        let permissions_boundary = match &self.permissions_boundary {
            Some(b) => Some(b.to_ref()),
            None => None,
        };
        NodeData {
            arn: self.arn.clone(),
            id_value: self.id_value.clone(),
            attached_policies: refs,
            group_memberships: groups,
            trust_policy,
            instance_profile,
            active_password: self.active_password,
            access_keys: self.access_keys,
            is_admin: self.is_admin,
            permissions_boundary,
            has_mfa: self.has_mfa,
            tags: copy_tags(&self.tags),
        }
    }
}

/// `d` is the stored form of the principal `n`: policies by ARN and name,
/// groups by ARN, everything else as it is.
pub open spec fn stored_node(d: NodeData, n: Node) -> bool {
    &&& d.arn@ == n.arn@
    &&& d.id_value@ == n.id_value@
    &&& refs_of(d.attached_policies@, n.attached_policies@)
    &&& strings_view(d.group_memberships@) == n.group_memberships@.map_values(|g: Group| g.arn@)
    &&& opt_json(d.trust_policy) == opt_json(n.trust_policy)
    &&& opt_strings(d.instance_profile) == opt_strings(n.instance_profile)
    &&& d.active_password == n.active_password
    &&& d.access_keys == n.access_keys
    &&& d.is_admin == n.is_admin
    &&& match (d.permissions_boundary, n.permissions_boundary) {
        (Some(a), Some(b)) => a.arn@ == b.arn@ && a.name@ == b.name@,
        (None, None) => true,
        _ => false,
    }
    &&& d.has_mfa == n.has_mfa
    &&& tag_pairs_view(d.tags@) == tag_pairs_view(n.tags@)
}

/// A copy of a list of strings.
pub fn copy_strings(v: &Vec<String>) -> (r: Vec<String>)
    ensures
        strings_view(r@) == strings_view(v@),
{
    let mut out: Vec<String> = Vec::new();
    let mut i: usize = 0;
    while i < v.len()
        invariant
            i <= v.len(),
            strings_view(out@) == strings_view(v@.take(i as int)),
        decreases v.len() - i,
    {
        let ghost prev = out@;
        out.push(v[i].clone());
        proof {
            assert(strings_view(out@) =~= strings_view(prev).push(v@[i as int]@));
            assert(strings_view(v@.take(i + 1)) =~= strings_view(v@.take(i as int)).push(v@[i as int]@));
        }
        i = i + 1;
    }
    proof {
        assert(v@.take(i as int) =~= v@);
    }
    out
}

/// A copy of a list of tags.
pub fn copy_tags(v: &Vec<Tag>) -> (r: Vec<Tag>)
    ensures
        tag_pairs_view(r@) == tag_pairs_view(v@),
{
    let mut out: Vec<Tag> = Vec::new();
    let mut i: usize = 0;
    while i < v.len()
        invariant
            i <= v.len(),
            tag_pairs_view(out@) == tag_pairs_view(v@.take(i as int)),
        decreases v.len() - i,
    {
        let ghost prev = out@;
        out.push(Tag { key: v[i].key.clone(), value: v[i].value.clone() });
        proof {
            assert(tag_pairs_view(out@) =~= tag_pairs_view(prev).push((v@[i as int].key@, v@[i as int].value@)));
            assert(tag_pairs_view(v@.take(i + 1)) =~= tag_pairs_view(v@.take(i as int)).push((v@[i as int].key@, v@[i as int].value@)));
        }
        i = i + 1;
    }
    proof {
        assert(v@.take(i as int) =~= v@);
    }
    out
}

} // verus!
