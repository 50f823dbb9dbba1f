//! Building the principal graph from what AWS reports.
pub mod admin_check;
pub mod cache;
pub mod resource_policies;

use vstd::prelude::*;
use std::sync::Arc;
use crate::json::{Json, JsonValue};
use crate::text::{owned, str_eq, contains_seq};
use crate::ci_map::strings_view;
use crate::model::node::{Node, Tag, tag_pairs_view, copy_tags, copy_strings};
use crate::model::policy::Policy;
use crate::model::group::{Group, arn_names_group};
use crate::model::graph::{Graph, GraphMetadata, iam_recon_version};
use crate::model::edge::EdgeSpec;
use crate::edges::{CheckerKind, all_checker_edges, resources_view, node_seq, edge_views, obtain_edges_at};
use crate::edges::lambda::LambdaFunction;
use crate::edges::codebuild::CodeBuildProject;
use crate::edges::cloudformation::CfnStack;
use crate::policy_eval::context_keys::{RequestTime, current_time, time_consistent};
use crate::gathering::admin_check::{admin_spec, update_admin_status};

verus! {

/// One version of a managed policy: whether it is the default one, and its
/// document, decoded and parsed (absent when missing or not valid JSON).
pub struct RawPolicyVersion {
    pub is_default: bool,
    pub document: Option<JsonValue>,
}

/// A managed policy as the account authorization details report it.
pub struct RawManagedPolicy {
    pub arn: Option<String>,
    pub name: Option<String>,
    pub versions: Vec<RawPolicyVersion>,
}

/// An inline policy: its name and its document, decoded and parsed (absent
/// when missing or not valid JSON).
pub struct RawInlinePolicy {
    pub name: Option<String>,
    pub document: Option<JsonValue>,
}

/// A reference to an attached managed policy.
pub struct RawAttachedPolicy {
    pub arn: Option<String>,
    pub name: Option<String>,
}

/// A group as the account authorization details report it.
pub struct RawGroupDetail {
    pub arn: Option<String>,
    pub inline_policies: Vec<RawInlinePolicy>,
    pub attached_policies: Vec<RawAttachedPolicy>,
}

/// A user as the account authorization details report it.
pub struct RawUserDetail {
    pub arn: Option<String>,
    pub user_id: Option<String>,
    pub inline_policies: Vec<RawInlinePolicy>,
    pub attached_policies: Vec<RawAttachedPolicy>,
    pub group_names: Vec<String>,
    pub boundary_arn: Option<String>,
    pub tags: Vec<Tag>,
}

/// A role as the account authorization details report it.
pub struct RawRoleDetail {
    pub arn: Option<String>,
    pub role_id: Option<String>,
    pub inline_policies: Vec<RawInlinePolicy>,
    pub attached_policies: Vec<RawAttachedPolicy>,
    pub trust_policy: Option<JsonValue>,
    pub instance_profiles: Vec<String>,
    pub boundary_arn: Option<String>,
    pub tags: Vec<Tag>,
}

/// A policy as (ARN, name, document).
pub type PolicyTriple = (Seq<char>, Seq<char>, Json);

/// The content of a policy.
pub open spec fn policy_triple(p: Policy) -> PolicyTriple {
    (p.arn@, p.name@, p.policy_doc@)
}

/// The contents of a list of policies.
pub open spec fn policies_view(ps: Seq<Policy>) -> Seq<PolicyTriple> {
    ps.map_values(|p: Policy| policy_triple(p))
}

/// The text of an optional string, empty when absent.
pub open spec fn text_or_empty(o: Option<String>) -> Seq<char> {
    match o {
        Some(s) => s@,
        None => Seq::empty(),
    }
}

/// The default versions, with a document, of one managed policy.
pub open spec fn version_triples(arn: Seq<char>, name: Seq<char>, vs: Seq<RawPolicyVersion>) -> Seq<PolicyTriple>
    decreases vs.len(),
{
    if vs.len() == 0 {
        Seq::empty()
    } else {
        let rest = version_triples(arn, name, vs.drop_last());
        match vs.last().document {
            Some(d) => if vs.last().is_default { rest.push((arn, name, d@)) } else { rest },
            None => rest,
        }
    }
}

/// The managed policies with an ARN and a name, each with the document of
/// every default version, in order.
pub open spec fn managed_triples(ps: Seq<RawManagedPolicy>) -> Seq<PolicyTriple>
    decreases ps.len(),
{
    if ps.len() == 0 {
        Seq::empty()
    } else {
        let rest = managed_triples(ps.drop_last());
        match (ps.last().arn, ps.last().name) {
            (Some(a), Some(n)) => rest + version_triples(a@, n@, ps.last().versions@),
            _ => rest,
        }
    }
}

/// The document recorded last for a managed policy ARN.
pub open spec fn managed_lookup(entries: Seq<PolicyTriple>, arn: Seq<char>) -> Option<Json>
    decreases entries.len(),
{
    if entries.len() == 0 {
        None
    } else if entries.last().0 == arn {
        Some(entries.last().2)
    } else {
        managed_lookup(entries.drop_last(), arn)
    }
}

/// The inline policies with a name and a document, owned by `owner`.
pub open spec fn inline_triples(owner: Seq<char>, ps: Seq<RawInlinePolicy>) -> Seq<PolicyTriple>
    decreases ps.len(),
{
    if ps.len() == 0 {
        Seq::empty()
    } else {
        let rest = inline_triples(owner, ps.drop_last());
        match (ps.last().name, ps.last().document) {
            (Some(n), Some(d)) => rest.push((owner, n@, d@)),
            _ => rest,
        }
    }
}

/// The name an attached policy is given: its own, or `unknown`.
pub open spec fn attached_name(p: RawAttachedPolicy) -> Seq<char> {
    match p.name {
        Some(n) => n@,
        None => "unknown"@,
    }
}

/// The attached policies whose managed document is known.
pub open spec fn attached_triples(ps: Seq<RawAttachedPolicy>, entries: Seq<PolicyTriple>) -> Seq<PolicyTriple>
    decreases ps.len(),
{
    if ps.len() == 0 {
        Seq::empty()
    } else {
        let rest = attached_triples(ps.drop_last(), entries);
        match ps.last().arn {
            Some(a) => match managed_lookup(entries, a@) {
                Some(d) => rest.push((a@, attached_name(ps.last()), d)),
                None => rest,
            },
            None => rest,
        }
    }
}

/// The permissions boundary, when its managed document is known.
pub open spec fn boundary_triple(arn: Option<String>, entries: Seq<PolicyTriple>) -> Option<PolicyTriple> {
    match arn {
        Some(a) => match managed_lookup(entries, a@) {
            Some(d) => Some((a@, "PermissionsBoundary"@, d)),
            None => None,
        },
        None => None,
    }
}

/// The content of an optional policy.
pub open spec fn opt_policy_triple(p: Option<Policy>) -> Option<PolicyTriple> {
    match p {
        Some(x) => Some(policy_triple(x)),
        None => None,
    }
}

/// The index of the first group whose ARN names the group `name`.
pub open spec fn group_index(garns: Seq<Seq<char>>, name: Seq<char>) -> Option<int>
    decreases garns.len(),
{
    if garns.len() == 0 {
        None
    } else {
        match group_index(garns.drop_last(), name) {
            Some(j) => Some(j),
            None => if contains_seq(garns.last(), "group/"@ + name) { Some(garns.len() - 1) } else { None },
        }
    }
}

/// The groups a user belongs to, by index: for each group name, the first
/// group that it names.
pub open spec fn membership_indices(names: Seq<Seq<char>>, garns: Seq<Seq<char>>) -> Seq<int>
    decreases names.len(),
{
    if names.len() == 0 {
        Seq::empty()
    } else {
        let rest = membership_indices(names.drop_last(), garns);
        match group_index(garns, names.last()) {
            Some(j) => rest.push(j),
            None => rest,
        }
    }
}

/// The ARNs of a list of groups.
pub open spec fn group_arns(gs: Seq<Group>) -> Seq<Seq<char>> {
    gs.map_values(|g: Group| g.arn@)
}

/// The group built from a group detail.
pub open spec fn group_built(g: Group, raw: RawGroupDetail, entries: Seq<PolicyTriple>) -> bool {
    &&& g.arn@ == text_or_empty(raw.arn)
    &&& policies_view(g.attached_policies@) == inline_triples(g.arn@, raw.inline_policies@) + attached_triples(raw.attached_policies@, entries)
}

/// The user principal built from a user detail.
pub open spec fn user_built(n: Node, raw: RawUserDetail, entries: Seq<PolicyTriple>, groups: Seq<Group>) -> bool {
    let idx = membership_indices(strings_view(raw.group_names@), group_arns(groups));
    &&& n.arn@ == text_or_empty(raw.arn)
    &&& n.id_value@ == text_or_empty(raw.user_id)
    &&& policies_view(n.attached_policies@) == inline_triples(n.arn@, raw.inline_policies@) + attached_triples(raw.attached_policies@, entries)
    &&& n.group_memberships@.len() == idx.len()
    &&& (forall|k: int| 0 <= k < idx.len() ==> #[trigger] n.group_memberships@[k].same_as(groups[idx[k]]))
    &&& n.trust_policy is None
    &&& n.instance_profile is None
    &&& !n.active_password
    &&& n.access_keys == 0
    &&& !n.is_admin
    &&& opt_policy_triple(n.permissions_boundary) == boundary_triple(raw.boundary_arn, entries)
    &&& !n.has_mfa
    &&& tag_pairs_view(n.tags@) == tag_pairs_view(raw.tags@)
}

/// The role principal built from a role detail.
pub open spec fn role_built(n: Node, raw: RawRoleDetail, entries: Seq<PolicyTriple>) -> bool {
    &&& n.arn@ == text_or_empty(raw.arn)
    &&& n.id_value@ == text_or_empty(raw.role_id)
    &&& policies_view(n.attached_policies@) == inline_triples(n.arn@, raw.inline_policies@) + attached_triples(raw.attached_policies@, entries)
    &&& n.group_memberships@.len() == 0
    &&& (match (n.trust_policy, raw.trust_policy) {
        (Some(a), Some(b)) => a@ == b@,
        (None, None) => true,
        _ => false,
    })
    &&& (if raw.instance_profiles@.len() == 0 {
        n.instance_profile is None
    } else {
        n.instance_profile matches Some(v) && strings_view(v@) == strings_view(raw.instance_profiles@)
    })
    &&& !n.active_password
    &&& n.access_keys == 0
    &&& !n.is_admin
    &&& opt_policy_triple(n.permissions_boundary) == boundary_triple(raw.boundary_arn, entries)
    &&& !n.has_mfa
    &&& tag_pairs_view(n.tags@) == tag_pairs_view(raw.tags@)
}

/// Every inline policy list of the groups, users and roles, in that order.
pub open spec fn group_inline_triples(gs: Seq<RawGroupDetail>) -> Seq<PolicyTriple>
    decreases gs.len(),
{
    if gs.len() == 0 {
        Seq::empty()
    } else {
        group_inline_triples(gs.drop_last()) + inline_triples(text_or_empty(gs.last().arn), gs.last().inline_policies@)
    }
}

pub open spec fn user_inline_triples(us: Seq<RawUserDetail>) -> Seq<PolicyTriple>
    decreases us.len(),
{
    if us.len() == 0 {
        Seq::empty()
    } else {
        user_inline_triples(us.drop_last()) + inline_triples(text_or_empty(us.last().arn), us.last().inline_policies@)
    }
}

pub open spec fn role_inline_triples(rs: Seq<RawRoleDetail>) -> Seq<PolicyTriple>
    decreases rs.len(),
{
    if rs.len() == 0 {
        Seq::empty()
    } else {
        role_inline_triples(rs.drop_last()) + inline_triples(text_or_empty(rs.last().arn), rs.last().inline_policies@)
    }
}

/// The text of an optional string, empty when absent.
fn string_or_empty(o: &Option<String>) -> (r: String)
    ensures
        r@ == text_or_empty(*o),
{
    match o {
        Some(s) => s.clone(),
        None => String::new(),
    }
}

/// A policy with the given content.
fn make_policy(arn: &str, name: &str, doc: &JsonValue) -> (r: Policy)
    ensures
        policy_triple(r) == (arn@, name@, doc@),
{
    Policy::new(arn, name, doc.deep_copy())
}

fn push_policy(out: &mut Vec<Policy>, p: Policy)
    ensures
        policies_view(final(out)@) == policies_view(old(out)@).push(policy_triple(p)),
{
    let ghost prev = out@;
    out.push(p);
    proof {
        assert(policies_view(out@) =~= policies_view(prev).push(policy_triple(p)));
    }
}

/// The default-version documents of the managed policies.
fn collect_managed(policies: &[RawManagedPolicy]) -> (r: Vec<Policy>)
    ensures
        policies_view(r@) == managed_triples(policies@),
{
    let mut out: Vec<Policy> = Vec::new();
    let ghost ps = policies@;
    let mut i: usize = 0;
    proof {
        assert(policies_view(out@) =~= Seq::<PolicyTriple>::empty());
        assert(ps.take(0) =~= Seq::<RawManagedPolicy>::empty());
    }
    while i < policies.len()
        invariant
            i <= ps.len(),
            ps == policies@,
            policies_view(out@) == managed_triples(ps.take(i as int)),
        decreases ps.len() - i,
    {
        let p = &policies[i];
        let ghost base = policies_view(out@);
        proof {
            assert(ps.take(i + 1).drop_last() =~= ps.take(i as int));
            assert(ps.take(i + 1).last() == ps[i as int]);
        }
        match (&p.arn, &p.name) {
            (Some(arn), Some(name)) => {
                let mut v: usize = 0;
                proof {
                    assert(p.versions@.take(0) =~= Seq::<RawPolicyVersion>::empty());
                    assert(base + version_triples(arn@, name@, p.versions@.take(0)) =~= base);
                }
                while v < p.versions.len()
                    invariant
                        v <= p.versions@.len(),
                        policies_view(out@) == base + version_triples(arn@, name@, p.versions@.take(v as int)),
                    decreases p.versions@.len() - v,
                {
                    let ver = &p.versions[v];
                    proof {
                        assert(p.versions@.take(v + 1).drop_last() =~= p.versions@.take(v as int));
                        assert(p.versions@.take(v + 1).last() == p.versions@[v as int]);
                    }
                    if ver.is_default {
                        match &ver.document {
                            Some(doc) => {
                                push_policy(&mut out, make_policy(arn.as_str(), name.as_str(), doc));
                                proof {
                                    assert(policies_view(out@) =~= base + version_triples(arn@, name@, p.versions@.take(v + 1)));
                                }
                            },
                            None => {},
                        }
                    }
                    v = v + 1;
                }
                proof {
                    assert(p.versions@.take(v as int) =~= p.versions@);
                }
            },
            _ => {},
        }
        i = i + 1;
    }
    proof {
        assert(ps.take(ps.len() as int) =~= ps);
    }
    out
}

/// The document recorded last for `arn` among the managed policies.
fn lookup_managed<'a>(managed: &'a Vec<Policy>, arn: &str) -> (r: Option<&'a JsonValue>)
    ensures
        match r {
            Some(d) => managed_lookup(policies_view(managed@), arn@) == Some(d@),
            None => managed_lookup(policies_view(managed@), arn@) is None,
        },
{
    let ghost es = policies_view(managed@);
    let mut i: usize = managed.len();
    proof {
        assert(es.take(i as int) =~= es);
    }
    while i > 0
        invariant
            i <= managed@.len(),
            es == policies_view(managed@),
            managed_lookup(es, arn@) == managed_lookup(es.take(i as int), arn@),
        decreases i,
    {
        proof {
            assert(es.take(i as int).drop_last() =~= es.take(i - 1));
            assert(es.take(i as int).last() == es[i - 1]);
        }
        if str_eq(managed[i - 1].arn.as_str(), arn) {
            return Some(&managed[i - 1].policy_doc);
        }
        i = i - 1;
    }
    None
}

/// The inline policies with a name and a document, owned by `owner`.
fn inline_policies(owner: &str, raw: &Vec<RawInlinePolicy>) -> (r: Vec<Policy>)
    ensures
        policies_view(r@) == inline_triples(owner@, raw@),
{
    let mut out: Vec<Policy> = Vec::new();
    let mut i: usize = 0;
    proof {
        assert(policies_view(out@) =~= Seq::<PolicyTriple>::empty());
        assert(raw@.take(0) =~= Seq::<RawInlinePolicy>::empty());
    }
    while i < raw.len()
        invariant
            i <= raw@.len(),
            policies_view(out@) == inline_triples(owner@, raw@.take(i as int)),
        decreases raw@.len() - i,
    {
        proof {
            assert(raw@.take(i + 1).drop_last() =~= raw@.take(i as int));
            assert(raw@.take(i + 1).last() == raw@[i as int]);
        }
        match (&raw[i].name, &raw[i].document) {
            (Some(name), Some(doc)) => {
                push_policy(&mut out, make_policy(owner, name.as_str(), doc));
            },
            _ => {},
        }
        i = i + 1;
    }
    proof {
        assert(raw@.take(raw@.len() as int) =~= raw@);
    }
    out
}

/// The attached policies whose managed document is known.
fn attached_policies(raw: &Vec<RawAttachedPolicy>, managed: &Vec<Policy>) -> (r: Vec<Policy>)
    ensures
        policies_view(r@) == attached_triples(raw@, policies_view(managed@)),
{
    let ghost es = policies_view(managed@);
    let mut out: Vec<Policy> = Vec::new();
    let mut i: usize = 0;
    proof {
        assert(policies_view(out@) =~= Seq::<PolicyTriple>::empty());
        assert(raw@.take(0) =~= Seq::<RawAttachedPolicy>::empty());
    }
    while i < raw.len()
        invariant
            i <= raw@.len(),
            es == policies_view(managed@),
            policies_view(out@) == attached_triples(raw@.take(i as int), es),
        decreases raw@.len() - i,
    {
        proof {
            assert(raw@.take(i + 1).drop_last() =~= raw@.take(i as int));
            assert(raw@.take(i + 1).last() == raw@[i as int]);
        }
        match &raw[i].arn {
            Some(arn) => match lookup_managed(managed, arn.as_str()) {
                Some(doc) => {
                    let name = match &raw[i].name {
                        Some(n) => n.clone(),
                        None => owned("unknown"),
                    };
                    push_policy(&mut out, make_policy(arn.as_str(), name.as_str(), doc));
                },
                None => {},
            },
            None => {},
        }
        i = i + 1;
    }
    proof {
        assert(raw@.take(raw@.len() as int) =~= raw@);
    }
    out
}

/// Appends a list of policies.
fn push_all_policies(out: &mut Vec<Policy>, more: Vec<Policy>)
    ensures
        policies_view(final(out)@) == policies_view(old(out)@) + policies_view(more@),
{
    let ghost start = policies_view(out@);
    let ghost m = more@;
    let n = more.len();
    let mut more = more;
    let mut i: usize = 0;
    proof {
        assert(m.take(0) =~= Seq::<Policy>::empty());
        assert(start + policies_view(m.take(0)) =~= start);
    }
    while i < n
        invariant
            n == m.len(),
            i <= n,
            more@.len() == n - i,
            forall|k: int| 0 <= k < more@.len() ==> more@[k] == m[k + i],
            policies_view(out@) == start + policies_view(m.take(i as int)),
        decreases n - i,
    {
        let p = more.remove(0);
        proof {
            assert(p == m[i as int]);
            assert(policies_view(m.take(i + 1)) =~= policies_view(m.take(i as int)).push(policy_triple(m[i as int])));
        }
        push_policy(out, p);
        i = i + 1;
    }
    proof {
        assert(m.take(n as int) =~= m);
    }
}

/// The permissions boundary, when its managed document is known.
fn boundary_policy(arn: &Option<String>, managed: &Vec<Policy>) -> (r: Option<Policy>)
    ensures
        opt_policy_triple(r) == boundary_triple(*arn, policies_view(managed@)),
{
    match arn {
        Some(a) => match lookup_managed(managed, a.as_str()) {
            Some(doc) => Some(make_policy(a.as_str(), "PermissionsBoundary", doc)),
            None => None,
        },
        None => None,
    }
}

/// The group detail has an ARN that names a group.
pub open spec fn group_arn_ok(g: RawGroupDetail) -> bool {
    g.arn matches Some(a) && contains_seq(a@, "group/"@)
}

/// The group built from a group detail.
fn build_group(raw: &RawGroupDetail, managed: &Vec<Policy>) -> (r: Group)
    requires
        group_arn_ok(*raw),
    ensures
        group_built(r, *raw, policies_view(managed@)),
{
    let group_arn = string_or_empty(&raw.arn);
    let mut group_policies = inline_policies(group_arn.as_str(), &raw.inline_policies);
    push_all_policies(&mut group_policies, attached_policies(&raw.attached_policies, managed));
    Group::new(group_arn.as_str(), group_policies)
}

proof fn lemma_group_index_prefix(garns: Seq<Seq<char>>, name: Seq<char>, k: int, j: int)
    requires
        0 <= k <= garns.len(),
        group_index(garns.take(k), name) == Some(j),
    ensures
        group_index(garns, name) == Some(j),
    decreases garns.len() - k,
{
    if k < garns.len() {
        assert(garns.take(k + 1).drop_last() =~= garns.take(k));
        lemma_group_index_prefix(garns, name, k + 1, j);
    } else {
        assert(garns.take(k) =~= garns);
    }
}

/// The position of the first group whose ARN names the group `name`.
fn group_position(groups: &Vec<Group>, name: &str) -> (r: Option<usize>)
    ensures
        r matches Some(j) ==> j < groups@.len() && group_index(group_arns(groups@), name@) == Some(j as int),
        r is None ==> group_index(group_arns(groups@), name@) is None,
{
    let ghost ga = group_arns(groups@);
    let mut i: usize = 0;
    proof {
        assert(ga.take(0) =~= Seq::<Seq<char>>::empty());
    }
    while i < groups.len()
        invariant
            i <= groups@.len(),
            ga == group_arns(groups@),
            group_index(ga.take(i as int), name@) is None,
        decreases groups@.len() - i,
    {
        let hit = arn_names_group(groups[i].arn.as_str(), name);
        proof {
            assert(ga.take(i + 1).drop_last() =~= ga.take(i as int));
            assert(ga.take(i + 1).last() == groups@[i as int].arn@);
        }
        if hit {
            proof {
                lemma_group_index_prefix(ga, name@, i + 1, i as int);
            }
            return Some(i);
        }
        i = i + 1;
    }
    proof {
        assert(ga.take(i as int) =~= ga);
    }
    None
}

/// Copies of the groups a user belongs to.
fn memberships(names: &Vec<String>, groups: &Vec<Group>) -> (r: Vec<Group>)
    ensures
        r@.len() == membership_indices(strings_view(names@), group_arns(groups@)).len(),
        forall|k: int| 0 <= k < r@.len() ==>
            #[trigger] r@[k].same_as(groups@[membership_indices(strings_view(names@), group_arns(groups@))[k]]),
{
    let ghost ns = strings_view(names@);
    let ghost ga = group_arns(groups@);
    let mut out: Vec<Group> = Vec::new();
    let mut n: usize = 0;
    proof {
        assert(ns.take(0) =~= Seq::<Seq<char>>::empty());
    }
    while n < names.len()
        invariant
            n <= names@.len(),
            ns == strings_view(names@),
            ga == group_arns(groups@),
            out@.len() == membership_indices(ns.take(n as int), ga).len(),
            forall|k: int| 0 <= k < out@.len() ==>
                #[trigger] out@[k].same_as(groups@[membership_indices(ns.take(n as int), ga)[k]]),
            forall|k: int| 0 <= k < out@.len() ==>
                0 <= #[trigger] membership_indices(ns.take(n as int), ga)[k] < groups@.len(),
        decreases names@.len() - n,
    {
        proof {
            assert(ns.take(n + 1).drop_last() =~= ns.take(n as int));
            assert(ns.take(n + 1).last() == names@[n as int]@);
        }
        let ghost prev = out@;
        match group_position(groups, names[n].as_str()) {
            Some(j) => {
                out.push(groups[j].copy());
                proof {
                    assert forall|k: int| 0 <= k < out@.len() implies
                        #[trigger] out@[k].same_as(groups@[membership_indices(ns.take(n + 1), ga)[k]]) by {
                        if k < prev.len() {
                            assert(out@[k] == prev[k]);
                        }
                    }
                }
            },
            None => {},
        }
        n = n + 1;
    }
    proof {
        assert(ns.take(names@.len() as int) =~= ns);
    }
    out
}

/// The user principal built from a user detail.
fn build_user(raw: &RawUserDetail, managed: &Vec<Policy>, groups: &Vec<Group>) -> (r: Node)
    ensures
        user_built(r, *raw, policies_view(managed@), groups@),
{
    let user_arn = string_or_empty(&raw.arn);
    let mut user_policies = inline_policies(user_arn.as_str(), &raw.inline_policies);
    push_all_policies(&mut user_policies, attached_policies(&raw.attached_policies, managed));
    Node {
        arn: user_arn,
        id_value: string_or_empty(&raw.user_id),
        attached_policies: user_policies,
        group_memberships: memberships(&raw.group_names, groups),
        trust_policy: None,
        instance_profile: None,
        active_password: false,
        access_keys: 0,
        is_admin: false,
        permissions_boundary: boundary_policy(&raw.boundary_arn, managed),
        has_mfa: false,
        tags: copy_tags(&raw.tags),
    }
}

/// The role principal built from a role detail.
fn build_role(raw: &RawRoleDetail, managed: &Vec<Policy>) -> (r: Node)
    ensures
        role_built(r, *raw, policies_view(managed@)),
{
    let role_arn = string_or_empty(&raw.arn);
    let mut role_policies = inline_policies(role_arn.as_str(), &raw.inline_policies);
    push_all_policies(&mut role_policies, attached_policies(&raw.attached_policies, managed));
    let trust_policy = match &raw.trust_policy {
        Some(tp) => Some(tp.deep_copy()),
        None => None,
    };
    let instance_profile = if raw.instance_profiles.len() == 0 {
        None
    } else {
        Some(copy_strings(&raw.instance_profiles))
    };
    Node {
        arn: role_arn,
        id_value: string_or_empty(&raw.role_id),
        attached_policies: role_policies,
        group_memberships: Vec::new(),
        trust_policy,
        instance_profile,
        active_password: false,
        access_keys: 0,
        is_admin: false,
        permissions_boundary: boundary_policy(&raw.boundary_arn, managed),
        has_mfa: false,
        tags: copy_tags(&raw.tags),
    }
}

/// The groups held by a list of shared groups.
pub open spec fn group_seq(gs: Seq<Arc<Group>>) -> Seq<Group> {
    gs.map_values(|a: Arc<Group>| *a)
}

/// The policies held by a list of shared policies.
pub open spec fn policy_seq(ps: Seq<Arc<Policy>>) -> Seq<Policy> {
    ps.map_values(|a: Arc<Policy>| *a)
}

/// Builds the principals, groups and policies of an account from its
/// authorization details: groups with their inline and attached policies;
/// users, with their groups, then roles, each with inline and attached
/// policies and a permissions boundary; and the list of every managed
/// (default-version) and inline policy. Every group ARN must name a group.
pub fn get_nodes_groups_and_policies(
    users: &Vec<RawUserDetail>,
    roles: &Vec<RawRoleDetail>,
    groups: &Vec<RawGroupDetail>,
    managed_policies: &Vec<RawManagedPolicy>,
) -> (r: (Vec<Arc<Node>>, Vec<Arc<Group>>, Vec<Arc<Policy>>))
    requires
        forall|i: int| 0 <= i < groups@.len() ==> group_arn_ok(#[trigger] groups@[i]),
    ensures
        group_seq(r.1@).len() == groups@.len(),
        forall|i: int| 0 <= i < groups@.len() ==> group_built(#[trigger] group_seq(r.1@)[i], groups@[i], managed_triples(managed_policies@)),
        crate::edges::node_seq(r.0@).len() == users@.len() + roles@.len(),
        forall|i: int| 0 <= i < users@.len() ==>
            user_built(#[trigger] crate::edges::node_seq(r.0@)[i], users@[i], managed_triples(managed_policies@), group_seq(r.1@)),
        forall|i: int| 0 <= i < roles@.len() ==>
            role_built(#[trigger] crate::edges::node_seq(r.0@)[users@.len() + i], roles@[i], managed_triples(managed_policies@)),
        policies_view(policy_seq(r.2@)) == managed_triples(managed_policies@) + group_inline_triples(groups@)
            + user_inline_triples(users@) + role_inline_triples(roles@),
{
    let managed = collect_managed(managed_policies.as_slice());
    let ghost entries = managed_triples(managed_policies@);
    let mut all_policies: Vec<Policy> = Vec::new();
    push_all_policies(&mut all_policies, collect_managed(managed_policies.as_slice()));
    proof {
        assert(policies_view(all_policies@) =~= entries);
    }

    // Groups
    let mut built_groups: Vec<Group> = Vec::new();
    let mut i: usize = 0;
    proof {
        assert(groups@.take(0) =~= Seq::<RawGroupDetail>::empty());
    }
    while i < groups.len()
        invariant
            i <= groups@.len(),
            policies_view(managed@) == entries,
            forall|k: int| 0 <= k < groups@.len() ==> group_arn_ok(#[trigger] groups@[k]),
            built_groups@.len() == i,
            forall|k: int| 0 <= k < i ==> group_built(#[trigger] built_groups@[k], groups@[k], entries),
            policies_view(all_policies@) == entries + group_inline_triples(groups@.take(i as int)),
        decreases groups@.len() - i,
    {
        let g = &groups[i];
        proof {
            assert(groups@[i as int] == *g);
        }
        let group = build_group(g, &managed);
        built_groups.push(group);
        let group_arn = string_or_empty(&g.arn);
        push_all_policies(&mut all_policies, inline_policies(group_arn.as_str(), &g.inline_policies));
        proof {
            assert(groups@.take(i + 1).drop_last() =~= groups@.take(i as int));
            assert(groups@.take(i + 1).last() == *g);
            assert(policies_view(all_policies@) =~= entries + group_inline_triples(groups@.take(i + 1)));
        }
        i = i + 1;
    }
    proof {
        assert(groups@.take(groups@.len() as int) =~= groups@);
    }

    // Users
    let mut nodes: Vec<Arc<Node>> = Vec::new();
    let mut u: usize = 0;
    proof {
        assert(users@.take(0) =~= Seq::<RawUserDetail>::empty());
        assert(policies_view(all_policies@) =~= entries + group_inline_triples(groups@) + user_inline_triples(users@.take(0)));
    }
    while u < users.len()
        invariant
            u <= users@.len(),
            policies_view(managed@) == entries,
            nodes@.len() == u,
            forall|k: int| 0 <= k < u ==> user_built(#[trigger] crate::edges::node_seq(nodes@)[k], users@[k], entries, built_groups@),
            policies_view(all_policies@) == entries + group_inline_triples(groups@) + user_inline_triples(users@.take(u as int)),
        decreases users@.len() - u,
    {
        let user = &users[u];
        let node = build_user(user, &managed, &built_groups);
        let ghost nv = node;
        let ghost prev = nodes@;
        nodes.push(Arc::new(node));
        let user_arn = string_or_empty(&user.arn);
        push_all_policies(&mut all_policies, inline_policies(user_arn.as_str(), &user.inline_policies));
        proof {
            assert(crate::edges::node_seq(nodes@)[u as int] == nv);
            assert forall|k: int| 0 <= k < u + 1 implies user_built(#[trigger] crate::edges::node_seq(nodes@)[k], users@[k], entries, built_groups@) by {
                if k < u {
                    assert(crate::edges::node_seq(nodes@)[k] == crate::edges::node_seq(prev)[k]);
                }
            }
            assert(users@.take(u + 1).drop_last() =~= users@.take(u as int));
            assert(users@.take(u + 1).last() == *user);
            assert(policies_view(all_policies@) =~= entries + group_inline_triples(groups@) + user_inline_triples(users@.take(u + 1)));
        }
        u = u + 1;
    }
    proof {
        assert(users@.take(users@.len() as int) =~= users@);
    }

    // Roles
    let mut r: usize = 0;
    let ghost nu = users@.len();
    proof {
        assert(roles@.take(0) =~= Seq::<RawRoleDetail>::empty());
        assert(policies_view(all_policies@) =~= entries + group_inline_triples(groups@) + user_inline_triples(users@) + role_inline_triples(roles@.take(0)));
    }
    while r < roles.len()
        invariant
            r <= roles@.len(),
            nu == users@.len(),
            policies_view(managed@) == entries,
            nodes@.len() == nu + r,
            forall|k: int| 0 <= k < nu ==> user_built(#[trigger] crate::edges::node_seq(nodes@)[k], users@[k], entries, built_groups@),
            forall|k: int| 0 <= k < r ==> role_built(#[trigger] crate::edges::node_seq(nodes@)[nu + k], roles@[k], entries),
            policies_view(all_policies@) == entries + group_inline_triples(groups@) + user_inline_triples(users@) + role_inline_triples(roles@.take(r as int)),
        decreases roles@.len() - r,
    {
        let role = &roles[r];
        let node = build_role(role, &managed);
        let ghost nv = node;
        let ghost prev = nodes@;
        nodes.push(Arc::new(node));
        let role_arn = string_or_empty(&role.arn);
        push_all_policies(&mut all_policies, inline_policies(role_arn.as_str(), &role.inline_policies));
        proof {
            assert(crate::edges::node_seq(nodes@)[nu + r] == nv);
            assert forall|k: int| 0 <= k < nu implies user_built(#[trigger] crate::edges::node_seq(nodes@)[k], users@[k], entries, built_groups@) by {
                assert(crate::edges::node_seq(nodes@)[k] == crate::edges::node_seq(prev)[k]);
            }
            assert forall|k: int| 0 <= k < r + 1 implies role_built(#[trigger] crate::edges::node_seq(nodes@)[nu + k], roles@[k], entries) by {
                if k < r {
                    assert(crate::edges::node_seq(nodes@)[nu + k] == crate::edges::node_seq(prev)[nu + k]);
                }
            }
            assert(roles@.take(r + 1).drop_last() =~= roles@.take(r as int));
            assert(roles@.take(r + 1).last() == *role);
            assert(policies_view(all_policies@) =~= entries + group_inline_triples(groups@) + user_inline_triples(users@) + role_inline_triples(roles@.take(r + 1)));
        }
        r = r + 1;
    }
    proof {
        assert(roles@.take(roles@.len() as int) =~= roles@);
    }

    // Share the groups and policies.
    let ghost gs = built_groups@;
    let mut group_objects: Vec<Arc<Group>> = Vec::new();
    let mut rest_groups = built_groups;
    let total_groups = rest_groups.len();
    let mut g: usize = 0;
    while g < total_groups
        invariant
            g <= total_groups,
            total_groups == gs.len(),
            rest_groups@.len() == total_groups - g,
            forall|k: int| 0 <= k < rest_groups@.len() ==> rest_groups@[k] == gs[k + g],
            group_seq(group_objects@) == gs.take(g as int),
        decreases total_groups - g,
    {
        let x = rest_groups.remove(0);
        let ghost prev = group_objects@;
        group_objects.push(Arc::new(x));
        proof {
            assert(group_seq(group_objects@) =~= group_seq(prev).push(gs[g as int]));
            assert(gs.take(g + 1) =~= gs.take(g as int).push(gs[g as int]));
        }
        g = g + 1;
    }
    proof {
        assert(gs.take(total_groups as int) =~= gs);
    }
    let ghost ap = all_policies@;
    let mut policy_objects: Vec<Arc<Policy>> = Vec::new();
    let total_policies = all_policies.len();
    let mut rest_policies = all_policies;
    let mut p: usize = 0;
    while p < total_policies
        invariant
            p <= total_policies,
            total_policies == ap.len(),
            rest_policies@.len() == total_policies - p,
            forall|k: int| 0 <= k < rest_policies@.len() ==> rest_policies@[k] == ap[k + p],
            policy_seq(policy_objects@) == ap.take(p as int),
        decreases total_policies - p,
    {
        let x = rest_policies.remove(0);
        let ghost prev = policy_objects@;
        policy_objects.push(Arc::new(x));
        proof {
            assert(policy_seq(policy_objects@) =~= policy_seq(prev).push(ap[p as int]));
            assert(ap.take(p + 1) =~= ap.take(p as int).push(ap[p as int]));
        }
        p = p + 1;
    }
    proof {
        assert(ap.take(total_policies as int) =~= ap);
    }
    (nodes, group_objects, policy_objects)
}

/// The principals as first built: users, then roles.
pub open spec fn built_nodes_ok(ns: Seq<Node>, users: Seq<RawUserDetail>, roles: Seq<RawRoleDetail>, entries: Seq<PolicyTriple>, groups: Seq<Group>) -> bool {
    &&& ns.len() == users.len() + roles.len()
    &&& forall|i: int| 0 <= i < users.len() ==> user_built(#[trigger] ns[i], users[i], entries, groups)
    &&& forall|i: int| 0 <= i < roles.len() ==> role_built(#[trigger] ns[users.len() + i], roles[i], entries)
}

/// The principals after marking the administrators among `before`.
pub open spec fn admins_marked(after: Seq<Node>, before: Seq<Node>) -> bool {
    &&& after.len() == before.len()
    &&& forall|i: int| 0 <= i < before.len() ==> if admin_spec(before[i]) {
        (#[trigger] after[i]).same_except_admin(before[i]) && after[i].is_admin
    } else {
        after[i] == before[i]
    }
}

/// Builds the graph of an account at time `now` from its authorization
/// details and the service resources found: principals, groups and
/// policies; administrators marked; then the edges of the given checkers
/// (without SCPs). Every group ARN must name a group.
pub fn create_graph_at(
    account_id: &str,
    users: &Vec<RawUserDetail>,
    roles: &Vec<RawRoleDetail>,
    groups: &Vec<RawGroupDetail>,
    managed_policies: &Vec<RawManagedPolicy>,
    checkers: &[CheckerKind],
    functions: &[LambdaFunction],
    projects: &[CodeBuildProject],
    stacks: &[CfnStack],
    now: &RequestTime,
) -> (r: Graph)
    requires
        forall|i: int| 0 <= i < groups@.len() ==> group_arn_ok(#[trigger] groups@[i]),
    ensures
        group_seq(r.groups@).len() == groups@.len(),
        forall|i: int| 0 <= i < groups@.len() ==> group_built(#[trigger] group_seq(r.groups@)[i], groups@[i], managed_triples(managed_policies@)),
        policies_view(policy_seq(r.policies@)) == managed_triples(managed_policies@) + group_inline_triples(groups@)
            + user_inline_triples(users@) + role_inline_triples(roles@),
        exists|before: Seq<Node>| built_nodes_ok(before, users@, roles@, managed_triples(managed_policies@), group_seq(r.groups@))
            && #[trigger] admins_marked(node_seq(r.nodes@), before),
        edge_views(r.edges@) == all_checker_edges(checkers@, node_seq(r.nodes@), resources_view(functions, projects, stacks), None, now.rfc3339@, now.epoch_seconds),
        r.metadata.account_id@ == account_id@,
        r.metadata.iam_recon_version@ == "1.1.5"@,
        r.metadata.extra@.len() == 0,
{
    let (nodes, group_objects, policy_objects) = get_nodes_groups_and_policies(users, roles, groups, managed_policies);
    let ghost before = node_seq(nodes@);
    let nodes = update_admin_status(nodes);
    proof {
        assert(admins_marked(node_seq(nodes@), before));
        assert(built_nodes_ok(before, users@, roles@, managed_triples(managed_policies@), group_seq(group_objects@)));
    }
    let edges = obtain_edges_at(checkers, nodes.as_slice(), functions, projects, stacks, None, now);
    let metadata = GraphMetadata {
        account_id: owned(account_id),
        iam_recon_version: owned(iam_recon_version()),
        extra: Vec::new(),
    };
    Graph::new(nodes, edges, policy_objects, group_objects, metadata)
}

/// Builds the graph of an account, evaluating conditions at the present moment.
pub fn create_graph(
    account_id: &str,
    users: &Vec<RawUserDetail>,
    roles: &Vec<RawRoleDetail>,
    groups: &Vec<RawGroupDetail>,
    managed_policies: &Vec<RawManagedPolicy>,
    checkers: &[CheckerKind],
    functions: &[LambdaFunction],
    projects: &[CodeBuildProject],
    stacks: &[CfnStack],
) -> (r: Graph)
    requires
        forall|i: int| 0 <= i < groups@.len() ==> group_arn_ok(#[trigger] groups@[i]),
    ensures
        group_seq(r.groups@).len() == groups@.len(),
        forall|i: int| 0 <= i < groups@.len() ==> group_built(#[trigger] group_seq(r.groups@)[i], groups@[i], managed_triples(managed_policies@)),
        policies_view(policy_seq(r.policies@)) == managed_triples(managed_policies@) + group_inline_triples(groups@)
            + user_inline_triples(users@) + role_inline_triples(roles@),
        exists|before: Seq<Node>| built_nodes_ok(before, users@, roles@, managed_triples(managed_policies@), group_seq(r.groups@))
            && #[trigger] admins_marked(node_seq(r.nodes@), before),
        exists|n: RequestTime| time_consistent(n) && edge_views(r.edges@) == #[trigger] all_checker_edges(checkers@, node_seq(r.nodes@), resources_view(functions, projects, stacks), None, n.rfc3339@, n.epoch_seconds),
        r.metadata.account_id@ == account_id@,
        r.metadata.iam_recon_version@ == "1.1.5"@,
        r.metadata.extra@.len() == 0,
{
    let now = current_time();
    create_graph_at(account_id, users, roles, groups, managed_policies, checkers, functions, projects, stacks, &now)
}

/// `urlencoding::decode`: the percent-decoding of `s`, `None` when the
/// decoded bytes are not UTF-8.
pub uninterp spec fn percent_decoded(s: Seq<char>) -> Option<Seq<char>>;

/// `urlencoding::decode`: claimed only to be a function of its argument.
#[verifier::external_body]
fn url_decode(s: &str) -> (r: Option<String>)
    ensures
        match r {
            Some(d) => percent_decoded(s@) == Some(d@),
            None => percent_decoded(s@) is None,
        },
{
    match urlencoding::decode(s) {
        Ok(d) => Some(d.into_owned()),
        Err(_) => None,
    }
}

/// A policy document as IAM reports it, percent-decoded; empty when it does
/// not decode.
pub fn decode_document(doc: &str) -> (r: String)
    ensures
        r@ == match percent_decoded(doc@) {
            Some(d) => d,
            None => Seq::empty(),
        },
{
    match url_decode(doc) {
        Some(d) => d,
        None => String::new(),
    }
}

} // verus!
