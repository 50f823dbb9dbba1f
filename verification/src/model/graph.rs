//! The principal graph: principals, escalation edges, policies and groups.
use vstd::prelude::*;
use std::sync::Arc;
use crate::json::JsonField;
use crate::text::{owned, str_eq, first_char_from, chars_of, find_char_from, seq_eq, string_of_range};
use crate::model::edge::{Edge, EdgeSpec};
use crate::model::node::{Node, NodeData, Tag, opt_json, opt_strings, tag_pairs_view, copy_tags, copy_strings, stored_node};
use crate::model::group::{GroupData, refs_of, stored_group};
use crate::model::policy::PolicyRef;
use crate::gathering::{group_seq, policy_seq};
use crate::model::group::Group;
use crate::model::policy::Policy;
use crate::edges::node_seq;
use crate::error::IamReconError;

verus! {

/// The version of the graph format this library writes.
pub fn iam_recon_version() -> (r: &'static str)
    ensures
        r@ == "1.1.5"@,
{
    "1.1.5"
}

/// What is recorded about a graph.
pub struct GraphMetadata {
    pub account_id: String,
    pub iam_recon_version: String,
    pub extra: Vec<JsonField>,
}

/// The principal graph.
pub struct Graph {
    pub nodes: Vec<Arc<Node>>,
    pub edges: Vec<Edge>,
    pub policies: Vec<Arc<Policy>>,
    pub groups: Vec<Arc<Group>>,
    pub metadata: GraphMetadata,
}

/// The index of the last principal with ARN `arn`.
pub open spec fn last_with_arn(ns: Seq<Node>, arn: Seq<char>) -> Option<int>
    decreases ns.len(),
{
    if ns.len() == 0 {
        None
    } else if ns.last().arn@ == arn {
        Some(ns.len() - 1)
    } else {
        last_with_arn(ns.drop_last(), arn)
    }
}

/// The principal found by ARN has that ARN.
pub proof fn lemma_last_with_arn(ns: Seq<Node>, arn: Seq<char>)
    ensures
        last_with_arn(ns, arn) matches Some(i) ==> 0 <= i < ns.len() && ns[i].arn@ == arn,
    decreases ns.len(),
{
    if ns.len() > 0 && ns.last().arn@ != arn {
        lemma_last_with_arn(ns.drop_last(), arn);
        if let Some(i) = last_with_arn(ns.drop_last(), arn) {
            assert(ns.drop_last()[i] == ns[i]);
        }
    }
}

/// The index of the last principal with searchable name `name`.
pub open spec fn last_with_name(ns: Seq<Node>, name: Seq<char>) -> Option<int>
    decreases ns.len(),
{
    if ns.len() == 0 {
        None
    } else if ns.last().spec_searchable_name() == name {
        Some(ns.len() - 1)
    } else {
        last_with_name(ns.drop_last(), name)
    }
}

/// The edges that leave (`outbound`) or reach the principal with ARN `arn`, in order.
pub open spec fn edges_touching(es: Seq<EdgeSpec>, arn: Seq<char>, outbound: bool) -> Seq<EdgeSpec>
    decreases es.len(),
{
    if es.len() == 0 {
        Seq::empty()
    } else {
        let rest = edges_touching(es.drop_last(), arn, outbound);
        let end = if outbound { es.last().source } else { es.last().destination };
        if end == arn { rest.push(es.last()) } else { rest }
    }
}

/// The contents of a list of edge references.
pub open spec fn edge_ref_views(v: Seq<&Edge>) -> Seq<EdgeSpec> {
    v.map_values(|e: &Edge| e@)
}

impl Graph {
    pub fn new(nodes: Vec<Arc<Node>>, edges: Vec<Edge>, policies: Vec<Arc<Policy>>, groups: Vec<Arc<Group>>, metadata: GraphMetadata) -> (r: Graph)
        ensures
            r.nodes == nodes,
            r.edges == edges,
            r.policies == policies,
            r.groups == groups,
            r.metadata == metadata,
    {
        Graph { nodes, edges, policies, groups, metadata }
    }

    /// The principal with ARN `arn` (the last one, should there be several).
    pub fn get_node_by_arn(&self, arn: &str) -> (r: Option<&Arc<Node>>)
        ensures
            match r {
                Some(n) => last_with_arn(node_seq(self.nodes@), arn@) matches Some(i) && **n == node_seq(self.nodes@)[i],
                None => last_with_arn(node_seq(self.nodes@), arn@) is None,
            },
    {
        let ghost ns = node_seq(self.nodes@);
        let mut i: usize = self.nodes.len();
        proof {
            assert(ns.take(i as int) =~= ns);
        }
        while i > 0
            invariant
                i <= self.nodes@.len(),
                ns == node_seq(self.nodes@),
                last_with_arn(ns, arn@) == last_with_arn(ns.take(i as int), arn@),
            decreases i,
        {
            proof {
                assert(ns.take(i as int).drop_last() =~= ns.take(i - 1));
                assert(ns.take(i as int).last() == ns[i - 1]);
            }
            if str_eq(self.nodes[i - 1].arn.as_str(), arn) {
                return Some(&self.nodes[i - 1]);
            }
            i = i - 1;
        }
        None
    }

    /// The principal with searchable name `name` (the last one, should there be several).
    pub fn get_node_by_searchable_name(&self, name: &str) -> (r: Option<&Arc<Node>>)
        ensures
            match r {
                Some(n) => last_with_name(node_seq(self.nodes@), name@) matches Some(i) && **n == node_seq(self.nodes@)[i],
                None => last_with_name(node_seq(self.nodes@), name@) is None,
            },
    {
        let ghost ns = node_seq(self.nodes@);
        let mut i: usize = self.nodes.len();
        proof {
            assert(ns.take(i as int) =~= ns);
        }
        while i > 0
            invariant
                i <= self.nodes@.len(),
                ns == node_seq(self.nodes@),
                last_with_name(ns, name@) == last_with_name(ns.take(i as int), name@),
            decreases i,
        {
            proof {
                assert(ns.take(i as int).drop_last() =~= ns.take(i - 1));
                assert(ns.take(i as int).last() == ns[i - 1]);
            }
            let sn = self.nodes[i - 1].searchable_name();
            if str_eq(sn.as_str(), name) {
                return Some(&self.nodes[i - 1]);
            }
            i = i - 1;
        }
        None
    }

    fn edges_of(&self, arn: &str, outbound: bool) -> (r: Vec<&Edge>)
        ensures
            edge_ref_views(r@) == edges_touching(crate::edges::edge_views(self.edges@), arn@, outbound),
    {
        let ghost es = crate::edges::edge_views(self.edges@);
        let mut out: Vec<&Edge> = Vec::new();
        let mut i: usize = 0;
        proof {
            assert(es.take(0) =~= Seq::<EdgeSpec>::empty());
            assert(edge_ref_views(out@) =~= Seq::<EdgeSpec>::empty());
        }
        while i < self.edges.len()
            invariant
                i <= self.edges@.len(),
                es == crate::edges::edge_views(self.edges@),
                edge_ref_views(out@) == edges_touching(es.take(i as int), arn@, outbound),
            decreases self.edges@.len() - i,
        {
            let e = &self.edges[i];
            let end = if outbound { e.source.as_str() } else { e.destination.as_str() };
            proof {
                assert(es.take(i + 1).drop_last() =~= es.take(i as int));
                assert(es.take(i + 1).last() == e@);
            }
            if str_eq(end, arn) {
                let ghost prev = out@;
                out.push(e);
                proof {
                    assert(edge_ref_views(out@) =~= edge_ref_views(prev).push(e@));
                }
            }
            i = i + 1;
        }
        proof {
            assert(es.take(i as int) =~= es);
        }
        out
    }

    /// The edges that leave `node`, in order.
    pub fn get_outbound_edges(&self, node: &Node) -> (r: Vec<&Edge>)
        ensures
            edge_ref_views(r@) == edges_touching(crate::edges::edge_views(self.edges@), node.arn@, true),
    {
        self.edges_of(node.arn.as_str(), true)
    }

    /// The edges that reach `node`, in order.
    pub fn get_inbound_edges(&self, node: &Node) -> (r: Vec<&Edge>)
        ensures
            edge_ref_views(r@) == edges_touching(crate::edges::edge_views(self.edges@), node.arn@, false),
    {
        self.edges_of(node.arn.as_str(), false)
    }
}

/// The first two dot-separated parts of a version (the rest kept with the
/// second part split off at its next dot), when it has at least two.
pub open spec fn version_parts(v: Seq<char>) -> Option<(Seq<char>, Seq<char>)> {
    match first_char_from(v, '.', 0) {
        None => None,
        Some(i) => {
            let rest = v.skip(i + 1);
            match first_char_from(rest, '.', 0) {
                Some(j) => Some((v.take(i), rest.take(j))),
                None => Some((v.take(i), rest)),
            }
        },
    }
}

/// A stored version is incompatible when both versions have two parts and
/// their major or minor parts differ.
pub open spec fn version_mismatch(stored: Seq<char>, current: Seq<char>) -> bool {
    match (version_parts(stored), version_parts(current)) {
        (Some(a), Some(b)) => a.0 != b.0 || a.1 != b.1,
        _ => false,
    }
}

fn parts_of(v: &str) -> (r: Option<(Vec<char>, Vec<char>)>)
    ensures
        match r {
            Some(p) => version_parts(v@) == Some((p.0@, p.1@)),
            None => version_parts(v@) is None,
        },
{
    let cs = chars_of(v);
    match find_char_from(&cs, '.', 0) {
        None => None,
        Some(i) => {
            let major = string_of_range(&cs, 0, i);
            let rest = string_of_range(&cs, i + 1, cs.len());
            let rest_chars = chars_of(rest.as_str());
            let second = match find_char_from(&rest_chars, '.', 0) {
                Some(j) => string_of_range(&rest_chars, 0, j),
                None => string_of_range(&rest_chars, 0, rest_chars.len()),
            };
            let major_chars = chars_of(major.as_str());
            let second_chars = chars_of(second.as_str());
            proof {
                assert(rest_chars@ =~= v@.skip(i + 1));
                assert(major_chars@ =~= v@.take(i as int));
                match first_char_from(rest_chars@, '.', 0) {
                    Some(j) => {
                        assert(second_chars@ =~= rest_chars@.take(j));
                    },
                    None => {
                        assert(second_chars@ =~= rest_chars@);
                    },
                }
            }
            Some((major_chars, second_chars))
        },
    }
}

/// Checks that a stored graph's version is compatible with this library's:
/// an error naming both versions when their major or minor parts differ.
pub fn check_version(stored: &str) -> (r: Result<(), IamReconError>)
    ensures
        r is Ok <==> !version_mismatch(stored@, "1.1.5"@),
        r matches Err(IamReconError::VersionMismatch { stored: s, current: c }) ==> s@ == stored@ && c@ == "1.1.5"@,
        r is Err ==> r matches Err(IamReconError::VersionMismatch { .. }),
{
    let current = iam_recon_version();
    match (parts_of(stored), parts_of(current)) {
        (Some(a), Some(b)) => {
            if !seq_eq(&a.0, &b.0) || !seq_eq(&a.1, &b.1) {
                return Err(IamReconError::VersionMismatch { stored: owned(stored), current: owned(current) });
            }
            Ok(())
        },
        _ => Ok(()),
    }
}

/// The index of the last policy with the given ARN and name.
pub open spec fn find_policy(ps: Seq<Policy>, arn: Seq<char>, name: Seq<char>) -> Option<int>
    decreases ps.len(),
{
    if ps.len() == 0 {
        None
    } else if ps.last().arn@ == arn && ps.last().name@ == name {
        Some(ps.len() - 1)
    } else {
        find_policy(ps.drop_last(), arn, name)
    }
}

/// The indices of the policies that a list of references resolves to;
/// references to unknown policies are dropped.
pub open spec fn resolve_refs(refs: Seq<PolicyRef>, ps: Seq<Policy>) -> Seq<int>
    decreases refs.len(),
{
    if refs.len() == 0 {
        Seq::empty()
    } else {
        let rest = resolve_refs(refs.drop_last(), ps);
        match find_policy(ps, refs.last().arn@, refs.last().name@) {
            Some(i) => rest.push(i),
            None => rest,
        }
    }
}

/// The index of the last group with the given ARN.
pub open spec fn find_group(gs: Seq<Group>, arn: Seq<char>) -> Option<int>
    decreases gs.len(),
{
    if gs.len() == 0 {
        None
    } else if gs.last().arn@ == arn {
        Some(gs.len() - 1)
    } else {
        find_group(gs.drop_last(), arn)
    }
}

/// The indices of the groups a list of group ARNs resolves to; unknown
/// ARNs are dropped.
pub open spec fn resolve_groups(arns: Seq<Seq<char>>, gs: Seq<Group>) -> Seq<int>
    decreases arns.len(),
{
    if arns.len() == 0 {
        Seq::empty()
    } else {
        let rest = resolve_groups(arns.drop_last(), gs);
        match find_group(gs, arns.last()) {
            Some(i) => rest.push(i),
            None => rest,
        }
    }
}

/// A list of policies holds copies of the policies at the given indices.
pub open spec fn copies_of(v: Seq<Policy>, idx: Seq<int>, ps: Seq<Policy>) -> bool {
    &&& v.len() == idx.len()
    &&& forall|k: int| 0 <= k < idx.len() ==> 0 <= idx[k] < ps.len() && #[trigger] v[k].same_as(ps[idx[k]])
}

/// The group resolved from its stored form.
pub open spec fn group_resolved(g: Group, d: GroupData, ps: Seq<Policy>) -> bool {
    g.arn@ == d.arn@ && copies_of(g.attached_policies@, resolve_refs(d.attached_policies@, ps), ps)
}

/// The principal resolved from its stored form.
pub open spec fn node_resolved(n: Node, d: NodeData, ps: Seq<Policy>, gs: Seq<Group>) -> bool {
    let gidx = resolve_groups(crate::ci_map::strings_view(d.group_memberships@), gs);
    &&& n.arn@ == d.arn@
    &&& n.id_value@ == d.id_value@
    &&& copies_of(n.attached_policies@, resolve_refs(d.attached_policies@, ps), ps)
    &&& n.group_memberships@.len() == gidx.len()
    &&& (forall|k: int| 0 <= k < gidx.len() ==> 0 <= gidx[k] < gs.len() && #[trigger] n.group_memberships@[k].same_as(gs[gidx[k]]))
    &&& opt_json(n.trust_policy) == opt_json(d.trust_policy)
    &&& opt_strings(n.instance_profile) == opt_strings(d.instance_profile)
    &&& n.active_password == d.active_password
    &&& n.access_keys == d.access_keys
    &&& n.is_admin == d.is_admin
    &&& (match d.permissions_boundary {
        Some(r) => match find_policy(ps, r.arn@, r.name@) {
            Some(i) => n.permissions_boundary matches Some(b) && b.same_as(ps[i]),
            None => n.permissions_boundary is None,
        },
        None => n.permissions_boundary is None,
    })
    &&& n.has_mfa == d.has_mfa
    &&& tag_pairs_view(n.tags@) == tag_pairs_view(d.tags@)
}

fn find_policy_index(ps: &Vec<Policy>, arn: &str, name: &str) -> (r: Option<usize>)
    ensures
        match r {
            Some(i) => find_policy(ps@, arn@, name@) == Some(i as int) && i < ps@.len(),
            None => find_policy(ps@, arn@, name@) is None,
        },
{
    let mut i: usize = ps.len();
    proof {
        assert(ps@.take(i as int) =~= ps@);
    }
    while i > 0
        invariant
            i <= ps@.len(),
            find_policy(ps@, arn@, name@) == find_policy(ps@.take(i as int), arn@, name@),
        decreases i,
    {
        proof {
            assert(ps@.take(i as int).drop_last() =~= ps@.take(i - 1));
            assert(ps@.take(i as int).last() == ps@[i - 1]);
        }
        if str_eq(ps[i - 1].arn.as_str(), arn) && str_eq(ps[i - 1].name.as_str(), name) {
            return Some(i - 1);
        }
        i = i - 1;
    }
    None
}

fn resolve_policy_refs(refs: &Vec<PolicyRef>, ps: &Vec<Policy>) -> (r: Vec<Policy>)
    ensures
        copies_of(r@, resolve_refs(refs@, ps@), ps@),
{
    let mut out: Vec<Policy> = Vec::new();
    let mut i: usize = 0;
    proof {
        assert(refs@.take(0) =~= Seq::<PolicyRef>::empty());
    }
    while i < refs.len()
        invariant
            i <= refs@.len(),
            out@.len() == resolve_refs(refs@.take(i as int), ps@).len(),
            forall|k: int| 0 <= k < out@.len() ==> #[trigger] out@[k].same_as(ps@[resolve_refs(refs@.take(i as int), ps@)[k]]),
            forall|k: int| 0 <= k < out@.len() ==> 0 <= #[trigger] resolve_refs(refs@.take(i as int), ps@)[k] < ps@.len(),
        decreases refs@.len() - i,
    {
        proof {
            assert(refs@.take(i + 1).drop_last() =~= refs@.take(i as int));
            assert(refs@.take(i + 1).last() == refs@[i as int]);
        }
        let ghost prev = out@;
        match find_policy_index(ps, refs[i].arn.as_str(), refs[i].name.as_str()) {
            Some(j) => {
                out.push(ps[j].copy());
                proof {
                    assert forall|k: int| 0 <= k < out@.len() implies
                        #[trigger] out@[k].same_as(ps@[resolve_refs(refs@.take(i + 1), ps@)[k]]) by {
                        if k < prev.len() {
                            assert(out@[k] == prev[k]);
                        }
                    }
                }
            },
            None => {},
        }
        i = i + 1;
    }
    proof {
        assert(refs@.take(refs@.len() as int) =~= refs@);
    }
    out
}

fn find_group_index(gs: &Vec<Group>, arn: &str) -> (r: Option<usize>)
    ensures
        match r {
            Some(i) => find_group(gs@, arn@) == Some(i as int) && i < gs@.len(),
            None => find_group(gs@, arn@) is None,
        },
{
    let mut i: usize = gs.len();
    proof {
        assert(gs@.take(i as int) =~= gs@);
    }
    while i > 0
        invariant
            i <= gs@.len(),
            find_group(gs@, arn@) == find_group(gs@.take(i as int), arn@),
        decreases i,
    {
        proof {
            assert(gs@.take(i as int).drop_last() =~= gs@.take(i - 1));
            assert(gs@.take(i as int).last() == gs@[i - 1]);
        }
        if str_eq(gs[i - 1].arn.as_str(), arn) {
            return Some(i - 1);
        }
        i = i - 1;
    }
    None
}

fn resolve_group_arns(arns: &Vec<String>, gs: &Vec<Group>) -> (r: Vec<Group>)
    ensures
        r@.len() == resolve_groups(crate::ci_map::strings_view(arns@), gs@).len(),
        forall|k: int| 0 <= k < r@.len() ==> #[trigger] r@[k].same_as(gs@[resolve_groups(crate::ci_map::strings_view(arns@), gs@)[k]]),
        forall|k: int| 0 <= k < r@.len() ==> 0 <= #[trigger] resolve_groups(crate::ci_map::strings_view(arns@), gs@)[k] < gs@.len(),
{
    let ghost av = crate::ci_map::strings_view(arns@);
    let mut out: Vec<Group> = Vec::new();
    let mut i: usize = 0;
    proof {
        assert(av.take(0) =~= Seq::<Seq<char>>::empty());
    }
    while i < arns.len()
        invariant
            i <= arns@.len(),
            av == crate::ci_map::strings_view(arns@),
            out@.len() == resolve_groups(av.take(i as int), gs@).len(),
            forall|k: int| 0 <= k < out@.len() ==> #[trigger] out@[k].same_as(gs@[resolve_groups(av.take(i as int), gs@)[k]]),
            forall|k: int| 0 <= k < out@.len() ==> 0 <= #[trigger] resolve_groups(av.take(i as int), gs@)[k] < gs@.len(),
        decreases arns@.len() - i,
    {
        proof {
            assert(av.take(i + 1).drop_last() =~= av.take(i as int));
            assert(av.take(i + 1).last() == arns@[i as int]@);
        }
        let ghost prev = out@;
        match find_group_index(gs, arns[i].as_str()) {
            Some(j) => {
                out.push(gs[j].copy());
                proof {
                    assert forall|k: int| 0 <= k < out@.len() implies
                        #[trigger] out@[k].same_as(gs@[resolve_groups(av.take(i + 1), gs@)[k]]) by {
                        if k < prev.len() {
                            assert(out@[k] == prev[k]);
                        }
                    }
                }
            },
            None => {},
        }
        i = i + 1;
    }
    proof {
        assert(av.take(arns@.len() as int) =~= av);
    }
    out
}

fn resolve_node(d: &NodeData, ps: &Vec<Policy>, gs: &Vec<Group>) -> (r: Node)
    ensures
        node_resolved(r, *d, ps@, gs@),
{
    let permissions_boundary = match &d.permissions_boundary {
        Some(pr) => match find_policy_index(ps, pr.arn.as_str(), pr.name.as_str()) {
            Some(j) => Some(ps[j].copy()),
            None => None,
        },
        None => None,
    };
    let trust_policy = match &d.trust_policy {
        Some(tp) => Some(tp.deep_copy()),
        None => None,
    };
    let instance_profile = match &d.instance_profile {
        Some(v) => Some(copy_strings(v)),
        None => None,
    };
    let attached_policies = resolve_policy_refs(&d.attached_policies, ps);
    let group_memberships = resolve_group_arns(&d.group_memberships, gs);
    Node {
        arn: d.arn.clone(),
        id_value: d.id_value.clone(),
        attached_policies,
        group_memberships,
        trust_policy,
        instance_profile,
        active_password: d.active_password,
        access_keys: d.access_keys,
        is_admin: d.is_admin,
        permissions_boundary,
        has_mfa: d.has_mfa,
        tags: copy_tags(&d.tags),
    }
}

/// `r` is the graph built from the stored form: the metadata, the policies
/// `ps`, the stored groups `gd` and principals `nd` (each resolved as
/// `group_resolved` and `node_resolved` say) and the edges.
pub open spec fn graph_resolved(r: Graph, metadata: GraphMetadata, ps: Seq<Policy>, gd: Seq<GroupData>, nd: Seq<NodeData>, edges: Vec<Edge>) -> bool {
    &&& policy_seq(r.policies@) == ps
    &&& group_seq(r.groups@).len() == gd.len()
    &&& (forall|i: int| 0 <= i < gd.len() ==> group_resolved(#[trigger] group_seq(r.groups@)[i], gd[i], ps))
    &&& node_seq(r.nodes@).len() == nd.len()
    &&& (forall|i: int| 0 <= i < nd.len() ==> node_resolved(#[trigger] node_seq(r.nodes@)[i], nd[i], ps, group_seq(r.groups@)))
    &&& r.edges == edges
    &&& r.metadata == metadata
}

/// Builds a graph from its stored form: groups and principals refer to
/// policies by (ARN, name) and principals to groups by ARN; each reference
/// resolves to the last policy or group that matches, and references that
/// match none are dropped.
pub fn resolve_graph(
    metadata: GraphMetadata,
    policies: Vec<Policy>,
    groups_data: &Vec<GroupData>,
    nodes_data: &Vec<NodeData>,
    edges: Vec<Edge>,
) -> (r: Graph)
    ensures
        policy_seq(r.policies@) == policies@,
        group_seq(r.groups@).len() == groups_data@.len(),
        forall|i: int| 0 <= i < groups_data@.len() ==> group_resolved(#[trigger] group_seq(r.groups@)[i], groups_data@[i], policies@),
        node_seq(r.nodes@).len() == nodes_data@.len(),
        forall|i: int| 0 <= i < nodes_data@.len() ==> node_resolved(#[trigger] node_seq(r.nodes@)[i], nodes_data@[i], policies@, group_seq(r.groups@)),
        r.edges == edges,
        r.metadata == metadata,
        graph_resolved(r, metadata, policies@, groups_data@, nodes_data@, edges),
{
    let mut groups: Vec<Group> = Vec::new();
    let mut i: usize = 0;
    while i < groups_data.len()
        invariant
            i <= groups_data@.len(),
            groups@.len() == i,
            forall|k: int| 0 <= k < i ==> group_resolved(#[trigger] groups@[k], groups_data@[k], policies@),
        decreases groups_data@.len() - i,
    {
        let gd = &groups_data[i];
        groups.push(Group { arn: gd.arn.clone(), attached_policies: resolve_policy_refs(&gd.attached_policies, &policies) });
        i = i + 1;
    }
    let mut nodes: Vec<Arc<Node>> = Vec::new();
    let mut n: usize = 0;
    while n < nodes_data.len()
        invariant
            n <= nodes_data@.len(),
            nodes@.len() == n,
            forall|k: int| 0 <= k < n ==> node_resolved(#[trigger] node_seq(nodes@)[k], nodes_data@[k], policies@, groups@),
        decreases nodes_data@.len() - n,
    {
        let node = resolve_node(&nodes_data[n], &policies, &groups);
        let ghost nv = node;
        let ghost prev = nodes@;
        nodes.push(Arc::new(node));
        proof {
            assert(node_seq(nodes@)[n as int] == nv);
            assert forall|k: int| 0 <= k < n + 1 implies node_resolved(#[trigger] node_seq(nodes@)[k], nodes_data@[k], policies@, groups@) by {
                if k < n {
                    assert(node_seq(nodes@)[k] == node_seq(prev)[k]);
                }
            }
        }
        n = n + 1;
    }
    let ghost gs = groups@;
    let mut group_objects: Vec<Arc<Group>> = Vec::new();
    let total_groups = groups.len();
    let mut rest_groups = groups;
    let mut g: usize = 0;
    while g < total_groups
        invariant
            g <= total_groups,
            total_groups == gs.len(),
            rest_groups@.len() == total_groups - g,
            forall|k: int| 0 <= k < rest_groups@.len() ==> rest_groups@[k] == gs[k + g],
            group_seq(group_objects@) == gs.take(g as int),
        decreases total_groups - g,
    {
        let x = rest_groups.remove(0);
        let ghost prev = group_objects@;
        group_objects.push(Arc::new(x));
        proof {
            assert(group_seq(group_objects@) =~= group_seq(prev).push(gs[g as int]));
            assert(gs.take(g + 1) =~= gs.take(g as int).push(gs[g as int]));
        }
        g = g + 1;
    }
    proof {
        assert(gs.take(total_groups as int) =~= gs);
    }
    let ghost ps = policies@;
    let mut policy_objects: Vec<Arc<Policy>> = Vec::new();
    let total_policies = policies.len();
    let mut rest_policies = policies;
    let mut p: usize = 0;
    while p < total_policies
        invariant
            p <= total_policies,
            total_policies == ps.len(),
            rest_policies@.len() == total_policies - p,
            forall|k: int| 0 <= k < rest_policies@.len() ==> rest_policies@[k] == ps[k + p],
            policy_seq(policy_objects@) == ps.take(p as int),
        decreases total_policies - p,
    {
        let x = rest_policies.remove(0);
        let ghost prev = policy_objects@;
        policy_objects.push(Arc::new(x));
        proof {
            assert(policy_seq(policy_objects@) =~= policy_seq(prev).push(ps[p as int]));
            assert(ps.take(p + 1) =~= ps.take(p as int).push(ps[p as int]));
        }
        p = p + 1;
    }
    proof {
        assert(ps.take(total_policies as int) =~= ps);
    }
    Graph::new(nodes, edges, policy_objects, group_objects, metadata)
}


// ---------------------------------------------------------------------------
// Reading back a stored graph

/// Each policy of `v` is, by its ARN and name, found in `ps`, and the policy
/// found (the last one with that ARN and name) is equal to it.
pub open spec fn policies_found(v: Seq<Policy>, ps: Seq<Policy>) -> bool {
    forall|k: int| 0 <= k < v.len() ==>
        (find_policy(ps, (#[trigger] v[k]).arn@, v[k].name@) matches Some(i) && ps[i].same_as(v[k]))
}

/// The permissions boundary, where there is one, is found in `ps` as above.
pub open spec fn boundary_found(b: Option<Policy>, ps: Seq<Policy>) -> bool {
    match b {
        Some(p) => find_policy(ps, p.arn@, p.name@) matches Some(i) && ps[i].same_as(p),
        None => true,
    }
}

/// Each group of `v` is, by its ARN, found in `gs`, and the group found (the
/// last one with that ARN) is equal to it.
pub open spec fn groups_found(v: Seq<Group>, gs: Seq<Group>) -> bool {
    forall|k: int| 0 <= k < v.len() ==>
        (find_group(gs, (#[trigger] v[k]).arn@) matches Some(i) && gs[i].same_as(v[k]))
}

proof fn lemma_find_policy_in(ps: Seq<Policy>, arn: Seq<char>, name: Seq<char>)
    ensures
        find_policy(ps, arn, name) matches Some(i) ==> 0 <= i < ps.len(),
    decreases ps.len(),
{
    if ps.len() > 0 {
        lemma_find_policy_in(ps.drop_last(), arn, name);
    }
}

proof fn lemma_resolve_refs(d: Seq<PolicyRef>, v: Seq<Policy>, ps: Seq<Policy>)
    requires
        refs_of(d, v),
        policies_found(v, ps),
    ensures
        resolve_refs(d, ps).len() == d.len(),
        forall|k: int| 0 <= k < d.len() ==> 0 <= #[trigger] resolve_refs(d, ps)[k] < ps.len()
            && ps[resolve_refs(d, ps)[k]].same_as(v[k]),
    decreases d.len(),
{
    if d.len() > 0 {
        let dl = d.drop_last();
        let vl = v.drop_last();
        assert forall|i: int| 0 <= i < dl.len() implies (#[trigger] dl[i]).arn@ == vl[i].arn@ && dl[i].name@ == vl[i].name@ by {
            assert(dl[i] == d[i] && vl[i] == v[i]);
        }
        assert forall|k: int| 0 <= k < vl.len() implies
            (find_policy(ps, (#[trigger] vl[k]).arn@, vl[k].name@) matches Some(i) && ps[i].same_as(vl[k])) by {
            assert(vl[k] == v[k]);
        }
        lemma_resolve_refs(dl, vl, ps);
        let n = d.len() - 1;
        assert(d[n] == d.last());
        assert(find_policy(ps, v[n].arn@, v[n].name@) is Some);
        lemma_find_policy_in(ps, v[n].arn@, v[n].name@);
    }
}

proof fn lemma_find_group_in(gs: Seq<Group>, arn: Seq<char>)
    ensures
        find_group(gs, arn) matches Some(i) ==> 0 <= i < gs.len(),
    decreases gs.len(),
{
    if gs.len() > 0 {
        lemma_find_group_in(gs.drop_last(), arn);
    }
}

/// The ARNs of a list of groups.
pub open spec fn member_arns(v: Seq<Group>) -> Seq<Seq<char>> {
    v.map_values(|g: Group| g.arn@)
}

proof fn lemma_resolve_groups(v: Seq<Group>, gs: Seq<Group>)
    requires
        groups_found(v, gs),
    ensures
        resolve_groups(member_arns(v), gs).len() == v.len(),
        forall|k: int| 0 <= k < v.len() ==> 0 <= #[trigger] resolve_groups(member_arns(v), gs)[k] < gs.len()
            && gs[resolve_groups(member_arns(v), gs)[k]].same_as(v[k]),
    decreases v.len(),
{
    if v.len() > 0 {
        let vl = v.drop_last();
        assert(member_arns(v).drop_last() =~= member_arns(vl));
        assert forall|k: int| 0 <= k < vl.len() implies
            (find_group(gs, (#[trigger] vl[k]).arn@) matches Some(i) && gs[i].same_as(vl[k])) by {
            assert(vl[k] == v[k]);
        }
        lemma_resolve_groups(vl, gs);
        let n = v.len() - 1;
        assert(member_arns(v).last() == v[n].arn@);
        lemma_find_group_in(gs, v[n].arn@);
    }
}

proof fn lemma_group_same_trans(a: Group, b: Group, c: Group)
    requires
        a.same_as(b),
        b.same_as(c),
    ensures
        a.same_as(c),
{
    assert forall|i: int| 0 <= i < a.attached_policies@.len() implies #[trigger] a.attached_policies@[i].same_as(c.attached_policies@[i]) by {
        assert(a.attached_policies@[i].same_as(b.attached_policies@[i]));
        assert(b.attached_policies@[i].same_as(c.attached_policies@[i]));
    }
}

/// Reading back a stored group gives the group again, where each of its
/// policies is the one found by its ARN and name.
pub proof fn law_reload_group(g: Group, d: GroupData, ps: Seq<Policy>, r: Group)
    requires
        stored_group(d, g),
        policies_found(g.attached_policies@, ps),
        group_resolved(r, d, ps),
    ensures
        r.same_as(g),
{
    let idx = resolve_refs(d.attached_policies@, ps);
    lemma_resolve_refs(d.attached_policies@, g.attached_policies@, ps);
    assert forall|i: int| 0 <= i < r.attached_policies@.len() implies #[trigger] r.attached_policies@[i].same_as(g.attached_policies@[i]) by {
        assert(r.attached_policies@[i].same_as(ps[idx[i]]));
        assert(ps[idx[i]].same_as(g.attached_policies@[i]));
    }
}

/// Reading back a stored principal gives the principal again, where each of
/// its policies and its boundary is the one found by ARN and name, and each of
/// its groups the one found by ARN.
pub proof fn law_reload_node(n: Node, d: NodeData, ps: Seq<Policy>, gs: Seq<Group>, r: Node)
    requires
        stored_node(d, n),
        policies_found(n.attached_policies@, ps),
        boundary_found(n.permissions_boundary, ps),
        groups_found(n.group_memberships@, gs),
        node_resolved(r, d, ps, gs),
    ensures
        r.same_except_admin(n),
        r.is_admin == n.is_admin,
{
    let idx = resolve_refs(d.attached_policies@, ps);
    lemma_resolve_refs(d.attached_policies@, n.attached_policies@, ps);
    lemma_resolve_groups(n.group_memberships@, gs);
    assert(crate::ci_map::strings_view(d.group_memberships@) == member_arns(n.group_memberships@));
    let gidx = resolve_groups(member_arns(n.group_memberships@), gs);
    assert forall|i: int| 0 <= i < r.attached_policies@.len() implies #[trigger] r.attached_policies@[i].same_as(n.attached_policies@[i]) by {
        assert(r.attached_policies@[i].same_as(ps[idx[i]]));
        assert(ps[idx[i]].same_as(n.attached_policies@[i]));
    }
    assert forall|i: int| 0 <= i < r.group_memberships@.len() implies #[trigger] r.group_memberships@[i].same_as(n.group_memberships@[i]) by {
        assert(r.group_memberships@[i].same_as(gs[gidx[i]]));
        assert(gs[gidx[i]].same_as(n.group_memberships@[i]));
        lemma_group_same_trans(r.group_memberships@[i], gs[gidx[i]], n.group_memberships@[i]);
    }
    match n.permissions_boundary {
        Some(b) => {
            lemma_find_policy_in(ps, b.arn@, b.name@);
        },
        None => {},
    }
}

proof fn lemma_find_group_same_arns(a: Seq<Group>, b: Seq<Group>, arn: Seq<char>)
    requires
        a.len() == b.len(),
        forall|i: int| 0 <= i < a.len() ==> (#[trigger] a[i]).arn@ == b[i].arn@,
    ensures
        find_group(a, arn) == find_group(b, arn),
    decreases a.len(),
{
    if a.len() > 0 {
        assert forall|i: int| 0 <= i < a.drop_last().len() implies (#[trigger] a.drop_last()[i]).arn@ == b.drop_last()[i].arn@ by {
            assert(a.drop_last()[i] == a[i] && b.drop_last()[i] == b[i]);
        }
        lemma_find_group_same_arns(a.drop_last(), b.drop_last(), arn);
        assert(a.last() == a[a.len() - 1] && b.last() == b[b.len() - 1]);
    }
}

/// Reading back a stored graph gives its groups and principals again: where
/// `groups_data` and `nodes_data` are the stored forms of `groups` and `nodes`,
/// each policy that a group or principal holds (and each boundary) is the one
/// found in `ps` by ARN and name, and each group of a principal the one found
/// in `groups` by ARN, the groups and principals resolved from the stored
/// forms (as `resolve_graph` resolves them) equal the ones that were stored.
pub proof fn law_reload_graph(
    nodes: Seq<Node>,
    groups: Seq<Group>,
    ps: Seq<Policy>,
    nodes_data: Seq<NodeData>,
    groups_data: Seq<GroupData>,
    r_nodes: Seq<Node>,
    r_groups: Seq<Group>,
)
    requires
        nodes_data.len() == nodes.len(),
        groups_data.len() == groups.len(),
        forall|i: int| 0 <= i < nodes.len() ==> stored_node(#[trigger] nodes_data[i], nodes[i]),
        forall|j: int| 0 <= j < groups.len() ==> stored_group(#[trigger] groups_data[j], groups[j]),
        forall|j: int| 0 <= j < groups.len() ==> policies_found((#[trigger] groups[j]).attached_policies@, ps),
        forall|i: int| 0 <= i < nodes.len() ==> policies_found((#[trigger] nodes[i]).attached_policies@, ps),
        forall|i: int| 0 <= i < nodes.len() ==> boundary_found((#[trigger] nodes[i]).permissions_boundary, ps),
        forall|i: int| 0 <= i < nodes.len() ==> groups_found((#[trigger] nodes[i]).group_memberships@, groups),
        r_groups.len() == groups_data.len(),
        forall|j: int| 0 <= j < groups_data.len() ==> group_resolved(#[trigger] r_groups[j], groups_data[j], ps),
        r_nodes.len() == nodes_data.len(),
        forall|i: int| 0 <= i < nodes_data.len() ==> node_resolved(#[trigger] r_nodes[i], nodes_data[i], ps, r_groups),
    ensures
        forall|j: int| 0 <= j < groups.len() ==> (#[trigger] r_groups[j]).same_as(groups[j]),
        forall|i: int| 0 <= i < nodes.len() ==> (#[trigger] r_nodes[i]).same_except_admin(nodes[i]) && r_nodes[i].is_admin == nodes[i].is_admin,
{
    assert forall|j: int| 0 <= j < groups.len() implies (#[trigger] r_groups[j]).same_as(groups[j]) by {
        law_reload_group(groups[j], groups_data[j], ps, r_groups[j]);
    }
    assert forall|j: int| 0 <= j < groups.len() implies (#[trigger] r_groups[j]).arn@ == groups[j].arn@ by {
        assert(group_resolved(r_groups[j], groups_data[j], ps));
        assert(stored_group(groups_data[j], groups[j]));
    }
    assert forall|i: int| 0 <= i < nodes.len() implies (#[trigger] r_nodes[i]).same_except_admin(nodes[i]) && r_nodes[i].is_admin == nodes[i].is_admin by {
        let n = nodes[i];
        assert forall|k: int| 0 <= k < n.group_memberships@.len() implies
            (find_group(r_groups, (#[trigger] n.group_memberships@[k]).arn@) matches Some(x) && r_groups[x].same_as(n.group_memberships@[k])) by {
            assert(groups_found(n.group_memberships@, groups));
            let m = n.group_memberships@[k];
            lemma_find_group_same_arns(r_groups, groups, m.arn@);
            lemma_find_group_in(groups, m.arn@);
            let x = find_group(groups, m.arn@)->0;
            assert(r_groups[x].same_as(groups[x]));
            lemma_group_same_trans(r_groups[x], groups[x], m);
        }
        law_reload_node(n, nodes_data[i], ps, r_groups, r_nodes[i]);
    }
}

/// Storing a graph and reading it back gives the graph again: where
/// `groups_data` and `nodes_data` are the stored forms of the graph's groups
/// and principals (as `to_data` writes them), each policy that a group or
/// principal holds (and each boundary) is the one found among the graph's
/// policies by ARN and name, and each group of a principal the one found among
/// the graph's groups by ARN, the graph `h` built from the stored form (as
/// `resolve_graph` builds it from the graph's metadata, policies and edges)
/// has the same metadata, edges and policies, and groups and principals equal
/// to the graph's, in the same order.
pub proof fn law_store_load_graph(g: Graph, groups_data: Seq<GroupData>, nodes_data: Seq<NodeData>, h: Graph)
    requires
        nodes_data.len() == g.nodes@.len(),
        groups_data.len() == g.groups@.len(),
        forall|i: int| 0 <= i < g.nodes@.len() ==> stored_node(#[trigger] nodes_data[i], node_seq(g.nodes@)[i]),
        forall|j: int| 0 <= j < g.groups@.len() ==> stored_group(#[trigger] groups_data[j], group_seq(g.groups@)[j]),
        forall|j: int| 0 <= j < g.groups@.len() ==> policies_found((#[trigger] group_seq(g.groups@)[j]).attached_policies@, policy_seq(g.policies@)),
        forall|i: int| 0 <= i < g.nodes@.len() ==> policies_found((#[trigger] node_seq(g.nodes@)[i]).attached_policies@, policy_seq(g.policies@)),
        forall|i: int| 0 <= i < g.nodes@.len() ==> boundary_found((#[trigger] node_seq(g.nodes@)[i]).permissions_boundary, policy_seq(g.policies@)),
        forall|i: int| 0 <= i < g.nodes@.len() ==> groups_found((#[trigger] node_seq(g.nodes@)[i]).group_memberships@, group_seq(g.groups@)),
        graph_resolved(h, g.metadata, policy_seq(g.policies@), groups_data, nodes_data, g.edges),
    ensures
        h.metadata == g.metadata,
        h.edges == g.edges,
        policy_seq(h.policies@) == policy_seq(g.policies@),
        h.groups@.len() == g.groups@.len(),
        forall|j: int| 0 <= j < g.groups@.len() ==> (#[trigger] group_seq(h.groups@)[j]).same_as(group_seq(g.groups@)[j]),
        h.nodes@.len() == g.nodes@.len(),
        forall|i: int| 0 <= i < g.nodes@.len() ==> (#[trigger] node_seq(h.nodes@)[i]).same_except_admin(node_seq(g.nodes@)[i])
            && node_seq(h.nodes@)[i].is_admin == node_seq(g.nodes@)[i].is_admin,
{
    let nodes = node_seq(g.nodes@);
    let groups = group_seq(g.groups@);
    let ps = policy_seq(g.policies@);
    let r_nodes = node_seq(h.nodes@);
    let r_groups = group_seq(h.groups@);
    assert forall|i: int| 0 <= i < nodes.len() implies stored_node(#[trigger] nodes_data[i], nodes[i]) by {}
    law_reload_graph(nodes, groups, ps, nodes_data, groups_data, r_nodes, r_groups);
}

} // verus!
