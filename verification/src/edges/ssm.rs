//! SSM edges: running commands or sessions on instances that run with a role.
use vstd::prelude::*;
use std::sync::Arc;
use crate::text::{str_eq, cat3};
use crate::model::node::Node;
use crate::model::policy::Policy;
use crate::model::edge::{Edge, EdgeSpec};
use crate::policy_eval::authorization::scps_view;
use crate::policy_eval::context_keys::{RequestTime, current_time, time_consistent};
use crate::edges::{
    CheckerKind, may, no_keys, edge_of, edge_views, node_seq, checker_edges, no_resources,
    run_checker_plain, check, empty_keys, no_edges, one_edge,
    role_trusts, has_instance_profile, role_trusts_check, has_instance_profile_check,
};

verus! {

/// A role that EC2 may assume, with an instance profile, whose own policies
/// (without SCPs) let the SSM agent open a control channel.
pub open spec fn ssm_dest_ok(dst: Node, t: Seq<char>, e: i64) -> bool {
    &&& role_trusts(dst, "ec2.amazonaws.com"@)
    &&& has_instance_profile(dst)
    &&& may(dst, "ssmmessages:CreateControlChannel"@, "*"@, no_keys(), None, t, e).0
}

/// The SSM edge from `src` to `dst`, if any: `src` may send commands, or
/// else start sessions.
pub open spec fn ssm_pair(dst: Node, src: Node, sv: Option<Seq<Seq<Policy>>>, t: Seq<char>, e: i64) -> Seq<EdgeSpec> {
    let sn = src.spec_searchable_name();
    let dn = dst.spec_searchable_name();
    if src.arn@ == dst.arn@ || src.is_admin {
        Seq::empty()
    } else if may(src, "ssm:SendCommand"@, "*"@, no_keys(), sv, t, e).0 {
        seq![edge_of(src, dst, sn + " can send SSM commands to instances with "@ + dn, "SSM"@)]
    } else if may(src, "ssm:StartSession"@, "*"@, no_keys(), sv, t, e).0 {
        seq![edge_of(src, dst, sn + " can start SSM sessions on instances with "@ + dn, "SSM"@)]
    } else {
        Seq::empty()
    }
}

pub(crate) fn ssm_dest_check(dst: &Node, now: &RequestTime) -> (r: bool)
    ensures
        r == ssm_dest_ok(*dst, now.rfc3339@, now.epoch_seconds),
{
    if !role_trusts_check(dst, "ec2.amazonaws.com") {
        return false;
    }
    if !has_instance_profile_check(dst) {
        return false;
    }
    let empty_ctx = empty_keys();
    let (can_ssm, _) = check(dst, "ssmmessages:CreateControlChannel", "*", &empty_ctx, None, now);
    can_ssm
}

pub(crate) fn ssm_pair_edges(dst: &Node, src: &Node, scps: Option<&[Vec<&Policy>]>, now: &RequestTime) -> (r: Vec<Edge>)
    ensures
        edge_views(r@) == ssm_pair(*dst, *src, scps_view(scps), now.rfc3339@, now.epoch_seconds),
{
    if str_eq(src.arn.as_str(), dst.arn.as_str()) || src.is_admin {
        return no_edges();
    }
    let empty_ctx = empty_keys();
    let sn = src.searchable_name();
    let dn = dst.searchable_name();
    let (can_send, _) = check(src, "ssm:SendCommand", "*", &empty_ctx, scps, now);
    if can_send {
        return one_edge(src, dst, cat3(sn.as_str(), " can send SSM commands to instances with ", dn.as_str()), "SSM");
    }
    let (can_session, _) = check(src, "ssm:StartSession", "*", &empty_ctx, scps, now);
    if can_session {
        return one_edge(src, dst, cat3(sn.as_str(), " can start SSM sessions on instances with ", dn.as_str()), "SSM");
    }
    no_edges()
}

/// The SSM edges among `nodes` at time `now`, role by role.
pub fn generate_edges_at(nodes: &[Arc<Node>], scps: Option<&[Vec<&Policy>]>, now: &RequestTime) -> (r: Vec<Edge>)
    ensures
        edge_views(r@) == checker_edges(CheckerKind::Ssm, node_seq(nodes@), no_resources(), scps_view(scps), now.rfc3339@, now.epoch_seconds),
{
    run_checker_plain(CheckerKind::Ssm, nodes, scps, now)
}

/// The SSM edges among `nodes`, evaluated at the present moment.
pub fn generate_edges(nodes: &[Arc<Node>], scps: Option<&[Vec<&Policy>]>) -> (r: Vec<Edge>)
    ensures
        exists|n: RequestTime| time_consistent(n) && edge_views(r@) == #[trigger] checker_edges(CheckerKind::Ssm, node_seq(nodes@), no_resources(), scps_view(scps), n.rfc3339@, n.epoch_seconds),
{
    let now = current_time();
    generate_edges_at(nodes, scps, &now)
}

} // verus!
