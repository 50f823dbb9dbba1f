//! EC2 edges: launching an instance with a role's instance profile.
use vstd::prelude::*;
use std::sync::Arc;
use crate::text::{str_eq, cat3, join2};
use crate::model::node::Node;
use crate::model::policy::Policy;
use crate::model::edge::{Edge, EdgeSpec};
use crate::policy_eval::authorization::scps_view;
use crate::policy_eval::context_keys::{RequestTime, current_time, time_consistent};
use crate::edges::{
    CheckerKind, may, no_keys, passed_to, mfa_suffix, edge_of, edge_views, node_seq, checker_edges, no_resources,
    run_checker_plain, check, empty_keys, pass_role_keys, with_mfa_note, no_edges, one_edge,
    role_trusts, has_instance_profile, role_trusts_check, has_instance_profile_check,
};

verus! {

/// A role that EC2 may assume.
pub open spec fn ec2_dest_ok(dst: Node) -> bool {
    role_trusts(dst, "ec2.amazonaws.com"@)
}

/// The EC2 edge from `src` to `dst`, if any: `src` may pass the role to EC2
/// and run instances, or (for a role without an instance profile) may create
/// an instance profile, add the role to it, and run instances.
pub open spec fn ec2_pair(dst: Node, src: Node, sv: Option<Seq<Seq<Policy>>>, t: Seq<char>, e: i64) -> Seq<EdgeSpec> {
    let sn = src.spec_searchable_name();
    let dn = dst.spec_searchable_name();
    if src.arn@ == dst.arn@ || src.is_admin {
        Seq::empty()
    } else if !may(src, "iam:PassRole"@, dst.arn@, passed_to("ec2.amazonaws.com"@), sv, t, e).0 {
        Seq::empty()
    } else {
        let run = may(src, "ec2:RunInstances"@, "*"@, no_keys(), sv, t, e);
        if run.0 {
            seq![edge_of(src, dst, sn + " can launch EC2 instances with "@ + dn + mfa_suffix(run.1), "EC2"@)]
        } else if !has_instance_profile(dst)
            && may(src, "iam:CreateInstanceProfile"@, "*"@, no_keys(), sv, t, e).0
            && may(src, "iam:AddRoleToInstanceProfile"@, "*"@, no_keys(), sv, t, e).0
            && may(src, "ec2:RunInstances"@, "*"@, no_keys(), sv, t, e).0 {
            seq![edge_of(src, dst, sn + " can create an instance profile, attach "@ + dn + ", and launch an instance"@, "EC2"@)]
        } else {
            Seq::empty()
        }
    }
}

pub(crate) fn ec2_dest_check(dst: &Node) -> (r: bool)
    ensures
        r == ec2_dest_ok(*dst),
{
    role_trusts_check(dst, "ec2.amazonaws.com")
}

pub(crate) fn ec2_pair_edges(dst: &Node, src: &Node, scps: Option<&[Vec<&Policy>]>, now: &RequestTime) -> (r: Vec<Edge>)
    ensures
        edge_views(r@) == ec2_pair(*dst, *src, scps_view(scps), now.rfc3339@, now.epoch_seconds),
{
    if str_eq(src.arn.as_str(), dst.arn.as_str()) || src.is_admin {
        return no_edges();
    }
    let pass_role_ctx = pass_role_keys("ec2.amazonaws.com");
    let (can_pass, _) = check(src, "iam:PassRole", dst.arn.as_str(), &pass_role_ctx, scps, now);
    if !can_pass {
        return no_edges();
    }
    let empty_ctx = empty_keys();
    let sn = src.searchable_name();
    let dn = dst.searchable_name();
    let (can_run, mfa_needed) = check(src, "ec2:RunInstances", "*", &empty_ctx, scps, now);
    if can_run {
        let reason = with_mfa_note(cat3(sn.as_str(), " can launch EC2 instances with ", dn.as_str()), mfa_needed);
        return one_edge(src, dst, reason, "EC2");
    }
    if !has_instance_profile_check(dst) {
        let (can_create_ip, _) = check(src, "iam:CreateInstanceProfile", "*", &empty_ctx, scps, now);
        let (can_add_role, _) = check(src, "iam:AddRoleToInstanceProfile", "*", &empty_ctx, scps, now);
        if can_create_ip && can_add_role {
            let (can_run2, _) = check(src, "ec2:RunInstances", "*", &empty_ctx, scps, now);
            if can_run2 {
                let base = cat3(sn.as_str(), " can create an instance profile, attach ", dn.as_str());
                let reason = join2(base.as_str(), ", and launch an instance");
                return one_edge(src, dst, reason, "EC2");
            }
        }
    }
    no_edges()
}

/// The EC2 edges among `nodes` at time `now`, role by role.
pub fn generate_edges_at(nodes: &[Arc<Node>], scps: Option<&[Vec<&Policy>]>, now: &RequestTime) -> (r: Vec<Edge>)
    ensures
        edge_views(r@) == checker_edges(CheckerKind::Ec2, node_seq(nodes@), no_resources(), scps_view(scps), now.rfc3339@, now.epoch_seconds),
{
    run_checker_plain(CheckerKind::Ec2, nodes, scps, now)
}

/// The EC2 edges among `nodes`, evaluated at the present moment.
pub fn generate_edges(nodes: &[Arc<Node>], scps: Option<&[Vec<&Policy>]>) -> (r: Vec<Edge>)
    ensures
        exists|n: RequestTime| time_consistent(n) && edge_views(r@) == #[trigger] checker_edges(CheckerKind::Ec2, node_seq(nodes@), no_resources(), scps_view(scps), n.rfc3339@, n.epoch_seconds),
{
    let now = current_time();
    generate_edges_at(nodes, scps, &now)
}

} // verus!
