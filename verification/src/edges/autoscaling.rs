//! Auto Scaling edges: creating an auto-scaling group that launches
//! instances with a role.
use vstd::prelude::*;
use std::sync::Arc;
use crate::text::{str_eq, cat3};
use crate::model::node::Node;
use crate::model::policy::Policy;
use crate::model::edge::{Edge, EdgeSpec};
use crate::policy_eval::authorization::scps_view;
use crate::policy_eval::context_keys::{RequestTime, current_time, time_consistent};
use crate::edges::{
    CheckerKind, may, no_keys, passed_to, edge_of, edge_views, node_seq, checker_edges, no_resources,
    run_checker_plain, check, empty_keys, pass_role_keys, no_edges, one_edge,
    role_trusts, has_instance_profile, role_trusts_check, has_instance_profile_check,
};

verus! {

/// A role that EC2 may assume and that has an instance profile.
pub open spec fn autoscaling_dest_ok(dst: Node) -> bool {
    role_trusts(dst, "ec2.amazonaws.com"@) && has_instance_profile(dst)
}

/// The Auto Scaling edge from `src` to `dst`, if any: `src` may create an
/// auto-scaling group, a launch configuration and the service-linked role,
/// and pass the role to EC2.
pub open spec fn autoscaling_pair(dst: Node, src: Node, sv: Option<Seq<Seq<Policy>>>, t: Seq<char>, e: i64) -> Seq<EdgeSpec> {
    let sn = src.spec_searchable_name();
    let dn = dst.spec_searchable_name();
    if src.arn@ == dst.arn@ || src.is_admin {
        Seq::empty()
    } else if may(src, "autoscaling:CreateAutoScalingGroup"@, "*"@, no_keys(), sv, t, e).0
        && may(src, "autoscaling:CreateLaunchConfiguration"@, "*"@, no_keys(), sv, t, e).0
        && may(src, "iam:CreateServiceLinkedRole"@, "*"@, no_keys(), sv, t, e).0
        && may(src, "iam:PassRole"@, dst.arn@, passed_to("ec2.amazonaws.com"@), sv, t, e).0 {
        seq![edge_of(src, dst, sn + " can create an auto-scaling group with "@ + dn, "AutoScaling"@)]
    } else {
        Seq::empty()
    }
}

pub(crate) fn autoscaling_dest_check(dst: &Node) -> (r: bool)
    ensures
        r == autoscaling_dest_ok(*dst),
{
    role_trusts_check(dst, "ec2.amazonaws.com") && has_instance_profile_check(dst)
}

pub(crate) fn autoscaling_pair_edges(dst: &Node, src: &Node, scps: Option<&[Vec<&Policy>]>, now: &RequestTime) -> (r: Vec<Edge>)
    ensures
        edge_views(r@) == autoscaling_pair(*dst, *src, scps_view(scps), now.rfc3339@, now.epoch_seconds),
{
    if str_eq(src.arn.as_str(), dst.arn.as_str()) || src.is_admin {
        return no_edges();
    }
    let empty_ctx = empty_keys();
    let (can_create_asg, _) = check(src, "autoscaling:CreateAutoScalingGroup", "*", &empty_ctx, scps, now);
    if !can_create_asg {
        return no_edges();
    }
    let (can_create_lc, _) = check(src, "autoscaling:CreateLaunchConfiguration", "*", &empty_ctx, scps, now);
    let (has_slr, _) = check(src, "iam:CreateServiceLinkedRole", "*", &empty_ctx, scps, now);
    if can_create_lc && has_slr {
        let pass_ctx = pass_role_keys("ec2.amazonaws.com");
        let (can_pass, _) = check(src, "iam:PassRole", dst.arn.as_str(), &pass_ctx, scps, now);
        if can_pass {
            let sn = src.searchable_name();
            let dn = dst.searchable_name();
            return one_edge(src, dst, cat3(sn.as_str(), " can create an auto-scaling group with ", dn.as_str()), "AutoScaling");
        }
    }
    no_edges()
}

/// The Auto Scaling edges among `nodes` at time `now`, role by role.
pub fn generate_edges_at(nodes: &[Arc<Node>], scps: Option<&[Vec<&Policy>]>, now: &RequestTime) -> (r: Vec<Edge>)
    ensures
        edge_views(r@) == checker_edges(CheckerKind::AutoScaling, node_seq(nodes@), no_resources(), scps_view(scps), now.rfc3339@, now.epoch_seconds),
{
    run_checker_plain(CheckerKind::AutoScaling, nodes, scps, now)
}

/// The Auto Scaling edges among `nodes`, evaluated at the present moment.
pub fn generate_edges(nodes: &[Arc<Node>], scps: Option<&[Vec<&Policy>]>) -> (r: Vec<Edge>)
    ensures
        exists|n: RequestTime| time_consistent(n) && edge_views(r@) == #[trigger] checker_edges(CheckerKind::AutoScaling, node_seq(nodes@), no_resources(), scps_view(scps), n.rfc3339@, n.epoch_seconds),
{
    let now = current_time();
    generate_edges_at(nodes, scps, &now)
}

} // verus!
