//! SageMaker edges: creating notebooks or jobs that run with a role.
use vstd::prelude::*;
use std::sync::Arc;
use crate::text::{str_eq, cat3};
use crate::model::node::Node;
use crate::model::policy::Policy;
use crate::model::edge::{Edge, EdgeSpec};
use crate::policy_eval::authorization::scps_view;
use crate::policy_eval::context_keys::{RequestTime, current_time, time_consistent};
use crate::edges::{
    CheckerKind, may, no_keys, passed_to, edge_of, edge_views, node_seq, checker_edges, no_resources,
    run_checker_plain, check, empty_keys, pass_role_keys, no_edges, one_edge, role_trusts, role_trusts_check,
};

verus! {

/// A role that SageMaker may assume.
pub open spec fn sagemaker_dest_ok(dst: Node) -> bool {
    role_trusts(dst, "sagemaker.amazonaws.com"@)
}

/// The SageMaker edge from `src` to `dst`, if any: `src` may pass the role
/// to SageMaker and create a notebook instance, else a training job, else a
/// processing job.
pub open spec fn sagemaker_pair(dst: Node, src: Node, sv: Option<Seq<Seq<Policy>>>, t: Seq<char>, e: i64) -> Seq<EdgeSpec> {
    let sn = src.spec_searchable_name();
    let dn = dst.spec_searchable_name();
    if src.arn@ == dst.arn@ || src.is_admin {
        Seq::empty()
    } else if !may(src, "iam:PassRole"@, dst.arn@, passed_to("sagemaker.amazonaws.com"@), sv, t, e).0 {
        Seq::empty()
    } else if may(src, "sagemaker:CreateNotebookInstance"@, "*"@, no_keys(), sv, t, e).0 {
        seq![edge_of(src, dst, sn + " can create a SageMaker notebook with "@ + dn, "SageMaker"@)]
    } else if may(src, "sagemaker:CreateTrainingJob"@, "*"@, no_keys(), sv, t, e).0 {
        seq![edge_of(src, dst, sn + " can create a SageMaker training job with "@ + dn, "SageMaker"@)]
    } else if may(src, "sagemaker:CreateProcessingJob"@, "*"@, no_keys(), sv, t, e).0 {
        seq![edge_of(src, dst, sn + " can create a SageMaker processing job with "@ + dn, "SageMaker"@)]
    } else {
        Seq::empty()
    }
}

pub(crate) fn sagemaker_dest_check(dst: &Node) -> (r: bool)
    ensures
        r == sagemaker_dest_ok(*dst),
{
    role_trusts_check(dst, "sagemaker.amazonaws.com")
}

pub(crate) fn sagemaker_pair_edges(dst: &Node, src: &Node, scps: Option<&[Vec<&Policy>]>, now: &RequestTime) -> (r: Vec<Edge>)
    ensures
        edge_views(r@) == sagemaker_pair(*dst, *src, scps_view(scps), now.rfc3339@, now.epoch_seconds),
{
    if str_eq(src.arn.as_str(), dst.arn.as_str()) || src.is_admin {
        return no_edges();
    }
    let pass_ctx = pass_role_keys("sagemaker.amazonaws.com");
    let empty_ctx = empty_keys();
    let (can_pass, _) = check(src, "iam:PassRole", dst.arn.as_str(), &pass_ctx, scps, now);
    if !can_pass {
        return no_edges();
    }
    let sn = src.searchable_name();
    let dn = dst.searchable_name();
    let (can_notebook, _) = check(src, "sagemaker:CreateNotebookInstance", "*", &empty_ctx, scps, now);
    if can_notebook {
        return one_edge(src, dst, cat3(sn.as_str(), " can create a SageMaker notebook with ", dn.as_str()), "SageMaker");
    }
    let (can_train, _) = check(src, "sagemaker:CreateTrainingJob", "*", &empty_ctx, scps, now);
    if can_train {
        return one_edge(src, dst, cat3(sn.as_str(), " can create a SageMaker training job with ", dn.as_str()), "SageMaker");
    }
    let (can_process, _) = check(src, "sagemaker:CreateProcessingJob", "*", &empty_ctx, scps, now);
    if can_process {
        return one_edge(src, dst, cat3(sn.as_str(), " can create a SageMaker processing job with ", dn.as_str()), "SageMaker");
    }
    no_edges()
}

/// The SageMaker edges among `nodes` at time `now`, role by role.
pub fn generate_edges_at(nodes: &[Arc<Node>], scps: Option<&[Vec<&Policy>]>, now: &RequestTime) -> (r: Vec<Edge>)
    ensures
        edge_views(r@) == checker_edges(CheckerKind::SageMaker, node_seq(nodes@), no_resources(), scps_view(scps), now.rfc3339@, now.epoch_seconds),
{
    run_checker_plain(CheckerKind::SageMaker, nodes, scps, now)
}

/// The SageMaker edges among `nodes`, evaluated at the present moment.
pub fn generate_edges(nodes: &[Arc<Node>], scps: Option<&[Vec<&Policy>]>) -> (r: Vec<Edge>)
    ensures
        exists|n: RequestTime| time_consistent(n) && edge_views(r@) == #[trigger] checker_edges(CheckerKind::SageMaker, node_seq(nodes@), no_resources(), scps_view(scps), n.rfc3339@, n.epoch_seconds),
{
    let now = current_time();
    generate_edges_at(nodes, scps, &now)
}

} // verus!
