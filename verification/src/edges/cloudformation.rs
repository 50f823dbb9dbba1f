//! CloudFormation edges: creating or updating a stack, or executing a
//! change set, that acts with a role.
use vstd::prelude::*;
use std::sync::Arc;
use crate::text::{str_eq, cat3, cat5, join2};
use crate::ci_map::CaseInsensitiveMap;
use crate::model::node::Node;
use crate::model::policy::Policy;
use crate::model::edge::{Edge, EdgeSpec};
use crate::policy_eval::authorization::scps_view;
use crate::policy_eval::context_keys::{RequestTime, current_time, user_pairs, time_consistent};
use crate::edges::{
    CheckerKind, may, no_keys, passed_to, edge_of, edge_views, node_seq, checker_edges, resources_view, cloudformation_resources,
    run_checker, check, empty_keys, pass_role_keys, no_edges, one_edge, append_edges, role_trusts, role_trusts_check,
};

verus! {

/// A CloudFormation stack and the role it runs with, if any.
pub struct CfnStack {
    pub stack_arn: String,
    pub role_arn: Option<String>,
}

/// A role that CloudFormation may assume.
pub open spec fn cloudformation_dest_ok(dst: Node) -> bool {
    role_trusts(dst, "cloudformation.amazonaws.com"@)
}

/// The first stack running with `dst` that `src` may update.
pub open spec fn update_stack_target(ss: Seq<CfnStack>, src: Node, dst: Node, sv: Option<Seq<Seq<Policy>>>, t: Seq<char>, e: i64) -> Option<Seq<char>>
    decreases ss.len(),
{
    if ss.len() == 0 {
        None
    } else if (ss[0].role_arn matches Some(r) && r@ == dst.arn@)
        && may(src, "cloudformation:UpdateStack"@, ss[0].stack_arn@, no_keys(), sv, t, e).0 {
        Some(ss[0].stack_arn@)
    } else {
        update_stack_target(ss.skip(1), src, dst, sv, t, e)
    }
}

/// The CloudFormation edges from `src` to `dst`: `src` must be able to pass
/// the role to CloudFormation; creating a stack gives one edge, and
/// otherwise updating a stack of the role, and creating and executing a
/// change set, each give one.
pub open spec fn cloudformation_pair(dst: Node, src: Node, ss: Seq<CfnStack>, sv: Option<Seq<Seq<Policy>>>, t: Seq<char>, e: i64) -> Seq<EdgeSpec> {
    let sn = src.spec_searchable_name();
    let dn = dst.spec_searchable_name();
    if src.arn@ == dst.arn@ || src.is_admin {
        Seq::empty()
    } else if !may(src, "iam:PassRole"@, dst.arn@, passed_to("cloudformation.amazonaws.com"@), sv, t, e).0 {
        Seq::empty()
    } else if may(src, "cloudformation:CreateStack"@, "*"@, no_keys(), sv, t, e).0 {
        seq![edge_of(src, dst, sn + " can create a CloudFormation stack with "@ + dn, "CloudFormation"@)]
    } else {
        let update = match update_stack_target(ss, src, dst, sv, t, e) {
            Some(s) => seq![edge_of(src, dst, sn + " can update stack "@ + s + " (uses "@ + dn + ")"@, "CloudFormation"@)],
            None => Seq::empty(),
        };
        let change_set = if may(src, "cloudformation:CreateChangeSet"@, "*"@, no_keys(), sv, t, e).0
            && may(src, "cloudformation:ExecuteChangeSet"@, "*"@, no_keys(), sv, t, e).0 {
            seq![edge_of(src, dst, sn + " can create and execute a changeset with "@ + dn, "CloudFormation"@)]
        } else {
            Seq::empty()
        };
        update + change_set
    }
}

pub(crate) fn cloudformation_dest_check(dst: &Node) -> (r: bool)
    ensures
        r == cloudformation_dest_ok(*dst),
{
    role_trusts_check(dst, "cloudformation.amazonaws.com")
}

fn first_update_stack(stacks: &[CfnStack], src: &Node, dst: &Node, keys: &CaseInsensitiveMap, scps: Option<&[Vec<&Policy>]>, now: &RequestTime) -> (r: Option<usize>)
    requires
        user_pairs(*keys) == no_keys(),
    ensures
        r matches Some(i) ==> i < stacks@.len()
            && update_stack_target(stacks@, *src, *dst, scps_view(scps), now.rfc3339@, now.epoch_seconds) == Some(stacks@[i as int].stack_arn@),
        r is None ==> update_stack_target(stacks@, *src, *dst, scps_view(scps), now.rfc3339@, now.epoch_seconds) is None,
{
    let ghost ss = stacks@;
    let ghost sv = scps_view(scps);
    let mut i: usize = 0;
    proof {
        assert(ss.skip(0) =~= ss);
    }
    while i < stacks.len()
        invariant
            i <= stacks@.len(),
            ss == stacks@,
            sv == scps_view(scps),
            user_pairs(*keys) == no_keys(),
            update_stack_target(ss, *src, *dst, sv, now.rfc3339@, now.epoch_seconds)
                == update_stack_target(ss.skip(i as int), *src, *dst, sv, now.rfc3339@, now.epoch_seconds),
        decreases stacks@.len() - i,
    {
        let stack = &stacks[i];
        proof {
            assert(ss.skip(i as int)[0] == ss[i as int]);
            assert(ss.skip(i as int).skip(1) =~= ss.skip(i + 1));
        }
        let same_role = match &stack.role_arn {
            Some(r) => str_eq(r.as_str(), dst.arn.as_str()),
            None => false,
        };
        if same_role {
            let (can_update, _) = check(src, "cloudformation:UpdateStack", stack.stack_arn.as_str(), keys, scps, now);
            if can_update {
                return Some(i);
            }
        }
        i = i + 1;
    }
    None
}

pub(crate) fn cloudformation_pair_edges(dst: &Node, src: &Node, stacks: &[CfnStack], scps: Option<&[Vec<&Policy>]>, now: &RequestTime) -> (r: Vec<Edge>)
    ensures
        edge_views(r@) == cloudformation_pair(*dst, *src, stacks@, scps_view(scps), now.rfc3339@, now.epoch_seconds),
{
    if str_eq(src.arn.as_str(), dst.arn.as_str()) || src.is_admin {
        return no_edges();
    }
    let pass_role_ctx = pass_role_keys("cloudformation.amazonaws.com");
    let empty_ctx = empty_keys();
    let (can_pass, _) = check(src, "iam:PassRole", dst.arn.as_str(), &pass_role_ctx, scps, now);
    if !can_pass {
        return no_edges();
    }
    let sn = src.searchable_name();
    let dn = dst.searchable_name();
    let (can_create, _) = check(src, "cloudformation:CreateStack", "*", &empty_ctx, scps, now);
    if can_create {
        return one_edge(src, dst, cat3(sn.as_str(), " can create a CloudFormation stack with ", dn.as_str()), "CloudFormation");
    }
    let mut out = no_edges();
    match first_update_stack(stacks, src, dst, &empty_ctx, scps, now) {
        Some(k) => {
            let base = cat5(sn.as_str(), " can update stack ", stacks[k].stack_arn.as_str(), " (uses ", dn.as_str());
            append_edges(&mut out, one_edge(src, dst, join2(base.as_str(), ")"), "CloudFormation"));
        },
        None => {},
    }
    let (can_create_cs, _) = check(src, "cloudformation:CreateChangeSet", "*", &empty_ctx, scps, now);
    let (can_execute_cs, _) = check(src, "cloudformation:ExecuteChangeSet", "*", &empty_ctx, scps, now);
    if can_create_cs && can_execute_cs {
        append_edges(&mut out, one_edge(src, dst, cat3(sn.as_str(), " can create and execute a changeset with ", dn.as_str()), "CloudFormation"));
    }
    proof {
        assert(edge_views(out@) =~= cloudformation_pair(*dst, *src, stacks@, scps_view(scps), now.rfc3339@, now.epoch_seconds));
    }
    out
}

/// The CloudFormation edges among `nodes` and the known `stacks` at time `now`, role by role.
pub fn generate_edges_locally_at(nodes: &[Arc<Node>], stacks: &[CfnStack], scps: Option<&[Vec<&Policy>]>, now: &RequestTime) -> (r: Vec<Edge>)
    ensures
        edge_views(r@) == checker_edges(CheckerKind::CloudFormation, node_seq(nodes@), cloudformation_resources(stacks@), scps_view(scps), now.rfc3339@, now.epoch_seconds),
{
    let functions: Vec<crate::edges::lambda::LambdaFunction> = Vec::new();
    let functions_s = functions.as_slice();
    let projects: Vec<crate::edges::codebuild::CodeBuildProject> = Vec::new();
    let projects_s = projects.as_slice();
    let r = run_checker(CheckerKind::CloudFormation, nodes, functions_s, projects_s, stacks, scps, now);
    proof {
        assert(resources_view(functions_s, projects_s, stacks) =~= cloudformation_resources(stacks@));
    }
    r
}

/// The CloudFormation edges among `nodes` and the known `stacks`, evaluated at the present moment.
pub fn generate_edges_locally(nodes: &[Arc<Node>], stacks: &[CfnStack], scps: Option<&[Vec<&Policy>]>) -> (r: Vec<Edge>)
    ensures
        exists|n: RequestTime| time_consistent(n) && edge_views(r@) == #[trigger] checker_edges(CheckerKind::CloudFormation, node_seq(nodes@), cloudformation_resources(stacks@), scps_view(scps), n.rfc3339@, n.epoch_seconds),
{
    let now = current_time();
    generate_edges_locally_at(nodes, stacks, scps, &now)
}

} // verus!
