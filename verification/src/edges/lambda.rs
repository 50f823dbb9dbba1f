//! Lambda edges: creating, or re-coding or re-configuring, a function that
//! runs with a role, then invoking it.
use vstd::prelude::*;
use std::sync::Arc;
use crate::text::{str_eq, cat3, cat5, join2};
use crate::ci_map::CaseInsensitiveMap;
use crate::model::node::Node;
use crate::model::policy::Policy;
use crate::model::edge::{Edge, EdgeSpec};
use crate::policy_eval::authorization::scps_view;
use crate::policy_eval::context_keys::{RequestTime, current_time, user_pairs, time_consistent};
use crate::edges::{
    CheckerKind, may, no_keys, passed_to, edge_of, edge_views, node_seq, checker_edges, resources_view, lambda_resources,
    run_checker, check, empty_keys, pass_role_keys, no_edges, one_edge, append_edges, role_trusts, role_trusts_check,
};

verus! {

/// A Lambda function and the role it runs with.
pub struct LambdaFunction {
    pub function_arn: String,
    pub role_arn: String,
}

/// A role that Lambda may assume.
pub open spec fn lambda_dest_ok(dst: Node) -> bool {
    role_trusts(dst, "lambda.amazonaws.com"@)
}

/// The first function running with `dst` whose code `src` may update, when
/// `src` may invoke functions.
pub open spec fn code_update_target(fs: Seq<LambdaFunction>, src: Node, dst: Node, can_invoke: bool, sv: Option<Seq<Seq<Policy>>>, t: Seq<char>, e: i64) -> Option<Seq<char>>
    decreases fs.len(),
{
    if fs.len() == 0 {
        None
    } else if fs[0].role_arn@ == dst.arn@ && may(src, "lambda:UpdateFunctionCode"@, fs[0].function_arn@, no_keys(), sv, t, e).0 && can_invoke {
        Some(fs[0].function_arn@)
    } else {
        code_update_target(fs.skip(1), src, dst, can_invoke, sv, t, e)
    }
}

/// The first function whose configuration `src` may update, when `src` may
/// invoke functions.
pub open spec fn config_update_target(fs: Seq<LambdaFunction>, src: Node, can_invoke: bool, sv: Option<Seq<Seq<Policy>>>, t: Seq<char>, e: i64) -> Option<Seq<char>>
    decreases fs.len(),
{
    if fs.len() == 0 {
        None
    } else if may(src, "lambda:UpdateFunctionConfiguration"@, fs[0].function_arn@, no_keys(), sv, t, e).0 && can_invoke {
        Some(fs[0].function_arn@)
    } else {
        config_update_target(fs.skip(1), src, can_invoke, sv, t, e)
    }
}

/// The Lambda edges from `src` to `dst`: `src` must be able to pass the role
/// to Lambda; then creating and invoking a function gives one edge, and
/// otherwise updating the code of a function of the role, and updating the
/// configuration of any function, each give one.
pub open spec fn lambda_pair(dst: Node, src: Node, fs: Seq<LambdaFunction>, sv: Option<Seq<Seq<Policy>>>, t: Seq<char>, e: i64) -> Seq<EdgeSpec> {
    let sn = src.spec_searchable_name();
    let dn = dst.spec_searchable_name();
    if src.arn@ == dst.arn@ || src.is_admin {
        Seq::empty()
    } else if !may(src, "iam:PassRole"@, dst.arn@, passed_to("lambda.amazonaws.com"@), sv, t, e).0 {
        Seq::empty()
    } else {
        let can_create = may(src, "lambda:CreateFunction"@, "*"@, no_keys(), sv, t, e).0;
        let can_invoke = may(src, "lambda:InvokeFunction"@, "*"@, no_keys(), sv, t, e).0;
        if can_create && can_invoke {
            seq![edge_of(src, dst, sn + " can create a Lambda function with "@ + dn + " and invoke it"@, "Lambda"@)]
        } else {
            let code = match code_update_target(fs, src, dst, can_invoke, sv, t, e) {
                Some(f) => seq![edge_of(src, dst, sn + " can update the code of Lambda function "@ + f + " (with "@ + dn + ") and invoke it"@, "Lambda"@)],
                None => Seq::empty(),
            };
            let config = match config_update_target(fs, src, can_invoke, sv, t, e) {
                Some(f) => seq![edge_of(src, dst, sn + " can update the config of "@ + f + " to use "@ + dn + " and invoke it"@, "Lambda"@)],
                None => Seq::empty(),
            };
            code + config
        }
    }
}

pub(crate) fn lambda_dest_check(dst: &Node) -> (r: bool)
    ensures
        r == lambda_dest_ok(*dst),
{
    role_trusts_check(dst, "lambda.amazonaws.com")
}

fn first_code_update(functions: &[LambdaFunction], src: &Node, dst: &Node, can_invoke: bool, keys: &CaseInsensitiveMap, scps: Option<&[Vec<&Policy>]>, now: &RequestTime) -> (r: Option<usize>)
    requires
        user_pairs(*keys) == no_keys(),
    ensures
        r matches Some(i) ==> i < functions@.len()
            && code_update_target(functions@, *src, *dst, can_invoke, scps_view(scps), now.rfc3339@, now.epoch_seconds) == Some(functions@[i as int].function_arn@),
        r is None ==> code_update_target(functions@, *src, *dst, can_invoke, scps_view(scps), now.rfc3339@, now.epoch_seconds) is None,
{
    let ghost fs = functions@;
    let ghost sv = scps_view(scps);
    let mut i: usize = 0;
    proof {
        assert(fs.skip(0) =~= fs);
    }
    while i < functions.len()
        invariant
            i <= functions@.len(),
            fs == functions@,
            sv == scps_view(scps),
            user_pairs(*keys) == no_keys(),
            code_update_target(fs, *src, *dst, can_invoke, sv, now.rfc3339@, now.epoch_seconds)
                == code_update_target(fs.skip(i as int), *src, *dst, can_invoke, sv, now.rfc3339@, now.epoch_seconds),
        decreases functions@.len() - i,
    {
        let func = &functions[i];
        proof {
            assert(fs.skip(i as int)[0] == fs[i as int]);
            assert(fs.skip(i as int).skip(1) =~= fs.skip(i + 1));
        }
        if str_eq(func.role_arn.as_str(), dst.arn.as_str()) {
            let (can_update, _) = check(src, "lambda:UpdateFunctionCode", func.function_arn.as_str(), keys, scps, now);
            if can_update && can_invoke {
                return Some(i);
            }
        }
        i = i + 1;
    }
    None
}

fn first_config_update(functions: &[LambdaFunction], src: &Node, can_invoke: bool, keys: &CaseInsensitiveMap, scps: Option<&[Vec<&Policy>]>, now: &RequestTime) -> (r: Option<usize>)
    requires
        user_pairs(*keys) == no_keys(),
    ensures
        r matches Some(i) ==> i < functions@.len()
            && config_update_target(functions@, *src, can_invoke, scps_view(scps), now.rfc3339@, now.epoch_seconds) == Some(functions@[i as int].function_arn@),
        r is None ==> config_update_target(functions@, *src, can_invoke, scps_view(scps), now.rfc3339@, now.epoch_seconds) is None,
{
    let ghost fs = functions@;
    let ghost sv = scps_view(scps);
    let mut i: usize = 0;
    proof {
        assert(fs.skip(0) =~= fs);
    }
    while i < functions.len()
        invariant
            i <= functions@.len(),
            fs == functions@,
            sv == scps_view(scps),
            user_pairs(*keys) == no_keys(),
            config_update_target(fs, *src, can_invoke, sv, now.rfc3339@, now.epoch_seconds)
                == config_update_target(fs.skip(i as int), *src, can_invoke, sv, now.rfc3339@, now.epoch_seconds),
        decreases functions@.len() - i,
    {
        let func = &functions[i];
        proof {
            assert(fs.skip(i as int)[0] == fs[i as int]);
            assert(fs.skip(i as int).skip(1) =~= fs.skip(i + 1));
        }
        let (can_update_config, _) = check(src, "lambda:UpdateFunctionConfiguration", func.function_arn.as_str(), keys, scps, now);
        if can_update_config && can_invoke {
            return Some(i);
        }
        i = i + 1;
    }
    None
}

pub(crate) fn lambda_pair_edges(dst: &Node, src: &Node, functions: &[LambdaFunction], scps: Option<&[Vec<&Policy>]>, now: &RequestTime) -> (r: Vec<Edge>)
    ensures
        edge_views(r@) == lambda_pair(*dst, *src, functions@, scps_view(scps), now.rfc3339@, now.epoch_seconds),
{
    if str_eq(src.arn.as_str(), dst.arn.as_str()) || src.is_admin {
        return no_edges();
    }
    let pass_role_ctx = pass_role_keys("lambda.amazonaws.com");
    let (can_pass, _) = check(src, "iam:PassRole", dst.arn.as_str(), &pass_role_ctx, scps, now);
    if !can_pass {
        return no_edges();
    }
    let empty_ctx = empty_keys();
    let sn = src.searchable_name();
    let dn = dst.searchable_name();
    let (can_create, _) = check(src, "lambda:CreateFunction", "*", &empty_ctx, scps, now);
    let (can_invoke, _) = check(src, "lambda:InvokeFunction", "*", &empty_ctx, scps, now);
    if can_create && can_invoke {
        let base = cat3(sn.as_str(), " can create a Lambda function with ", dn.as_str());
        return one_edge(src, dst, join2(base.as_str(), " and invoke it"), "Lambda");
    }
    let mut out = no_edges();
    match first_code_update(functions, src, dst, can_invoke, &empty_ctx, scps, now) {
        Some(k) => {
            let base = cat5(sn.as_str(), " can update the code of Lambda function ", functions[k].function_arn.as_str(), " (with ", dn.as_str());
            append_edges(&mut out, one_edge(src, dst, join2(base.as_str(), ") and invoke it"), "Lambda"));
        },
        None => {},
    }
    match first_config_update(functions, src, can_invoke, &empty_ctx, scps, now) {
        Some(k) => {
            let base = cat5(sn.as_str(), " can update the config of ", functions[k].function_arn.as_str(), " to use ", dn.as_str());
            append_edges(&mut out, one_edge(src, dst, join2(base.as_str(), " and invoke it"), "Lambda"));
        },
        None => {},
    }
    proof {
        let sv = scps_view(scps);
        let ci = may(*src, "lambda:InvokeFunction"@, "*"@, no_keys(), sv, now.rfc3339@, now.epoch_seconds).0;
        assert(edge_views(out@) =~= lambda_pair(*dst, *src, functions@, sv, now.rfc3339@, now.epoch_seconds));
    }
    out
}

/// The Lambda edges among `nodes` and the known `functions` at time `now`, role by role.
pub fn generate_edges_locally_at(nodes: &[Arc<Node>], functions: &[LambdaFunction], scps: Option<&[Vec<&Policy>]>, now: &RequestTime) -> (r: Vec<Edge>)
    ensures
        edge_views(r@) == checker_edges(CheckerKind::Lambda, node_seq(nodes@), lambda_resources(functions@), scps_view(scps), now.rfc3339@, now.epoch_seconds),
{
    let projects: Vec<crate::edges::codebuild::CodeBuildProject> = Vec::new();
    let projects_s = projects.as_slice();
    let stacks: Vec<crate::edges::cloudformation::CfnStack> = Vec::new();
    let stacks_s = stacks.as_slice();
    let r = run_checker(CheckerKind::Lambda, nodes, functions, projects_s, stacks_s, scps, now);
    proof {
        assert(resources_view(functions, projects_s, stacks_s) =~= lambda_resources(functions@));
    }
    r
}

/// The Lambda edges among `nodes` and the known `functions`, evaluated at the present moment.
pub fn generate_edges_locally(nodes: &[Arc<Node>], functions: &[LambdaFunction], scps: Option<&[Vec<&Policy>]>) -> (r: Vec<Edge>)
    ensures
        exists|n: RequestTime| time_consistent(n) && edge_views(r@) == #[trigger] checker_edges(CheckerKind::Lambda, node_seq(nodes@), lambda_resources(functions@), scps_view(scps), n.rfc3339@, n.epoch_seconds),
{
    let now = current_time();
    generate_edges_locally_at(nodes, functions, scps, &now)
}

} // verus!
