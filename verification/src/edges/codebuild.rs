//! CodeBuild edges: starting builds of, creating, or re-pointing a project
//! that runs with a role.
use vstd::prelude::*;
use std::sync::Arc;
use crate::text::{str_eq, cat3, cat5, join2};
use crate::ci_map::CaseInsensitiveMap;
use crate::model::node::Node;
use crate::model::policy::Policy;
use crate::model::edge::{Edge, EdgeSpec};
use crate::policy_eval::authorization::scps_view;
use crate::policy_eval::context_keys::{RequestTime, current_time, user_pairs, time_consistent};
use crate::edges::{
    CheckerKind, may, no_keys, passed_to, edge_of, edge_views, node_seq, checker_edges, resources_view, codebuild_resources,
    run_checker, check, empty_keys, pass_role_keys, no_edges, one_edge, append_edges, role_trusts, role_trusts_check,
};

verus! {

/// A CodeBuild project and its service role.
pub struct CodeBuildProject {
    pub project_arn: String,
    pub service_role_arn: String,
}

/// A role that CodeBuild may assume.
pub open spec fn codebuild_dest_ok(dst: Node) -> bool {
    role_trusts(dst, "codebuild.amazonaws.com"@)
}

/// The first project running with `dst` on which `src` may start builds.
pub open spec fn start_build_target(ps: Seq<CodeBuildProject>, src: Node, dst: Node, sv: Option<Seq<Seq<Policy>>>, t: Seq<char>, e: i64) -> Option<Seq<char>>
    decreases ps.len(),
{
    if ps.len() == 0 {
        None
    } else if ps[0].service_role_arn@ == dst.arn@ && may(src, "codebuild:StartBuild"@, ps[0].project_arn@, no_keys(), sv, t, e).0 {
        Some(ps[0].project_arn@)
    } else {
        start_build_target(ps.skip(1), src, dst, sv, t, e)
    }
}

/// The first project that `src` may both update and build.
pub open spec fn update_project_target(ps: Seq<CodeBuildProject>, src: Node, sv: Option<Seq<Seq<Policy>>>, t: Seq<char>, e: i64) -> Option<Seq<char>>
    decreases ps.len(),
{
    if ps.len() == 0 {
        None
    } else if may(src, "codebuild:UpdateProject"@, ps[0].project_arn@, no_keys(), sv, t, e).0
        && may(src, "codebuild:StartBuild"@, ps[0].project_arn@, no_keys(), sv, t, e).0 {
        Some(ps[0].project_arn@)
    } else {
        update_project_target(ps.skip(1), src, sv, t, e)
    }
}

/// The CodeBuild edges from `src` to `dst`: starting builds of a project of
/// the role gives one; then, when `src` may pass the role to CodeBuild,
/// creating a project and starting a build gives another, or else updating
/// and building some project does.
pub open spec fn codebuild_pair(dst: Node, src: Node, ps: Seq<CodeBuildProject>, sv: Option<Seq<Seq<Policy>>>, t: Seq<char>, e: i64) -> Seq<EdgeSpec> {
    let sn = src.spec_searchable_name();
    let dn = dst.spec_searchable_name();
    if src.arn@ == dst.arn@ || src.is_admin {
        Seq::empty()
    } else {
        let start = match start_build_target(ps, src, dst, sv, t, e) {
            Some(p) => seq![edge_of(src, dst, sn + " can start builds on "@ + p + " (uses "@ + dn + ")"@, "CodeBuild"@)],
            None => Seq::empty(),
        };
        if !may(src, "iam:PassRole"@, dst.arn@, passed_to("codebuild.amazonaws.com"@), sv, t, e).0 {
            start
        } else if may(src, "codebuild:CreateProject"@, "*"@, no_keys(), sv, t, e).0
            && may(src, "codebuild:StartBuild"@, "*"@, no_keys(), sv, t, e).0 {
            start + seq![edge_of(src, dst, sn + " can create a CodeBuild project with "@ + dn + " and start a build"@, "CodeBuild"@)]
        } else {
            start + match update_project_target(ps, src, sv, t, e) {
                Some(p) => seq![edge_of(src, dst, sn + " can update "@ + p + " to use "@ + dn + " and start a build"@, "CodeBuild"@)],
                None => Seq::empty(),
            }
        }
    }
}

pub(crate) fn codebuild_dest_check(dst: &Node) -> (r: bool)
    ensures
        r == codebuild_dest_ok(*dst),
{
    role_trusts_check(dst, "codebuild.amazonaws.com")
}

fn first_start_build(projects: &[CodeBuildProject], src: &Node, dst: &Node, keys: &CaseInsensitiveMap, scps: Option<&[Vec<&Policy>]>, now: &RequestTime) -> (r: Option<usize>)
    requires
        user_pairs(*keys) == no_keys(),
    ensures
        r matches Some(i) ==> i < projects@.len()
            && start_build_target(projects@, *src, *dst, scps_view(scps), now.rfc3339@, now.epoch_seconds) == Some(projects@[i as int].project_arn@),
        r is None ==> start_build_target(projects@, *src, *dst, scps_view(scps), now.rfc3339@, now.epoch_seconds) is None,
{
    let ghost ps = projects@;
    let ghost sv = scps_view(scps);
    let mut i: usize = 0;
    proof {
        assert(ps.skip(0) =~= ps);
    }
    while i < projects.len()
        invariant
            i <= projects@.len(),
            ps == projects@,
            sv == scps_view(scps),
            user_pairs(*keys) == no_keys(),
            start_build_target(ps, *src, *dst, sv, now.rfc3339@, now.epoch_seconds)
                == start_build_target(ps.skip(i as int), *src, *dst, sv, now.rfc3339@, now.epoch_seconds),
        decreases projects@.len() - i,
    {
        let proj = &projects[i];
        proof {
            assert(ps.skip(i as int)[0] == ps[i as int]);
            assert(ps.skip(i as int).skip(1) =~= ps.skip(i + 1));
        }
        if str_eq(proj.service_role_arn.as_str(), dst.arn.as_str()) {
            let (can_start, _) = check(src, "codebuild:StartBuild", proj.project_arn.as_str(), keys, scps, now);
            if can_start {
                return Some(i);
            }
        }
        i = i + 1;
    }
    None
}

fn first_update_project(projects: &[CodeBuildProject], src: &Node, keys: &CaseInsensitiveMap, scps: Option<&[Vec<&Policy>]>, now: &RequestTime) -> (r: Option<usize>)
    requires
        user_pairs(*keys) == no_keys(),
    ensures
        r matches Some(i) ==> i < projects@.len()
            && update_project_target(projects@, *src, scps_view(scps), now.rfc3339@, now.epoch_seconds) == Some(projects@[i as int].project_arn@),
        r is None ==> update_project_target(projects@, *src, scps_view(scps), now.rfc3339@, now.epoch_seconds) is None,
{
    let ghost ps = projects@;
    let ghost sv = scps_view(scps);
    let mut i: usize = 0;
    proof {
        assert(ps.skip(0) =~= ps);
    }
    while i < projects.len()
        invariant
            i <= projects@.len(),
            ps == projects@,
            sv == scps_view(scps),
            user_pairs(*keys) == no_keys(),
            update_project_target(ps, *src, sv, now.rfc3339@, now.epoch_seconds)
                == update_project_target(ps.skip(i as int), *src, sv, now.rfc3339@, now.epoch_seconds),
        decreases projects@.len() - i,
    {
        let proj = &projects[i];
        proof {
            assert(ps.skip(i as int)[0] == ps[i as int]);
            assert(ps.skip(i as int).skip(1) =~= ps.skip(i + 1));
        }
        let (can_update, _) = check(src, "codebuild:UpdateProject", proj.project_arn.as_str(), keys, scps, now);
        let (can_start2, _) = check(src, "codebuild:StartBuild", proj.project_arn.as_str(), keys, scps, now);
        if can_update && can_start2 {
            return Some(i);
        }
        i = i + 1;
    }
    None
}

pub(crate) fn codebuild_pair_edges(dst: &Node, src: &Node, projects: &[CodeBuildProject], scps: Option<&[Vec<&Policy>]>, now: &RequestTime) -> (r: Vec<Edge>)
    ensures
        edge_views(r@) == codebuild_pair(*dst, *src, projects@, scps_view(scps), now.rfc3339@, now.epoch_seconds),
{
    if str_eq(src.arn.as_str(), dst.arn.as_str()) || src.is_admin {
        return no_edges();
    }
    let pass_role_ctx = pass_role_keys("codebuild.amazonaws.com");
    let empty_ctx = empty_keys();
    let sn = src.searchable_name();
    let dn = dst.searchable_name();
    let mut out = no_edges();
    match first_start_build(projects, src, dst, &empty_ctx, scps, now) {
        Some(k) => {
            let base = cat5(sn.as_str(), " can start builds on ", projects[k].project_arn.as_str(), " (uses ", dn.as_str());
            append_edges(&mut out, one_edge(src, dst, join2(base.as_str(), ")"), "CodeBuild"));
        },
        None => {},
    }
    let ghost start = edge_views(out@);
    let (can_pass, _) = check(src, "iam:PassRole", dst.arn.as_str(), &pass_role_ctx, scps, now);
    if !can_pass {
        return out;
    }
    let (can_create, _) = check(src, "codebuild:CreateProject", "*", &empty_ctx, scps, now);
    let (can_start, _) = check(src, "codebuild:StartBuild", "*", &empty_ctx, scps, now);
    if can_create && can_start {
        let base = cat3(sn.as_str(), " can create a CodeBuild project with ", dn.as_str());
        append_edges(&mut out, one_edge(src, dst, join2(base.as_str(), " and start a build"), "CodeBuild"));
        return out;
    }
    match first_update_project(projects, src, &empty_ctx, scps, now) {
        Some(k) => {
            let base = cat5(sn.as_str(), " can update ", projects[k].project_arn.as_str(), " to use ", dn.as_str());
            append_edges(&mut out, one_edge(src, dst, join2(base.as_str(), " and start a build"), "CodeBuild"));
        },
        None => {
            proof {
                assert(start + Seq::<EdgeSpec>::empty() =~= start);
            }
        },
    }
    out
}

/// The CodeBuild edges among `nodes` and the known `projects` at time `now`, role by role.
pub fn generate_edges_locally_at(nodes: &[Arc<Node>], projects: &[CodeBuildProject], scps: Option<&[Vec<&Policy>]>, now: &RequestTime) -> (r: Vec<Edge>)
    ensures
        edge_views(r@) == checker_edges(CheckerKind::CodeBuild, node_seq(nodes@), codebuild_resources(projects@), scps_view(scps), now.rfc3339@, now.epoch_seconds),
{
    let functions: Vec<crate::edges::lambda::LambdaFunction> = Vec::new();
    let functions_s = functions.as_slice();
    let stacks: Vec<crate::edges::cloudformation::CfnStack> = Vec::new();
    let stacks_s = stacks.as_slice();
    let r = run_checker(CheckerKind::CodeBuild, nodes, functions_s, projects, stacks_s, scps, now);
    proof {
        assert(resources_view(functions_s, projects, stacks_s) =~= codebuild_resources(projects@));
    }
    r
}

/// The CodeBuild edges among `nodes` and the known `projects`, evaluated at the present moment.
pub fn generate_edges_locally(nodes: &[Arc<Node>], projects: &[CodeBuildProject], scps: Option<&[Vec<&Policy>]>) -> (r: Vec<Edge>)
    ensures
        exists|n: RequestTime| time_consistent(n) && edge_views(r@) == #[trigger] checker_edges(CheckerKind::CodeBuild, node_seq(nodes@), codebuild_resources(projects@), scps_view(scps), n.rfc3339@, n.epoch_seconds),
{
    let now = current_time();
    generate_edges_locally_at(nodes, projects, scps, &now)
}

} // verus!
