//! What the IAM, STS and Lambda checkers find, edge by edge.
use vstd::prelude::*;
use crate::model::node::Node;
use crate::model::policy::Policy;
use crate::model::edge::EdgeSpec;
use crate::edges::{
    CheckerKind, ServiceResources, row, grid, rule, checker_edges, pair_edges_spec, pair_edge_ok, edge_between, may,
    no_keys, passed_to, no_resources, role_trusts, lambda_resources, has_instance_profile, codebuild_resources,
};
use crate::edges::iam::iam_pair;
use crate::edges::sts::sts_pair;
use crate::edges::ec2::ec2_pair;
use crate::edges::ssm::{ssm_pair, ssm_dest_ok};
use crate::edges::autoscaling::autoscaling_pair;
use crate::edges::sagemaker::sagemaker_pair;
use crate::edges::cloudformation::cloudformation_pair;
use crate::edges::codebuild::{CodeBuildProject, codebuild_pair, start_build_target};
use crate::edges::lambda::{LambdaFunction, lambda_pair, code_update_target, config_update_target};
use crate::policy_eval::statement_match::node_matches;
use crate::policy_eval::context_keys::prepared_context;
use crate::policy_eval::resource_policy::{ResourcePolicyEvalResult, resource_policy_result};
use crate::arns::account_id_of;

verus! {

/// No two principals of the list share an ARN.
pub open spec fn distinct_arns(ns: Seq<Node>) -> bool {
    forall|a: int, b: int| 0 <= a < ns.len() && 0 <= b < ns.len() && a != b ==> #[trigger] ns[a].arn@ != #[trigger] ns[b].arn@
}

/// Some edge of the list goes from `x` to `y`.
pub open spec fn links(es: Seq<EdgeSpec>, x: Seq<char>, y: Seq<char>) -> bool {
    exists|k: int| 0 <= k < es.len() && #[trigger] es[k].source == x && es[k].destination == y
}

/// No two edges of the list have the same source and destination.
pub open spec fn one_edge_per_pair(es: Seq<EdgeSpec>) -> bool {
    forall|k1: int, k2: int| 0 <= k1 < es.len() && 0 <= k2 < es.len() && k1 != k2
        ==> !(#[trigger] es[k1].source == #[trigger] es[k2].source && es[k1].destination == es[k2].destination)
}

/// The ARN on the outer principal's side of an edge of a checker.
pub open spec fn outer_end(kind: CheckerKind, x: EdgeSpec) -> Seq<char> {
    if kind == CheckerKind::Iam { x.source } else { x.destination }
}

/// The ARN on the inner principal's side of an edge of a checker.
pub open spec fn inner_end(kind: CheckerKind, x: EdgeSpec) -> Seq<char> {
    if kind == CheckerKind::Iam { x.destination } else { x.source }
}

proof fn lemma_row_member(o: Node, inners: Seq<Node>, f: spec_fn(Node, Node) -> Seq<EdgeSpec>, k: int)
    requires
        0 <= k < row(o, inners, f).len(),
    ensures
        exists|b: int| 0 <= b < inners.len() && #[trigger] f(o, inners[b]).contains(row(o, inners, f)[k]),
    decreases inners.len(),
{
    if inners.len() > 0 {
        let last = inners.len() - 1;
        let r0 = row(o, inners.drop_last(), f);
        let p = f(o, inners[last]);
        assert(row(o, inners, f) == r0 + p);
        if k < r0.len() {
            lemma_row_member(o, inners.drop_last(), f, k);
            let b = choose|b: int| 0 <= b < inners.drop_last().len() && #[trigger] f(o, inners.drop_last()[b]).contains(r0[k]);
            assert(inners.drop_last()[b] == inners[b]);
            assert((r0 + p)[k] == r0[k]);
            assert(f(o, inners[b]).contains(row(o, inners, f)[k]));
        } else {
            assert((r0 + p)[k] == p[k - r0.len()]);
            assert(p.contains(row(o, inners, f)[k]));
        }
    }
}

proof fn lemma_row_has(o: Node, inners: Seq<Node>, f: spec_fn(Node, Node) -> Seq<EdgeSpec>, b: int, x: EdgeSpec)
    requires
        0 <= b < inners.len(),
        f(o, inners[b]).contains(x),
    ensures
        row(o, inners, f).contains(x),
    decreases inners.len(),
{
    let last = inners.len() - 1;
    let r0 = row(o, inners.drop_last(), f);
    let p = f(o, inners[last]);
    assert(row(o, inners, f) == r0 + p);
    if b < last {
        assert(inners.drop_last()[b] == inners[b]);
        lemma_row_has(o, inners.drop_last(), f, b, x);
        let i = choose|i: int| 0 <= i < r0.len() && r0[i] == x;
        assert((r0 + p)[i] == x);
    } else {
        let i = choose|i: int| 0 <= i < p.len() && p[i] == x;
        assert((r0 + p)[r0.len() + i] == x);
    }
}

proof fn lemma_grid_member(outers: Seq<Node>, inners: Seq<Node>, f: spec_fn(Node, Node) -> Seq<EdgeSpec>, k: int)
    requires
        0 <= k < grid(outers, inners, f).len(),
    ensures
        exists|a: int, b: int| 0 <= a < outers.len() && 0 <= b < inners.len() && #[trigger] f(outers[a], inners[b]).contains(grid(outers, inners, f)[k]),
    decreases outers.len(),
{
    if outers.len() > 0 {
        let last = outers.len() - 1;
        let g0 = grid(outers.drop_last(), inners, f);
        let r = row(outers[last], inners, f);
        assert(grid(outers, inners, f) == g0 + r);
        if k < g0.len() {
            lemma_grid_member(outers.drop_last(), inners, f, k);
            let (a, b) = choose|a: int, b: int| 0 <= a < outers.drop_last().len() && 0 <= b < inners.len()
                && #[trigger] f(outers.drop_last()[a], inners[b]).contains(g0[k]);
            assert(outers.drop_last()[a] == outers[a]);
            assert((g0 + r)[k] == g0[k]);
            assert(f(outers[a], inners[b]).contains(grid(outers, inners, f)[k]));
        } else {
            assert((g0 + r)[k] == r[k - g0.len()]);
            lemma_row_member(outers[last], inners, f, k - g0.len());
            let b = choose|b: int| 0 <= b < inners.len() && #[trigger] f(outers[last], inners[b]).contains(r[k - g0.len()]);
            assert(f(outers[last], inners[b]).contains(grid(outers, inners, f)[k]));
        }
    }
}

proof fn lemma_grid_has(outers: Seq<Node>, inners: Seq<Node>, f: spec_fn(Node, Node) -> Seq<EdgeSpec>, a: int, b: int, x: EdgeSpec)
    requires
        0 <= a < outers.len(),
        0 <= b < inners.len(),
        f(outers[a], inners[b]).contains(x),
    ensures
        grid(outers, inners, f).contains(x),
    decreases outers.len(),
{
    let last = outers.len() - 1;
    let g0 = grid(outers.drop_last(), inners, f);
    let r = row(outers[last], inners, f);
    assert(grid(outers, inners, f) == g0 + r);
    if a < last {
        assert(outers.drop_last()[a] == outers[a]);
        lemma_grid_has(outers.drop_last(), inners, f, a, b, x);
        let i = choose|i: int| 0 <= i < g0.len() && g0[i] == x;
        assert((g0 + r)[i] == x);
    } else {
        lemma_row_has(outers[last], inners, f, b, x);
        let i = choose|i: int| 0 <= i < r.len() && r[i] == x;
        assert((g0 + r)[g0.len() + i] == x);
    }
}

/// An edge is among a checker's edges exactly when some pair of principals gives it.
proof fn lemma_checker_member(kind: CheckerKind, nodes: Seq<Node>, res: ServiceResources, sv: Option<Seq<Seq<Policy>>>, t: Seq<char>, e: i64, x: EdgeSpec)
    ensures
        checker_edges(kind, nodes, res, sv, t, e).contains(x) <==> exists|a: int, b: int| 0 <= a < nodes.len() && 0 <= b < nodes.len()
            && #[trigger] pair_edges_spec(kind, nodes[a], nodes[b], res, sv, t, e).contains(x),
{
    let f = rule(kind, res, sv, t, e);
    if checker_edges(kind, nodes, res, sv, t, e).contains(x) {
        let k = choose|k: int| 0 <= k < grid(nodes, nodes, f).len() && grid(nodes, nodes, f)[k] == x;
        lemma_grid_member(nodes, nodes, f, k);
        let (a, b) = choose|a: int, b: int| 0 <= a < nodes.len() && 0 <= b < nodes.len() && #[trigger] f(nodes[a], nodes[b]).contains(grid(nodes, nodes, f)[k]);
        assert(pair_edges_spec(kind, nodes[a], nodes[b], res, sv, t, e).contains(x));
    }
    if exists|a: int, b: int| 0 <= a < nodes.len() && 0 <= b < nodes.len()
            && #[trigger] pair_edges_spec(kind, nodes[a], nodes[b], res, sv, t, e).contains(x) {
        let (a, b) = choose|a: int, b: int| 0 <= a < nodes.len() && 0 <= b < nodes.len()
            && #[trigger] pair_edges_spec(kind, nodes[a], nodes[b], res, sv, t, e).contains(x);
        assert(f(nodes[a], nodes[b]) == pair_edges_spec(kind, nodes[a], nodes[b], res, sv, t, e));
        lemma_grid_has(nodes, nodes, f, a, b, x);
    }
}

proof fn lemma_pair_ends(kind: CheckerKind, o: Node, i: Node, res: ServiceResources, sv: Option<Seq<Seq<Policy>>>, t: Seq<char>, e: i64, x: EdgeSpec)
    requires
        pair_edges_spec(kind, o, i, res, sv, t, e).contains(x),
    ensures
        outer_end(kind, x) == o.arn@,
        inner_end(kind, x) == i.arn@,
        pair_edge_ok(kind, o, i, x),
{
    let p = pair_edges_spec(kind, o, i, res, sv, t, e);
    let k = choose|k: int| 0 <= k < p.len() && p[k] == x;
}

proof fn lemma_row_one_per_pair(kind: CheckerKind, o: Node, inners: Seq<Node>, res: ServiceResources, sv: Option<Seq<Seq<Policy>>>, t: Seq<char>, e: i64)
    requires
        distinct_arns(inners),
        forall|i: Node| #[trigger] pair_edges_spec(kind, o, i, res, sv, t, e).len() <= 1,
    ensures
        forall|k1: int, k2: int| 0 <= k1 < row(o, inners, rule(kind, res, sv, t, e)).len() && 0 <= k2 < row(o, inners, rule(kind, res, sv, t, e)).len() && k1 != k2
            ==> inner_end(kind, #[trigger] row(o, inners, rule(kind, res, sv, t, e))[k1]) != inner_end(kind, #[trigger] row(o, inners, rule(kind, res, sv, t, e))[k2]),
    decreases inners.len(),
{
    let f = rule(kind, res, sv, t, e);
    if inners.len() > 0 {
        let last = inners.len() - 1;
        let front = inners.drop_last();
        assert(distinct_arns(front)) by {
            assert forall|a: int, b: int| 0 <= a < front.len() && 0 <= b < front.len() && a != b implies #[trigger] front[a].arn@ != #[trigger] front[b].arn@ by {
                assert(front[a] == inners[a]);
                assert(front[b] == inners[b]);
            }
        }
        lemma_row_one_per_pair(kind, o, front, res, sv, t, e);
        let r0 = row(o, front, f);
        let p = f(o, inners[last]);
        let rr = row(o, inners, f);
        assert(rr == r0 + p);
        assert(p.len() <= 1);
        assert forall|k1: int, k2: int| 0 <= k1 < rr.len() && 0 <= k2 < rr.len() && k1 != k2
            implies inner_end(kind, #[trigger] rr[k1]) != inner_end(kind, #[trigger] rr[k2]) by {
            if k1 < r0.len() && k2 < r0.len() {
                assert(rr[k1] == r0[k1]);
                assert(rr[k2] == r0[k2]);
            } else if k1 < r0.len() || k2 < r0.len() {
                let (kf, kl) = if k1 < r0.len() { (k1, k2) } else { (k2, k1) };
                assert(rr[kf] == r0[kf]);
                assert(rr[kl] == p[kl - r0.len()]);
                assert(p.contains(rr[kl]));
                lemma_pair_ends(kind, o, inners[last], res, sv, t, e, rr[kl]);
                lemma_row_member(o, front, f, kf);
                let b = choose|b: int| 0 <= b < front.len() && #[trigger] f(o, front[b]).contains(r0[kf]);
                lemma_pair_ends(kind, o, front[b], res, sv, t, e, r0[kf]);
                assert(front[b] == inners[b]);
                assert(inners[b].arn@ != inners[last].arn@);
            } else {
                assert(false);
            }
        }
    }
}

proof fn lemma_grid_one_per_pair(kind: CheckerKind, outers: Seq<Node>, inners: Seq<Node>, res: ServiceResources, sv: Option<Seq<Seq<Policy>>>, t: Seq<char>, e: i64)
    requires
        distinct_arns(outers),
        distinct_arns(inners),
        forall|o: Node, i: Node| #[trigger] pair_edges_spec(kind, o, i, res, sv, t, e).len() <= 1,
    ensures
        forall|k1: int, k2: int| 0 <= k1 < grid(outers, inners, rule(kind, res, sv, t, e)).len() && 0 <= k2 < grid(outers, inners, rule(kind, res, sv, t, e)).len() && k1 != k2
            ==> (outer_end(kind, #[trigger] grid(outers, inners, rule(kind, res, sv, t, e))[k1]) != outer_end(kind, #[trigger] grid(outers, inners, rule(kind, res, sv, t, e))[k2])
                || inner_end(kind, grid(outers, inners, rule(kind, res, sv, t, e))[k1]) != inner_end(kind, grid(outers, inners, rule(kind, res, sv, t, e))[k2])),
    decreases outers.len(),
{
    let f = rule(kind, res, sv, t, e);
    if outers.len() > 0 {
        let last = outers.len() - 1;
        let front = outers.drop_last();
        assert(distinct_arns(front)) by {
            assert forall|a: int, b: int| 0 <= a < front.len() && 0 <= b < front.len() && a != b implies #[trigger] front[a].arn@ != #[trigger] front[b].arn@ by {
                assert(front[a] == outers[a]);
                assert(front[b] == outers[b]);
            }
        }
        lemma_grid_one_per_pair(kind, front, inners, res, sv, t, e);
        lemma_row_one_per_pair(kind, outers[last], inners, res, sv, t, e);
        let g0 = grid(front, inners, f);
        let r = row(outers[last], inners, f);
        let gg = grid(outers, inners, f);
        assert(gg == g0 + r);
        assert forall|k1: int, k2: int| 0 <= k1 < gg.len() && 0 <= k2 < gg.len() && k1 != k2
            implies (outer_end(kind, #[trigger] gg[k1]) != outer_end(kind, #[trigger] gg[k2]) || inner_end(kind, gg[k1]) != inner_end(kind, gg[k2])) by {
            if k1 < g0.len() && k2 < g0.len() {
                assert(gg[k1] == g0[k1]);
                assert(gg[k2] == g0[k2]);
            } else if k1 >= g0.len() && k2 >= g0.len() {
                assert(gg[k1] == r[k1 - g0.len()]);
                assert(gg[k2] == r[k2 - g0.len()]);
            } else {
                let (kf, kl) = if k1 < g0.len() { (k1, k2) } else { (k2, k1) };
                assert(gg[kf] == g0[kf]);
                assert(gg[kl] == r[kl - g0.len()]);
                lemma_row_member(outers[last], inners, f, kl - g0.len());
                let b = choose|b: int| 0 <= b < inners.len() && #[trigger] f(outers[last], inners[b]).contains(r[kl - g0.len()]);
                lemma_pair_ends(kind, outers[last], inners[b], res, sv, t, e, gg[kl]);
                lemma_grid_member(front, inners, f, kf);
                let (a2, b2) = choose|a2: int, b2: int| 0 <= a2 < front.len() && 0 <= b2 < inners.len() && #[trigger] f(front[a2], inners[b2]).contains(g0[kf]);
                lemma_pair_ends(kind, front[a2], inners[b2], res, sv, t, e, gg[kf]);
                assert(front[a2] == outers[a2]);
                assert(outers[a2].arn@ != outers[last].arn@);
            }
        }
    }
}

/// Each checker pair of the IAM checker gives at most one edge.
proof fn lemma_iam_one(o: Node, i: Node, sv: Option<Seq<Seq<Policy>>>, t: Seq<char>, e: i64)
    ensures
        pair_edges_spec(CheckerKind::Iam, o, i, no_resources(), sv, t, e).len() <= 1,
{
}

proof fn lemma_iam_edge(o: Node, i: Node, sv: Option<Seq<Seq<Policy>>>, t: Seq<char>, e: i64, x: EdgeSpec)
    requires
        pair_edges_spec(CheckerKind::Iam, o, i, no_resources(), sv, t, e).contains(x),
    ensures
        x.short_reason == "IAM"@,
        i.spec_is_user() || i.spec_is_role(),
{
    let p = pair_edges_spec(CheckerKind::Iam, o, i, no_resources(), sv, t, e);
    let k = choose|k: int| 0 <= k < p.len() && p[k] == x;
    assert(p == iam_pair(o, i, sv, t, e));
}

/// Of the IAM checker, over principals with distinct ARNs: every edge is
/// marked "IAM" and leads from a principal that is no administrator to a
/// different principal that is a user or a role; no two edges join the same
/// two principals in the same direction; and a principal `i` that is no
/// administrator has an edge to another principal `j`, a role whose ARN does
/// not also read as a user's, exactly when `i` may call
/// `iam:UpdateAssumeRolePolicy` on it (with or without MFA).
pub proof fn law_iam_edges(nodes: Seq<Node>, sv: Option<Seq<Seq<Policy>>>, t: Seq<char>, e: i64, i: int, j: int)
    requires
        distinct_arns(nodes),
        0 <= i < nodes.len(),
        0 <= j < nodes.len(),
    ensures
        forall|k: int| 0 <= k < checker_edges(CheckerKind::Iam, nodes, no_resources(), sv, t, e).len() ==> {
            let x = #[trigger] checker_edges(CheckerKind::Iam, nodes, no_resources(), sv, t, e)[k];
            &&& x.short_reason == "IAM"@
            &&& exists|a: int, b: int| 0 <= a < nodes.len() && 0 <= b < nodes.len() && #[trigger] edge_between(x, nodes[a], nodes[b])
                && (nodes[b].spec_is_user() || nodes[b].spec_is_role())
        },
        one_edge_per_pair(checker_edges(CheckerKind::Iam, nodes, no_resources(), sv, t, e)),
        nodes[j].spec_is_role() && !nodes[j].spec_is_user() && !nodes[i].is_admin && i != j ==> (
            links(checker_edges(CheckerKind::Iam, nodes, no_resources(), sv, t, e), nodes[i].arn@, nodes[j].arn@)
                <==> may(nodes[i], "iam:UpdateAssumeRolePolicy"@, nodes[j].arn@, no_keys(), sv, t, e).0),
{
    let kind = CheckerKind::Iam;
    let res = no_resources();
    let es = checker_edges(kind, nodes, res, sv, t, e);
    assert forall|k: int| 0 <= k < es.len() implies {
        let x = #[trigger] es[k];
        &&& x.short_reason == "IAM"@
        &&& exists|a: int, b: int| 0 <= a < nodes.len() && 0 <= b < nodes.len() && #[trigger] edge_between(x, nodes[a], nodes[b])
            && (nodes[b].spec_is_user() || nodes[b].spec_is_role())
    } by {
        assert(es.contains(es[k]));
        lemma_checker_member(kind, nodes, res, sv, t, e, es[k]);
        let (a, b) = choose|a: int, b: int| 0 <= a < nodes.len() && 0 <= b < nodes.len()
            && #[trigger] pair_edges_spec(kind, nodes[a], nodes[b], res, sv, t, e).contains(es[k]);
        lemma_pair_ends(kind, nodes[a], nodes[b], res, sv, t, e, es[k]);
        lemma_iam_edge(nodes[a], nodes[b], sv, t, e, es[k]);
        assert(edge_between(es[k], nodes[a], nodes[b]));
    }
    assert forall|o: Node, n: Node| #[trigger] pair_edges_spec(kind, o, n, res, sv, t, e).len() <= 1 by {
        lemma_iam_one(o, n, sv, t, e);
    }
    lemma_grid_one_per_pair(kind, nodes, nodes, res, sv, t, e);
    if nodes[j].spec_is_role() && !nodes[j].spec_is_user() && !nodes[i].is_admin && i != j {
        let s = nodes[i];
        let d = nodes[j];
        let p = pair_edges_spec(kind, s, d, res, sv, t, e);
        if links(es, s.arn@, d.arn@) {
            let k = choose|k: int| 0 <= k < es.len() && #[trigger] es[k].source == s.arn@ && es[k].destination == d.arn@;
            assert(es.contains(es[k]));
            lemma_checker_member(kind, nodes, res, sv, t, e, es[k]);
            let (a, b) = choose|a: int, b: int| 0 <= a < nodes.len() && 0 <= b < nodes.len()
                && #[trigger] pair_edges_spec(kind, nodes[a], nodes[b], res, sv, t, e).contains(es[k]);
            lemma_pair_ends(kind, nodes[a], nodes[b], res, sv, t, e, es[k]);
            assert(a == i);
            assert(b == j);
            assert(p.len() > 0);
        }
        if may(s, "iam:UpdateAssumeRolePolicy"@, d.arn@, no_keys(), sv, t, e).0 {
            assert(s.arn@ != d.arn@);
            assert(p.len() == 1);
            assert(p.contains(p[0]));
            lemma_checker_member(kind, nodes, res, sv, t, e, p[0]);
            let k = choose|k: int| 0 <= k < es.len() && es[k] == p[0];
            assert(es[k].source == s.arn@ && es[k].destination == d.arn@);
        }
    }
}

/// What the trust policy of role `d` and the policies of `s` say of `s`
/// assuming `d`: the trust policy names `s` itself and no statement of `s`'s
/// own denies it, or it admits `s`'s account (or another account) and `s`
/// may call `sts:AssumeRole` on `d` (with or without MFA).
pub open spec fn sts_admits(s: Node, d: Node, sv: Option<Seq<Seq<Policy>>>, t: Seq<char>, e: i64) -> bool {
    match d.trust_policy {
        None => false,
        Some(tp) => match resource_policy_result(tp@, s, account_id_of(d.arn@), "sts:AssumeRole"@, d.arn@, Map::empty()) {
            ResourcePolicyEvalResult::NodeMatch => !node_matches(s, "Deny"@, "sts:AssumeRole"@, d.arn@, prepared_context(s, no_keys(), t, e)),
            ResourcePolicyEvalResult::RootMatch | ResourcePolicyEvalResult::DiffAccountMatch => may(s, "sts:AssumeRole"@, d.arn@, no_keys(), sv, t, e).0,
            _ => false,
        },
    }
}

proof fn lemma_sts_edge(o: Node, i: Node, res: ServiceResources, sv: Option<Seq<Seq<Policy>>>, t: Seq<char>, e: i64, x: EdgeSpec)
    requires
        pair_edges_spec(CheckerKind::Sts, o, i, res, sv, t, e).contains(x),
    ensures
        x.short_reason == "STS"@,
        o.spec_is_role(),
        sts_admits(i, o, sv, t, e),
{
    let p = pair_edges_spec(CheckerKind::Sts, o, i, res, sv, t, e);
    let k = choose|k: int| 0 <= k < p.len() && p[k] == x;
    assert(p == sts_pair(o, i, sv, t, e));
}

/// Of the STS checker: every edge is marked "STS" and leads from a principal
/// `s` that is no administrator to a different principal `d`, a role with a
/// trust policy that admits `s` as `sts_admits` says.
pub proof fn law_sts_edges(nodes: Seq<Node>, res: ServiceResources, sv: Option<Seq<Seq<Policy>>>, t: Seq<char>, e: i64)
    ensures
        forall|k: int| 0 <= k < checker_edges(CheckerKind::Sts, nodes, res, sv, t, e).len() ==> {
            let x = #[trigger] checker_edges(CheckerKind::Sts, nodes, res, sv, t, e)[k];
            &&& x.short_reason == "STS"@
            &&& exists|a: int, b: int| 0 <= a < nodes.len() && 0 <= b < nodes.len() && #[trigger] edge_between(x, nodes[a], nodes[b])
                && nodes[b].spec_is_role() && nodes[b].trust_policy is Some && sts_admits(nodes[a], nodes[b], sv, t, e)
        },
{
    let kind = CheckerKind::Sts;
    let es = checker_edges(kind, nodes, res, sv, t, e);
    assert forall|k: int| 0 <= k < es.len() implies {
        let x = #[trigger] es[k];
        &&& x.short_reason == "STS"@
        &&& exists|a: int, b: int| 0 <= a < nodes.len() && 0 <= b < nodes.len() && #[trigger] edge_between(x, nodes[a], nodes[b])
            && nodes[b].spec_is_role() && nodes[b].trust_policy is Some && sts_admits(nodes[a], nodes[b], sv, t, e)
    } by {
        assert(es.contains(es[k]));
        lemma_checker_member(kind, nodes, res, sv, t, e, es[k]);
        let (a, b) = choose|a: int, b: int| 0 <= a < nodes.len() && 0 <= b < nodes.len()
            && #[trigger] pair_edges_spec(kind, nodes[a], nodes[b], res, sv, t, e).contains(es[k]);
        lemma_pair_ends(kind, nodes[a], nodes[b], res, sv, t, e, es[k]);
        lemma_sts_edge(nodes[a], nodes[b], res, sv, t, e, es[k]);
        assert(edge_between(es[k], nodes[b], nodes[a]));
    }
}

proof fn lemma_code_target_invokes(fs: Seq<LambdaFunction>, s: Node, d: Node, can_invoke: bool, sv: Option<Seq<Seq<Policy>>>, t: Seq<char>, e: i64)
    ensures
        code_update_target(fs, s, d, can_invoke, sv, t, e) is Some ==> can_invoke,
    decreases fs.len(),
{
    if fs.len() > 0 {
        lemma_code_target_invokes(fs.skip(1), s, d, can_invoke, sv, t, e);
    }
}

proof fn lemma_config_target_invokes(fs: Seq<LambdaFunction>, s: Node, can_invoke: bool, sv: Option<Seq<Seq<Policy>>>, t: Seq<char>, e: i64)
    ensures
        config_update_target(fs, s, can_invoke, sv, t, e) is Some ==> can_invoke,
    decreases fs.len(),
{
    if fs.len() > 0 {
        lemma_config_target_invokes(fs.skip(1), s, can_invoke, sv, t, e);
    }
}

proof fn lemma_lambda_edge(o: Node, i: Node, res: ServiceResources, sv: Option<Seq<Seq<Policy>>>, t: Seq<char>, e: i64, x: EdgeSpec)
    requires
        pair_edges_spec(CheckerKind::Lambda, o, i, res, sv, t, e).contains(x),
    ensures
        x.short_reason == "Lambda"@,
        role_trusts(o, "lambda.amazonaws.com"@),
        may(i, "iam:PassRole"@, o.arn@, passed_to("lambda.amazonaws.com"@), sv, t, e).0,
        may(i, "lambda:InvokeFunction"@, "*"@, no_keys(), sv, t, e).0,
{
    let p = pair_edges_spec(CheckerKind::Lambda, o, i, res, sv, t, e);
    let k = choose|k: int| 0 <= k < p.len() && p[k] == x;
    assert(p == lambda_pair(o, i, res.functions, sv, t, e));
    let can_invoke = may(i, "lambda:InvokeFunction"@, "*"@, no_keys(), sv, t, e).0;
    lemma_code_target_invokes(res.functions, i, o, can_invoke, sv, t, e);
    lemma_config_target_invokes(res.functions, i, can_invoke, sv, t, e);
}

/// `x` leads from a principal `s` of `nodes` that is no administrator to a
/// different principal `d`, a role that Lambda may assume, where `s` may pass
/// `d` to Lambda and may invoke functions.
pub open spec fn lambda_edge_ok(nodes: Seq<Node>, x: EdgeSpec, sv: Option<Seq<Seq<Policy>>>, t: Seq<char>, e: i64) -> bool {
    exists|a: int, b: int| 0 <= a < nodes.len() && 0 <= b < nodes.len() && #[trigger] edge_between(x, nodes[a], nodes[b])
        && role_trusts(nodes[b], "lambda.amazonaws.com"@)
        && may(nodes[a], "iam:PassRole"@, nodes[b].arn@, passed_to("lambda.amazonaws.com"@), sv, t, e).0
        && may(nodes[a], "lambda:InvokeFunction"@, "*"@, no_keys(), sv, t, e).0
}

/// Of the Lambda checker, for any list of functions: every edge is marked
/// "Lambda" and meets `lambda_edge_ok`.
pub proof fn law_lambda_edges(nodes: Seq<Node>, functions: Seq<LambdaFunction>, sv: Option<Seq<Seq<Policy>>>, t: Seq<char>, e: i64)
    ensures
        forall|k: int| 0 <= k < checker_edges(CheckerKind::Lambda, nodes, lambda_resources(functions), sv, t, e).len() ==>
            (#[trigger] checker_edges(CheckerKind::Lambda, nodes, lambda_resources(functions), sv, t, e)[k]).short_reason == "Lambda"@
            && lambda_edge_ok(nodes, checker_edges(CheckerKind::Lambda, nodes, lambda_resources(functions), sv, t, e)[k], sv, t, e),
{
    let kind = CheckerKind::Lambda;
    let res = lambda_resources(functions);
    let es = checker_edges(kind, nodes, res, sv, t, e);
    assert forall|k: int| 0 <= k < es.len() implies (#[trigger] es[k]).short_reason == "Lambda"@ && lambda_edge_ok(nodes, es[k], sv, t, e) by {
        assert(es.contains(es[k]));
        lemma_checker_member(kind, nodes, res, sv, t, e, es[k]);
        let (a, b) = choose|a: int, b: int| 0 <= a < nodes.len() && 0 <= b < nodes.len()
            && #[trigger] pair_edges_spec(kind, nodes[a], nodes[b], res, sv, t, e).contains(es[k]);
        lemma_pair_ends(kind, nodes[a], nodes[b], res, sv, t, e, es[k]);
        lemma_lambda_edge(nodes[a], nodes[b], res, sv, t, e, es[k]);
        assert(edge_between(es[k], nodes[b], nodes[a]));
    }
}

/// `x` leads from a principal `s` of `nodes` that is no administrator to a
/// different principal `d`, a role that EC2 may assume, where `s` may pass
/// `d` to EC2 and may run instances.
pub open spec fn ec2_edge_ok(nodes: Seq<Node>, x: EdgeSpec, sv: Option<Seq<Seq<Policy>>>, t: Seq<char>, e: i64) -> bool {
    exists|a: int, b: int| 0 <= a < nodes.len() && 0 <= b < nodes.len() && #[trigger] edge_between(x, nodes[a], nodes[b])
        && role_trusts(nodes[b], "ec2.amazonaws.com"@)
        && may(nodes[a], "iam:PassRole"@, nodes[b].arn@, passed_to("ec2.amazonaws.com"@), sv, t, e).0
        && may(nodes[a], "ec2:RunInstances"@, "*"@, no_keys(), sv, t, e).0
}

proof fn lemma_ec2_edge(o: Node, i: Node, res: ServiceResources, sv: Option<Seq<Seq<Policy>>>, t: Seq<char>, e: i64, x: EdgeSpec)
    requires
        pair_edges_spec(CheckerKind::Ec2, o, i, res, sv, t, e).contains(x),
    ensures
        x.short_reason == "EC2"@,
        role_trusts(o, "ec2.amazonaws.com"@),
        may(i, "iam:PassRole"@, o.arn@, passed_to("ec2.amazonaws.com"@), sv, t, e).0,
        may(i, "ec2:RunInstances"@, "*"@, no_keys(), sv, t, e).0,
{
    let p = pair_edges_spec(CheckerKind::Ec2, o, i, res, sv, t, e);
    let k = choose|k: int| 0 <= k < p.len() && p[k] == x;
    assert(p == ec2_pair(o, i, sv, t, e));
}

/// Of the EC2 checker: every edge is marked "EC2" and meets `ec2_edge_ok`:
/// no edge without the right to pass the role to EC2 and to run instances.
pub proof fn law_ec2_edges(nodes: Seq<Node>, res: ServiceResources, sv: Option<Seq<Seq<Policy>>>, t: Seq<char>, e: i64)
    ensures
        forall|k: int| 0 <= k < checker_edges(CheckerKind::Ec2, nodes, res, sv, t, e).len() ==>
            (#[trigger] checker_edges(CheckerKind::Ec2, nodes, res, sv, t, e)[k]).short_reason == "EC2"@
            && ec2_edge_ok(nodes, checker_edges(CheckerKind::Ec2, nodes, res, sv, t, e)[k], sv, t, e),
{
    let kind = CheckerKind::Ec2;
    let es = checker_edges(kind, nodes, res, sv, t, e);
    assert forall|k: int| 0 <= k < es.len() implies (#[trigger] es[k]).short_reason == "EC2"@ && ec2_edge_ok(nodes, es[k], sv, t, e) by {
        assert(es.contains(es[k]));
        lemma_checker_member(kind, nodes, res, sv, t, e, es[k]);
        let (a, b) = choose|a: int, b: int| 0 <= a < nodes.len() && 0 <= b < nodes.len()
            && #[trigger] pair_edges_spec(kind, nodes[a], nodes[b], res, sv, t, e).contains(es[k]);
        lemma_pair_ends(kind, nodes[a], nodes[b], res, sv, t, e, es[k]);
        lemma_ec2_edge(nodes[a], nodes[b], res, sv, t, e, es[k]);
        assert(edge_between(es[k], nodes[b], nodes[a]));
    }
}

/// The conditions under which the SSM checker may give an edge from
/// `nodes[a]` to `nodes[b]`: an instance role that EC2 may assume, holding an instance profile, and the source may send SSM commands or start SSM sessions.
pub open spec fn ssm_edge_ok(nodes: Seq<Node>, x: EdgeSpec, sv: Option<Seq<Seq<Policy>>>, t: Seq<char>, e: i64) -> bool {
    exists|a: int, b: int| 0 <= a < nodes.len() && 0 <= b < nodes.len() && #[trigger] edge_between(x, nodes[a], nodes[b])
        && role_trusts(nodes[b], "ec2.amazonaws.com"@) && has_instance_profile(nodes[b])
        && (may(nodes[a], "ssm:SendCommand"@, "*"@, no_keys(), sv, t, e).0 || may(nodes[a], "ssm:StartSession"@, "*"@, no_keys(), sv, t, e).0)
}

proof fn lemma_ssm_edge(o: Node, i: Node, res: ServiceResources, sv: Option<Seq<Seq<Policy>>>, t: Seq<char>, e: i64, x: EdgeSpec)
    requires
        pair_edges_spec(CheckerKind::Ssm, o, i, res, sv, t, e).contains(x),
    ensures
        x.short_reason == "SSM"@,
        role_trusts(o, "ec2.amazonaws.com"@) && has_instance_profile(o)
        && (may(i, "ssm:SendCommand"@, "*"@, no_keys(), sv, t, e).0 || may(i, "ssm:StartSession"@, "*"@, no_keys(), sv, t, e).0),
{
    let p = pair_edges_spec(CheckerKind::Ssm, o, i, res, sv, t, e);
    let k = choose|k: int| 0 <= k < p.len() && p[k] == x;
    assert(p == ssm_pair(o, i, sv, t, e));
    assert(ssm_dest_ok(o, t, e));
}

/// Of the SSM checker: every edge is marked "SSM" and meets
/// `ssm_edge_ok`.
pub proof fn law_ssm_edges(nodes: Seq<Node>, res: ServiceResources, sv: Option<Seq<Seq<Policy>>>, t: Seq<char>, e: i64)
    ensures
        forall|k: int| 0 <= k < checker_edges(CheckerKind::Ssm, nodes, res, sv, t, e).len() ==>
            (#[trigger] checker_edges(CheckerKind::Ssm, nodes, res, sv, t, e)[k]).short_reason == "SSM"@
            && ssm_edge_ok(nodes, checker_edges(CheckerKind::Ssm, nodes, res, sv, t, e)[k], sv, t, e),
{
    let kind = CheckerKind::Ssm;
    let es = checker_edges(kind, nodes, res, sv, t, e);
    assert forall|k: int| 0 <= k < es.len() implies (#[trigger] es[k]).short_reason == "SSM"@ && ssm_edge_ok(nodes, es[k], sv, t, e) by {
        assert(es.contains(es[k]));
        lemma_checker_member(kind, nodes, res, sv, t, e, es[k]);
        let (a, b) = choose|a: int, b: int| 0 <= a < nodes.len() && 0 <= b < nodes.len()
            && #[trigger] pair_edges_spec(kind, nodes[a], nodes[b], res, sv, t, e).contains(es[k]);
        lemma_pair_ends(kind, nodes[a], nodes[b], res, sv, t, e, es[k]);
        lemma_ssm_edge(nodes[a], nodes[b], res, sv, t, e, es[k]);
        assert(edge_between(es[k], nodes[b], nodes[a]));
    }
}

/// The conditions under which the AutoScaling checker may give an edge from
/// `nodes[a]` to `nodes[b]`: a role that EC2 may assume, holding an instance profile, where the source may create auto-scaling groups, launch configurations and service-linked roles and may pass the role to EC2.
pub open spec fn autoscaling_edge_ok(nodes: Seq<Node>, x: EdgeSpec, sv: Option<Seq<Seq<Policy>>>, t: Seq<char>, e: i64) -> bool {
    exists|a: int, b: int| 0 <= a < nodes.len() && 0 <= b < nodes.len() && #[trigger] edge_between(x, nodes[a], nodes[b])
        && role_trusts(nodes[b], "ec2.amazonaws.com"@) && has_instance_profile(nodes[b])
        && may(nodes[a], "autoscaling:CreateAutoScalingGroup"@, "*"@, no_keys(), sv, t, e).0
        && may(nodes[a], "autoscaling:CreateLaunchConfiguration"@, "*"@, no_keys(), sv, t, e).0
        && may(nodes[a], "iam:CreateServiceLinkedRole"@, "*"@, no_keys(), sv, t, e).0
        && may(nodes[a], "iam:PassRole"@, nodes[b].arn@, passed_to("ec2.amazonaws.com"@), sv, t, e).0
}

proof fn lemma_autoscaling_edge(o: Node, i: Node, res: ServiceResources, sv: Option<Seq<Seq<Policy>>>, t: Seq<char>, e: i64, x: EdgeSpec)
    requires
        pair_edges_spec(CheckerKind::AutoScaling, o, i, res, sv, t, e).contains(x),
    ensures
        x.short_reason == "AutoScaling"@,
        role_trusts(o, "ec2.amazonaws.com"@) && has_instance_profile(o)
        && may(i, "autoscaling:CreateAutoScalingGroup"@, "*"@, no_keys(), sv, t, e).0
        && may(i, "autoscaling:CreateLaunchConfiguration"@, "*"@, no_keys(), sv, t, e).0
        && may(i, "iam:CreateServiceLinkedRole"@, "*"@, no_keys(), sv, t, e).0
        && may(i, "iam:PassRole"@, o.arn@, passed_to("ec2.amazonaws.com"@), sv, t, e).0,
{
    let p = pair_edges_spec(CheckerKind::AutoScaling, o, i, res, sv, t, e);
    let k = choose|k: int| 0 <= k < p.len() && p[k] == x;
    assert(p == autoscaling_pair(o, i, sv, t, e));
}

/// Of the AutoScaling checker: every edge is marked "AutoScaling" and meets
/// `autoscaling_edge_ok`.
pub proof fn law_autoscaling_edges(nodes: Seq<Node>, res: ServiceResources, sv: Option<Seq<Seq<Policy>>>, t: Seq<char>, e: i64)
    ensures
        forall|k: int| 0 <= k < checker_edges(CheckerKind::AutoScaling, nodes, res, sv, t, e).len() ==>
            (#[trigger] checker_edges(CheckerKind::AutoScaling, nodes, res, sv, t, e)[k]).short_reason == "AutoScaling"@
            && autoscaling_edge_ok(nodes, checker_edges(CheckerKind::AutoScaling, nodes, res, sv, t, e)[k], sv, t, e),
{
    let kind = CheckerKind::AutoScaling;
    let es = checker_edges(kind, nodes, res, sv, t, e);
    assert forall|k: int| 0 <= k < es.len() implies (#[trigger] es[k]).short_reason == "AutoScaling"@ && autoscaling_edge_ok(nodes, es[k], sv, t, e) by {
        assert(es.contains(es[k]));
        lemma_checker_member(kind, nodes, res, sv, t, e, es[k]);
        let (a, b) = choose|a: int, b: int| 0 <= a < nodes.len() && 0 <= b < nodes.len()
            && #[trigger] pair_edges_spec(kind, nodes[a], nodes[b], res, sv, t, e).contains(es[k]);
        lemma_pair_ends(kind, nodes[a], nodes[b], res, sv, t, e, es[k]);
        lemma_autoscaling_edge(nodes[a], nodes[b], res, sv, t, e, es[k]);
        assert(edge_between(es[k], nodes[b], nodes[a]));
    }
}

/// The conditions under which the SageMaker checker may give an edge from
/// `nodes[a]` to `nodes[b]`: a role that SageMaker may assume, where the source may pass the role to SageMaker and may create a notebook instance, a training job or a processing job.
pub open spec fn sagemaker_edge_ok(nodes: Seq<Node>, x: EdgeSpec, sv: Option<Seq<Seq<Policy>>>, t: Seq<char>, e: i64) -> bool {
    exists|a: int, b: int| 0 <= a < nodes.len() && 0 <= b < nodes.len() && #[trigger] edge_between(x, nodes[a], nodes[b])
        && role_trusts(nodes[b], "sagemaker.amazonaws.com"@)
        && may(nodes[a], "iam:PassRole"@, nodes[b].arn@, passed_to("sagemaker.amazonaws.com"@), sv, t, e).0
        && (may(nodes[a], "sagemaker:CreateNotebookInstance"@, "*"@, no_keys(), sv, t, e).0
            || may(nodes[a], "sagemaker:CreateTrainingJob"@, "*"@, no_keys(), sv, t, e).0
            || may(nodes[a], "sagemaker:CreateProcessingJob"@, "*"@, no_keys(), sv, t, e).0)
}

proof fn lemma_sagemaker_edge(o: Node, i: Node, res: ServiceResources, sv: Option<Seq<Seq<Policy>>>, t: Seq<char>, e: i64, x: EdgeSpec)
    requires
        pair_edges_spec(CheckerKind::SageMaker, o, i, res, sv, t, e).contains(x),
    ensures
        x.short_reason == "SageMaker"@,
        role_trusts(o, "sagemaker.amazonaws.com"@)
        && may(i, "iam:PassRole"@, o.arn@, passed_to("sagemaker.amazonaws.com"@), sv, t, e).0
        && (may(i, "sagemaker:CreateNotebookInstance"@, "*"@, no_keys(), sv, t, e).0
            || may(i, "sagemaker:CreateTrainingJob"@, "*"@, no_keys(), sv, t, e).0
            || may(i, "sagemaker:CreateProcessingJob"@, "*"@, no_keys(), sv, t, e).0),
{
    let p = pair_edges_spec(CheckerKind::SageMaker, o, i, res, sv, t, e);
    let k = choose|k: int| 0 <= k < p.len() && p[k] == x;
    assert(p == sagemaker_pair(o, i, sv, t, e));
}

/// Of the SageMaker checker: every edge is marked "SageMaker" and meets
/// `sagemaker_edge_ok`.
pub proof fn law_sagemaker_edges(nodes: Seq<Node>, res: ServiceResources, sv: Option<Seq<Seq<Policy>>>, t: Seq<char>, e: i64)
    ensures
        forall|k: int| 0 <= k < checker_edges(CheckerKind::SageMaker, nodes, res, sv, t, e).len() ==>
            (#[trigger] checker_edges(CheckerKind::SageMaker, nodes, res, sv, t, e)[k]).short_reason == "SageMaker"@
            && sagemaker_edge_ok(nodes, checker_edges(CheckerKind::SageMaker, nodes, res, sv, t, e)[k], sv, t, e),
{
    let kind = CheckerKind::SageMaker;
    let es = checker_edges(kind, nodes, res, sv, t, e);
    assert forall|k: int| 0 <= k < es.len() implies (#[trigger] es[k]).short_reason == "SageMaker"@ && sagemaker_edge_ok(nodes, es[k], sv, t, e) by {
        assert(es.contains(es[k]));
        lemma_checker_member(kind, nodes, res, sv, t, e, es[k]);
        let (a, b) = choose|a: int, b: int| 0 <= a < nodes.len() && 0 <= b < nodes.len()
            && #[trigger] pair_edges_spec(kind, nodes[a], nodes[b], res, sv, t, e).contains(es[k]);
        lemma_pair_ends(kind, nodes[a], nodes[b], res, sv, t, e, es[k]);
        lemma_sagemaker_edge(nodes[a], nodes[b], res, sv, t, e, es[k]);
        assert(edge_between(es[k], nodes[b], nodes[a]));
    }
}

/// The conditions under which the CloudFormation checker may give an edge from
/// `nodes[a]` to `nodes[b]`: a role that CloudFormation may assume, where the source may pass the role to CloudFormation.
pub open spec fn cloudformation_edge_ok(nodes: Seq<Node>, x: EdgeSpec, sv: Option<Seq<Seq<Policy>>>, t: Seq<char>, e: i64) -> bool {
    exists|a: int, b: int| 0 <= a < nodes.len() && 0 <= b < nodes.len() && #[trigger] edge_between(x, nodes[a], nodes[b])
        && role_trusts(nodes[b], "cloudformation.amazonaws.com"@)
        && may(nodes[a], "iam:PassRole"@, nodes[b].arn@, passed_to("cloudformation.amazonaws.com"@), sv, t, e).0
}

proof fn lemma_cloudformation_edge(o: Node, i: Node, res: ServiceResources, sv: Option<Seq<Seq<Policy>>>, t: Seq<char>, e: i64, x: EdgeSpec)
    requires
        pair_edges_spec(CheckerKind::CloudFormation, o, i, res, sv, t, e).contains(x),
    ensures
        x.short_reason == "CloudFormation"@,
        role_trusts(o, "cloudformation.amazonaws.com"@)
        && may(i, "iam:PassRole"@, o.arn@, passed_to("cloudformation.amazonaws.com"@), sv, t, e).0,
{
    let p = pair_edges_spec(CheckerKind::CloudFormation, o, i, res, sv, t, e);
    let k = choose|k: int| 0 <= k < p.len() && p[k] == x;
    assert(p == cloudformation_pair(o, i, res.stacks, sv, t, e));
}

/// Of the CloudFormation checker: every edge is marked "CloudFormation" and meets
/// `cloudformation_edge_ok`.
pub proof fn law_cloudformation_edges(nodes: Seq<Node>, res: ServiceResources, sv: Option<Seq<Seq<Policy>>>, t: Seq<char>, e: i64)
    ensures
        forall|k: int| 0 <= k < checker_edges(CheckerKind::CloudFormation, nodes, res, sv, t, e).len() ==>
            (#[trigger] checker_edges(CheckerKind::CloudFormation, nodes, res, sv, t, e)[k]).short_reason == "CloudFormation"@
            && cloudformation_edge_ok(nodes, checker_edges(CheckerKind::CloudFormation, nodes, res, sv, t, e)[k], sv, t, e),
{
    let kind = CheckerKind::CloudFormation;
    let es = checker_edges(kind, nodes, res, sv, t, e);
    assert forall|k: int| 0 <= k < es.len() implies (#[trigger] es[k]).short_reason == "CloudFormation"@ && cloudformation_edge_ok(nodes, es[k], sv, t, e) by {
        assert(es.contains(es[k]));
        lemma_checker_member(kind, nodes, res, sv, t, e, es[k]);
        let (a, b) = choose|a: int, b: int| 0 <= a < nodes.len() && 0 <= b < nodes.len()
            && #[trigger] pair_edges_spec(kind, nodes[a], nodes[b], res, sv, t, e).contains(es[k]);
        lemma_pair_ends(kind, nodes[a], nodes[b], res, sv, t, e, es[k]);
        lemma_cloudformation_edge(nodes[a], nodes[b], res, sv, t, e, es[k]);
        assert(edge_between(es[k], nodes[b], nodes[a]));
    }
}

/// `s` may start a build of a known project that runs with role `d`.
pub open spec fn may_build_with(ps: Seq<CodeBuildProject>, s: Node, d: Node, sv: Option<Seq<Seq<Policy>>>, t: Seq<char>, e: i64) -> bool {
    exists|p: int| 0 <= p < ps.len() && #[trigger] ps[p].service_role_arn@ == d.arn@
        && may(s, "codebuild:StartBuild"@, ps[p].project_arn@, no_keys(), sv, t, e).0
}

proof fn lemma_start_build_target(ps: Seq<CodeBuildProject>, s: Node, d: Node, sv: Option<Seq<Seq<Policy>>>, t: Seq<char>, e: i64)
    ensures
        start_build_target(ps, s, d, sv, t, e) is Some ==> may_build_with(ps, s, d, sv, t, e),
    decreases ps.len(),
{
    if ps.len() > 0 {
        lemma_start_build_target(ps.skip(1), s, d, sv, t, e);
        if !(ps[0].service_role_arn@ == d.arn@ && may(s, "codebuild:StartBuild"@, ps[0].project_arn@, no_keys(), sv, t, e).0)
            && start_build_target(ps, s, d, sv, t, e) is Some {
            let p = choose|p: int| 0 <= p < ps.skip(1).len() && #[trigger] ps.skip(1)[p].service_role_arn@ == d.arn@
                && may(s, "codebuild:StartBuild"@, ps.skip(1)[p].project_arn@, no_keys(), sv, t, e).0;
            assert(ps.skip(1)[p] == ps[p + 1]);
        }
        if ps[0].service_role_arn@ == d.arn@ && may(s, "codebuild:StartBuild"@, ps[0].project_arn@, no_keys(), sv, t, e).0 {
            assert(ps[0].service_role_arn@ == d.arn@);
        }
    }
}

/// The conditions under which the CodeBuild checker may give an edge from
/// `nodes[a]` to `nodes[b]`: a role that CodeBuild may assume, where the
/// source may pass the role to CodeBuild or may start a build of a known
/// project that runs with it.
pub open spec fn codebuild_edge_ok(nodes: Seq<Node>, ps: Seq<CodeBuildProject>, x: EdgeSpec, sv: Option<Seq<Seq<Policy>>>, t: Seq<char>, e: i64) -> bool {
    exists|a: int, b: int| 0 <= a < nodes.len() && 0 <= b < nodes.len() && #[trigger] edge_between(x, nodes[a], nodes[b])
        && role_trusts(nodes[b], "codebuild.amazonaws.com"@)
        && (may(nodes[a], "iam:PassRole"@, nodes[b].arn@, passed_to("codebuild.amazonaws.com"@), sv, t, e).0
            || may_build_with(ps, nodes[a], nodes[b], sv, t, e))
}

proof fn lemma_codebuild_edge(o: Node, i: Node, res: ServiceResources, sv: Option<Seq<Seq<Policy>>>, t: Seq<char>, e: i64, x: EdgeSpec)
    requires
        pair_edges_spec(CheckerKind::CodeBuild, o, i, res, sv, t, e).contains(x),
    ensures
        x.short_reason == "CodeBuild"@,
        role_trusts(o, "codebuild.amazonaws.com"@),
        may(i, "iam:PassRole"@, o.arn@, passed_to("codebuild.amazonaws.com"@), sv, t, e).0 || may_build_with(res.projects, i, o, sv, t, e),
{
    let p = pair_edges_spec(CheckerKind::CodeBuild, o, i, res, sv, t, e);
    let k = choose|k: int| 0 <= k < p.len() && p[k] == x;
    assert(p == codebuild_pair(o, i, res.projects, sv, t, e));
    lemma_start_build_target(res.projects, i, o, sv, t, e);
}

/// Of the CodeBuild checker, for any list of projects: every edge is marked
/// "CodeBuild" and meets `codebuild_edge_ok`.
pub proof fn law_codebuild_edges(nodes: Seq<Node>, projects: Seq<CodeBuildProject>, sv: Option<Seq<Seq<Policy>>>, t: Seq<char>, e: i64)
    ensures
        forall|k: int| 0 <= k < checker_edges(CheckerKind::CodeBuild, nodes, codebuild_resources(projects), sv, t, e).len() ==>
            (#[trigger] checker_edges(CheckerKind::CodeBuild, nodes, codebuild_resources(projects), sv, t, e)[k]).short_reason == "CodeBuild"@
            && codebuild_edge_ok(nodes, projects, checker_edges(CheckerKind::CodeBuild, nodes, codebuild_resources(projects), sv, t, e)[k], sv, t, e),
{
    let kind = CheckerKind::CodeBuild;
    let res = codebuild_resources(projects);
    let es = checker_edges(kind, nodes, res, sv, t, e);
    assert forall|k: int| 0 <= k < es.len() implies (#[trigger] es[k]).short_reason == "CodeBuild"@ && codebuild_edge_ok(nodes, projects, es[k], sv, t, e) by {
        assert(es.contains(es[k]));
        lemma_checker_member(kind, nodes, res, sv, t, e, es[k]);
        let (a, b) = choose|a: int, b: int| 0 <= a < nodes.len() && 0 <= b < nodes.len()
            && #[trigger] pair_edges_spec(kind, nodes[a], nodes[b], res, sv, t, e).contains(es[k]);
        lemma_pair_ends(kind, nodes[a], nodes[b], res, sv, t, e, es[k]);
        lemma_codebuild_edge(nodes[a], nodes[b], res, sv, t, e, es[k]);
        assert(edge_between(es[k], nodes[b], nodes[a]));
    }
}

} // verus!
