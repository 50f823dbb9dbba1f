//! STS edges: assuming a role whose trust policy admits the source.
use vstd::prelude::*;
use std::sync::Arc;
use crate::text::str_eq;
use crate::ci_map::CaseInsensitiveMap;
use crate::arns::{account_id_of, get_account_id};
use crate::model::node::Node;
use crate::model::policy::Policy;
use crate::model::edge::{Edge, EdgeSpec};
use crate::policy_eval::authorization::scps_view;
use crate::policy_eval::statement_match::{node_matches, has_matching_statement};
use crate::policy_eval::resource_policy::{ResourcePolicyEvalResult, resource_policy_result, resource_policy_authorization};
use crate::policy_eval::context_keys::{RequestTime, current_time, user_pairs, prepared_context, prepared_pairs, prepare_condition_context_at, lemma_pairs_context, time_consistent};
use crate::edges::{
    CheckerKind, may, no_keys, mfa_suffix, edge_of, edge_views, node_seq, checker_edges, no_resources,
    run_checker_plain, check, empty_keys, with_mfa_note, no_edges, one_edge,
};
use crate::text::cat3;

verus! {

/// A role with a trust policy.
pub open spec fn sts_dest_ok(dst: Node) -> bool {
    dst.spec_is_role() && dst.trust_policy is Some
}

/// The STS edge from `src` to the role `dst`, if any: the trust policy
/// (evaluated without condition keys) must admit `src`; when it names `src`
/// itself, only an explicit deny of `src`'s own stops it, and otherwise
/// `src`'s policies must allow `sts:AssumeRole`.
pub open spec fn sts_pair(dst: Node, src: Node, sv: Option<Seq<Seq<Policy>>>, t: Seq<char>, e: i64) -> Seq<EdgeSpec> {
    let sn = src.spec_searchable_name();
    let dn = dst.spec_searchable_name();
    if src.arn@ == dst.arn@ || src.is_admin {
        Seq::empty()
    } else {
        match dst.trust_policy {
            None => Seq::empty(),
            Some(tp) => {
                let assumed = may(src, "sts:AssumeRole"@, dst.arn@, no_keys(), sv, t, e);
                match resource_policy_result(tp@, src, account_id_of(dst.arn@), "sts:AssumeRole"@, dst.arn@, Map::empty()) {
                    ResourcePolicyEvalResult::NodeMatch => {
                        if !node_matches(src, "Deny"@, "sts:AssumeRole"@, dst.arn@, prepared_context(src, no_keys(), t, e)) {
                            seq![edge_of(src, dst, sn + " can assume "@ + dn + mfa_suffix(assumed.1 && assumed.0), "STS"@)]
                        } else {
                            Seq::empty()
                        }
                    },
                    ResourcePolicyEvalResult::RootMatch | ResourcePolicyEvalResult::DiffAccountMatch => {
                        if assumed.0 {
                            seq![edge_of(src, dst, sn + " can assume "@ + dn + mfa_suffix(assumed.1), "STS"@)]
                        } else {
                            Seq::empty()
                        }
                    },
                    _ => Seq::empty(),
                }
            },
        }
    }
}

pub(crate) fn sts_dest_check(dst: &Node) -> (r: bool)
    ensures
        r == sts_dest_ok(*dst),
{
    dst.is_role() && dst.trust_policy.is_some()
}

/// Whether an identity policy of `node` explicitly denies the request.
fn has_explicit_deny(node: &Node, action: &str, resource: &str, condition_keys: &CaseInsensitiveMap, now: &RequestTime) -> (r: bool)
    ensures
        r == node_matches(*node, "Deny"@, action@, resource@, prepared_context(*node, user_pairs(*condition_keys), now.rfc3339@, now.epoch_seconds)),
{
    let ctx = prepare_condition_context_at(node, condition_keys, now);
    proof {
        lemma_pairs_context(ctx@, prepared_pairs(*node, user_pairs(*condition_keys), now.rfc3339@, now.epoch_seconds));
    }
    has_matching_statement(node, "Deny", action, resource, &ctx)
}

pub(crate) fn sts_pair_edges(dst: &Node, src: &Node, scps: Option<&[Vec<&Policy>]>, now: &RequestTime) -> (r: Vec<Edge>)
    ensures
        edge_views(r@) == sts_pair(*dst, *src, scps_view(scps), now.rfc3339@, now.epoch_seconds),
{
    if str_eq(src.arn.as_str(), dst.arn.as_str()) || src.is_admin {
        return no_edges();
    }
    let trust_policy = match &dst.trust_policy {
        Some(tp) => tp,
        None => {
            return no_edges();
        },
    };
    let keys = empty_keys();
    let dest_account = get_account_id(dst.arn.as_str());
    let rp_result = resource_policy_authorization(src, dest_account.as_str(), trust_policy, "sts:AssumeRole", dst.arn.as_str(), &keys);
    let sn = src.searchable_name();
    let dn = dst.searchable_name();
    match rp_result {
        ResourcePolicyEvalResult::NodeMatch => {
            let (can_assume, mfa_needed) = check(src, "sts:AssumeRole", dst.arn.as_str(), &keys, scps, now);
            if !has_explicit_deny(src, "sts:AssumeRole", dst.arn.as_str(), &keys, now) {
                let reason = with_mfa_note(cat3(sn.as_str(), " can assume ", dn.as_str()), mfa_needed && can_assume);
                one_edge(src, dst, reason, "STS")
            } else {
                no_edges()
            }
        },
        ResourcePolicyEvalResult::RootMatch | ResourcePolicyEvalResult::DiffAccountMatch => {
            let (can_assume, mfa_needed) = check(src, "sts:AssumeRole", dst.arn.as_str(), &keys, scps, now);
            if can_assume {
                let reason = with_mfa_note(cat3(sn.as_str(), " can assume ", dn.as_str()), mfa_needed);
                one_edge(src, dst, reason, "STS")
            } else {
                no_edges()
            }
        },
        _ => no_edges(),
    }
}

/// The STS edges among `nodes` at time `now`, role by role.
pub fn generate_edges_at(nodes: &[Arc<Node>], scps: Option<&[Vec<&Policy>]>, now: &RequestTime) -> (r: Vec<Edge>)
    ensures
        edge_views(r@) == checker_edges(CheckerKind::Sts, node_seq(nodes@), no_resources(), scps_view(scps), now.rfc3339@, now.epoch_seconds),
{
    run_checker_plain(CheckerKind::Sts, nodes, scps, now)
}

/// The STS edges among `nodes`, evaluated at the present moment.
pub fn generate_edges(nodes: &[Arc<Node>], scps: Option<&[Vec<&Policy>]>) -> (r: Vec<Edge>)
    ensures
        exists|n: RequestTime| time_consistent(n) && edge_views(r@) == #[trigger] checker_edges(CheckerKind::Sts, node_seq(nodes@), no_resources(), scps_view(scps), n.rfc3339@, n.epoch_seconds),
{
    let now = current_time();
    generate_edges_at(nodes, scps, &now)
}

} // verus!
