//! IAM edges: creating access keys or login profiles for users, and
//! rewriting the trust policy of roles.
use vstd::prelude::*;
use std::sync::Arc;
use crate::text::{str_eq, join2, cat3, cat5};
use crate::model::node::Node;
use crate::model::policy::Policy;
use crate::model::edge::{Edge, EdgeSpec};
use crate::policy_eval::authorization::scps_view;
use crate::policy_eval::context_keys::{RequestTime, current_time, time_consistent};
use crate::edges::{
    CheckerKind, may, no_keys, mfa_suffix, edge_of, edge_views, node_seq, checker_edges, no_resources, run_checker_plain,
    check, empty_keys, with_mfa_note, no_edges, one_edge,
};

verus! {

/// The IAM edge from `src` to `dst`, if any.
pub open spec fn iam_pair(src: Node, dst: Node, sv: Option<Seq<Seq<Policy>>>, t: Seq<char>, e: i64) -> Seq<EdgeSpec> {
    let sn = src.spec_searchable_name();
    let dn = dst.spec_searchable_name();
    let target = dst.arn@;
    if src.is_admin || src.arn@ == dst.arn@ {
        Seq::empty()
    } else if dst.spec_is_user() {
        let key = may(src, "iam:CreateAccessKey"@, target, no_keys(), sv, t, e);
        if key.0 {
            if dst.access_keys >= 2 {
                if may(src, "iam:DeleteAccessKey"@, target, no_keys(), sv, t, e).0 {
                    seq![edge_of(src, dst, sn + " can create access keys for "@ + dn + " after deleting one"@ + mfa_suffix(key.1), "IAM"@)]
                } else {
                    Seq::empty()
                }
            } else {
                seq![edge_of(src, dst, sn + " can create access keys for "@ + dn + mfa_suffix(key.1), "IAM"@)]
            }
        } else {
            let login = if dst.active_password {
                may(src, "iam:UpdateLoginProfile"@, target, no_keys(), sv, t, e)
            } else {
                may(src, "iam:CreateLoginProfile"@, target, no_keys(), sv, t, e)
            };
            if login.0 {
                let what = if dst.active_password { "update the login profile for"@ } else { "create a login profile for"@ };
                seq![edge_of(src, dst, sn + " can "@ + what + " "@ + dn + mfa_suffix(login.1), "IAM"@)]
            } else {
                Seq::empty()
            }
        }
    } else if dst.spec_is_role() {
        let trust = may(src, "iam:UpdateAssumeRolePolicy"@, target, no_keys(), sv, t, e);
        if trust.0 {
            seq![edge_of(src, dst, sn + " can update the trust policy of "@ + dn + mfa_suffix(trust.1), "IAM"@)]
        } else {
            Seq::empty()
        }
    } else {
        Seq::empty()
    }
}

pub(crate) fn iam_pair_edges(src: &Node, dst: &Node, scps: Option<&[Vec<&Policy>]>, now: &RequestTime) -> (r: Vec<Edge>)
    ensures
        edge_views(r@) == iam_pair(*src, *dst, scps_view(scps), now.rfc3339@, now.epoch_seconds),
{
    if src.is_admin || str_eq(src.arn.as_str(), dst.arn.as_str()) {
        return no_edges();
    }
    let keys = empty_keys();
    let sn = src.searchable_name();
    let dn = dst.searchable_name();
    let target = dst.arn.as_str();
    if dst.is_user() {
        let (can_create_key, mfa_create) = check(src, "iam:CreateAccessKey", target, &keys, scps, now);
        if can_create_key {
            if dst.access_keys >= 2 {
                let (can_delete, _) = check(src, "iam:DeleteAccessKey", target, &keys, scps, now);
                if can_delete {
                    let base = cat3(sn.as_str(), " can create access keys for ", dn.as_str());
                    let reason = with_mfa_note(join2(base.as_str(), " after deleting one"), mfa_create);
                    return one_edge(src, dst, reason, "IAM");
                }
                return no_edges();
            } else {
                let reason = with_mfa_note(cat3(sn.as_str(), " can create access keys for ", dn.as_str()), mfa_create);
                return one_edge(src, dst, reason, "IAM");
            }
        }
        let (can_update_login, mfa_login) = if dst.active_password {
            check(src, "iam:UpdateLoginProfile", target, &keys, scps, now)
        } else {
            check(src, "iam:CreateLoginProfile", target, &keys, scps, now)
        };
        if can_update_login {
            let what = if dst.active_password { "update the login profile for" } else { "create a login profile for" };
            let reason = with_mfa_note(cat5(sn.as_str(), " can ", what, " ", dn.as_str()), mfa_login);
            return one_edge(src, dst, reason, "IAM");
        }
        no_edges()
    } else if dst.is_role() {
        let (can_update_trust, mfa_trust) = check(src, "iam:UpdateAssumeRolePolicy", target, &keys, scps, now);
        if can_update_trust {
            let reason = with_mfa_note(cat3(sn.as_str(), " can update the trust policy of ", dn.as_str()), mfa_trust);
            return one_edge(src, dst, reason, "IAM");
        }
        no_edges()
    } else {
        no_edges()
    }
}

/// The IAM edges among `nodes` at time `now`, source by source.
pub fn generate_edges_at(nodes: &[Arc<Node>], scps: Option<&[Vec<&Policy>]>, now: &RequestTime) -> (r: Vec<Edge>)
    ensures
        edge_views(r@) == checker_edges(CheckerKind::Iam, node_seq(nodes@), no_resources(), scps_view(scps), now.rfc3339@, now.epoch_seconds),
{
    run_checker_plain(CheckerKind::Iam, nodes, scps, now)
}

/// The IAM edges among `nodes`, evaluated at the present moment.
pub fn generate_edges(nodes: &[Arc<Node>], scps: Option<&[Vec<&Policy>]>) -> (r: Vec<Edge>)
    ensures
        exists|n: RequestTime| time_consistent(n) && edge_views(r@) == #[trigger] checker_edges(CheckerKind::Iam, node_seq(nodes@), no_resources(), scps_view(scps), n.rfc3339@, n.epoch_seconds),
{
    let now = current_time();
    generate_edges_at(nodes, scps, &now)
}

} // verus!
