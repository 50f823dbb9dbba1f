//! Whether a principal may perform an action on a resource, following the
//! order of AWS IAM policy evaluation.
use vstd::prelude::*;
use crate::json::{Json, JsonValue};
use crate::text::{contains_seq, contains_str, owned};
use crate::ci_map::{CaseInsensitiveMap, ContextMap};
use crate::arns::{account_id_of, get_account_id};
use crate::model::node::Node;
use crate::model::policy::Policy;
use crate::policy_eval::statement_match::{policy_matches, some_policy_matches, node_matches, policy_has_matching_statement, has_matching_statement};
use crate::policy_eval::resource_policy::{ResourcePolicyEvalResult, resource_policy_result, resource_policy_authorization};
use crate::policy_eval::context_keys::{RequestTime, current_time, user_pairs, prepared_context, mfa_context, prepare_condition_context_at, prepare_mfa_context_at, prepared_pairs, mfa_prepared_pairs, lemma_pairs_context, holds_pairs, law_mfa_context_re_prepared, time_consistent};

verus! {

/// The decision of the simple check in context `ctx`: no identity policy
/// denies, the permissions boundary (if any) allows and does not deny, and
/// some identity policy allows.
pub open spec fn local_decision(node: Node, action: Seq<char>, resource: Seq<char>, ctx: ContextMap) -> bool {
    &&& !node_matches(node, "Deny"@, action, resource, ctx)
    &&& match node.permissions_boundary {
        Some(b) => policy_matches(b.policy_doc@, "Allow"@, action, resource, ctx)
            && !policy_matches(b.policy_doc@, "Deny"@, action, resource, ctx),
        None => true,
    }
    &&& node_matches(node, "Allow"@, action, resource, ctx)
}

/// The policies of each service-control-policy group.
pub open spec fn scp_groups(scps: Seq<Vec<&Policy>>) -> Seq<Seq<Policy>> {
    Seq::new(scps.len(), |g: int| scps[g]@.map_values(|p: &Policy| *p))
}

/// A service-linked role (its name holds `AWSServiceRoleFor`).
pub open spec fn service_linked(node: Node) -> bool {
    contains_seq(node.spec_searchable_name(), "AWSServiceRoleFor"@)
}

/// Some SCP of some group denies.
pub open spec fn scp_denies(groups: Seq<Seq<Policy>>, action: Seq<char>, resource: Seq<char>, ctx: ContextMap) -> bool {
    exists|g: int| 0 <= g < groups.len() && #[trigger] some_policy_matches(groups[g], "Deny"@, action, resource, ctx)
}

/// Every SCP group has an SCP that allows.
pub open spec fn scps_allow(groups: Seq<Seq<Policy>>, action: Seq<char>, resource: Seq<char>, ctx: ContextMap) -> bool {
    forall|g: int| 0 <= g < groups.len() ==> #[trigger] some_policy_matches(groups[g], "Allow"@, action, resource, ctx)
}

/// The checks that follow the resource policy: the permissions boundary and
/// the session policy (each where present) allow, and an identity policy allows.
pub open spec fn identity_allows(node: Node, action: Seq<char>, resource: Seq<char>, ctx: ContextMap, session: Option<Policy>) -> bool {
    &&& match node.permissions_boundary {
        Some(b) => policy_matches(b.policy_doc@, "Allow"@, action, resource, ctx),
        None => true,
    }
    &&& match session {
        Some(sp) => policy_matches(sp.policy_doc@, "Allow"@, action, resource, ctx),
        None => true,
    }
    &&& node_matches(node, "Allow"@, action, resource, ctx)
}

/// Some explicit deny: in an identity policy, the session policy or the
/// permissions boundary.
pub open spec fn explicit_deny(node: Node, action: Seq<char>, resource: Seq<char>, ctx: ContextMap, session: Option<Policy>) -> bool {
    ||| node_matches(node, "Deny"@, action, resource, ctx)
    ||| (session matches Some(sp) && policy_matches(sp.policy_doc@, "Deny"@, action, resource, ctx))
    ||| (node.permissions_boundary matches Some(b) && policy_matches(b.policy_doc@, "Deny"@, action, resource, ctx))
}

/// The SCPs, where given and the principal is not a service-linked role,
/// deny or leave a group without an allow.
pub open spec fn scps_block(node: Node, action: Seq<char>, resource: Seq<char>, ctx: ContextMap, scps: Option<Seq<Seq<Policy>>>) -> bool {
    match scps {
        Some(groups) => !service_linked(node) && (scp_denies(groups, action, resource, ctx) || !scps_allow(groups, action, resource, ctx)),
        None => false,
    }
}

/// The full decision in context `ctx`: explicit denies, then SCPs, then the
/// resource policy (a deny refuses, an allow of the principal itself or of
/// a service grants), then the boundary, session and identity allows.
pub open spec fn full_decision(
    node: Node,
    action: Seq<char>,
    resource: Seq<char>,
    ctx: ContextMap,
    resource_policy: Option<Json>,
    resource_account: Seq<char>,
    scps: Option<Seq<Seq<Policy>>>,
    session: Option<Policy>,
) -> bool {
    if explicit_deny(node, action, resource, ctx, session) {
        false
    } else if scps_block(node, action, resource, ctx, scps) {
        false
    } else {
        match resource_policy {
            Some(doc) => match resource_policy_result(doc, node, resource_account, action, resource, ctx) {
                ResourcePolicyEvalResult::DenyMatch => false,
                ResourcePolicyEvalResult::NodeMatch => true,
                ResourcePolicyEvalResult::ServiceMatch => true,
                _ => identity_allows(node, action, resource, ctx, session),
            },
            None => identity_allows(node, action, resource, ctx, session),
        }
    }
}

/// The account that owns the resource: the one given, else the resource ARN's.
pub open spec fn owner_account(resource: Seq<char>, owner: Option<Seq<char>>) -> Seq<char> {
    match owner {
        Some(o) => o,
        None => account_id_of(resource),
    }
}

/// The outcome with multi-factor handling: `(true, false)` when allowed
/// without MFA; `(true, true)` when a user with an MFA device is allowed
/// only with MFA; `(false, false)` otherwise.
pub open spec fn mfa_outcome(
    node: Node,
    action: Seq<char>,
    resource: Seq<char>,
    up: Seq<(Seq<char>, Seq<char>)>,
    scps: Option<Seq<Seq<Policy>>>,
    time: Seq<char>,
    epoch: i64,
) -> (bool, bool) {
    let plain = prepared_context(node, up, time, epoch);
    let with_mfa = mfa_context(node, up, time, epoch);
    if full_decision(node, action, resource, plain, None, account_id_of(resource), scps, None) {
        (true, false)
    } else if node.has_mfa && node.spec_is_user()
        && full_decision(node, action, resource, with_mfa, None, account_id_of(resource), scps, None) {
        (true, true)
    } else {
        (false, false)
    }
}

/// The SCP groups given to a check, as sequences of policies.
pub open spec fn scps_view(scps: Option<&[Vec<&Policy>]>) -> Option<Seq<Seq<Policy>>> {
    match scps {
        Some(s) => Some(scp_groups(s@)),
        None => None,
    }
}

/// The session policy given to a check.
pub open spec fn session_view(session: Option<&Policy>) -> Option<Policy> {
    match session {
        Some(p) => Some(*p),
        None => None,
    }
}

/// The resource policy given to a check.
pub open spec fn document_view(doc: Option<&JsonValue>) -> Option<Json> {
    match doc {
        Some(d) => Some(d@),
        None => None,
    }
}

/// The simple check in an already prepared context.
fn local_decision_in(node: &Node, action: &str, resource: &str, ctx: &CaseInsensitiveMap) -> (r: bool)
    ensures
        r == local_decision(*node, action@, resource@, ctx@),
{
    if has_matching_statement(node, "Deny", action, resource, ctx) {
        return false;
    }
    match &node.permissions_boundary {
        Some(boundary) => {
            if !policy_has_matching_statement(boundary, "Allow", action, resource, ctx) {
                return false;
            }
            if policy_has_matching_statement(boundary, "Deny", action, resource, ctx) {
                return false;
            }
        },
        None => {},
    }
    has_matching_statement(node, "Allow", action, resource, ctx)
}

/// The simple check at time `now`: identity policies and the permissions
/// boundary only; no resource policies, SCPs or session policies.
pub fn local_check_authorization_at(node: &Node, action: &str, resource: &str, condition_keys: &CaseInsensitiveMap, now: &RequestTime) -> (r: bool)
    ensures
        r == local_decision(*node, action@, resource@, prepared_context(*node, user_pairs(*condition_keys), now.rfc3339@, now.epoch_seconds)),
{
    let ctx = prepare_condition_context_at(node, condition_keys, now);
    proof {
        lemma_pairs_context(ctx@, prepared_pairs(*node, user_pairs(*condition_keys), now.rfc3339@, now.epoch_seconds));
    }
    local_decision_in(node, action, resource, &ctx)
}

/// The simple check at the present moment.
pub fn local_check_authorization(node: &Node, action: &str, resource: &str, condition_keys: &CaseInsensitiveMap) -> (r: bool)
    ensures
        exists|n: RequestTime| time_consistent(n) && r == local_decision(*node, action@, resource@, #[trigger] prepared_context(*node, user_pairs(*condition_keys), n.rfc3339@, n.epoch_seconds)),
{
    let now = current_time();
    local_check_authorization_at(node, action, resource, condition_keys, &now)
}

/// The resource owner given to a check.
pub open spec fn owner_view(owner: Option<&str>) -> Option<Seq<char>> {
    match owner {
        Some(o) => Some(o@),
        None => None,
    }
}

/// Some policy of an SCP group has a statement with the given effect that matches.
fn scp_group_matches(group: &Vec<&Policy>, effect: &str, action: &str, resource: &str, ctx: &CaseInsensitiveMap) -> (r: bool)
    ensures
        r == some_policy_matches(group@.map_values(|p: &Policy| *p), effect@, action@, resource@, ctx@),
{
    let ghost ps = group@.map_values(|p: &Policy| *p);
    let mut i: usize = 0;
    while i < group.len()
        invariant
            i <= group.len(),
            ps == group@.map_values(|p: &Policy| *p),
            forall|k: int| 0 <= k < i ==> !#[trigger] policy_matches(ps[k].policy_doc@, effect@, action@, resource@, ctx@),
        decreases group.len() - i,
    {
        if policy_has_matching_statement(group[i], effect, action, resource, ctx) {
            proof {
                assert(policy_matches(ps[i as int].policy_doc@, effect@, action@, resource@, ctx@));
            }
            return true;
        }
        i = i + 1;
    }
    false
}

/// Whether the SCPs refuse the request.
fn scps_refuse(node: &Node, action: &str, resource: &str, ctx: &CaseInsensitiveMap, groups: &[Vec<&Policy>]) -> (r: bool)
    ensures
        r == scps_block(*node, action@, resource@, ctx@, Some(scp_groups(groups@))),
{
    let ghost gs = scp_groups(groups@);
    let searchable = node.searchable_name();
    if contains_str(searchable.as_str(), "AWSServiceRoleFor") {
        return false;
    }
    let mut g: usize = 0;
    while g < groups.len()
        invariant
            g <= groups.len(),
            gs == scp_groups(groups@),
            !service_linked(*node),
            forall|k: int| 0 <= k < g ==> !#[trigger] some_policy_matches(gs[k], "Deny"@, action@, resource@, ctx@),
        decreases groups.len() - g,
    {
        if scp_group_matches(&groups[g], "Deny", action, resource, ctx) {
            proof {
                assert(some_policy_matches(gs[g as int], "Deny"@, action@, resource@, ctx@));
            }
            return true;
        }
        g = g + 1;
    }
    let mut g: usize = 0;
    while g < groups.len()
        invariant
            g <= groups.len(),
            gs == scp_groups(groups@),
            !service_linked(*node),
            !scp_denies(gs, action@, resource@, ctx@),
            forall|k: int| 0 <= k < g ==> #[trigger] some_policy_matches(gs[k], "Allow"@, action@, resource@, ctx@),
        decreases groups.len() - g,
    {
        if !scp_group_matches(&groups[g], "Allow", action, resource, ctx) {
            proof {
                assert(!some_policy_matches(gs[g as int], "Allow"@, action@, resource@, ctx@));
            }
            return true;
        }
        g = g + 1;
    }
    false
}

/// The full check in an already prepared context.
fn full_decision_in(
    node: &Node,
    action: &str,
    resource: &str,
    ctx: &CaseInsensitiveMap,
    resource_policy: Option<&JsonValue>,
    resource_account: &str,
    scps: Option<&[Vec<&Policy>]>,
    session_policy: Option<&Policy>,
) -> (r: bool)
    ensures
        r == full_decision(*node, action@, resource@, ctx@, document_view(resource_policy), resource_account@, scps_view(scps), session_view(session_policy)),
{
    if has_matching_statement(node, "Deny", action, resource, ctx) {
        return false;
    }
    match session_policy {
        Some(sp) => {
            if policy_has_matching_statement(sp, "Deny", action, resource, ctx) {
                return false;
            }
        },
        None => {},
    }
    match &node.permissions_boundary {
        Some(boundary) => {
            if policy_has_matching_statement(boundary, "Deny", action, resource, ctx) {
                return false;
            }
        },
        None => {},
    }
    match scps {
        Some(groups) => {
            if scps_refuse(node, action, resource, ctx, groups) {
                return false;
            }
        },
        None => {},
    }
    match resource_policy {
        Some(rp) => {
            let rp_result = resource_policy_authorization(node, resource_account, rp, action, resource, ctx);
            match rp_result {
                ResourcePolicyEvalResult::DenyMatch => {
                    return false;
                },
                ResourcePolicyEvalResult::NodeMatch => {
                    return true;
                },
                ResourcePolicyEvalResult::ServiceMatch => {
                    return true;
                },
                _ => {},
            }
        },
        None => {},
    }
    match &node.permissions_boundary {
        Some(boundary) => {
            if !policy_has_matching_statement(boundary, "Allow", action, resource, ctx) {
                return false;
            }
        },
        None => {},
    }
    match session_policy {
        Some(sp) => {
            if !policy_has_matching_statement(sp, "Allow", action, resource, ctx) {
                return false;
            }
        },
        None => {},
    }
    has_matching_statement(node, "Allow", action, resource, ctx)
}

/// The full check at time `now`: explicit denies, SCPs (service-linked
/// roles exempt), the resource policy, the permissions boundary, the session
/// policy and the identity policies. The resource's account is
/// `resource_owner`, or the account in the resource ARN.
pub fn local_check_authorization_full_at(
    node: &Node,
    action: &str,
    resource: &str,
    condition_keys: &CaseInsensitiveMap,
    resource_policy: Option<&JsonValue>,
    resource_owner: Option<&str>,
    scps: Option<&[Vec<&Policy>]>,
    session_policy: Option<&Policy>,
    now: &RequestTime,
) -> (r: bool)
    ensures
        r == full_decision(
            *node,
            action@,
            resource@,
            prepared_context(*node, user_pairs(*condition_keys), now.rfc3339@, now.epoch_seconds),
            document_view(resource_policy),
            owner_account(resource@, owner_view(resource_owner)),
            scps_view(scps),
            session_view(session_policy),
        ),
{
    let ctx = prepare_condition_context_at(node, condition_keys, now);
    proof {
        lemma_pairs_context(ctx@, prepared_pairs(*node, user_pairs(*condition_keys), now.rfc3339@, now.epoch_seconds));
    }
    let resource_account = match resource_owner {
        Some(o) => owned(o),
        None => get_account_id(resource),
    };
    full_decision_in(node, action, resource, &ctx, resource_policy, resource_account.as_str(), scps, session_policy)
}

/// The full check at the present moment.
pub fn local_check_authorization_full(
    node: &Node,
    action: &str,
    resource: &str,
    condition_keys: &CaseInsensitiveMap,
    resource_policy: Option<&JsonValue>,
    resource_owner: Option<&str>,
    scps: Option<&[Vec<&Policy>]>,
    session_policy: Option<&Policy>,
) -> (r: bool)
    ensures
        exists|n: RequestTime| time_consistent(n) && r == full_decision(
            *node,
            action@,
            resource@,
            #[trigger] prepared_context(*node, user_pairs(*condition_keys), n.rfc3339@, n.epoch_seconds),
            document_view(resource_policy),
            owner_account(resource@, owner_view(resource_owner)),
            scps_view(scps),
            session_view(session_policy),
        ),
{
    let now = current_time();
    local_check_authorization_full_at(node, action, resource, condition_keys, resource_policy, resource_owner, scps, session_policy, &now)
}

/// The check with multi-factor handling at time `now`: first without MFA;
/// then, for a user with an MFA device, with MFA present.
pub fn local_check_authorization_handling_mfa_at(
    node: &Node,
    action: &str,
    resource: &str,
    condition_keys: &CaseInsensitiveMap,
    scps: Option<&[Vec<&Policy>]>,
    now: &RequestTime,
) -> (r: (bool, bool))
    ensures
        r == mfa_outcome(*node, action@, resource@, user_pairs(*condition_keys), scps_view(scps), now.rfc3339@, now.epoch_seconds),
{
    let without_mfa = local_check_authorization_full_at(node, action, resource, condition_keys, None, None, scps, None, now);
    if without_mfa {
        return (true, false);
    }
    if node.has_mfa && node.is_user() {
        let mfa_ctx = prepare_mfa_context_at(node, condition_keys, now);
        proof {
            lemma_pairs_context(mfa_ctx@, mfa_prepared_pairs(*node, user_pairs(*condition_keys), now.rfc3339@, now.epoch_seconds));
        }
        let resource_account = get_account_id(resource);
        let with_mfa = full_decision_in(node, action, resource, &mfa_ctx, None, resource_account.as_str(), scps, None);
        if with_mfa {
            return (true, true);
        }
    }
    (false, false)
}

/// The check with multi-factor handling at the present moment.
pub fn local_check_authorization_handling_mfa(
    node: &Node,
    action: &str,
    resource: &str,
    condition_keys: &CaseInsensitiveMap,
    scps: Option<&[Vec<&Policy>]>,
) -> (r: (bool, bool))
    ensures
        exists|n: RequestTime| time_consistent(n) && r == #[trigger] mfa_outcome(*node, action@, resource@, user_pairs(*condition_keys), scps_view(scps), n.rfc3339@, n.epoch_seconds),
{
    let now = current_time();
    local_check_authorization_handling_mfa_at(node, action, resource, condition_keys, scps, &now)
}

/// An explicit deny in an identity policy refuses the request, in the
/// simple check and in the full check whatever else is given.
pub proof fn law_explicit_deny_refuses(
    node: Node,
    action: Seq<char>,
    resource: Seq<char>,
    ctx: ContextMap,
    resource_policy: Option<Json>,
    resource_account: Seq<char>,
    scps: Option<Seq<Seq<Policy>>>,
    session: Option<Policy>,
)
    requires
        node_matches(node, "Deny"@, action, resource, ctx),
    ensures
        !local_decision(node, action, resource, ctx),
        !full_decision(node, action, resource, ctx, resource_policy, resource_account, scps, session),
{
}

/// Nothing is allowed without an identity policy that allows it, unless a
/// resource policy grants the principal or a service.
pub proof fn law_identity_allow_needed(
    node: Node,
    action: Seq<char>,
    resource: Seq<char>,
    ctx: ContextMap,
    resource_account: Seq<char>,
    scps: Option<Seq<Seq<Policy>>>,
    session: Option<Policy>,
)
    requires
        !node_matches(node, "Allow"@, action, resource, ctx),
    ensures
        !local_decision(node, action, resource, ctx),
        !full_decision(node, action, resource, ctx, None, resource_account, scps, session),
{
}

/// A permissions boundary that does not allow the action refuses it (in
/// the full check, when no resource policy is given).
pub proof fn law_boundary_must_allow(
    node: Node,
    action: Seq<char>,
    resource: Seq<char>,
    ctx: ContextMap,
    resource_account: Seq<char>,
    scps: Option<Seq<Seq<Policy>>>,
    session: Option<Policy>,
)
    requires
        node.permissions_boundary matches Some(b) && !policy_matches(b.policy_doc@, "Allow"@, action, resource, ctx),
    ensures
        !local_decision(node, action, resource, ctx),
        !full_decision(node, action, resource, ctx, None, resource_account, scps, session),
{
}

/// An SCP that denies refuses the request unless the principal is a
/// service-linked role.
pub proof fn law_scp_deny_refuses(
    node: Node,
    action: Seq<char>,
    resource: Seq<char>,
    ctx: ContextMap,
    resource_policy: Option<Json>,
    resource_account: Seq<char>,
    groups: Seq<Seq<Policy>>,
    session: Option<Policy>,
)
    requires
        !service_linked(node),
        scp_denies(groups, action, resource, ctx),
    ensures
        !full_decision(node, action, resource, ctx, resource_policy, resource_account, Some(groups), session),
{
}

/// With no resource policy, SCPs or session policy, the full check decides
/// as the simple check does.
pub proof fn law_full_without_extras_is_local(node: Node, action: Seq<char>, resource: Seq<char>, ctx: ContextMap, resource_account: Seq<char>)
    ensures
        full_decision(node, action, resource, ctx, None, resource_account, None, None) == local_decision(node, action, resource, ctx),
{
}

/// Needing MFA is reported only as an authorization, and only for a user
/// with an MFA device; an outcome is never "refused but needs MFA".
pub proof fn law_mfa_outcome(
    node: Node,
    action: Seq<char>,
    resource: Seq<char>,
    up: Seq<(Seq<char>, Seq<char>)>,
    scps: Option<Seq<Seq<Policy>>>,
    time: Seq<char>,
    epoch: i64,
)
    ensures
        mfa_outcome(node, action, resource, up, scps, time, epoch).1 ==> mfa_outcome(node, action, resource, up, scps, time, epoch).0,
        mfa_outcome(node, action, resource, up, scps, time, epoch).1 ==> node.has_mfa && node.spec_is_user(),
        mfa_outcome(node, action, resource, up, scps, time, epoch).0 != full_decision(node, action, resource, prepared_context(node, up, time, epoch), None, account_id_of(resource), scps, None)
            ==> mfa_outcome(node, action, resource, up, scps, time, epoch).1,
{
}

/// The full check, at time `(time, epoch)`, of a request with the caller's
/// context `keys` (prepared as the full check prepares it), without resource
/// policy, owner or session policy.
pub open spec fn full_check(node: Node, action: Seq<char>, resource: Seq<char>, keys: CaseInsensitiveMap, scps: Option<Seq<Seq<Policy>>>, time: Seq<char>, epoch: i64) -> bool {
    full_decision(node, action, resource, prepared_context(node, user_pairs(keys), time, epoch), None, owner_account(resource, None), scps, None)
}

/// The check with multi-factor handling is the full check made twice: it is
/// `(true, false)` when the full check allows the caller's context `keys`;
/// otherwise `(true, true)` when the principal is a user with an MFA device
/// and the full check allows the multi-factor context `m` made from `keys`;
/// `(false, false)` else; never `(false, true)`.
pub proof fn law_mfa_outcome_is_two_full_checks(
    node: Node,
    action: Seq<char>,
    resource: Seq<char>,
    keys: CaseInsensitiveMap,
    m: CaseInsensitiveMap,
    scps: Option<Seq<Seq<Policy>>>,
    time: Seq<char>,
    epoch: i64,
)
    requires
        m.wf(),
        holds_pairs(m@, mfa_prepared_pairs(node, user_pairs(keys), time, epoch)),
    ensures
        mfa_outcome(node, action, resource, user_pairs(keys), scps, time, epoch) != (false, true),
        mfa_outcome(node, action, resource, user_pairs(keys), scps, time, epoch) == (true, false)
            <==> full_check(node, action, resource, keys, scps, time, epoch),
        mfa_outcome(node, action, resource, user_pairs(keys), scps, time, epoch) == (true, true)
            <==> !full_check(node, action, resource, keys, scps, time, epoch) && node.has_mfa && node.spec_is_user()
                && full_check(node, action, resource, m, scps, time, epoch),
        mfa_outcome(node, action, resource, user_pairs(keys), scps, time, epoch) == (false, false)
            <==> !full_check(node, action, resource, keys, scps, time, epoch)
                && !(node.has_mfa && node.spec_is_user() && full_check(node, action, resource, m, scps, time, epoch)),
{
    law_mfa_context_re_prepared(node, user_pairs(keys), m, time, epoch);
}

} // verus!
