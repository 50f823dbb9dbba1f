//! The security findings drawn from a graph.
use vstd::prelude::*;
use std::sync::Arc;
use crate::text::{owned, str_eq, cat3, joined, join_strings, nat_text, usize_text};
use crate::ci_map::{CaseInsensitiveMap, strings_view};
use crate::model::finding::{Finding, FindingSpec, Severity, finding_views};
use crate::model::graph::{Graph, last_with_arn, edges_touching, edge_ref_views, lemma_last_with_arn};
use crate::model::node::Node;
use crate::model::edge::{Edge, EdgeSpec, edge_description};
use crate::edges::{node_seq, edge_views};
use crate::policy_eval::authorization::{local_decision, local_check_authorization_at};
use crate::policy_eval::context_keys::{RequestTime, current_time, prepared_context, user_pairs, time_consistent};
use crate::policy_eval::resource_policy::{service_can_assume_role, service_trusted};
use crate::pathfinding::{PathfindingMapper, EscalationPathSpec, path_views, graph_matches, pathfinding_findings};

verus! {

/// A finding made of its five parts.
pub open spec fn finding_of(title: Seq<char>, severity: Severity, impact: Seq<char>, description: Seq<char>, recommendation: Seq<char>) -> FindingSpec {
    FindingSpec { title, severity, impact, description, recommendation }
}

// ---------------------------------------------------------------------------
// Admin users without MFA

/// An admin user without MFA that has an access key or a password.
pub open spec fn admin_without_mfa(n: Node) -> bool {
    n.is_admin && n.spec_is_user() && !n.has_mfa && (n.access_keys > 0 || n.active_password)
}

/// The searchable names of the admin users without MFA, in order.
pub open spec fn admins_without_mfa(ns: Seq<Node>) -> Seq<Seq<char>>
    decreases ns.len(),
{
    if ns.len() == 0 {
        Seq::empty()
    } else {
        let rest = admins_without_mfa(ns.drop_last());
        if admin_without_mfa(ns.last()) { rest.push(ns.last().spec_searchable_name()) } else { rest }
    }
}

/// One finding naming every admin user without MFA, or none where there is none.
pub open spec fn admin_mfa_findings(ns: Seq<Node>) -> Seq<FindingSpec> {
    let names = admins_without_mfa(ns);
    if names.len() == 0 {
        Seq::empty()
    } else {
        seq![finding_of(
            "Admin Users Without MFA"@,
            Severity::High,
            "Admin users without MFA can be compromised through credential theft"@,
            "The following admin users do not have MFA enabled: "@ + joined(names, ", "@),
            "Enable MFA for all admin users."@,
        )]
    }
}

/// Admin users without MFA.
pub fn gen_admin_users_without_mfa_finding(graph: &Graph) -> (r: Vec<Finding>)
    ensures
        finding_views(r@) == admin_mfa_findings(node_seq(graph.nodes@)),
{
    let ghost ns = node_seq(graph.nodes@);
    let mut names: Vec<String> = Vec::new();
    let mut i: usize = 0;
    proof {
        assert(ns.take(0) =~= Seq::<Node>::empty());
        assert(strings_view(names@) =~= admins_without_mfa(ns.take(0)));
    }
    while i < graph.nodes.len()
        invariant
            i <= graph.nodes@.len(),
            ns == node_seq(graph.nodes@),
            strings_view(names@) == admins_without_mfa(ns.take(i as int)),
        decreases graph.nodes@.len() - i,
    {
        let n: &Node = &graph.nodes[i];
        proof {
            assert(ns[i as int] == *n);
            assert(ns.take(i + 1).drop_last() =~= ns.take(i as int));
            assert(ns.take(i + 1).last() == *n);
        }
        let ghost before = strings_view(names@);
        if n.is_admin && n.is_user() && !n.has_mfa && (n.access_keys > 0 || n.active_password) {
            names.push(n.searchable_name());
            proof {
                assert(strings_view(names@) =~= before.push(n.spec_searchable_name()));
            }
        }
        i = i + 1;
    }
    proof {
        assert(ns.take(i as int) =~= ns);
    }
    let mut findings: Vec<Finding> = Vec::new();
    if names.len() > 0 {
        let listed = join_strings(&names, ", ");
        proof {
            assert(Seq::new(names@.len(), |k: int| names@[k]@) =~= strings_view(names@));
        }
        let description = cat3("The following admin users do not have MFA enabled: ", listed.as_str(), "");
        findings.push(Finding::new(
            "Admin Users Without MFA",
            Severity::High,
            "Admin users without MFA can be compromised through credential theft",
            description.as_str(),
            "Enable MFA for all admin users.",
        ));
        proof {
            reveal_strlit("");
            assert(description@ =~= "The following admin users do not have MFA enabled: "@ + joined(strings_view(names@), ", "@));
        }
    }
    proof {
        assert(finding_views(findings@) =~= admin_mfa_findings(ns));
    }
    findings
}

// ---------------------------------------------------------------------------
// Sensitive actions allowed to MFA users without MFA

/// The sensitive actions that should call for MFA.
pub open spec fn sensitive_actions() -> Seq<Seq<char>> {
    seq!["iam:CreateUser"@, "iam:AttachUserPolicy"@, "iam:AttachRolePolicy"@, "iam:PutUserPolicy"@, "iam:PutRolePolicy"@]
}

/// The first of `actions` that the principal may perform on `*` in the plain
/// context at the given time.
pub open spec fn first_allowed(n: Node, actions: Seq<Seq<char>>, t: Seq<char>, e: i64) -> Option<Seq<char>>
    decreases actions.len(),
{
    if actions.len() == 0 {
        None
    } else if local_decision(n, actions[0], "*"@, prepared_context(n, Seq::empty(), t, e)) {
        Some(actions[0])
    } else {
        first_allowed(n, actions.drop_first(), t, e)
    }
}

/// The finding for an admin user with MFA that may perform `action` without it.
pub open spec fn mfa_action_finding(name: Seq<char>, action: Seq<char>) -> FindingSpec {
    finding_of(
        "No MFA Required for "@ + action,
        Severity::Medium,
        name + " can call "@ + action + " without MFA"@,
        "Admin user "@ + name + " can perform the sensitive action "@ + action + " without MFA verification."@,
        "Add MFA condition to the policy granting "@ + action + " to "@ + name + "."@,
    )
}

/// At most one finding per admin user with MFA: the first sensitive action it
/// may perform without MFA.
pub open spec fn mfa_action_findings(ns: Seq<Node>, t: Seq<char>, e: i64) -> Seq<FindingSpec>
    decreases ns.len(),
{
    if ns.len() == 0 {
        Seq::empty()
    } else {
        let rest = mfa_action_findings(ns.drop_last(), t, e);
        let n = ns.last();
        if n.is_admin && n.spec_is_user() && n.has_mfa {
            match first_allowed(n, sensitive_actions(), t, e) {
                Some(a) => rest.push(mfa_action_finding(n.spec_searchable_name(), a)),
                None => rest,
            }
        } else {
            rest
        }
    }
}

fn mfa_finding(name: &str, action: &str) -> (r: Finding)
    ensures
        r@ == mfa_action_finding(name@, action@),
{
    let title = cat3("No MFA Required for ", action, "");
    let impact = cat3(name, " can call ", action);
    let impact = cat3(impact.as_str(), " without MFA", "");
    let description = cat3("Admin user ", name, " can perform the sensitive action ");
    let description = cat3(description.as_str(), action, " without MFA verification.");
    let recommendation = cat3("Add MFA condition to the policy granting ", action, " to ");
    let recommendation = cat3(recommendation.as_str(), name, ".");
    proof {
        reveal_strlit("");
    }
    let f = Finding::new(title.as_str(), Severity::Medium, impact.as_str(), description.as_str(), recommendation.as_str());
    proof {
        assert(f@.title =~= mfa_action_finding(name@, action@).title);
        assert(f@.impact =~= mfa_action_finding(name@, action@).impact);
        assert(f@.description =~= mfa_action_finding(name@, action@).description);
        assert(f@.recommendation =~= mfa_action_finding(name@, action@).recommendation);
    }
    f
}

/// The first sensitive action that the principal may perform without MFA.
fn first_allowed_action(n: &Node, ctx: &CaseInsensitiveMap, now: &RequestTime) -> (r: Option<&'static str>)
    requires
        user_pairs(*ctx) == Seq::<(Seq<char>, Seq<char>)>::empty(),
    ensures
        match r {
            Some(a) => first_allowed(*n, sensitive_actions(), now.rfc3339@, now.epoch_seconds) == Some(a@),
            None => first_allowed(*n, sensitive_actions(), now.rfc3339@, now.epoch_seconds) is None,
        },
{
    let actions: [&'static str; 5] = ["iam:CreateUser", "iam:AttachUserPolicy", "iam:AttachRolePolicy", "iam:PutUserPolicy", "iam:PutRolePolicy"];
    let ghost all = sensitive_actions();
    proof {
        assert(all.len() == 5);
        assert(forall|k: int| 0 <= k < 5 ==> #[trigger] actions@[k]@ == all[k]);
        assert(all.skip(0) =~= all);
    }
    let mut i: usize = 0;
    while i < 5
        invariant
            i <= 5,
            all == sensitive_actions(),
            all.len() == 5,
            forall|k: int| 0 <= k < 5 ==> #[trigger] actions@[k]@ == all[k],
            user_pairs(*ctx) == Seq::<(Seq<char>, Seq<char>)>::empty(),
            first_allowed(*n, all, now.rfc3339@, now.epoch_seconds) == first_allowed(*n, all.skip(i as int), now.rfc3339@, now.epoch_seconds),
        decreases 5 - i,
    {
        proof {
            assert(all.skip(i as int)[0] == actions@[i as int]@);
            assert(all.skip(i as int).drop_first() =~= all.skip(i + 1));
        }
        if local_check_authorization_at(n, actions[i], "*", ctx, now) {
            return Some(actions[i]);
        }
        i = i + 1;
    }
    proof {
        assert(all.skip(5).len() == 0);
    }
    None
}

/// Admin users with MFA that may perform a sensitive action without it, with
/// every check made at time `now`.
pub fn gen_mfa_actions_findings_at(graph: &Graph, now: &RequestTime) -> (r: Vec<Finding>)
    ensures
        finding_views(r@) == mfa_action_findings(node_seq(graph.nodes@), now.rfc3339@, now.epoch_seconds),
{
    let ghost ns = node_seq(graph.nodes@);
    let ctx = CaseInsensitiveMap::new();
    proof {
        assert(user_pairs(ctx) =~= Seq::<(Seq<char>, Seq<char>)>::empty());
    }
    let mut findings: Vec<Finding> = Vec::new();
    let mut i: usize = 0;
    proof {
        assert(ns.take(0) =~= Seq::<Node>::empty());
        assert(finding_views(findings@) =~= mfa_action_findings(ns.take(0), now.rfc3339@, now.epoch_seconds));
    }
    while i < graph.nodes.len()
        invariant
            i <= graph.nodes@.len(),
            ns == node_seq(graph.nodes@),
            user_pairs(ctx) == Seq::<(Seq<char>, Seq<char>)>::empty(),
            finding_views(findings@) == mfa_action_findings(ns.take(i as int), now.rfc3339@, now.epoch_seconds),
        decreases graph.nodes@.len() - i,
    {
        let n: &Node = &graph.nodes[i];
        proof {
            assert(ns[i as int] == *n);
            assert(ns.take(i + 1).drop_last() =~= ns.take(i as int));
            assert(ns.take(i + 1).last() == *n);
        }
        let ghost before = finding_views(findings@);
        if n.is_admin && n.is_user() && n.has_mfa {
            match first_allowed_action(n, &ctx, now) {
                Some(a) => {
                    let name = n.searchable_name();
                    findings.push(mfa_finding(name.as_str(), a));
                    proof {
                        assert(finding_views(findings@) =~= before.push(mfa_action_finding(n.spec_searchable_name(), a@)));
                    }
                },
                None => {},
            }
        }
        i = i + 1;
    }
    proof {
        assert(ns.take(i as int) =~= ns);
    }
    findings
}

/// Admin users with MFA that may perform a sensitive action without it, checked
/// at the present moment.
pub fn gen_mfa_actions_findings(graph: &Graph) -> (r: Vec<Finding>)
    ensures
        exists|n: RequestTime| time_consistent(n) && finding_views(r@) == #[trigger] mfa_action_findings(node_seq(graph.nodes@), n.rfc3339@, n.epoch_seconds),
{
    let now = current_time();
    gen_mfa_actions_findings_at(graph, &now)
}

// ---------------------------------------------------------------------------
// Admin roles that a compute service may assume

/// The kinds of admin roles that a service may assume.
#[derive(PartialEq, Eq, Structural, Clone, Copy)]
pub enum ServiceRoleKind {
    /// Assumable by Lambda.
    Function,
    /// Assumable by EC2 and holding an instance profile.
    InstanceProfile,
    /// Assumable by CloudFormation.
    Stack,
}

/// The service principal of each kind.
pub open spec fn kind_service(k: ServiceRoleKind) -> Seq<char> {
    match k {
        ServiceRoleKind::Function => "lambda.amazonaws.com"@,
        ServiceRoleKind::InstanceProfile => "ec2.amazonaws.com"@,
        ServiceRoleKind::Stack => "cloudformation.amazonaws.com"@,
    }
}

/// An admin role whose trust policy lets the kind's service assume it (and, for
/// an instance profile, that has one).
pub open spec fn overprivileged(n: Node, k: ServiceRoleKind) -> bool {
    &&& n.spec_is_role()
    &&& n.is_admin
    &&& n.trust_policy is Some
    &&& (k == ServiceRoleKind::InstanceProfile ==> (n.instance_profile matches Some(ip) && ip@.len() > 0))
    &&& service_trusted(n.trust_policy.unwrap()@, kind_service(k))
}

/// The finding for an overprivileged role of a kind.
pub open spec fn service_role_finding(k: ServiceRoleKind, name: Seq<char>) -> FindingSpec {
    match k {
        ServiceRoleKind::Function => finding_of(
            "Overprivileged Lambda Role: "@ + name,
            Severity::Medium,
            "Lambda function with admin access could be exploited"@,
            "Role "@ + name + " is assumable by Lambda and has admin-level permissions."@,
            "Apply least-privilege permissions to Lambda execution roles."@,
        ),
        ServiceRoleKind::InstanceProfile => finding_of(
            "Overprivileged Instance Profile: "@ + name,
            Severity::Medium,
            "EC2 instances with admin access could be exploited via SSRF or RCE"@,
            "Role "@ + name + " has an instance profile and admin-level permissions."@,
            "Apply least-privilege permissions to EC2 instance roles."@,
        ),
        ServiceRoleKind::Stack => finding_of(
            "Overprivileged Stack Role: "@ + name,
            Severity::Medium,
            "CloudFormation stack with admin role could be exploited"@,
            "Role "@ + name + " is assumable by CloudFormation and has admin-level permissions."@,
            "Apply least-privilege permissions to CloudFormation stack roles."@,
        ),
    }
}

/// One finding per overprivileged role of the kind, in order.
pub open spec fn service_role_findings(ns: Seq<Node>, k: ServiceRoleKind) -> Seq<FindingSpec>
    decreases ns.len(),
{
    if ns.len() == 0 {
        Seq::empty()
    } else {
        let rest = service_role_findings(ns.drop_last(), k);
        if overprivileged(ns.last(), k) { rest.push(service_role_finding(k, ns.last().spec_searchable_name())) } else { rest }
    }
}

fn kind_finding(k: ServiceRoleKind, name: &str) -> (r: Finding)
    ensures
        r@ == service_role_finding(k, name@),
{
    proof {
        reveal_strlit("");
    }
    let f = match k {
        ServiceRoleKind::Function => {
            let title = cat3("Overprivileged Lambda Role: ", name, "");
            let description = cat3("Role ", name, " is assumable by Lambda and has admin-level permissions.");
            Finding::new(title.as_str(), Severity::Medium, "Lambda function with admin access could be exploited",
                description.as_str(), "Apply least-privilege permissions to Lambda execution roles.")
        },
        ServiceRoleKind::InstanceProfile => {
            let title = cat3("Overprivileged Instance Profile: ", name, "");
            let description = cat3("Role ", name, " has an instance profile and admin-level permissions.");
            Finding::new(title.as_str(), Severity::Medium, "EC2 instances with admin access could be exploited via SSRF or RCE",
                description.as_str(), "Apply least-privilege permissions to EC2 instance roles.")
        },
        ServiceRoleKind::Stack => {
            let title = cat3("Overprivileged Stack Role: ", name, "");
            let description = cat3("Role ", name, " is assumable by CloudFormation and has admin-level permissions.");
            Finding::new(title.as_str(), Severity::Medium, "CloudFormation stack with admin role could be exploited",
                description.as_str(), "Apply least-privilege permissions to CloudFormation stack roles.")
        },
    };
    proof {
        assert(f@.title =~= service_role_finding(k, name@).title);
    }
    f
}

fn kind_service_name(k: ServiceRoleKind) -> (r: &'static str)
    ensures
        r@ == kind_service(k),
{
    match k {
        ServiceRoleKind::Function => "lambda.amazonaws.com",
        ServiceRoleKind::InstanceProfile => "ec2.amazonaws.com",
        ServiceRoleKind::Stack => "cloudformation.amazonaws.com",
    }
}

/// Whether a principal is an overprivileged role of the kind.
fn is_overprivileged(n: &Node, k: ServiceRoleKind) -> (r: bool)
    ensures
        r == overprivileged(*n, k),
{
    if !n.is_role() || !n.is_admin {
        return false;
    }
    match &n.trust_policy {
        Some(tp) => {
            let has_profile = match &n.instance_profile {
                Some(ip) => ip.len() > 0,
                None => false,
            };
            if k == ServiceRoleKind::InstanceProfile && !has_profile {
                return false;
            }
            service_can_assume_role(tp, kind_service_name(k))
        },
        None => false,
    }
}

/// Admin roles of the kind that their service may assume.
fn gen_service_role_findings(graph: &Graph, k: ServiceRoleKind) -> (r: Vec<Finding>)
    ensures
        finding_views(r@) == service_role_findings(node_seq(graph.nodes@), k),
{
    let ghost ns = node_seq(graph.nodes@);
    let mut findings: Vec<Finding> = Vec::new();
    let mut i: usize = 0;
    proof {
        assert(ns.take(0) =~= Seq::<Node>::empty());
        assert(finding_views(findings@) =~= service_role_findings(ns.take(0), k));
    }
    while i < graph.nodes.len()
        invariant
            i <= graph.nodes@.len(),
            ns == node_seq(graph.nodes@),
            finding_views(findings@) == service_role_findings(ns.take(i as int), k),
        decreases graph.nodes@.len() - i,
    {
        let n: &Node = &graph.nodes[i];
        proof {
            assert(ns[i as int] == *n);
            assert(ns.take(i + 1).drop_last() =~= ns.take(i as int));
            assert(ns.take(i + 1).last() == *n);
        }
        let ghost before = finding_views(findings@);
        if is_overprivileged(n, k) {
            let name = n.searchable_name();
            findings.push(kind_finding(k, name.as_str()));
            proof {
                assert(finding_views(findings@) =~= before.push(service_role_finding(k, n.spec_searchable_name())));
            }
        }
        i = i + 1;
    }
    proof {
        assert(ns.take(i as int) =~= ns);
    }
    findings
}

/// Lambda execution roles with admin-level access.
pub fn gen_overprivileged_function_findings(graph: &Graph) -> (r: Vec<Finding>)
    ensures
        finding_views(r@) == service_role_findings(node_seq(graph.nodes@), ServiceRoleKind::Function),
{
    gen_service_role_findings(graph, ServiceRoleKind::Function)
}

/// EC2 instance profiles with admin-level access.
pub fn gen_overprivileged_instance_profile_findings(graph: &Graph) -> (r: Vec<Finding>)
    ensures
        finding_views(r@) == service_role_findings(node_seq(graph.nodes@), ServiceRoleKind::InstanceProfile),
{
    gen_service_role_findings(graph, ServiceRoleKind::InstanceProfile)
}

/// CloudFormation stack roles with admin-level access.
pub fn gen_overprivileged_stack_findings(graph: &Graph) -> (r: Vec<Finding>)
    ensures
        finding_views(r@) == service_role_findings(node_seq(graph.nodes@), ServiceRoleKind::Stack),
{
    gen_service_role_findings(graph, ServiceRoleKind::Stack)
}


// ---------------------------------------------------------------------------
// Circular access

/// Some edge of the list ends at `a`.
pub open spec fn any_to(outs: Seq<EdgeSpec>, a: Seq<char>) -> bool {
    exists|k: int| 0 <= k < outs.len() && #[trigger] outs[k].destination == a
}

/// A principal with ARN `dest` exists and has an edge back to `a`.
pub open spec fn back_edge(ns: Seq<Node>, es: Seq<EdgeSpec>, a: Seq<char>, dest: Seq<char>) -> bool {
    last_with_arn(ns, dest) is Some && any_to(edges_touching(es, dest, true), a)
}

/// The finding for two principals that can reach each other.
pub open spec fn circular_finding(name: Seq<char>, dest: Seq<char>) -> FindingSpec {
    finding_of(
        "Circular Access: "@ + name + " <-> "@ + dest,
        Severity::Low,
        "Circular privilege relationships may indicate misconfiguration"@,
        name + " and "@ + dest + " can access each other, creating a circular relationship."@,
        "Review whether both directions of access are necessary."@,
    )
}

/// The pairs already reported, and the findings so far.
pub type CircularState = (Set<(Seq<char>, Seq<char>)>, Seq<FindingSpec>);

/// The state after the outbound edges `outs` of principal `a`: an edge to `d` is
/// passed over where the pair (`d`, `a`) was reported, and reported where `d`
/// has an edge back to `a`.
pub open spec fn circular_edges(st: CircularState, a: Node, outs: Seq<EdgeSpec>, ns: Seq<Node>, es: Seq<EdgeSpec>) -> CircularState
    decreases outs.len(),
{
    if outs.len() == 0 {
        st
    } else {
        let st1 = circular_edges(st, a, outs.drop_last(), ns, es);
        let d = outs.last().destination;
        if st1.0.contains((d, a.arn@)) {
            st1
        } else if back_edge(ns, es, a.arn@, d) {
            (st1.0.insert((a.arn@, d)), st1.1.push(circular_finding(a.spec_searchable_name(), d)))
        } else {
            st1
        }
    }
}

/// The state after the principals of `prefix`, admins passed over.
pub open spec fn circular_nodes(prefix: Seq<Node>, ns: Seq<Node>, es: Seq<EdgeSpec>) -> CircularState
    decreases prefix.len(),
{
    if prefix.len() == 0 {
        (Set::empty(), Seq::empty())
    } else {
        let st = circular_nodes(prefix.drop_last(), ns, es);
        let a = prefix.last();
        if a.is_admin { st } else { circular_edges(st, a, edges_touching(es, a.arn@, true), ns, es) }
    }
}

/// The circular-access findings of a graph.
pub open spec fn circular_findings(ns: Seq<Node>, es: Seq<EdgeSpec>) -> Seq<FindingSpec> {
    circular_nodes(ns, ns, es).1
}

/// The reported pairs of a list.
pub open spec fn pair_set(v: Seq<(String, String)>) -> Set<(Seq<char>, Seq<char>)> {
    Set::new(|p: (Seq<char>, Seq<char>)| exists|k: int| 0 <= k < v.len() && #[trigger] v[k].0@ == p.0 && v[k].1@ == p.1)
}

fn pair_listed(v: &Vec<(String, String)>, x: &str, y: &str) -> (r: bool)
    ensures
        r == pair_set(v@).contains((x@, y@)),
{
    let mut i: usize = 0;
    while i < v.len()
        invariant
            i <= v@.len(),
            forall|k: int| 0 <= k < i ==> !(v@[k].0@ == x@ && v@[k].1@ == y@),
        decreases v@.len() - i,
    {
        if str_eq(v[i].0.as_str(), x) && str_eq(v[i].1.as_str(), y) {
            proof {
                assert(v@[i as int].0@ == x@ && v@[i as int].1@ == y@);
            }
            return true;
        }
        i = i + 1;
    }
    false
}

/// Whether the principal with ARN `dest` exists and has an edge back to `a`.
fn has_back_edge(graph: &Graph, a: &str, dest: &str) -> (r: bool)
    ensures
        r == back_edge(node_seq(graph.nodes@), edge_views(graph.edges@), a@, dest@),
{
    proof {
        lemma_last_with_arn(node_seq(graph.nodes@), dest@);
    }
    match graph.get_node_by_arn(dest) {
        Some(b) => {
            proof {
                let i = last_with_arn(node_seq(graph.nodes@), dest@)->0;
                assert(node_seq(graph.nodes@)[i].arn@ == dest@);
                assert(b.arn@ == dest@);
            }
            let outs = graph.get_outbound_edges(b);
            let ghost ov = edge_ref_views(outs@);
            let mut k: usize = 0;
            while k < outs.len()
                invariant
                    k <= outs@.len(),
                    ov == edge_ref_views(outs@),
                    ov == edges_touching(edge_views(graph.edges@), dest@, true),
                    last_with_arn(node_seq(graph.nodes@), dest@) is Some,
                    forall|j: int| 0 <= j < k ==> ov[j].destination != a@,
                decreases outs@.len() - k,
            {
                if str_eq(outs[k].destination.as_str(), a) {
                    proof {
                        assert(ov[k as int].destination == a@);
                    }
                    return true;
                }
                k = k + 1;
            }
            proof {
                assert(!any_to(ov, a@)) by {
                    if any_to(ov, a@) {
                        let j = choose|j: int| 0 <= j < ov.len() && #[trigger] ov[j].destination == a@;
                        assert(ov[j].destination != a@);
                    }
                }
            }
            false
        },
        None => false,
    }
}

fn circular_finding_exec(name: &str, dest: &str) -> (r: Finding)
    ensures
        r@ == circular_finding(name@, dest@),
{
    let title = cat3("Circular Access: ", name, " <-> ");
    let title = cat3(title.as_str(), dest, "");
    let description = cat3(name, " and ", dest);
    let description = cat3(description.as_str(), " can access each other, creating a circular relationship.", "");
    proof {
        reveal_strlit("");
    }
    let f = Finding::new(title.as_str(), Severity::Low, "Circular privilege relationships may indicate misconfiguration",
        description.as_str(), "Review whether both directions of access are necessary.");
    proof {
        assert(f@.title =~= circular_finding(name@, dest@).title);
        assert(f@.description =~= circular_finding(name@, dest@).description);
    }
    f
}

/// Pairs of principals that can reach each other, found from the side of a non-admin.
pub fn gen_circular_access_finding(graph: &Graph) -> (r: Vec<Finding>)
    ensures
        finding_views(r@) == circular_findings(node_seq(graph.nodes@), edge_views(graph.edges@)),
{
    let ghost ns = node_seq(graph.nodes@);
    let ghost es = edge_views(graph.edges@);
    let mut findings: Vec<Finding> = Vec::new();
    let mut checked: Vec<(String, String)> = Vec::new();
    let mut i: usize = 0;
    proof {
        assert(ns.take(0) =~= Seq::<Node>::empty());
        assert(pair_set(checked@) =~= Set::<(Seq<char>, Seq<char>)>::empty());
        assert(finding_views(findings@) =~= Seq::<FindingSpec>::empty());
    }
    while i < graph.nodes.len()
        invariant
            i <= graph.nodes@.len(),
            ns == node_seq(graph.nodes@),
            es == edge_views(graph.edges@),
            (pair_set(checked@), finding_views(findings@)) == circular_nodes(ns.take(i as int), ns, es),
        decreases graph.nodes@.len() - i,
    {
        let a: &Node = &graph.nodes[i];
        proof {
            assert(ns[i as int] == *a);
            assert(ns.take(i + 1).drop_last() =~= ns.take(i as int));
            assert(ns.take(i + 1).last() == *a);
        }
        if !a.is_admin {
            let outs = graph.get_outbound_edges(a);
            let ghost ov = edge_ref_views(outs@);
            let ghost start: CircularState = (pair_set(checked@), finding_views(findings@));
            let name = a.searchable_name();
            let mut j: usize = 0;
            proof {
                assert(ov.take(0) =~= Seq::<EdgeSpec>::empty());
            }
            while j < outs.len()
                invariant
                    j <= outs@.len(),
                    ov == edge_ref_views(outs@),
                    ov == edges_touching(es, a.arn@, true),
                    ns == node_seq(graph.nodes@),
                    es == edge_views(graph.edges@),
                    name@ == a.spec_searchable_name(),
                    (pair_set(checked@), finding_views(findings@)) == circular_edges(start, *a, ov.take(j as int), ns, es),
                decreases outs@.len() - j,
            {
                let d: &str = outs[j].destination.as_str();
                proof {
                    assert(ov.take(j + 1).drop_last() =~= ov.take(j as int));
                    assert(ov.take(j + 1).last() == ov[j as int]);
                    assert(ov[j as int].destination == d@);
                }
                if !pair_listed(&checked, d, a.arn.as_str()) {
                    if has_back_edge(graph, a.arn.as_str(), d) {
                        let ghost old_checked = checked@;
                        let ghost old_found = finding_views(findings@);
                        checked.push((owned(a.arn.as_str()), owned(d)));
                        findings.push(circular_finding_exec(name.as_str(), d));
                        proof {
                            assert(finding_views(findings@) =~= old_found.push(circular_finding(a.spec_searchable_name(), d@)));
                            assert(pair_set(checked@) =~= pair_set(old_checked).insert((a.arn@, d@))) by {
                                assert forall|p: (Seq<char>, Seq<char>)| pair_set(checked@).contains(p) <==> pair_set(old_checked).insert((a.arn@, d@)).contains(p) by {
                                    if pair_set(checked@).contains(p) {
                                        let k = choose|k: int| 0 <= k < checked@.len() && #[trigger] checked@[k].0@ == p.0 && checked@[k].1@ == p.1;
                                        if k < old_checked.len() {
                                            assert(old_checked[k] == checked@[k]);
                                        }
                                    }
                                    if pair_set(old_checked).contains(p) {
                                        let k = choose|k: int| 0 <= k < old_checked.len() && #[trigger] old_checked[k].0@ == p.0 && old_checked[k].1@ == p.1;
                                        assert(checked@[k] == old_checked[k]);
                                    }
                                    if p == (a.arn@, d@) {
                                        assert(checked@[old_checked.len() as int].0@ == p.0);
                                    }
                                }
                            }
                        }
                    }
                }
                j = j + 1;
            }
            proof {
                assert(ov.take(j as int) =~= ov);
            }
        }
        i = i + 1;
    }
    proof {
        assert(ns.take(i as int) =~= ns);
    }
    findings
}


// ---------------------------------------------------------------------------
// Privilege escalation

/// An escalation answer for one principal: whether it can escalate, and the path.
pub open spec fn escalation_view(e: Option<(bool, Vec<Edge>)>) -> Option<(bool, Seq<EdgeSpec>)> {
    match e {
        Some((b, p)) => Some((b, edge_views(p@))),
        None => None,
    }
}

/// The lines of an escalation path, each edge described after two spaces.
pub open spec fn path_lines(path: Seq<EdgeSpec>) -> Seq<Seq<char>> {
    Seq::new(path.len(), |k: int| "  "@ + edge_description(path[k]))
}

/// The destination of the last edge of a path; empty for an empty path.
pub open spec fn path_end(path: Seq<EdgeSpec>) -> Seq<char> {
    if path.len() == 0 { Seq::empty() } else { path.last().destination }
}

/// The finding for a principal that can escalate along `path`.
pub open spec fn privesc_finding(name: Seq<char>, path: Seq<EdgeSpec>) -> FindingSpec {
    finding_of(
        "Privilege Escalation: "@ + name + " -> "@ + path_end(path),
        Severity::High,
        name + " can escalate to admin through "@ + nat_text(path.len()) + " hop(s)"@,
        "Principal "@ + name + " can reach admin principal "@ + path_end(path) + " through the following path:\n"@
            + joined(path_lines(path), "\n"@),
        "Review and restrict the permissions of the affected principals."@,
    )
}

/// One finding per non-admin principal whose answer says that it can escalate.
pub open spec fn privesc_findings(ns: Seq<Node>, esc: Seq<Option<(bool, Seq<EdgeSpec>)>>) -> Seq<FindingSpec>
    decreases ns.len(),
{
    if ns.len() == 0 {
        Seq::empty()
    } else {
        let rest = privesc_findings(ns.drop_last(), esc);
        let n = ns.last();
        match esc[ns.len() - 1] {
            Some((true, p)) => if n.is_admin { rest } else { rest.push(privesc_finding(n.spec_searchable_name(), p)) },
            _ => rest,
        }
    }
}

/// The answers of a list, as values.
pub open spec fn escalation_views(v: Seq<Option<(bool, Vec<Edge>)>>) -> Seq<Option<(bool, Seq<EdgeSpec>)>> {
    Seq::new(v.len(), |i: int| escalation_view(v[i]))
}

fn privesc_finding_exec(name: &str, path: &Vec<Edge>) -> (r: Finding)
    ensures
        r@ == privesc_finding(name@, edge_views(path@)),
{
    let ghost pv = edge_views(path@);
    let dest = if path.len() == 0 { String::new() } else { owned(path[path.len() - 1].destination.as_str()) };
    let mut lines: Vec<String> = Vec::new();
    let mut k: usize = 0;
    while k < path.len()
        invariant
            k <= path@.len(),
            pv == edge_views(path@),
            lines@.len() == k,
            forall|j: int| 0 <= j < k ==> #[trigger] lines@[j]@ == path_lines(pv)[j],
        decreases path@.len() - k,
    {
        let d = path[k].describe();
        lines.push(cat3("  ", d.as_str(), ""));
        proof {
            reveal_strlit("");
            assert(lines@[k as int]@ =~= path_lines(pv)[k as int]);
        }
        k = k + 1;
    }
    let listed = join_strings(&lines, "\n");
    proof {
        assert(Seq::new(lines@.len(), |j: int| lines@[j]@) =~= path_lines(pv));
    }
    let title = cat3("Privilege Escalation: ", name, " -> ");
    let title = cat3(title.as_str(), dest.as_str(), "");
    let hops = usize_text(path.len());
    let impact = cat3(name, " can escalate to admin through ", hops.as_str());
    let impact = cat3(impact.as_str(), " hop(s)", "");
    let description = cat3("Principal ", name, " can reach admin principal ");
    let description = cat3(description.as_str(), dest.as_str(), " through the following path:\n");
    let description = cat3(description.as_str(), listed.as_str(), "");
    proof {
        reveal_strlit("");
        assert(dest@ == path_end(pv));
    }
    let f = Finding::new(title.as_str(), Severity::High, impact.as_str(), description.as_str(),
        "Review and restrict the permissions of the affected principals.");
    proof {
        assert(f@.title =~= privesc_finding(name@, pv).title);
        assert(f@.impact =~= privesc_finding(name@, pv).impact);
        assert(f@.description =~= privesc_finding(name@, pv).description);
    }
    f
}

/// Non-admin principals that can escalate to admin. `escalations` holds, for each
/// principal of the graph in order, the answer of the escalation search.
pub fn gen_privesc_findings(graph: &Graph, escalations: &Vec<Option<(bool, Vec<Edge>)>>) -> (r: Vec<Finding>)
    requires
        escalations@.len() == graph.nodes@.len(),
    ensures
        finding_views(r@) == privesc_findings(node_seq(graph.nodes@), escalation_views(escalations@)),
{
    let ghost ns = node_seq(graph.nodes@);
    let ghost ev = escalation_views(escalations@);
    let mut findings: Vec<Finding> = Vec::new();
    let mut i: usize = 0;
    proof {
        assert(ns.take(0) =~= Seq::<Node>::empty());
        assert(finding_views(findings@) =~= privesc_findings(ns.take(0), ev));
    }
    while i < graph.nodes.len()
        invariant
            i <= graph.nodes@.len(),
            escalations@.len() == graph.nodes@.len(),
            ns == node_seq(graph.nodes@),
            ev == escalation_views(escalations@),
            finding_views(findings@) == privesc_findings(ns.take(i as int), ev),
        decreases graph.nodes@.len() - i,
    {
        let n: &Node = &graph.nodes[i];
        proof {
            assert(ns[i as int] == *n);
            assert(ns.take(i + 1).drop_last() =~= ns.take(i as int));
            assert(ns.take(i + 1).last() == *n);
            assert(ev[i as int] == escalation_view(escalations@[i as int]));
        }
        let ghost before = finding_views(findings@);
        if !n.is_admin {
            match &escalations[i] {
                Some((can, path)) => {
                    if *can {
                        let name = n.searchable_name();
                        findings.push(privesc_finding_exec(name.as_str(), path));
                        proof {
                            assert(finding_views(findings@) =~= before.push(privesc_finding(n.spec_searchable_name(), edge_views(path@))));
                        }
                    }
                },
                None => {},
            }
        }
        i = i + 1;
    }
    proof {
        assert(ns.take(i as int) =~= ns);
    }
    findings
}

// ---------------------------------------------------------------------------
// All findings

/// Every finding of a graph, kind by kind, with the checks made at time `t`;
/// the last kind maps the principals onto the escalation paths `paths`.
pub open spec fn all_findings(ns: Seq<Node>, es: Seq<EdgeSpec>, esc: Seq<Option<(bool, Seq<EdgeSpec>)>>, paths: Seq<EscalationPathSpec>, t: Seq<char>, e: i64) -> Seq<FindingSpec> {
    privesc_findings(ns, esc)
        + admin_mfa_findings(ns)
        + mfa_action_findings(ns, t, e)
        + service_role_findings(ns, ServiceRoleKind::Function)
        + service_role_findings(ns, ServiceRoleKind::InstanceProfile)
        + service_role_findings(ns, ServiceRoleKind::Stack)
        + circular_findings(ns, es)
        + pathfinding_findings(graph_matches(paths, ns, t, e))
}

fn append_findings(out: &mut Vec<Finding>, more: Vec<Finding>)
    ensures
        finding_views(final(out)@) == finding_views(old(out)@) + finding_views(more@),
{
    let mut rest = more;
    let ghost all = finding_views(rest@);
    let n = rest.len();
    let mut i: usize = 0;
    proof {
        assert(finding_views(out@) =~= finding_views(old(out)@) + all.take(0));
    }
    while i < n
        invariant
            i <= n,
            n == all.len(),
            rest@.len() == n - i,
            forall|k: int| 0 <= k < rest@.len() ==> rest@[k]@ == all[k + i],
            finding_views(out@) == finding_views(old(out)@) + all.take(i as int),
        decreases n - i,
    {
        let f = rest.remove(0);
        let ghost before = finding_views(out@);
        out.push(f);
        proof {
            assert(finding_views(out@) =~= before.push(all[i as int]));
            assert(all.take(i + 1) =~= all.take(i as int).push(all[i as int]));
        }
        i = i + 1;
    }
    proof {
        assert(all.take(n as int) =~= all);
    }
}

/// Every finding of a graph, with the checks made at time `now`. `escalations`
/// holds the escalation answer of each principal, in order; `mapper` holds the
/// escalation paths that the principals are mapped onto.
pub fn gen_all_findings_at(graph: &Graph, escalations: &Vec<Option<(bool, Vec<Edge>)>>, mapper: &PathfindingMapper, now: &RequestTime) -> (r: Vec<Finding>)
    requires
        escalations@.len() == graph.nodes@.len(),
    ensures
        finding_views(r@) == all_findings(node_seq(graph.nodes@), edge_views(graph.edges@), escalation_views(escalations@), path_views(mapper.paths@), now.rfc3339@, now.epoch_seconds),
{
    let mut findings = gen_privesc_findings(graph, escalations);
    append_findings(&mut findings, gen_admin_users_without_mfa_finding(graph));
    append_findings(&mut findings, gen_mfa_actions_findings_at(graph, now));
    append_findings(&mut findings, gen_overprivileged_function_findings(graph));
    append_findings(&mut findings, gen_overprivileged_instance_profile_findings(graph));
    append_findings(&mut findings, gen_overprivileged_stack_findings(graph));
    append_findings(&mut findings, gen_circular_access_finding(graph));
    append_findings(&mut findings, mapper.generate_findings_at(graph, now));
    findings
}

/// Every finding of a graph, with the checks made at the present moment.
pub fn gen_all_findings(graph: &Graph, escalations: &Vec<Option<(bool, Vec<Edge>)>>, mapper: &PathfindingMapper) -> (r: Vec<Finding>)
    requires
        escalations@.len() == graph.nodes@.len(),
    ensures
        exists|n: RequestTime| time_consistent(n) && finding_views(r@) == #[trigger] all_findings(node_seq(graph.nodes@), edge_views(graph.edges@), escalation_views(escalations@), path_views(mapper.paths@), n.rfc3339@, n.epoch_seconds),
{
    let now = current_time();
    gen_all_findings_at(graph, escalations, mapper, &now)
}


// ---------------------------------------------------------------------------
// Laws

/// Some edge of the list goes from `x` to `y`.
pub open spec fn has_edge(es: Seq<EdgeSpec>, x: Seq<char>, y: Seq<char>) -> bool {
    exists|k: int| 0 <= k < es.len() && #[trigger] es[k].source == x && es[k].destination == y
}

/// The finding names principal `i` (not an admin) and an ARN `d`, with edges
/// both ways between them.
pub open spec fn mutual_finding(ns: Seq<Node>, es: Seq<EdgeSpec>, f: FindingSpec) -> bool {
    exists|i: int, d: Seq<char>|
        0 <= i < ns.len() && !ns[i].is_admin && f == #[trigger] circular_finding(ns[i].spec_searchable_name(), d)
            && has_edge(es, ns[i].arn@, d) && has_edge(es, d, ns[i].arn@)
}

proof fn lemma_touching_from(es: Seq<EdgeSpec>, arn: Seq<char>, k: int)
    requires
        0 <= k < edges_touching(es, arn, true).len(),
    ensures
        edges_touching(es, arn, true)[k].source == arn,
        has_edge(es, arn, edges_touching(es, arn, true)[k].destination),
    decreases es.len(),
{
    let rest = edges_touching(es.drop_last(), arn, true);
    if k < rest.len() {
        lemma_touching_from(es.drop_last(), arn, k);
        let x = rest[k];
        let j = choose|j: int| 0 <= j < es.drop_last().len() && #[trigger] es.drop_last()[j].source == arn && es.drop_last()[j].destination == x.destination;
        assert(es[j] == es.drop_last()[j]);
    } else {
        assert(es.last().source == arn);
        assert(es[es.len() - 1] == es.last());
    }
}

proof fn lemma_back_edge_has_edge(ns: Seq<Node>, es: Seq<EdgeSpec>, a: Seq<char>, d: Seq<char>)
    requires
        back_edge(ns, es, a, d),
    ensures
        has_edge(es, d, a),
{
    let outs = edges_touching(es, d, true);
    let k = choose|k: int| 0 <= k < outs.len() && #[trigger] outs[k].destination == a;
    lemma_touching_from(es, d, k);
}

proof fn lemma_circular_edges(st: CircularState, a: Node, i: int, outs_len: int, ns: Seq<Node>, es: Seq<EdgeSpec>, f: FindingSpec)
    requires
        0 <= i < ns.len(),
        a == ns[i],
        !a.is_admin,
        0 <= outs_len <= edges_touching(es, a.arn@, true).len(),
        circular_edges(st, a, edges_touching(es, a.arn@, true).take(outs_len), ns, es).1.contains(f),
        st.1.contains(f) ==> mutual_finding(ns, es, f),
    ensures
        mutual_finding(ns, es, f),
    decreases outs_len,
{
    let all = edges_touching(es, a.arn@, true);
    let outs = all.take(outs_len);
    if outs_len == 0 {
        assert(outs =~= Seq::<EdgeSpec>::empty());
    } else {
        assert(outs.drop_last() =~= all.take(outs_len - 1));
        let st1 = circular_edges(st, a, outs.drop_last(), ns, es);
        let d = outs.last().destination;
        if st1.1.contains(f) {
            lemma_circular_edges(st, a, i, outs_len - 1, ns, es, f);
        } else if !st1.0.contains((d, a.arn@)) && back_edge(ns, es, a.arn@, d) {
            let fs = st1.1.push(circular_finding(a.spec_searchable_name(), d));
            let k = choose|k: int| 0 <= k < fs.len() && fs[k] == f;
            if k < st1.1.len() {
                assert(st1.1[k] == f);
            }
            assert(f == circular_finding(ns[i].spec_searchable_name(), d));
            assert(outs.last() == all[outs_len - 1]);
            lemma_touching_from(es, a.arn@, outs_len - 1);
            lemma_back_edge_has_edge(ns, es, a.arn@, d);
        }
    }
}

proof fn lemma_circular_nodes(n: int, ns: Seq<Node>, es: Seq<EdgeSpec>, f: FindingSpec)
    requires
        0 <= n <= ns.len(),
        circular_nodes(ns.take(n), ns, es).1.contains(f),
    ensures
        mutual_finding(ns, es, f),
    decreases n,
{
    if n == 0 {
        assert(ns.take(0) =~= Seq::<Node>::empty());
    } else {
        assert(ns.take(n).drop_last() =~= ns.take(n - 1));
        let st = circular_nodes(ns.take(n - 1), ns, es);
        let a = ns.take(n).last();
        assert(a == ns[n - 1]);
        if st.1.contains(f) {
            lemma_circular_nodes(n - 1, ns, es, f);
        }
        if !a.is_admin {
            let all = edges_touching(es, a.arn@, true);
            assert(all.take(all.len() as int) =~= all);
            lemma_circular_edges(st, a, n - 1, all.len() as int, ns, es, f);
        }
    }
}

/// Every circular-access finding names a non-admin principal and an ARN with
/// edges both ways between them.
pub proof fn law_circular_findings_are_mutual(ns: Seq<Node>, es: Seq<EdgeSpec>, f: FindingSpec)
    requires
        circular_findings(ns, es).contains(f),
    ensures
        mutual_finding(ns, es, f),
{
    assert(ns.take(ns.len() as int) =~= ns);
    lemma_circular_nodes(ns.len() as int, ns, es, f);
}

/// Every escalation finding is about a non-admin principal whose answer says that
/// it can escalate, along the path of that answer.
pub proof fn law_privesc_findings_are_escalations(ns: Seq<Node>, esc: Seq<Option<(bool, Seq<EdgeSpec>)>>, f: FindingSpec)
    requires
        esc.len() == ns.len(),
        privesc_findings(ns, esc).contains(f),
    ensures
        exists|i: int, p: Seq<EdgeSpec>| 0 <= i < ns.len() && !ns[i].is_admin && esc[i] == Some((true, p))
            && f == #[trigger] privesc_finding(ns[i].spec_searchable_name(), p),
{
    lemma_privesc_prefix(ns, esc, f);
}

proof fn lemma_privesc_prefix(ns: Seq<Node>, esc: Seq<Option<(bool, Seq<EdgeSpec>)>>, f: FindingSpec)
    requires
        esc.len() >= ns.len(),
        privesc_findings(ns, esc).contains(f),
    ensures
        exists|i: int, p: Seq<EdgeSpec>| 0 <= i < ns.len() && !ns[i].is_admin && esc[i] == Some((true, p))
            && f == #[trigger] privesc_finding(ns[i].spec_searchable_name(), p),
    decreases ns.len(),
{
    let rest = privesc_findings(ns.drop_last(), esc);
    let i = ns.len() - 1;
    if rest.contains(f) {
        lemma_privesc_prefix(ns.drop_last(), esc, f);
        let (j, p) = choose|j: int, p: Seq<EdgeSpec>| 0 <= j < ns.drop_last().len() && !ns.drop_last()[j].is_admin && esc[j] == Some((true, p))
            && f == #[trigger] privesc_finding(ns.drop_last()[j].spec_searchable_name(), p);
        assert(ns[j] == ns.drop_last()[j]);
    } else {
        match esc[i] {
            Some((true, p)) => {
                let fs = rest.push(privesc_finding(ns.last().spec_searchable_name(), p));
                let k = choose|k: int| 0 <= k < fs.len() && fs[k] == f;
                if k < rest.len() {
                    assert(rest[k] == f);
                }
                assert(f == privesc_finding(ns[i].spec_searchable_name(), p));
            },
            _ => {},
        }
    }
}

/// A principal the MFA finding is about: an administrator, a user, without
/// MFA, with an access key or a password.
pub open spec fn exposed_admin_user(n: Node) -> bool {
    &&& n.is_admin
    &&& n.spec_is_user()
    &&& !n.has_mfa
    &&& (n.access_keys > 0 || n.active_password)
}

/// `a` is the searchable name of an exposed admin user among `ns`.
pub open spec fn names_exposed_admin(ns: Seq<Node>, a: Seq<char>) -> bool {
    exists|i: int| 0 <= i < ns.len() && #[trigger] ns[i].spec_searchable_name() == a && exposed_admin_user(ns[i])
}

proof fn lemma_admins_without_mfa(ns: Seq<Node>)
    ensures
        forall|k: int| 0 <= k < admins_without_mfa(ns).len() ==> names_exposed_admin(ns, #[trigger] admins_without_mfa(ns)[k]),
        forall|i: int| 0 <= i < ns.len() && exposed_admin_user(ns[i]) ==> admins_without_mfa(ns).contains(#[trigger] ns[i].spec_searchable_name()),
    decreases ns.len(),
{
    if ns.len() > 0 {
        let init = ns.drop_last();
        lemma_admins_without_mfa(init);
        let rest = admins_without_mfa(init);
        let names = admins_without_mfa(ns);
        let last = ns.len() - 1;
        assert(ns.last() == ns[last]);
        assert forall|k: int| 0 <= k < admins_without_mfa(ns).len() implies names_exposed_admin(ns, #[trigger] admins_without_mfa(ns)[k]) by {
            if k < admins_without_mfa(init).len() {
                assert(admins_without_mfa(ns)[k] == admins_without_mfa(init)[k]);
                assert(names_exposed_admin(init, admins_without_mfa(init)[k]));
                let i = choose|i: int| 0 <= i < init.len() && #[trigger] init[i].spec_searchable_name() == admins_without_mfa(init)[k] && exposed_admin_user(init[i]);
                assert(init[i] == ns[i]);
                assert(ns[i].spec_searchable_name() == admins_without_mfa(ns)[k] && exposed_admin_user(ns[i]));
            } else {
                assert(admins_without_mfa(ns)[k] == ns[last].spec_searchable_name());
                assert(exposed_admin_user(ns[last]));
            }
        }
        assert forall|i: int| 0 <= i < ns.len() && exposed_admin_user(ns[i]) implies names.contains(#[trigger] ns[i].spec_searchable_name()) by {
            if i < last {
                assert(init[i] == ns[i]);
                assert(rest.contains(init[i].spec_searchable_name()));
                let k = choose|k: int| 0 <= k < rest.len() && rest[k] == init[i].spec_searchable_name();
                assert(names[k] == rest[k]);
            } else {
                assert(names[names.len() - 1] == ns[last].spec_searchable_name());
            }
        }
    }
}

/// The finding on admin users without MFA names exactly the exposed admin
/// users (`exposed_admin_user`): every name it lists is one of theirs and
/// each of theirs is listed; there is one such finding when there is at
/// least one of them, and none otherwise.
pub proof fn law_admin_mfa_finding(ns: Seq<Node>)
    ensures
        forall|k: int| 0 <= k < admins_without_mfa(ns).len() ==> names_exposed_admin(ns, #[trigger] admins_without_mfa(ns)[k]),
        forall|i: int| 0 <= i < ns.len() && exposed_admin_user(ns[i]) ==> admins_without_mfa(ns).contains(#[trigger] ns[i].spec_searchable_name()),
        admin_mfa_findings(ns).len() <= 1,
        admin_mfa_findings(ns).len() == 1 <==> exists|i: int| 0 <= i < ns.len() && #[trigger] exposed_admin_user(ns[i]),
        admin_mfa_findings(ns).len() == 1 ==> admin_mfa_findings(ns)[0].description
            == "The following admin users do not have MFA enabled: "@ + joined(admins_without_mfa(ns), ", "@),
{
    lemma_admins_without_mfa(ns);
    let names = admins_without_mfa(ns);
    if exists|i: int| 0 <= i < ns.len() && #[trigger] exposed_admin_user(ns[i]) {
        let i = choose|i: int| 0 <= i < ns.len() && #[trigger] exposed_admin_user(ns[i]);
        assert(names.contains(ns[i].spec_searchable_name()));
    }
    if names.len() > 0 {
        assert(names_exposed_admin(ns, names[0]));
        let i = choose|i: int| 0 <= i < ns.len() && #[trigger] ns[i].spec_searchable_name() == names[0] && exposed_admin_user(ns[i]);
        assert(exposed_admin_user(ns[i]));
    }
}

/// `f` is the finding of a principal of `ns` that is an administrator, a user
/// with an MFA device, and may perform a sensitive action on every resource
/// without MFA (in the plain context at time `(t, e)`); the finding names
/// that action.
pub open spec fn mfa_finding_justified(ns: Seq<Node>, f: FindingSpec, t: Seq<char>, e: i64) -> bool {
    exists|i: int, a: int| 0 <= i < ns.len() && 0 <= a < sensitive_actions().len()
        && #[trigger] mfa_action_finding(ns[i].spec_searchable_name(), sensitive_actions()[a]) == f
        && ns[i].is_admin && ns[i].spec_is_user() && ns[i].has_mfa
        && local_decision(ns[i], sensitive_actions()[a], "*"@, prepared_context(ns[i], Seq::empty(), t, e))
}

proof fn lemma_first_allowed(n: Node, actions: Seq<Seq<char>>, t: Seq<char>, e: i64)
    ensures
        first_allowed(n, actions, t, e) matches Some(x) ==> exists|a: int| 0 <= a < actions.len() && #[trigger] actions[a] == x
            && local_decision(n, x, "*"@, prepared_context(n, Seq::empty(), t, e)),
    decreases actions.len(),
{
    if actions.len() > 0 {
        lemma_first_allowed(n, actions.drop_first(), t, e);
        if let Some(x) = first_allowed(n, actions.drop_first(), t, e) {
            if !local_decision(n, actions[0], "*"@, prepared_context(n, Seq::empty(), t, e)) {
                let a = choose|a: int| 0 <= a < actions.drop_first().len() && #[trigger] actions.drop_first()[a] == x
                    && local_decision(n, x, "*"@, prepared_context(n, Seq::empty(), t, e));
                assert(actions[a + 1] == x);
            }
        }
        if local_decision(n, actions[0], "*"@, prepared_context(n, Seq::empty(), t, e)) {
            assert(actions[0] == actions[0]);
        }
    }
}

/// Each finding on sensitive actions without MFA is about an administrator
/// user with an MFA device who may perform the sensitive action it names
/// without MFA; there is at most one per principal.
pub proof fn law_mfa_action_findings(ns: Seq<Node>, t: Seq<char>, e: i64)
    ensures
        mfa_action_findings(ns, t, e).len() <= ns.len(),
        forall|k: int| 0 <= k < mfa_action_findings(ns, t, e).len()
            ==> mfa_finding_justified(ns, #[trigger] mfa_action_findings(ns, t, e)[k], t, e),
    decreases ns.len(),
{
    if ns.len() > 0 {
        let init = ns.drop_last();
        law_mfa_action_findings(init, t, e);
        let last = ns.len() - 1;
        let n = ns[last];
        assert(ns.last() == n);
        lemma_first_allowed(n, sensitive_actions(), t, e);
        let rest = mfa_action_findings(init, t, e);
        let fs = mfa_action_findings(ns, t, e);
        assert forall|k: int| 0 <= k < fs.len() implies mfa_finding_justified(ns, #[trigger] fs[k], t, e) by {
            if k < rest.len() {
                assert(fs[k] == rest[k]);
                assert(mfa_finding_justified(init, rest[k], t, e));
                let (i, a) = choose|i: int, a: int| 0 <= i < init.len() && 0 <= a < sensitive_actions().len()
                    && #[trigger] mfa_action_finding(init[i].spec_searchable_name(), sensitive_actions()[a]) == rest[k]
                    && init[i].is_admin && init[i].spec_is_user() && init[i].has_mfa
                    && local_decision(init[i], sensitive_actions()[a], "*"@, prepared_context(init[i], Seq::empty(), t, e));
                assert(init[i] == ns[i]);
                assert(mfa_action_finding(ns[i].spec_searchable_name(), sensitive_actions()[a]) == fs[k]);
            } else {
                let x = first_allowed(n, sensitive_actions(), t, e)->0;
                let a = choose|a: int| 0 <= a < sensitive_actions().len() && #[trigger] sensitive_actions()[a] == x
                    && local_decision(n, x, "*"@, prepared_context(n, Seq::empty(), t, e));
                assert(mfa_action_finding(ns[last].spec_searchable_name(), sensitive_actions()[a]) == fs[k]);
            }
        }
    }
}

/// `f` is the finding of kind `k` of a role of `ns` that is an administrator
/// whose trust policy lets the kind's service assume it (and that holds an
/// instance profile, for that kind).
pub open spec fn service_finding_justified(ns: Seq<Node>, k: ServiceRoleKind, f: FindingSpec) -> bool {
    exists|i: int| 0 <= i < ns.len() && #[trigger] service_role_finding(k, ns[i].spec_searchable_name()) == f
        && ns[i].spec_is_role() && ns[i].is_admin
        && (ns[i].trust_policy matches Some(tp) && service_trusted(tp@, kind_service(k)))
        && (k == ServiceRoleKind::InstanceProfile ==> (ns[i].instance_profile matches Some(ip) && ip@.len() > 0))
}

/// Each overprivileged-role finding is about an administrator role that the
/// kind's service may assume; every such role has its finding.
pub proof fn law_service_role_findings(ns: Seq<Node>, k: ServiceRoleKind)
    ensures
        forall|j: int| 0 <= j < service_role_findings(ns, k).len()
            ==> service_finding_justified(ns, k, #[trigger] service_role_findings(ns, k)[j]),
        forall|i: int| 0 <= i < ns.len() && ns[i].spec_is_role() && ns[i].is_admin
            && (ns[i].trust_policy matches Some(tp) && service_trusted(tp@, kind_service(k)))
            && (k == ServiceRoleKind::InstanceProfile ==> (ns[i].instance_profile matches Some(ip) && ip@.len() > 0))
            ==> service_role_findings(ns, k).contains(service_role_finding(k, #[trigger] ns[i].spec_searchable_name())),
    decreases ns.len(),
{
    if ns.len() > 0 {
        let init = ns.drop_last();
        law_service_role_findings(init, k);
        let last = ns.len() - 1;
        assert(ns.last() == ns[last]);
        let rest = service_role_findings(init, k);
        let fs = service_role_findings(ns, k);
        assert forall|j: int| 0 <= j < fs.len() implies service_finding_justified(ns, k, #[trigger] fs[j]) by {
            if j < rest.len() {
                assert(fs[j] == rest[j]);
                assert(service_finding_justified(init, k, rest[j]));
                let i = choose|i: int| 0 <= i < init.len() && #[trigger] service_role_finding(k, init[i].spec_searchable_name()) == rest[j]
                    && init[i].spec_is_role() && init[i].is_admin
                    && (init[i].trust_policy matches Some(tp) && service_trusted(tp@, kind_service(k)))
                    && (k == ServiceRoleKind::InstanceProfile ==> (init[i].instance_profile matches Some(ip) && ip@.len() > 0));
                assert(init[i] == ns[i]);
                assert(service_role_finding(k, ns[i].spec_searchable_name()) == fs[j]);
            } else {
                assert(service_role_finding(k, ns[last].spec_searchable_name()) == fs[j]);
            }
        }
        assert forall|i: int| 0 <= i < ns.len() && ns[i].spec_is_role() && ns[i].is_admin
            && (ns[i].trust_policy matches Some(tp) && service_trusted(tp@, kind_service(k)))
            && (k == ServiceRoleKind::InstanceProfile ==> (ns[i].instance_profile matches Some(ip) && ip@.len() > 0))
            implies fs.contains(service_role_finding(k, #[trigger] ns[i].spec_searchable_name())) by {
            if i < last {
                assert(init[i] == ns[i]);
                assert(rest.contains(service_role_finding(k, init[i].spec_searchable_name())));
                let j = choose|j: int| 0 <= j < rest.len() && rest[j] == service_role_finding(k, init[i].spec_searchable_name());
                assert(fs[j] == rest[j]);
            } else {
                assert(fs[fs.len() - 1] == service_role_finding(k, ns[last].spec_searchable_name()));
            }
        }
    }
}

} // verus!
