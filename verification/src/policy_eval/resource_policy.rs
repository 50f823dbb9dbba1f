//! Resource-based policies (trust policies, bucket policies and the like):
//! whom a statement names as principal, and what a whole policy grants.
use vstd::prelude::*;
use crate::json::{Json, JsonValue, lemma_array_view, items_view};
use crate::text::{fold, is_suffix, has_char, str_eq, ends_with, contains_char, eq_ignore_ascii_case};
use crate::ci_map::{CaseInsensitiveMap, ContextMap, strings_view};
use crate::arns::{account_id_of, get_account_id};
use crate::model::node::Node;
use crate::policy_eval::wildcard::{pattern_matches, action_matches, resource_matches};
use crate::policy_eval::condition::{condition_holds, evaluate_condition_block};
use crate::policy_eval::statement_match::{statements_of, string_list, effect_of, some_pattern_matches, get_string_or_list, statement_effect};

verus! {

/// Result of evaluating a resource-based policy against a principal.
#[derive(Debug, Clone, Copy, PartialEq, Eq, Structural)]
pub enum ResourcePolicyEvalResult {
    /// No statement applies.
    NoMatch,
    /// An explicit deny applies.
    DenyMatch,
    /// The principal's account root is allowed.
    RootMatch,
    /// The principal itself is allowed.
    NodeMatch,
    /// The principal is allowed from another account.
    DiffAccountMatch,
    /// A service (or federated) principal is allowed.
    ServiceMatch,
}

/// How the principal element of a statement names a principal.
#[derive(Debug, Clone, Copy, PartialEq, Eq, Structural)]
pub enum PrincipalMatchResult {
    NoMatch,
    WildcardMatch,
    RootMatch,
    NodeMatch,
    DiffAccountMatch,
    ServiceMatch,
}

/// How one entry of an `AWS` principal list names the principal, if it does:
/// `*`, the principal's ARN, its account's root, its bare account id, or its
/// unique id.
pub open spec fn aws_entry_match(p: Seq<char>, node: Node, account: Seq<char>) -> Option<PrincipalMatchResult> {
    let node_account = account_id_of(node.arn@);
    if p == "*"@ {
        Some(PrincipalMatchResult::WildcardMatch)
    } else if p == node.arn@ {
        if node_account == account {
            Some(PrincipalMatchResult::NodeMatch)
        } else {
            Some(PrincipalMatchResult::DiffAccountMatch)
        }
    } else if is_suffix(":root"@, p) && account_id_of(p) == node_account {
        Some(PrincipalMatchResult::RootMatch)
    } else if !has_char(p, ':') && p == node_account {
        Some(PrincipalMatchResult::RootMatch)
    } else if p == node.id_value@ {
        Some(PrincipalMatchResult::NodeMatch)
    } else {
        None
    }
}

/// The match of the first entry of an `AWS` list that names the principal.
pub open spec fn aws_list_match(ps: Seq<Seq<char>>, node: Node, account: Seq<char>) -> Option<PrincipalMatchResult>
    decreases ps.len(),
{
    if ps.len() == 0 {
        None
    } else {
        match aws_entry_match(ps[0], node, account) {
            Some(m) => Some(m),
            None => aws_list_match(ps.skip(1), node, account),
        }
    }
}

/// The member `key` of `v` is a non-empty string or a list holding a string.
pub open spec fn names_some(v: Json, key: Seq<char>) -> bool {
    match v.get(key) {
        Some(x) => string_list(x).len() > 0,
        None => false,
    }
}

/// How a `Principal` value names the principal: `"*"`, or an object whose
/// `AWS` entries are tried in order, then any `Service`, then any `Federated`
/// principal.
pub open spec fn principal_value_match(p: Json, node: Node, account: Seq<char>) -> PrincipalMatchResult {
    match p {
        Json::Str(s) => if s == "*"@ {
            PrincipalMatchResult::WildcardMatch
        } else {
            PrincipalMatchResult::NoMatch
        },
        Json::Object(_, _) => {
            let aws = match p.get("AWS"@) {
                Some(a) => aws_list_match(string_list(a), node, account),
                None => None,
            };
            match aws {
                Some(m) => m,
                None => if names_some(p, "Service"@) || names_some(p, "Federated"@) {
                    PrincipalMatchResult::ServiceMatch
                } else {
                    PrincipalMatchResult::NoMatch
                },
            }
        },
        _ => PrincipalMatchResult::NoMatch,
    }
}

/// How a statement names the principal: through `NotPrincipal` (a statement
/// whose `NotPrincipal` does not name it applies to it as itself), else
/// through `Principal`.
pub open spec fn statement_principal(stmt: Json, node: Node, account: Seq<char>) -> PrincipalMatchResult {
    match stmt.get("NotPrincipal"@) {
        Some(np) => if principal_value_match(np, node, account) == PrincipalMatchResult::NoMatch {
            PrincipalMatchResult::NodeMatch
        } else {
            PrincipalMatchResult::NoMatch
        },
        None => match stmt.get("Principal"@) {
            Some(p) => principal_value_match(p, node, account),
            None => PrincipalMatchResult::NoMatch,
        },
    }
}

/// `Action` lists a matching pattern, or `NotAction` lists none; a statement
/// with neither applies to every action.
pub open spec fn rp_action_matches(stmt: Json, action: Seq<char>) -> bool {
    match stmt.get("Action"@) {
        Some(a) => some_pattern_matches(string_list(a), action),
        None => match stmt.get("NotAction"@) {
            Some(na) => !some_pattern_matches(string_list(na), action),
            None => true,
        },
    }
}

/// The statement's action, resource (when it lists any) and condition match.
pub open spec fn rp_statement_applies(stmt: Json, action: Seq<char>, resource: Seq<char>, ctx: ContextMap) -> bool {
    &&& rp_action_matches(stmt, action)
    &&& match stmt.get("Resource"@) {
        Some(r) => some_pattern_matches(string_list(r), resource),
        None => true,
    }
    &&& match stmt.get("Condition"@) {
        Some(c) => condition_holds(c, ctx),
        None => true,
    }
}

/// A deny statement that applies and names the principal.
pub open spec fn deny_hit(stmt: Json, node: Node, account: Seq<char>, action: Seq<char>, resource: Seq<char>, ctx: ContextMap) -> bool {
    &&& rp_statement_applies(stmt, action, resource, ctx)
    &&& statement_principal(stmt, node, account) != PrincipalMatchResult::NoMatch
    &&& fold(effect_of(stmt)) == fold("Deny"@)
}

/// How an allow statement that applies names the principal; `NoMatch` for
/// any other statement.
pub open spec fn allow_hit(stmt: Json, node: Node, account: Seq<char>, action: Seq<char>, resource: Seq<char>, ctx: ContextMap) -> PrincipalMatchResult {
    if rp_statement_applies(stmt, action, resource, ctx)
        && fold(effect_of(stmt)) != fold("Deny"@)
        && fold(effect_of(stmt)) == fold("Allow"@) {
        statement_principal(stmt, node, account)
    } else {
        PrincipalMatchResult::NoMatch
    }
}

/// The principal matches of the allow statements that apply, in order.
pub open spec fn allow_list(sts: Seq<Json>, node: Node, account: Seq<char>, action: Seq<char>, resource: Seq<char>, ctx: ContextMap) -> Seq<PrincipalMatchResult>
    decreases sts.len(),
{
    if sts.len() == 0 {
        Seq::empty()
    } else {
        let rest = allow_list(sts.drop_last(), node, account, action, resource, ctx);
        let m = allow_hit(sts.last(), node, account, action, resource, ctx);
        if m == PrincipalMatchResult::NoMatch {
            rest
        } else {
            rest.push(m)
        }
    }
}

/// Some statement is a deny that applies to the principal.
pub open spec fn any_deny(sts: Seq<Json>, node: Node, account: Seq<char>, action: Seq<char>, resource: Seq<char>, ctx: ContextMap) -> bool {
    exists|i: int| 0 <= i < sts.len() && #[trigger] deny_hit(sts[i], node, account, action, resource, ctx)
}

/// The outcome of a resource policy: a deny wins; otherwise the most
/// specific allow, in the order node, other account, root, service, and
/// wildcard (root in the principal's own account, other account elsewhere).
pub open spec fn resource_policy_result(doc: Json, node: Node, account: Seq<char>, action: Seq<char>, resource: Seq<char>, ctx: ContextMap) -> ResourcePolicyEvalResult {
    let sts = statements_of(doc);
    let allows = allow_list(sts, node, account, action, resource, ctx);
    if any_deny(sts, node, account, action, resource, ctx) {
        ResourcePolicyEvalResult::DenyMatch
    } else if allows.contains(PrincipalMatchResult::NodeMatch) {
        ResourcePolicyEvalResult::NodeMatch
    } else if allows.contains(PrincipalMatchResult::DiffAccountMatch) {
        ResourcePolicyEvalResult::DiffAccountMatch
    } else if allows.contains(PrincipalMatchResult::RootMatch) {
        ResourcePolicyEvalResult::RootMatch
    } else if allows.contains(PrincipalMatchResult::ServiceMatch) {
        ResourcePolicyEvalResult::ServiceMatch
    } else if allows.contains(PrincipalMatchResult::WildcardMatch) {
        if account_id_of(node.arn@) == account {
            ResourcePolicyEvalResult::RootMatch
        } else {
            ResourcePolicyEvalResult::DiffAccountMatch
        }
    } else {
        ResourcePolicyEvalResult::NoMatch
    }
}

/// The `Service` principals of a `Principal` object.
pub open spec fn principal_services(p: Json) -> Seq<Seq<char>> {
    match p {
        Json::Object(_, _) => match p.get("Service"@) {
            Some(s) => string_list(s),
            None => Seq::empty(),
        },
        _ => Seq::empty(),
    }
}

/// An allow statement that applies to `sts:AssumeRole` names the service.
pub open spec fn trusts_service(stmt: Json, service: Seq<char>) -> bool {
    &&& fold(effect_of(stmt)) == fold("Allow"@)
    &&& rp_action_matches(stmt, "sts:AssumeRole"@)
    &&& match stmt.get("Principal"@) {
        Some(p) => principal_services(p).contains(service),
        None => false,
    }
}

/// Some statement of the trust policy lets the service assume the role.
pub open spec fn service_trusted(doc: Json, service: Seq<char>) -> bool {
    exists|i: int| 0 <= i < statements_of(doc).len() && #[trigger] trusts_service(statements_of(doc)[i], service)
}

/// Some pattern of the list matches `value`.
fn any_pattern_matches(patterns: &Vec<String>, value: &str, is_action: bool) -> (r: bool)
    ensures
        r == some_pattern_matches(strings_view(patterns@), value@),
{
    let ghost ps = strings_view(patterns@);
    let mut i: usize = 0;
    while i < patterns.len()
        invariant
            i <= patterns.len(),
            ps == strings_view(patterns@),
            forall|k: int| 0 <= k < i ==> !#[trigger] pattern_matches(ps[k], value@),
        decreases patterns.len() - i,
    {
        let hit = if is_action {
            action_matches(patterns[i].as_str(), value)
        } else {
            resource_matches(patterns[i].as_str(), value)
        };
        if hit {
            proof {
                assert(pattern_matches(ps[i as int], value@));
            }
            return true;
        }
        i = i + 1;
    }
    false
}

fn action_matches_stmt(stmt: &JsonValue, action: &str) -> (r: bool)
    ensures
        r == rp_action_matches(stmt@, action@),
{
    match stmt.get("Action") {
        Some(actions) => {
            let patterns = get_string_or_list(actions);
            any_pattern_matches(&patterns, action, true)
        },
        None => match stmt.get("NotAction") {
            Some(not_actions) => {
                let patterns = get_string_or_list(not_actions);
                !any_pattern_matches(&patterns, action, true)
            },
            None => true,
        },
    }
}

fn statement_applies(stmt: &JsonValue, action: &str, resource: &str, condition_keys: &CaseInsensitiveMap) -> (r: bool)
    ensures
        r == rp_statement_applies(stmt@, action@, resource@, condition_keys@),
{
    if !action_matches_stmt(stmt, action) {
        return false;
    }
    match stmt.get("Resource") {
        Some(resources) => {
            let patterns = get_string_or_list(resources);
            if !any_pattern_matches(&patterns, resource, false) {
                return false;
            }
        },
        None => {},
    }
    match stmt.get("Condition") {
        Some(cond) => evaluate_condition_block(cond, condition_keys),
        None => true,
    }
}

fn aws_entry(p: &str, node: &Node, node_account: &str, account: &str) -> (r: Option<PrincipalMatchResult>)
    requires
        node_account@ == account_id_of(node.arn@),
    ensures
        r == aws_entry_match(p@, *node, account@),
{
    if str_eq(p, "*") {
        Some(PrincipalMatchResult::WildcardMatch)
    } else if str_eq(p, node.arn.as_str()) {
        if str_eq(node_account, account) {
            Some(PrincipalMatchResult::NodeMatch)
        } else {
            Some(PrincipalMatchResult::DiffAccountMatch)
        }
    } else if ends_with(p, ":root") && str_eq(get_account_id(p).as_str(), node_account) {
        Some(PrincipalMatchResult::RootMatch)
    } else if !contains_char(p, ':') && str_eq(p, node_account) {
        Some(PrincipalMatchResult::RootMatch)
    } else if str_eq(p, node.id_value.as_str()) {
        Some(PrincipalMatchResult::NodeMatch)
    } else {
        None
    }
}

fn aws_list(arns: &Vec<String>, node: &Node, node_account: &str, account: &str) -> (r: Option<PrincipalMatchResult>)
    requires
        node_account@ == account_id_of(node.arn@),
    ensures
        r == aws_list_match(strings_view(arns@), *node, account@),
{
    let ghost ps = strings_view(arns@);
    let mut i: usize = 0;
    proof {
        assert(ps.skip(0) =~= ps);
    }
    while i < arns.len()
        invariant
            i <= arns.len(),
            ps == strings_view(arns@),
            node_account@ == account_id_of(node.arn@),
            aws_list_match(ps, *node, account@) == aws_list_match(ps.skip(i as int), *node, account@),
        decreases arns.len() - i,
    {
        let m = aws_entry(arns[i].as_str(), node, node_account, account);
        proof {
            assert(ps.skip(i as int)[0] == ps[i as int]);
            assert(ps.skip(i as int).skip(1) =~= ps.skip(i + 1));
        }
        match m {
            Some(k) => {
                return Some(k);
            },
            None => {},
        }
        i = i + 1;
    }
    None
}

fn names_some_exec(p: &JsonValue, key: &str) -> (r: bool)
    ensures
        r == names_some(p@, key@),
{
    match p.get(key) {
        Some(x) => {
            let list = get_string_or_list(x);
            list.len() > 0
        },
        None => false,
    }
}

fn check_principal_value(principal: &JsonValue, node: &Node, resource_account_id: &str) -> (r: PrincipalMatchResult)
    ensures
        r == principal_value_match(principal@, *node, resource_account_id@),
{
    let node_account = get_account_id(node.arn.as_str());
    match principal {
        JsonValue::Str(s) => {
            if str_eq(s.as_str(), "*") {
                PrincipalMatchResult::WildcardMatch
            } else {
                PrincipalMatchResult::NoMatch
            }
        },
        JsonValue::Object(_) => {
            match principal.get("AWS") {
                Some(aws_principals) => {
                    let arns = get_string_or_list(aws_principals);
                    match aws_list(&arns, node, node_account.as_str(), resource_account_id) {
                        Some(m) => {
                            return m;
                        },
                        None => {},
                    }
                },
                None => {},
            }
            if names_some_exec(principal, "Service") {
                return PrincipalMatchResult::ServiceMatch;
            }
            if names_some_exec(principal, "Federated") {
                return PrincipalMatchResult::ServiceMatch;
            }
            PrincipalMatchResult::NoMatch
        },
        _ => PrincipalMatchResult::NoMatch,
    }
}

fn principal_matches(stmt: &JsonValue, node: &Node, resource_account_id: &str) -> (r: PrincipalMatchResult)
    ensures
        r == statement_principal(stmt@, *node, resource_account_id@),
{
    match stmt.get("NotPrincipal") {
        Some(not_principal) => {
            let m = check_principal_value(not_principal, node, resource_account_id);
            if m == PrincipalMatchResult::NoMatch {
                PrincipalMatchResult::NodeMatch
            } else {
                PrincipalMatchResult::NoMatch
            }
        },
        None => match stmt.get("Principal") {
            Some(principal) => check_principal_value(principal, node, resource_account_id),
            None => PrincipalMatchResult::NoMatch,
        },
    }
}

fn contains_kind(v: &Vec<PrincipalMatchResult>, kind: PrincipalMatchResult) -> (r: bool)
    ensures
        r == v@.contains(kind),
{
    let mut i: usize = 0;
    while i < v.len()
        invariant
            i <= v.len(),
            forall|k: int| 0 <= k < i ==> v@[k] != kind,
        decreases v.len() - i,
    {
        if v[i] == kind {
            return true;
        }
        i = i + 1;
    }
    false
}

/// The statements of a policy document, by reference.
fn statement_refs(doc: &JsonValue) -> (r: Vec<&JsonValue>)
    ensures
        r@.len() == statements_of(doc@).len(),
        forall|i: int| 0 <= i < r@.len() ==> (#[trigger] r@[i])@ == statements_of(doc@)[i],
{
    let mut out: Vec<&JsonValue> = Vec::new();
    match doc.get("Statement") {
        Some(stmts) => match stmts {
            JsonValue::Array(arr) => {
                proof {
                    lemma_array_view(*stmts, *arr);
                }
                let mut i: usize = 0;
                while i < arr.len()
                    invariant
                        i <= arr.len(),
                        statements_of(doc@) == items_view(arr@),
                        out@.len() == i,
                        forall|k: int| 0 <= k < i ==> (#[trigger] out@[k])@ == statements_of(doc@)[k],
                    decreases arr.len() - i,
                {
                    out.push(&arr[i]);
                    i = i + 1;
                }
            },
            _ => {
                out.push(stmts);
            },
        },
        None => {},
    }
    out
}

/// Evaluates a resource-based policy for `node` acting on `resource` owned
/// by `account_id`: a deny that applies to the principal wins; otherwise the
/// most specific allow decides.
pub fn resource_policy_authorization(
    node: &Node,
    account_id: &str,
    resource_policy: &JsonValue,
    action: &str,
    resource: &str,
    condition_keys: &CaseInsensitiveMap,
) -> (r: ResourcePolicyEvalResult)
    ensures
        r == resource_policy_result(resource_policy@, *node, account_id@, action@, resource@, condition_keys@),
{
    let ghost ss = statements_of(resource_policy@);
    let ghost ctx = condition_keys@;
    let statements = statement_refs(resource_policy);
    let mut allow_matches: Vec<PrincipalMatchResult> = Vec::new();
    let mut has_deny = false;
    let mut i: usize = 0;
    while i < statements.len()
        invariant
            i <= statements.len(),
            statements@.len() == ss.len(),
            ss == statements_of(resource_policy@),
            ctx == condition_keys@,
            forall|k: int| 0 <= k < statements@.len() ==> (#[trigger] statements@[k])@ == ss[k],
            allow_matches@ == allow_list(ss.take(i as int), *node, account_id@, action@, resource@, ctx),
            has_deny == exists|k: int| 0 <= k < i && #[trigger] deny_hit(ss[k], *node, account_id@, action@, resource@, ctx),
        decreases statements.len() - i,
    {
        let stmt = statements[i];
        let effect = statement_effect(stmt);
        let ghost st = ss[i as int];
        proof {
            assert(stmt@ == st);
            assert(ss.take(i + 1).drop_last() =~= ss.take(i as int));
            assert(ss.take(i + 1).last() == st);
        }
        if statement_applies(stmt, action, resource, condition_keys) {
            let principal_match = principal_matches(stmt, node, account_id);
            if principal_match != PrincipalMatchResult::NoMatch {
                if eq_ignore_ascii_case(effect.as_str(), "Deny") {
                    has_deny = true;
                    proof {
                        assert(deny_hit(ss[i as int], *node, account_id@, action@, resource@, ctx));
                    }
                } else if eq_ignore_ascii_case(effect.as_str(), "Allow") {
                    allow_matches.push(principal_match);
                }
            }
        }
        i = i + 1;
    }
    proof {
        assert(ss.take(ss.len() as int) =~= ss);
        if has_deny {
            let k = choose|k: int| 0 <= k < ss.len() && #[trigger] deny_hit(ss[k], *node, account_id@, action@, resource@, ctx);
            assert(deny_hit(ss[k], *node, account_id@, action@, resource@, ctx));
        }
    }
    if has_deny {
        return ResourcePolicyEvalResult::DenyMatch;
    }
    if allow_matches.len() == 0 {
        return ResourcePolicyEvalResult::NoMatch;
    }
    if contains_kind(&allow_matches, PrincipalMatchResult::NodeMatch) {
        return ResourcePolicyEvalResult::NodeMatch;
    }
    if contains_kind(&allow_matches, PrincipalMatchResult::DiffAccountMatch) {
        return ResourcePolicyEvalResult::DiffAccountMatch;
    }
    if contains_kind(&allow_matches, PrincipalMatchResult::RootMatch) {
        return ResourcePolicyEvalResult::RootMatch;
    }
    if contains_kind(&allow_matches, PrincipalMatchResult::ServiceMatch) {
        return ResourcePolicyEvalResult::ServiceMatch;
    }
    if contains_kind(&allow_matches, PrincipalMatchResult::WildcardMatch) {
        let node_account = get_account_id(node.arn.as_str());
        if str_eq(node_account.as_str(), account_id) {
            return ResourcePolicyEvalResult::RootMatch;
        } else {
            return ResourcePolicyEvalResult::DiffAccountMatch;
        }
    }
    ResourcePolicyEvalResult::NoMatch
}

/// The `Service` principals of a `Principal` value.
fn get_principal_services(principal: &JsonValue) -> (r: Vec<String>)
    ensures
        strings_view(r@) == principal_services(principal@),
{
    match principal {
        JsonValue::Object(_) => match principal.get("Service") {
            Some(services) => get_string_or_list(services),
            None => {
                let v: Vec<String> = Vec::new();
                proof {
                    assert(strings_view(v@) =~= Seq::<Seq<char>>::empty());
                }
                v
            },
        },
        _ => {
            let v: Vec<String> = Vec::new();
            proof {
                assert(strings_view(v@) =~= Seq::<Seq<char>>::empty());
            }
            v
        },
    }
}

/// Whether an allow statement of the trust policy lets `service_principal`
/// assume the role with `sts:AssumeRole`.
#[verifier::loop_isolation(false)]
pub fn service_can_assume_role(trust_policy: &JsonValue, service_principal: &str) -> (r: bool)
    ensures
        r == service_trusted(trust_policy@, service_principal@),
{
    let ghost ss = statements_of(trust_policy@);
    let statements = statement_refs(trust_policy);
    let mut i: usize = 0;
    while i < statements.len()
        invariant
            i <= statements.len(),
            statements@.len() == ss.len(),
            ss == statements_of(trust_policy@),
            forall|k: int| 0 <= k < statements@.len() ==> (#[trigger] statements@[k])@ == ss[k],
            forall|k: int| 0 <= k < i ==> !#[trigger] trusts_service(ss[k], service_principal@),
        decreases statements.len() - i,
    {
        let stmt = statements[i];
        proof {
            assert(stmt@ == ss[i as int]);
        }
        let effect = statement_effect(stmt);
        if eq_ignore_ascii_case(effect.as_str(), "Allow") && action_matches_stmt(stmt, "sts:AssumeRole") {
            match stmt.get("Principal") {
                Some(principal) => {
                    let services = get_principal_services(principal);
                    let ghost sv = strings_view(services@);
                    let mut j: usize = 0;
                    while j < services.len()
                        invariant
                            j <= services.len(),
                            sv == strings_view(services@),
                            forall|m: int| 0 <= m < j ==> sv[m] != service_principal@,
                        decreases services.len() - j,
                    {
                        if str_eq(services[j].as_str(), service_principal) {
                            proof {
                                assert(sv[j as int] == service_principal@);
                                assert(trusts_service(ss[i as int], service_principal@));
                            }
                            return true;
                        }
                        j = j + 1;
                    }
                },
                None => {},
            }
        }
        i = i + 1;
    }
    false
}

/// A deny statement that applies to the principal decides a resource
/// policy, whatever its allow statements say.
pub proof fn law_resource_deny_wins(doc: Json, node: Node, account: Seq<char>, action: Seq<char>, resource: Seq<char>, ctx: ContextMap)
    requires
        any_deny(statements_of(doc), node, account, action, resource, ctx),
    ensures
        resource_policy_result(doc, node, account, action, resource, ctx) == ResourcePolicyEvalResult::DenyMatch,
{
}

/// A resource policy without any allow statement that applies to the
/// principal grants nothing: its outcome is a deny or no match.
pub proof fn law_resource_no_allow_no_grant(doc: Json, node: Node, account: Seq<char>, action: Seq<char>, resource: Seq<char>, ctx: ContextMap)
    requires
        allow_list(statements_of(doc), node, account, action, resource, ctx).len() == 0,
    ensures
        resource_policy_result(doc, node, account, action, resource, ctx) == ResourcePolicyEvalResult::DenyMatch
            || resource_policy_result(doc, node, account, action, resource, ctx) == ResourcePolicyEvalResult::NoMatch,
{
}

} // verus!
