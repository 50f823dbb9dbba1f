//! Matching policy statements against an effect, action, resource and context.
use vstd::prelude::*;
use crate::json::{Json, JsonValue, lemma_array_view, items_view};
use crate::text::{fold, eq_ignore_ascii_case, owned};
use crate::ci_map::{CaseInsensitiveMap, ContextMap, strings_view};
use crate::model::policy::Policy;
use crate::model::node::{Node, group_policies};
use crate::model::group::Group;
use crate::policy_eval::wildcard::{pattern_matches, expand_steps, expansion_limit, expand_variables, action_matches, resource_matches};
use crate::policy_eval::condition::{string_items, condition_holds, evaluate_condition_block};

verus! {

/// The statements of a policy document: its `Statement` array, or a single
/// `Statement` value, or none.
pub open spec fn statements_of(doc: Json) -> Seq<Json> {
    match doc.get("Statement"@) {
        Some(Json::Array(items)) => items,
        Some(stmt) => seq![stmt],
        None => Seq::empty(),
    }
}

/// A string, or the strings of an array; nothing otherwise.
pub open spec fn string_list(v: Json) -> Seq<Seq<char>> {
    match v {
        Json::Str(s) => seq![s],
        Json::Array(items) => string_items(items),
        _ => Seq::empty(),
    }
}

/// The `Effect` of a statement, empty when it has none.
pub open spec fn effect_of(stmt: Json) -> Seq<char> {
    match stmt.get("Effect"@) {
        Some(e) => match e.as_str() {
            Some(s) => s,
            None => Seq::empty(),
        },
        None => Seq::empty(),
    }
}

/// Some pattern matches `value`.
pub open spec fn some_pattern_matches(patterns: Seq<Seq<char>>, value: Seq<char>) -> bool {
    exists|i: int| 0 <= i < patterns.len() && #[trigger] pattern_matches(patterns[i], value)
}

/// Some pattern, after variable expansion, matches `value`.
pub open spec fn some_expanded_matches(patterns: Seq<Seq<char>>, value: Seq<char>, ctx: ContextMap) -> bool {
    exists|i: int| 0 <= i < patterns.len() && #[trigger] pattern_matches(expand_steps(patterns[i], ctx, expansion_limit()), value)
}

/// `Action` lists a matching pattern, or `NotAction` lists none; a statement
/// with neither matches no action.
pub open spec fn statement_action_matches(stmt: Json, action: Seq<char>) -> bool {
    match stmt.get("Action"@) {
        Some(a) => some_pattern_matches(string_list(a), action),
        None => match stmt.get("NotAction"@) {
            Some(na) => !some_pattern_matches(string_list(na), action),
            None => false,
        },
    }
}

/// `Resource` lists a matching pattern, or `NotResource` lists none;
/// variables are expanded from the context. A statement with neither
/// matches every resource.
pub open spec fn statement_resource_matches(stmt: Json, resource: Seq<char>, ctx: ContextMap) -> bool {
    match stmt.get("Resource"@) {
        Some(r) => some_expanded_matches(string_list(r), resource, ctx),
        None => match stmt.get("NotResource"@) {
            Some(nr) => !some_expanded_matches(string_list(nr), resource, ctx),
            None => true,
        },
    }
}

/// A statement matches when its effect equals `effect` (ASCII case ignored)
/// and its action, resource and condition all match.
pub open spec fn statement_matches_spec(stmt: Json, effect: Seq<char>, action: Seq<char>, resource: Seq<char>, ctx: ContextMap) -> bool {
    &&& fold(effect_of(stmt)) == fold(effect)
    &&& statement_action_matches(stmt, action)
    &&& statement_resource_matches(stmt, resource, ctx)
    &&& match stmt.get("Condition"@) {
        Some(c) => condition_holds(c, ctx),
        None => true,
    }
}

/// Some statement of the policy document matches.
pub open spec fn policy_matches(doc: Json, effect: Seq<char>, action: Seq<char>, resource: Seq<char>, ctx: ContextMap) -> bool {
    exists|i: int| 0 <= i < statements_of(doc).len() && #[trigger] statement_matches_spec(statements_of(doc)[i], effect, action, resource, ctx)
}

/// Some policy in the list matches.
pub open spec fn some_policy_matches(ps: Seq<Policy>, effect: Seq<char>, action: Seq<char>, resource: Seq<char>, ctx: ContextMap) -> bool {
    exists|i: int| 0 <= i < ps.len() && #[trigger] policy_matches(ps[i].policy_doc@, effect, action, resource, ctx)
}

/// Some policy of the principal, its own or one of its groups', matches.
pub open spec fn node_matches(node: Node, effect: Seq<char>, action: Seq<char>, resource: Seq<char>, ctx: ContextMap) -> bool {
    ||| some_policy_matches(node.attached_policies@, effect, action, resource, ctx)
    ||| exists|g: int| 0 <= g < node.group_memberships@.len()
        && #[trigger] some_policy_matches(node.group_memberships@[g].attached_policies@, effect, action, resource, ctx)
}

/// The strings of a JSON string or array.
pub fn get_string_or_list(value: &JsonValue) -> (r: Vec<String>)
    ensures
        strings_view(r@) == string_list(value@),
{
    match value {
        JsonValue::Str(s) => {
            let mut out: Vec<String> = Vec::new();
            out.push(s.clone());
            proof {
                assert(strings_view(out@) =~= seq![s@]);
            }
            out
        },
        JsonValue::Array(items) => {
            proof {
                lemma_array_view(*value, *items);
            }
            let ghost iv = items_view(items@);
            let mut out: Vec<String> = Vec::new();
            let mut i: usize = 0;
            proof {
                assert(iv.take(0) =~= Seq::<Json>::empty());
                assert(strings_view(out@) =~= Seq::<Seq<char>>::empty());
            }
            while i < items.len()
                invariant
                    i <= items.len(),
                    iv == items_view(items@),
                    strings_view(out@) == string_items(iv.take(i as int)),
                decreases items.len() - i,
            {
                proof {
                    assert(iv.take(i + 1).drop_last() =~= iv.take(i as int));
                    assert(iv.take(i + 1).last() == items@[i as int]@);
                }
                match items[i].as_str() {
                    Some(s) => {
                        let ghost before = out@;
                        out.push(owned(s));
                        proof {
                            assert(strings_view(out@) =~= strings_view(before).push(s@));
                        }
                    },
                    None => {},
                }
                i = i + 1;
            }
            proof {
                assert(iv.take(items.len() as int) =~= iv);
            }
            out
        },
        _ => {
            let out: Vec<String> = Vec::new();
            proof {
                assert(strings_view(out@) =~= Seq::<Seq<char>>::empty());
            }
            out
        },
    }
}

fn any_matches(patterns: &Vec<String>, value: &str) -> (r: bool)
    ensures
        r == some_pattern_matches(strings_view(patterns@), value@),
{
    let ghost ps = strings_view(patterns@);
    let mut i: usize = 0;
    while i < patterns.len()
        invariant
            i <= patterns.len(),
            ps == strings_view(patterns@),
            forall|k: int| 0 <= k < i ==> !#[trigger] pattern_matches(ps[k], value@),
        decreases patterns.len() - i,
    {
        if action_matches(patterns[i].as_str(), value) {
            proof {
                assert(pattern_matches(ps[i as int], value@));
            }
            return true;
        }
        i = i + 1;
    }
    false
}

fn any_expanded_matches(patterns: &Vec<String>, value: &str, ctx: &CaseInsensitiveMap) -> (r: bool)
    ensures
        r == some_expanded_matches(strings_view(patterns@), value@, ctx@),
{
    let ghost ps = strings_view(patterns@);
    let mut i: usize = 0;
    while i < patterns.len()
        invariant
            i <= patterns.len(),
            ps == strings_view(patterns@),
            forall|k: int| 0 <= k < i ==> !#[trigger] pattern_matches(expand_steps(ps[k], ctx@, expansion_limit()), value@),
        decreases patterns.len() - i,
    {
        let expanded = expand_variables(patterns[i].as_str(), ctx);
        if resource_matches(expanded.as_str(), value) {
            proof {
                assert(pattern_matches(expand_steps(ps[i as int], ctx@, expansion_limit()), value@));
            }
            return true;
        }
        i = i + 1;
    }
    false
}

/// Whether the statement's `Action` / `NotAction` matches the action.
pub fn stmt_action_matches(stmt: &JsonValue, action: &str) -> (r: bool)
    ensures
        r == statement_action_matches(stmt@, action@),
{
    match stmt.get("Action") {
        Some(actions) => {
            let patterns = get_string_or_list(actions);
            any_matches(&patterns, action)
        },
        None => match stmt.get("NotAction") {
            Some(not_actions) => {
                let patterns = get_string_or_list(not_actions);
                !any_matches(&patterns, action)
            },
            None => false,
        },
    }
}

/// Whether the statement's `Resource` / `NotResource` matches the resource.
pub fn stmt_resource_matches(stmt: &JsonValue, resource: &str, condition_keys: &CaseInsensitiveMap) -> (r: bool)
    ensures
        r == statement_resource_matches(stmt@, resource@, condition_keys@),
{
    match stmt.get("Resource") {
        Some(resources) => {
            let patterns = get_string_or_list(resources);
            any_expanded_matches(&patterns, resource, condition_keys)
        },
        None => match stmt.get("NotResource") {
            Some(not_resources) => {
                let patterns = get_string_or_list(not_resources);
                !any_expanded_matches(&patterns, resource, condition_keys)
            },
            None => true,
        },
    }
}

/// The `Effect` text of a statement, or empty.
pub fn statement_effect(stmt: &JsonValue) -> (r: String)
    ensures
        r@ == effect_of(stmt@),
{
    match stmt.get("Effect") {
        Some(e) => match e.as_str() {
            Some(s) => owned(s),
            None => String::new(),
        },
        None => String::new(),
    }
}

/// Whether a single statement matches the effect, action, resource and conditions.
pub fn statement_matches(stmt: &JsonValue, effect: &str, action: &str, resource: &str, condition_keys: &CaseInsensitiveMap) -> (r: bool)
    ensures
        r == statement_matches_spec(stmt@, effect@, action@, resource@, condition_keys@),
{
    let stmt_effect = statement_effect(stmt);
    if !eq_ignore_ascii_case(stmt_effect.as_str(), effect) {
        return false;
    }
    if !stmt_action_matches(stmt, action) {
        return false;
    }
    if !stmt_resource_matches(stmt, resource, condition_keys) {
        return false;
    }
    match stmt.get("Condition") {
        Some(cond) => evaluate_condition_block(cond, condition_keys),
        None => true,
    }
}

/// Whether a single policy document contains a matching statement.
pub fn policy_has_matching_statement(policy: &Policy, effect: &str, action: &str, resource: &str, condition_keys: &CaseInsensitiveMap) -> (r: bool)
    ensures
        r == policy_matches(policy.policy_doc@, effect@, action@, resource@, condition_keys@),
{
    let doc = &policy.policy_doc;
    let ghost sts = statements_of(doc@);
    match doc.get("Statement") {
        Some(stmts) => match stmts {
            JsonValue::Array(arr) => {
                proof {
                    lemma_array_view(*stmts, *arr);
                }
                let mut i: usize = 0;
                while i < arr.len()
                    invariant
                        i <= arr.len(),
                        sts == items_view(arr@),
                        sts == statements_of(policy.policy_doc@),
                        forall|k: int| 0 <= k < i ==> !#[trigger] statement_matches_spec(sts[k], effect@, action@, resource@, condition_keys@),
                    decreases arr.len() - i,
                {
                    if statement_matches(&arr[i], effect, action, resource, condition_keys) {
                        proof {
                            assert(statement_matches_spec(sts[i as int], effect@, action@, resource@, condition_keys@));
                        }
                        return true;
                    }
                    i = i + 1;
                }
                false
            },
            _ => {
                let m = statement_matches(stmts, effect, action, resource, condition_keys);
                proof {
                    assert(sts =~= seq![stmts@]);
                    if m {
                        assert(statement_matches_spec(sts[0], effect@, action@, resource@, condition_keys@));
                    }
                }
                m
            },
        },
        None => false,
    }
}

fn some_policy_has_matching(ps: &Vec<Policy>, effect: &str, action: &str, resource: &str, condition_keys: &CaseInsensitiveMap) -> (r: bool)
    ensures
        r == some_policy_matches(ps@, effect@, action@, resource@, condition_keys@),
{
    let mut i: usize = 0;
    while i < ps.len()
        invariant
            i <= ps.len(),
            forall|k: int| 0 <= k < i ==> !#[trigger] policy_matches(ps@[k].policy_doc@, effect@, action@, resource@, condition_keys@),
        decreases ps.len() - i,
    {
        if policy_has_matching_statement(&ps[i], effect, action, resource, condition_keys) {
            return true;
        }
        i = i + 1;
    }
    false
}

/// Whether any policy of the principal, including its groups' policies, has
/// a matching statement.
pub fn has_matching_statement(node: &Node, effect: &str, action: &str, resource: &str, condition_keys: &CaseInsensitiveMap) -> (r: bool)
    ensures
        r == node_matches(*node, effect@, action@, resource@, condition_keys@),
{
    if some_policy_has_matching(&node.attached_policies, effect, action, resource, condition_keys) {
        return true;
    }
    let mut g: usize = 0;
    while g < node.group_memberships.len()
        invariant
            g <= node.group_memberships.len(),
            !some_policy_matches(node.attached_policies@, effect@, action@, resource@, condition_keys@),
            forall|k: int| 0 <= k < g ==> !#[trigger] some_policy_matches(node.group_memberships@[k].attached_policies@, effect@, action@, resource@, condition_keys@),
        decreases node.group_memberships.len() - g,
    {
        if some_policy_has_matching(&node.group_memberships[g].attached_policies, effect, action, resource, condition_keys) {
            return true;
        }
        g = g + 1;
    }
    false
}

proof fn lemma_some_policy_concat(a: Seq<Policy>, b: Seq<Policy>, effect: Seq<char>, action: Seq<char>, resource: Seq<char>, ctx: ContextMap)
    ensures
        some_policy_matches(a + b, effect, action, resource, ctx)
            == (some_policy_matches(a, effect, action, resource, ctx) || some_policy_matches(b, effect, action, resource, ctx)),
{
    let ab = a + b;
    if some_policy_matches(a, effect, action, resource, ctx) {
        let i = choose|i: int| 0 <= i < a.len() && #[trigger] policy_matches(a[i].policy_doc@, effect, action, resource, ctx);
        assert(ab[i] == a[i]);
    }
    if some_policy_matches(b, effect, action, resource, ctx) {
        let i = choose|i: int| 0 <= i < b.len() && #[trigger] policy_matches(b[i].policy_doc@, effect, action, resource, ctx);
        assert(ab[a.len() + i] == b[i]);
    }
    if some_policy_matches(ab, effect, action, resource, ctx) {
        let i = choose|i: int| 0 <= i < ab.len() && #[trigger] policy_matches(ab[i].policy_doc@, effect, action, resource, ctx);
        if i < a.len() {
            assert(ab[i] == a[i]);
        } else {
            assert(ab[i] == b[i - a.len()]);
        }
    }
}

proof fn lemma_group_policies_match(gs: Seq<Group>, effect: Seq<char>, action: Seq<char>, resource: Seq<char>, ctx: ContextMap)
    ensures
        some_policy_matches(group_policies(gs), effect, action, resource, ctx)
            == exists|g: int| 0 <= g < gs.len() && #[trigger] some_policy_matches(gs[g].attached_policies@, effect, action, resource, ctx),
    decreases gs.len(),
{
    if gs.len() > 0 {
        let init = gs.drop_last();
        lemma_group_policies_match(init, effect, action, resource, ctx);
        lemma_some_policy_concat(group_policies(init), gs.last().attached_policies@, effect, action, resource, ctx);
        if exists|g: int| 0 <= g < gs.len() && #[trigger] some_policy_matches(gs[g].attached_policies@, effect, action, resource, ctx) {
            let g = choose|g: int| 0 <= g < gs.len() && #[trigger] some_policy_matches(gs[g].attached_policies@, effect, action, resource, ctx);
            if g < init.len() {
                assert(init[g] == gs[g]);
            }
        }
        if exists|g: int| 0 <= g < init.len() && #[trigger] some_policy_matches(init[g].attached_policies@, effect, action, resource, ctx) {
            let g = choose|g: int| 0 <= g < init.len() && #[trigger] some_policy_matches(init[g].attached_policies@, effect, action, resource, ctx);
            assert(init[g] == gs[g]);
        }
    }
}

/// A principal has a matching statement exactly when one of the policies
/// that `all_policies` lists (its own, then its groups') has one.
pub proof fn law_node_matches_all_policies(node: Node, effect: Seq<char>, action: Seq<char>, resource: Seq<char>, ctx: ContextMap)
    ensures
        node_matches(node, effect, action, resource, ctx)
            == some_policy_matches(node.attached_policies@ + group_policies(node.group_memberships@), effect, action, resource, ctx),
{
    lemma_some_policy_concat(node.attached_policies@, group_policies(node.group_memberships@), effect, action, resource, ctx);
    lemma_group_policies_match(node.group_memberships@, effect, action, resource, ctx);
}

/// Some pattern of the list, after its variables are expanded from `ctx`,
/// matches `resource`.
pub open spec fn listed_resource(v: Json, resource: Seq<char>, ctx: ContextMap) -> bool {
    exists|i: int| 0 <= i < string_list(v).len()
        && #[trigger] pattern_matches(expand_steps(string_list(v)[i], ctx, expansion_limit()), resource)
}

/// How a statement's resource fields decide a resource: under `Resource` the
/// resource matches exactly when one of the listed patterns (expanded) matches
/// it; under `NotResource` alone exactly when none does, the opposite of what
/// the same list gives under `Resource`; with neither, every resource matches.
pub proof fn law_resource_and_not_resource(stmt: Json, v: Json, resource: Seq<char>, ctx: ContextMap)
    ensures
        stmt.get("Resource"@) == Some(v) ==> (statement_resource_matches(stmt, resource, ctx) <==> listed_resource(v, resource, ctx)),
        stmt.get("Resource"@) is None && stmt.get("NotResource"@) == Some(v)
            ==> (statement_resource_matches(stmt, resource, ctx) <==> !listed_resource(v, resource, ctx)),
        stmt.get("Resource"@) is None && stmt.get("NotResource"@) == Some(v)
            ==> statement_resource_matches(stmt, resource, ctx)
                == !statement_resource_matches(Json::Object(seq!["Resource"@], seq![v]), resource, ctx),
        stmt.get("Resource"@) is None && stmt.get("NotResource"@) is None ==> statement_resource_matches(stmt, resource, ctx),
{
    let swapped = Json::Object(seq!["Resource"@], seq![v]);
    assert(swapped.get("Resource"@) == Some(v)) by {
        crate::text::lemma_first_key(seq!["Resource"@], "Resource"@, 0);
    }
}

/// Some pattern of the list matches `action`.
pub open spec fn listed_action(v: Json, action: Seq<char>) -> bool {
    exists|i: int| 0 <= i < string_list(v).len() && #[trigger] pattern_matches(string_list(v)[i], action)
}

/// How a statement's action fields decide an action: under `Action` the
/// action matches exactly when one of the listed patterns matches it; under
/// `NotAction` alone exactly when none does, the opposite of what the same
/// list gives under `Action`; with neither, no action matches.
pub proof fn law_action_and_not_action(stmt: Json, v: Json, action: Seq<char>)
    ensures
        stmt.get("Action"@) == Some(v) ==> (statement_action_matches(stmt, action) <==> listed_action(v, action)),
        stmt.get("Action"@) is None && stmt.get("NotAction"@) == Some(v)
            ==> (statement_action_matches(stmt, action) <==> !listed_action(v, action)),
        stmt.get("Action"@) is None && stmt.get("NotAction"@) == Some(v)
            ==> statement_action_matches(stmt, action) == !statement_action_matches(Json::Object(seq!["Action"@], seq![v]), action),
        stmt.get("Action"@) is None && stmt.get("NotAction"@) is None ==> !statement_action_matches(stmt, action),
{
    let swapped = Json::Object(seq!["Action"@], seq![v]);
    assert(swapped.get("Action"@) == Some(v)) by {
        crate::text::lemma_first_key(seq!["Action"@], "Action"@, 0);
    }
}

} // verus!
