//! Which principals are administrators.
use vstd::prelude::*;
use std::sync::Arc;
use crate::json::{Json, JsonValue, lemma_array_view, items_view};
use crate::text::{fold, str_eq, eq_ignore_ascii_case};
use crate::ci_map::{CaseInsensitiveMap, ContextMap};
use crate::model::node::{Node, group_policies};
use crate::model::policy::Policy;
use crate::policy_eval::statement_match::{node_matches, statements_of, effect_of, has_matching_statement, statement_effect};
use crate::policy_eval::condition::{condition_holds, evaluate_condition_block};
use crate::edges::{node_seq, empty_keys};

verus! {

/// An `Action` or `Resource` value that is `"*"` or a list holding `"*"`.
pub open spec fn is_star_value(v: Option<Json>) -> bool {
    match v {
        Some(Json::Str(s)) => s == "*"@,
        Some(Json::Array(items)) => exists|i: int| 0 <= i < items.len() && #[trigger] items[i].as_str() == Some("*"@),
        _ => false,
    }
}

/// An allow statement for every action on every resource whose condition,
/// if any, holds in `ctx`.
pub open spec fn star_star_statement(stmt: Json, ctx: ContextMap) -> bool {
    &&& fold(effect_of(stmt)) == fold("Allow"@)
    &&& is_star_value(stmt.get("Action"@))
    &&& is_star_value(stmt.get("Resource"@))
    &&& match stmt.get("Condition"@) {
        None => true,
        Some(c) => condition_holds(c, ctx),
    }
}

/// The policy document has such a statement.
pub open spec fn doc_has_star_star(doc: Json, ctx: ContextMap) -> bool {
    exists|i: int| 0 <= i < statements_of(doc).len() && #[trigger] star_star_statement(statements_of(doc)[i], ctx)
}

/// Some policy of the principal (its own or its groups') has such a statement.
pub open spec fn node_has_star_star(node: Node, ctx: ContextMap) -> bool {
    let ps = node.attached_policies@ + group_policies(node.group_memberships@);
    exists|i: int| 0 <= i < ps.len() && #[trigger] doc_has_star_star(ps[i].policy_doc@, ctx)
}

/// A principal counts as an administrator when, with no condition keys, its
/// policies allow `iam:PutRolePolicy`, `s3:GetObject`, `ec2:RunInstances`
/// and `lambda:InvokeFunction` on every resource, or grant every action on
/// every resource in one statement.
pub open spec fn admin_spec(node: Node) -> bool {
    let ctx = Map::<Seq<char>, Seq<Seq<char>>>::empty();
    (node_matches(node, "Allow"@, "iam:PutRolePolicy"@, "*"@, ctx)
        && node_matches(node, "Allow"@, "s3:GetObject"@, "*"@, ctx)
        && node_matches(node, "Allow"@, "ec2:RunInstances"@, "*"@, ctx)
        && node_matches(node, "Allow"@, "lambda:InvokeFunction"@, "*"@, ctx))
    || node_has_star_star(node, ctx)
}

#[verifier::loop_isolation(false)]
fn is_star(v: Option<&JsonValue>) -> (r: bool)
    ensures
        r == is_star_value(match v { Some(x) => Some(x@), None => None }),
{
    match v {
        Some(JsonValue::Str(s)) => str_eq(s.as_str(), "*"),
        Some(x) => match x {
            JsonValue::Array(arr) => {
                proof {
                    lemma_array_view(*x, *arr);
                }
                let ghost items = items_view(arr@);
                let mut i: usize = 0;
                while i < arr.len()
                    invariant
                        i <= arr.len(),
                        items == items_view(arr@),
                        forall|k: int| 0 <= k < i ==> items[k].as_str() != Some("*"@),
                    decreases arr.len() - i,
                {
                    let hit = match arr[i].as_str() {
                        Some(s) => str_eq(s, "*"),
                        None => false,
                    };
                    if hit {
                        proof {
                            assert(items[i as int] == arr@[i as int]@);
                            assert(items[i as int].as_str() == Some("*"@));
                        }
                        return true;
                    }
                    i = i + 1;
                }
                false
            },
            _ => false,
        },
        None => false,
    }
}

fn statement_is_star_star(stmt: &JsonValue, ctx: &CaseInsensitiveMap) -> (r: bool)
    ensures
        r == star_star_statement(stmt@, ctx@),
{
    let effect = statement_effect(stmt);
    if !eq_ignore_ascii_case(effect.as_str(), "Allow") {
        return false;
    }
    let action_star = is_star(stmt.get("Action"));
    let resource_star = is_star(stmt.get("Resource"));
    if action_star && resource_star {
        match stmt.get("Condition") {
            None => true,
            Some(c) => evaluate_condition_block(c, ctx),
        }
    } else {
        false
    }
}

fn doc_star_star(doc: &JsonValue, ctx: &CaseInsensitiveMap) -> (r: bool)
    ensures
        r == doc_has_star_star(doc@, ctx@),
{
    let ghost sts = statements_of(doc@);
    match doc.get("Statement") {
        Some(stmts) => match stmts {
            JsonValue::Array(arr) => {
                proof {
                    lemma_array_view(*stmts, *arr);
                }
                let mut i: usize = 0;
                while i < arr.len()
                    invariant
                        i <= arr.len(),
                        sts == items_view(arr@),
                        sts == statements_of(doc@),
                        forall|k: int| 0 <= k < i ==> !#[trigger] star_star_statement(sts[k], ctx@),
                    decreases arr.len() - i,
                {
                    if statement_is_star_star(&arr[i], ctx) {
                        proof {
                            assert(star_star_statement(sts[i as int], ctx@));
                        }
                        return true;
                    }
                    i = i + 1;
                }
                false
            },
            _ => {
                let m = statement_is_star_star(stmts, ctx);
                proof {
                    assert(sts =~= seq![stmts@]);
                    if m {
                        assert(star_star_statement(sts[0], ctx@));
                    }
                }
                m
            },
        },
        None => false,
    }
}

fn has_star_star(node: &Node, ctx: &CaseInsensitiveMap) -> (r: bool)
    ensures
        r == node_has_star_star(*node, ctx@),
{
    let policies = node.all_policies();
    let ghost ps = node.attached_policies@ + group_policies(node.group_memberships@);
    let mut i: usize = 0;
    while i < policies.len()
        invariant
            i <= policies@.len(),
            policies@.map_values(|p: &Policy| *p) == ps,
            ps == node.attached_policies@ + group_policies(node.group_memberships@),
            forall|k: int| 0 <= k < i ==> !#[trigger] doc_has_star_star(ps[k].policy_doc@, ctx@),
        decreases policies@.len() - i,
    {
        let p: &Policy = policies[i];
        proof {
            assert(policies@.map_values(|q: &Policy| *q)[i as int] == *policies@[i as int]);
            assert(*p == ps[i as int]);
        }
        if doc_star_star(&p.policy_doc, ctx) {
            return true;
        }
        i = i + 1;
    }
    false
}

fn is_admin_check(node: &Node, ctx: &CaseInsensitiveMap) -> (r: bool)
    requires
        ctx@ == Map::<Seq<char>, Seq<Seq<char>>>::empty(),
    ensures
        r == admin_spec(*node),
{
    (has_matching_statement(node, "Allow", "iam:PutRolePolicy", "*", ctx)
        && has_matching_statement(node, "Allow", "s3:GetObject", "*", ctx)
        && has_matching_statement(node, "Allow", "ec2:RunInstances", "*", ctx)
        && has_matching_statement(node, "Allow", "lambda:InvokeFunction", "*", ctx))
    || has_star_star(node, ctx)
}

/// Marks the administrators: each principal found to be one is replaced by
/// a copy with the admin flag set; the others are kept as they are.
pub fn update_admin_status(nodes: Vec<Arc<Node>>) -> (r: Vec<Arc<Node>>)
    ensures
        r@.len() == nodes@.len(),
        forall|i: int| 0 <= i < nodes@.len() ==> {
            let old_node = node_seq(nodes@)[i];
            let new_node = #[trigger] node_seq(r@)[i];
            if admin_spec(old_node) {
                new_node.same_except_admin(old_node) && new_node.is_admin
            } else {
                new_node == old_node
            }
        },
{
    let ctx = empty_keys();
    let ghost ns = node_seq(nodes@);
    let total = nodes.len();
    let ghost n = total as nat;
    let mut rest = nodes;
    let mut out: Vec<Arc<Node>> = Vec::new();
    let mut i: usize = 0;
    while rest.len() > 0
        invariant
            i <= n,
            n == total,
            out@.len() == i,
            rest@.len() == n - i,
            forall|k: int| 0 <= k < rest@.len() ==> *rest@[k] == ns[k + i],
            ns.len() == n,
            ctx@ == Map::<Seq<char>, Seq<Seq<char>>>::empty(),
            forall|k: int| 0 <= k < i ==> {
                let old_node = ns[k];
                let new_node = #[trigger] node_seq(out@)[k];
                if admin_spec(old_node) {
                    new_node.same_except_admin(old_node) && new_node.is_admin
                } else {
                    new_node == old_node
                }
            },
        decreases rest@.len(),
    {
        let node = rest.remove(0);
        let ghost prev = out@;
        proof {
            assert(*node == ns[i as int]);
        }
        if is_admin_check(&node, &ctx) {
            let new_node = node.copy_with_admin(true);
            let ghost nn = new_node;
            out.push(Arc::new(new_node));
            proof {
                assert(node_seq(out@)[i as int] == nn);
            }
        } else {
            let ghost on = ns[i as int];
            out.push(node);
            proof {
                assert(node_seq(out@)[i as int] == on);
            }
        }
        proof {
            assert forall|k: int| 0 <= k < i implies node_seq(out@)[k] == node_seq(prev)[k] by {}
            assert forall|k: int| 0 <= k < i + 1 implies {
                let old_node = ns[k];
                let new_node = #[trigger] node_seq(out@)[k];
                if admin_spec(old_node) {
                    new_node.same_except_admin(old_node) && new_node.is_admin
                } else {
                    new_node == old_node
                }
            } by {
                if k < i {
                    assert(node_seq(out@)[k] == node_seq(prev)[k]);
                }
            }
        }
        i = i + 1;
    }
    out
}

/// `"*"` itself, or a list that holds `"*"`.
pub open spec fn names_everything(v: Option<Json>) -> bool {
    ||| v == Some(Json::Str("*"@))
    ||| (v matches Some(Json::Array(items)) && exists|k: int| 0 <= k < items.len() && #[trigger] items[k] == Json::Str("*"@))
}

/// An `Allow` statement (effect compared without regard to ASCII case) whose
/// `Action` and `Resource` both name everything and whose condition, if any,
/// holds with no condition keys.
pub open spec fn full_access_statement(st: Json) -> bool {
    &&& fold(effect_of(st)) == fold("Allow"@)
    &&& names_everything(st.get("Action"@))
    &&& names_everything(st.get("Resource"@))
    &&& match st.get("Condition"@) {
        None => true,
        Some(c) => condition_holds(c, Map::<Seq<char>, Seq<Seq<char>>>::empty()),
    }
}

/// Some policy of the principal, its own or one of its groups', has a
/// full-access statement.
pub open spec fn has_full_access_statement(node: Node) -> bool {
    let ps = node.attached_policies@ + group_policies(node.group_memberships@);
    exists|i: int, j: int| 0 <= i < ps.len() && 0 <= j < statements_of(ps[i].policy_doc@).len()
        && #[trigger] full_access_statement(statements_of(ps[i].policy_doc@)[j])
}

proof fn lemma_star_value(v: Option<Json>)
    ensures
        is_star_value(v) == names_everything(v),
{
    match v {
        Some(Json::Array(items)) => {
            if is_star_value(v) {
                let k = choose|k: int| 0 <= k < items.len() && #[trigger] items[k].as_str() == Some("*"@);
                assert(items[k] == Json::Str("*"@));
            }
            if names_everything(v) {
                let k = choose|k: int| 0 <= k < items.len() && #[trigger] items[k] == Json::Str("*"@);
                assert(items[k].as_str() == Some("*"@));
            }
        },
        _ => {},
    }
}

/// Who counts as an administrator, with no condition keys: a principal with
/// a full-access statement always does; one that does does hold such a
/// statement or is allowed all of `iam:PutRolePolicy`, `s3:GetObject`,
/// `ec2:RunInstances` and `lambda:InvokeFunction` on every resource; so in
/// particular a principal that may not put a role policy on every resource
/// and holds no full-access statement is not one.
pub proof fn law_admin_detection(node: Node)
    ensures
        has_full_access_statement(node) ==> admin_spec(node),
        admin_spec(node) ==> has_full_access_statement(node) || (
            node_matches(node, "Allow"@, "iam:PutRolePolicy"@, "*"@, Map::empty())
            && node_matches(node, "Allow"@, "s3:GetObject"@, "*"@, Map::empty())
            && node_matches(node, "Allow"@, "ec2:RunInstances"@, "*"@, Map::empty())
            && node_matches(node, "Allow"@, "lambda:InvokeFunction"@, "*"@, Map::empty())),
        !node_matches(node, "Allow"@, "iam:PutRolePolicy"@, "*"@, Map::empty()) && !has_full_access_statement(node)
            ==> !admin_spec(node),
{
    let ctx = Map::<Seq<char>, Seq<Seq<char>>>::empty();
    let ps = node.attached_policies@ + group_policies(node.group_memberships@);
    assert forall|st: Json| #[trigger] star_star_statement(st, ctx) == full_access_statement(st) by {
        lemma_star_value(st.get("Action"@));
        lemma_star_value(st.get("Resource"@));
    }
    if has_full_access_statement(node) {
        let (i, j) = choose|i: int, j: int| 0 <= i < ps.len() && 0 <= j < statements_of(ps[i].policy_doc@).len()
            && #[trigger] full_access_statement(statements_of(ps[i].policy_doc@)[j]);
        assert(star_star_statement(statements_of(ps[i].policy_doc@)[j], ctx));
        assert(doc_has_star_star(ps[i].policy_doc@, ctx));
    }
    if node_has_star_star(node, ctx) {
        let i = choose|i: int| 0 <= i < ps.len() && #[trigger] doc_has_star_star(ps[i].policy_doc@, ctx);
        let j = choose|j: int| 0 <= j < statements_of(ps[i].policy_doc@).len() && #[trigger] star_star_statement(statements_of(ps[i].policy_doc@)[j], ctx);
        assert(full_access_statement(statements_of(ps[i].policy_doc@)[j]));
    }
}

} // verus!
