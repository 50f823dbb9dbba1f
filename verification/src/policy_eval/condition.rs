//! Evaluation of the `Condition` block of an IAM policy statement.
pub mod pairs;
pub mod string_ops;
pub mod arn_ops;
pub mod binary_ops;
pub mod bool_ops;
pub mod null_ops;
pub mod numeric_ops;
pub mod date_ops;
pub mod ip_ops;
pub mod block_laws;
pub mod operator_laws;

use vstd::prelude::*;
use crate::text::{str_eq, starts_with, ends_with, chars_of, string_of_range, is_prefix, is_suffix, owned};
use crate::json::{Json, JsonValue, lemma_array_view, lemma_object_view, items_view, keys_view, values_view};
use crate::ci_map::{CaseInsensitiveMap, ContextMap, ctx_get, strings_view};
use crate::policy_eval::condition::pairs::{PairTest, some_pair};
use crate::policy_eval::condition::string_ops::StringOp;
use crate::policy_eval::condition::arn_ops::ArnOp;
use crate::policy_eval::condition::numeric_ops::NumericOp;
use crate::policy_eval::condition::date_ops::DateOp;

verus! {

/// How a condition operator ranges over multi-valued context keys.
#[derive(Debug, Clone, Copy)]
pub enum Quantifier {
    /// No set operator: some context value must match some policy value.
    Plain,
    /// `ForAnyValue:` — some context value satisfies the operator.
    ForAnyValue,
    /// `ForAllValues:` — every context value satisfies the operator.
    ForAllValues,
}

pub open spec fn quantifier_of(op: Seq<char>) -> Quantifier {
    if is_prefix("ForAnyValue:"@, op) {
        Quantifier::ForAnyValue
    } else if is_prefix("ForAllValues:"@, op) {
        Quantifier::ForAllValues
    } else {
        Quantifier::Plain
    }
}

/// The operator without its set-operator prefix.
pub open spec fn base_operator(op: Seq<char>) -> Seq<char> {
    if is_prefix("ForAnyValue:"@, op) {
        op.skip("ForAnyValue:"@.len() as int)
    } else if is_prefix("ForAllValues:"@, op) {
        op.skip("ForAllValues:"@.len() as int)
    } else {
        op
    }
}

/// The operator without its `IfExists` suffix, and whether it had one.
pub open spec fn if_exists_of(op: Seq<char>) -> (Seq<char>, bool) {
    if is_suffix("IfExists"@, op) {
        (op.take(op.len() - "IfExists"@.len()), true)
    } else {
        (op, false)
    }
}

/// Splits a set-operator prefix off a condition operator.
pub fn parse_quantifier(operator: &str) -> (r: (Quantifier, String))
    ensures
        r.0 == quantifier_of(operator@),
        r.1@ == base_operator(operator@),
{
    let cs = chars_of(operator);
    let any = "ForAnyValue:";
    let all = "ForAllValues:";
    proof {
        reveal_strlit("ForAnyValue:");
        reveal_strlit("ForAllValues:");
    }
    if starts_with(operator, any) {
        (Quantifier::ForAnyValue, string_of_range(&cs, 12, cs.len()))
    } else if starts_with(operator, all) {
        (Quantifier::ForAllValues, string_of_range(&cs, 13, cs.len()))
    } else {
        (Quantifier::Plain, owned(operator))
    }
}

/// Splits an `IfExists` suffix off a condition operator.
pub fn parse_if_exists(operator: &str) -> (r: (String, bool))
    ensures
        r.0@ == if_exists_of(operator@).0,
        r.1 == if_exists_of(operator@).1,
{
    let cs = chars_of(operator);
    let suffix = "IfExists";
    proof {
        reveal_strlit("IfExists");
    }
    if ends_with(operator, suffix) {
        (string_of_range(&cs, 0, cs.len() - 8), true)
    } else {
        (owned(operator), false)
    }
}

/// The strings among the items of an array.
pub open spec fn string_items(items: Seq<Json>) -> Seq<Seq<char>>
    decreases items.len(),
{
    if items.len() == 0 {
        Seq::empty()
    } else {
        let rest = string_items(items.drop_last());
        match items.last() {
            Json::Str(s) => rest.push(s),
            _ => rest,
        }
    }
}

/// The policy values a condition value lists: the strings of an array, or a
/// single string, boolean or number as text.
pub open spec fn string_values(v: Json) -> Seq<Seq<char>> {
    match v {
        Json::Array(items) => string_items(items),
        Json::Str(s) => seq![s],
        Json::Bool(b) => seq![if b { "true"@ } else { "false"@ }],
        Json::Number(n) => seq![n],
        _ => Seq::empty(),
    }
}

pub fn get_string_values(value: &JsonValue) -> (r: Vec<String>)
    ensures
        strings_view(r@) == string_values(value@),
{
    match value {
        JsonValue::Array(items) => {
            proof {
                lemma_array_view(*value, *items);
            }
            let ghost iv = items_view(items@);
            let mut out: Vec<String> = Vec::new();
            let mut i: usize = 0;
            proof {
                assert(iv.take(0) =~= Seq::<Json>::empty());
                assert(strings_view(out@) =~= Seq::<Seq<char>>::empty());
            }
            while i < items.len()
                invariant
                    i <= items.len(),
                    iv == items_view(items@),
                    strings_view(out@) == string_items(iv.take(i as int)),
                decreases items.len() - i,
            {
                proof {
                    assert(iv.take(i + 1).drop_last() =~= iv.take(i as int));
                    assert(iv.take(i + 1).last() == items@[i as int]@);
                }
                match items[i].as_str() {
                    Some(s) => {
                        let ghost before = out@;
                        out.push(owned(s));
                        proof {
                            assert(strings_view(out@) =~= strings_view(before).push(s@));
                        }
                    },
                    None => {},
                }
                i = i + 1;
            }
            proof {
                assert(iv.take(items.len() as int) =~= iv);
            }
            out
        },
        JsonValue::Str(s) => {
            let mut out: Vec<String> = Vec::new();
            out.push(s.clone());
            proof {
                assert(strings_view(out@) =~= seq![s@]);
            }
            out
        },
        JsonValue::Bool(b) => {
            let mut out: Vec<String> = Vec::new();
            let t = if *b { owned("true") } else { owned("false") };
            out.push(t);
            proof {
                assert(strings_view(out@) =~= seq![t@]);
            }
            out
        },
        JsonValue::Number(n) => {
            let mut out: Vec<String> = Vec::new();
            out.push(n.clone());
            proof {
                assert(strings_view(out@) =~= seq![n@]);
            }
            out
        },
        _ => {
            let out: Vec<String> = Vec::new();
            proof {
                assert(strings_view(out@) =~= Seq::<Seq<char>>::empty());
            }
            out
        },
    }
}

/// Whether one operator holds for one set of context values, by operator name;
/// an unknown operator never holds.
pub open spec fn single_holds(op: Seq<char>, cvs: Seq<Seq<char>>, pvs: Seq<Seq<char>>) -> bool {
    if op == "StringEquals"@ {
        string_ops::string_op_holds(cvs, pvs, StringOp::Equals)
    } else if op == "StringNotEquals"@ {
        string_ops::string_op_holds(cvs, pvs, StringOp::NotEquals)
    } else if op == "StringEqualsIgnoreCase"@ {
        string_ops::string_op_holds(cvs, pvs, StringOp::EqualsIgnoreCase)
    } else if op == "StringNotEqualsIgnoreCase"@ {
        string_ops::string_op_holds(cvs, pvs, StringOp::NotEqualsIgnoreCase)
    } else if op == "StringLike"@ {
        string_ops::string_op_holds(cvs, pvs, StringOp::Like)
    } else if op == "StringNotLike"@ {
        string_ops::string_op_holds(cvs, pvs, StringOp::NotLike)
    } else if op == "NumericEquals"@ {
        numeric_ops::numeric_holds(cvs, pvs, NumericOp::Equals)
    } else if op == "NumericNotEquals"@ {
        numeric_ops::numeric_holds(cvs, pvs, NumericOp::NotEquals)
    } else if op == "NumericLessThan"@ {
        numeric_ops::numeric_holds(cvs, pvs, NumericOp::LessThan)
    } else if op == "NumericLessThanEquals"@ {
        numeric_ops::numeric_holds(cvs, pvs, NumericOp::LessThanEquals)
    } else if op == "NumericGreaterThan"@ {
        numeric_ops::numeric_holds(cvs, pvs, NumericOp::GreaterThan)
    } else if op == "NumericGreaterThanEquals"@ {
        numeric_ops::numeric_holds(cvs, pvs, NumericOp::GreaterThanEquals)
    } else if op == "DateEquals"@ {
        date_ops::date_holds(cvs, pvs, DateOp::Equals)
    } else if op == "DateNotEquals"@ {
        date_ops::date_holds(cvs, pvs, DateOp::NotEquals)
    } else if op == "DateLessThan"@ {
        date_ops::date_holds(cvs, pvs, DateOp::LessThan)
    } else if op == "DateLessThanEquals"@ {
        date_ops::date_holds(cvs, pvs, DateOp::LessThanEquals)
    } else if op == "DateGreaterThan"@ {
        date_ops::date_holds(cvs, pvs, DateOp::GreaterThan)
    } else if op == "DateGreaterThanEquals"@ {
        date_ops::date_holds(cvs, pvs, DateOp::GreaterThanEquals)
    } else if op == "Bool"@ {
        some_pair(PairTest::SameFlag, cvs, pvs)
    } else if op == "BinaryEquals"@ {
        some_pair(PairTest::Exact, cvs, pvs)
    } else if op == "IpAddress"@ {
        ip_ops::ip_holds(cvs, pvs, false)
    } else if op == "NotIpAddress"@ {
        ip_ops::ip_holds(cvs, pvs, true)
    } else if op == "ArnEquals"@ {
        arn_ops::arn_op_holds(cvs, pvs, ArnOp::Equals)
    } else if op == "ArnNotEquals"@ {
        arn_ops::arn_op_holds(cvs, pvs, ArnOp::NotEquals)
    } else if op == "ArnLike"@ {
        arn_ops::arn_op_holds(cvs, pvs, ArnOp::Like)
    } else if op == "ArnNotLike"@ {
        arn_ops::arn_op_holds(cvs, pvs, ArnOp::NotLike)
    } else if op == "Null"@ {
        null_ops::null_holds(Some(cvs), pvs)
    } else {
        false
    }
}

/// Evaluates one operator for one set of context values.
pub fn evaluate_single(operator: &str, context_values: &[String], policy_values: &[String]) -> (r: bool)
    ensures
        r == single_holds(operator@, strings_view(context_values@), strings_view(policy_values@)),
{
    if str_eq(operator, "StringEquals") {
        string_ops::evaluate(context_values, policy_values, StringOp::Equals)
    } else if str_eq(operator, "StringNotEquals") {
        string_ops::evaluate(context_values, policy_values, StringOp::NotEquals)
    } else if str_eq(operator, "StringEqualsIgnoreCase") {
        string_ops::evaluate(context_values, policy_values, StringOp::EqualsIgnoreCase)
    } else if str_eq(operator, "StringNotEqualsIgnoreCase") {
        string_ops::evaluate(context_values, policy_values, StringOp::NotEqualsIgnoreCase)
    } else if str_eq(operator, "StringLike") {
        string_ops::evaluate(context_values, policy_values, StringOp::Like)
    } else if str_eq(operator, "StringNotLike") {
        string_ops::evaluate(context_values, policy_values, StringOp::NotLike)
    } else if str_eq(operator, "NumericEquals") {
        numeric_ops::evaluate(context_values, policy_values, NumericOp::Equals)
    } else if str_eq(operator, "NumericNotEquals") {
        numeric_ops::evaluate(context_values, policy_values, NumericOp::NotEquals)
    } else if str_eq(operator, "NumericLessThan") {
        numeric_ops::evaluate(context_values, policy_values, NumericOp::LessThan)
    } else if str_eq(operator, "NumericLessThanEquals") {
        numeric_ops::evaluate(context_values, policy_values, NumericOp::LessThanEquals)
    } else if str_eq(operator, "NumericGreaterThan") {
        numeric_ops::evaluate(context_values, policy_values, NumericOp::GreaterThan)
    } else if str_eq(operator, "NumericGreaterThanEquals") {
        numeric_ops::evaluate(context_values, policy_values, NumericOp::GreaterThanEquals)
    } else if str_eq(operator, "DateEquals") {
        date_ops::evaluate(context_values, policy_values, DateOp::Equals)
    } else if str_eq(operator, "DateNotEquals") {
        date_ops::evaluate(context_values, policy_values, DateOp::NotEquals)
    } else if str_eq(operator, "DateLessThan") {
        date_ops::evaluate(context_values, policy_values, DateOp::LessThan)
    } else if str_eq(operator, "DateLessThanEquals") {
        date_ops::evaluate(context_values, policy_values, DateOp::LessThanEquals)
    } else if str_eq(operator, "DateGreaterThan") {
        date_ops::evaluate(context_values, policy_values, DateOp::GreaterThan)
    } else if str_eq(operator, "DateGreaterThanEquals") {
        date_ops::evaluate(context_values, policy_values, DateOp::GreaterThanEquals)
    } else if str_eq(operator, "Bool") {
        bool_ops::evaluate(context_values, policy_values)
    } else if str_eq(operator, "BinaryEquals") {
        binary_ops::evaluate(context_values, policy_values)
    } else if str_eq(operator, "IpAddress") {
        ip_ops::evaluate(context_values, policy_values, false)
    } else if str_eq(operator, "NotIpAddress") {
        ip_ops::evaluate(context_values, policy_values, true)
    } else if str_eq(operator, "ArnEquals") {
        arn_ops::evaluate(context_values, policy_values, ArnOp::Equals)
    } else if str_eq(operator, "ArnNotEquals") {
        arn_ops::evaluate(context_values, policy_values, ArnOp::NotEquals)
    } else if str_eq(operator, "ArnLike") {
        arn_ops::evaluate(context_values, policy_values, ArnOp::Like)
    } else if str_eq(operator, "ArnNotLike") {
        arn_ops::evaluate(context_values, policy_values, ArnOp::NotLike)
    } else if str_eq(operator, "Null") {
        null_ops::evaluate_null(Some(context_values), policy_values)
    } else {
        false
    }
}

/// Some context value, taken alone, satisfies the operator.
pub open spec fn any_value_holds(core: Seq<char>, cvs: Seq<Seq<char>>, pvs: Seq<Seq<char>>) -> bool {
    exists|i: int| 0 <= i < cvs.len() && #[trigger] single_holds(core, seq![cvs[i]], pvs)
}

/// Every context value, taken alone, satisfies the operator.
pub open spec fn all_values_hold(core: Seq<char>, cvs: Seq<Seq<char>>, pvs: Seq<Seq<char>>) -> bool {
    forall|i: int| 0 <= i < cvs.len() ==> #[trigger] single_holds(core, seq![cvs[i]], pvs)
}

/// Whether the condition on one key holds. A missing key satisfies an
/// `IfExists` operator, is judged by `Null`, satisfies `ForAllValues:`
/// vacuously, and otherwise fails the condition.
pub open spec fn key_holds(q: Quantifier, core: Seq<char>, if_exists: bool, key: Seq<char>, vals: Json, ctx: ContextMap) -> bool {
    let pvs = string_values(vals);
    match ctx_get(ctx, key) {
        None => if if_exists {
            true
        } else if core == "Null"@ {
            null_ops::null_holds(None, pvs)
        } else {
            q is ForAllValues
        },
        Some(cvs) => match q {
            Quantifier::Plain => single_holds(core, cvs, pvs),
            Quantifier::ForAnyValue => any_value_holds(core, cvs, pvs),
            Quantifier::ForAllValues => all_values_hold(core, cvs, pvs),
        },
    }
}

/// Every key of an operator satisfies its condition.
pub open spec fn all_keys_hold(q: Quantifier, core: Seq<char>, ie: bool, keys: Seq<Seq<char>>, vals: Seq<Json>, ctx: ContextMap) -> bool {
    forall|i: int| 0 <= i < keys.len() ==> #[trigger] key_holds(q, core, ie, keys[i], vals[i], ctx)
}

/// Whether one operator of a condition block holds: every key under it must.
pub open spec fn operator_holds(op: Seq<char>, kv: Json, ctx: ContextMap) -> bool {
    let q = quantifier_of(op);
    let core = if_exists_of(base_operator(op)).0;
    let ie = if_exists_of(base_operator(op)).1;
    match kv {
        Json::Object(keys, vals) => all_keys_hold(q, core, ie, keys, vals, ctx),
        _ => false,
    }
}

/// Every operator of a condition block holds.
pub open spec fn all_operators_hold(ops: Seq<Seq<char>>, kvs: Seq<Json>, ctx: ContextMap) -> bool {
    forall|i: int| 0 <= i < ops.len() ==> #[trigger] operator_holds(ops[i], kvs[i], ctx)
}

/// Whether a `Condition` block holds: every operator in it must; anything
/// other than an object imposes no condition.
pub open spec fn condition_holds(cond: Json, ctx: ContextMap) -> bool {
    match cond {
        Json::Object(ops, kvs) => all_operators_hold(ops, kvs, ctx),
        _ => true,
    }
}

fn one_value(s: &String) -> (r: Vec<String>)
    ensures
        strings_view(r@) == seq![s@],
{
    let mut v: Vec<String> = Vec::new();
    v.push(s.clone());
    proof {
        assert(strings_view(v@) =~= seq![s@]);
    }
    v
}

#[verifier::loop_isolation(false)]
fn key_condition(q: Quantifier, core: &str, if_exists: bool, key: &str, vals: &JsonValue, context: &CaseInsensitiveMap) -> (r: bool)
    ensures
        r == key_holds(q, core@, if_exists, key@, vals@, context@),
{
    let policy_values = get_string_values(vals);
    let ghost pv = strings_view(policy_values@);
    match context.get(key) {
        None => {
            if if_exists {
                true
            } else if str_eq(core, "Null") {
                null_ops::evaluate_null(None, policy_values.as_slice())
            } else {
                match q {
                    Quantifier::ForAllValues => true,
                    _ => false,
                }
            }
        },
        Some(ctx_vals) => {
            let ghost cv = strings_view(ctx_vals@);
            match q {
                Quantifier::Plain => evaluate_single(core, ctx_vals.as_slice(), policy_values.as_slice()),
                Quantifier::ForAnyValue => {
                    let mut i: usize = 0;
                    while i < ctx_vals.len()
                        invariant
                            i <= ctx_vals.len(),
                            cv == strings_view(ctx_vals@),
                            pv == strings_view(policy_values@),
                            forall|a: int| 0 <= a < i ==> !#[trigger] single_holds(core@, seq![cv[a]], pv),
                        decreases ctx_vals.len() - i,
                    {
                        let one = one_value(&ctx_vals[i]);
                        if evaluate_single(core, one.as_slice(), policy_values.as_slice()) {
                            proof {
                                assert(cv[i as int] == ctx_vals@[i as int]@);
                                assert(single_holds(core@, seq![cv[i as int]], pv));
                                assert(context.spec_get(key@) == Some(cv));
                                assert(string_values(vals@) == pv);
                                assert(q is ForAnyValue);
                                assert(any_value_holds(core@, cv, pv));
                            }
                            return true;
                        }
                        i = i + 1;
                    }
                    false
                },
                Quantifier::ForAllValues => {
                    let mut i: usize = 0;
                    while i < ctx_vals.len()
                        invariant
                            i <= ctx_vals.len(),
                            cv == strings_view(ctx_vals@),
                            pv == strings_view(policy_values@),
                            forall|a: int| 0 <= a < i ==> #[trigger] single_holds(core@, seq![cv[a]], pv),
                        decreases ctx_vals.len() - i,
                    {
                        let one = one_value(&ctx_vals[i]);
                        if !evaluate_single(core, one.as_slice(), policy_values.as_slice()) {
                            proof {
                                assert(cv[i as int] == ctx_vals@[i as int]@);
                                assert(!single_holds(core@, seq![cv[i as int]], pv));
                                assert(!all_values_hold(core@, cv, pv));
                            }
                            return false;
                        }
                        i = i + 1;
                    }
                    true
                },
            }
        },
    }
}

/// Evaluates one operator of a condition block (e.g. `StringEquals`,
/// `ForAnyValue:StringLike`, `StringEqualsIfExists`).
#[verifier::loop_isolation(false)]
pub fn evaluate_operator(operator: &str, keys_values: &JsonValue, context: &CaseInsensitiveMap) -> (r: bool)
    ensures
        r == operator_holds(operator@, keys_values@, context@),
{
    match keys_values {
        JsonValue::Object(fields) => {
            proof {
                lemma_object_view(*keys_values, *fields);
            }
            let (q, base) = parse_quantifier(operator);
            let (core, if_exists) = parse_if_exists(base.as_str());
            let ghost keys = keys_view(fields@);
            let ghost vals = values_view(fields@);
            let mut i: usize = 0;
            while i < fields.len()
                invariant
                    i <= fields.len(),
                    keys == keys_view(fields@),
                    vals == values_view(fields@),
                    q == quantifier_of(operator@),
                    core@ == if_exists_of(base_operator(operator@)).0,
                    if_exists == if_exists_of(base_operator(operator@)).1,
                    forall|k: int| 0 <= k < i ==> #[trigger] key_holds(q, core@, if_exists, keys[k], vals[k], context@),
                decreases fields.len() - i,
            {
                if !key_condition(q, core.as_str(), if_exists, fields[i].key.as_str(), &fields[i].value, context) {
                    proof {
                        assert(keys[i as int] == fields@[i as int].key@);
                        assert(vals[i as int] == fields@[i as int].value@);
                        assert(!key_holds(q, core@, if_exists, keys[i as int], vals[i as int], context@));
                        assert(!all_keys_hold(q, core@, if_exists, keys, vals, context@));
                    }
                    return false;
                }
                i = i + 1;
            }
            true
        },
        _ => false,
    }
}

/// Evaluates a `Condition` block: every operator, and every key under each
/// operator, must hold; for each key some value must match.
#[verifier::loop_isolation(false)]
pub fn evaluate_condition_block(condition: &JsonValue, context: &CaseInsensitiveMap) -> (r: bool)
    ensures
        r == condition_holds(condition@, context@),
{
    match condition {
        JsonValue::Object(fields) => {
            proof {
                lemma_object_view(*condition, *fields);
            }
            let ghost keys = keys_view(fields@);
            let ghost vals = values_view(fields@);
            let mut i: usize = 0;
            while i < fields.len()
                invariant
                    i <= fields.len(),
                    keys == keys_view(fields@),
                    vals == values_view(fields@),
                    forall|k: int| 0 <= k < i ==> #[trigger] operator_holds(keys[k], vals[k], context@),
                decreases fields.len() - i,
            {
                if !evaluate_operator(fields[i].key.as_str(), &fields[i].value, context) {
                    proof {
                        assert(keys[i as int] == fields@[i as int].key@);
                        assert(vals[i as int] == fields@[i as int].value@);
                        assert(!operator_holds(keys[i as int], vals[i as int], context@));
                        assert(!all_operators_hold(keys, vals, context@));
                    }
                    return false;
                }
                i = i + 1;
            }
            true
        },
        _ => true,
    }
}

} // verus!
