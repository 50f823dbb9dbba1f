//! How a `Condition` block splits into its operators, an operator into its
//! keys, and a list of policy values into its values.
use vstd::prelude::*;
use crate::json::Json;
use crate::ci_map::{ContextMap, ctx_get};
use crate::policy_eval::condition::{
    Quantifier, condition_holds, operator_holds, all_keys_hold, key_holds, quantifier_of, base_operator,
    if_exists_of, string_values, string_items,
};
use crate::policy_eval::condition::pairs::{PairTest, pair_holds, some_pair};
use crate::text::{is_prefix, is_suffix};

verus! {

/// A condition block holds exactly when each of its operators, taken as a
/// block of its own, holds; a block with no operator holds.
pub proof fn law_condition_block_splits(ops: Seq<Seq<char>>, kvs: Seq<Json>, ctx: ContextMap)
    requires
        ops.len() == kvs.len(),
    ensures
        condition_holds(Json::Object(ops, kvs), ctx)
            <==> (forall|i: int| 0 <= i < ops.len() ==> #[trigger] condition_holds(Json::Object(seq![ops[i]], seq![kvs[i]]), ctx)),
        ops.len() == 0 ==> condition_holds(Json::Object(ops, kvs), ctx),
{
    assert forall|i: int| 0 <= i < ops.len() implies
        (#[trigger] condition_holds(Json::Object(seq![ops[i]], seq![kvs[i]]), ctx) <==> #[trigger] operator_holds(ops[i], kvs[i], ctx)) by {
        let one_ops = seq![ops[i]];
        let one_kvs = seq![kvs[i]];
        if operator_holds(ops[i], kvs[i], ctx) {
            assert forall|j: int| 0 <= j < one_ops.len() implies #[trigger] operator_holds(one_ops[j], one_kvs[j], ctx) by {
                assert(j == 0);
            }
        } else {
            assert(!operator_holds(one_ops[0], one_kvs[0], ctx));
        }
    }
    if forall|i: int| 0 <= i < ops.len() ==> #[trigger] condition_holds(Json::Object(seq![ops[i]], seq![kvs[i]]), ctx) {
        assert forall|i: int| 0 <= i < ops.len() implies #[trigger] operator_holds(ops[i], kvs[i], ctx) by {
            assert(condition_holds(Json::Object(seq![ops[i]], seq![kvs[i]]), ctx));
        }
    }
    if condition_holds(Json::Object(ops, kvs), ctx) {
        assert forall|i: int| 0 <= i < ops.len() implies #[trigger] condition_holds(Json::Object(seq![ops[i]], seq![kvs[i]]), ctx) by {
            assert(operator_holds(ops[i], kvs[i], ctx));
        }
    }
}

/// Anything other than an object imposes no condition.
pub proof fn law_condition_non_object(cond: Json, ctx: ContextMap)
    requires
        !(cond is Object),
    ensures
        condition_holds(cond, ctx),
{
}

/// An operator holds exactly when it holds of each of its keys taken alone.
pub proof fn law_operator_splits_by_key(op: Seq<char>, keys: Seq<Seq<char>>, vals: Seq<Json>, ctx: ContextMap)
    requires
        keys.len() == vals.len(),
    ensures
        operator_holds(op, Json::Object(keys, vals), ctx)
            <==> (forall|i: int| 0 <= i < keys.len() ==> #[trigger] operator_holds(op, Json::Object(seq![keys[i]], seq![vals[i]]), ctx)),
{
    let q = quantifier_of(op);
    let core = if_exists_of(base_operator(op)).0;
    let ie = if_exists_of(base_operator(op)).1;
    assert forall|i: int| 0 <= i < keys.len() implies
        (#[trigger] operator_holds(op, Json::Object(seq![keys[i]], seq![vals[i]]), ctx) <==> #[trigger] key_holds(q, core, ie, keys[i], vals[i], ctx)) by {
        let one_keys = seq![keys[i]];
        let one_vals = seq![vals[i]];
        if key_holds(q, core, ie, keys[i], vals[i], ctx) {
            assert forall|j: int| 0 <= j < one_keys.len() implies #[trigger] key_holds(q, core, ie, one_keys[j], one_vals[j], ctx) by {
                assert(j == 0);
            }
        } else {
            assert(!key_holds(q, core, ie, one_keys[0], one_vals[0], ctx));
        }
    }
    if forall|i: int| 0 <= i < keys.len() ==> #[trigger] operator_holds(op, Json::Object(seq![keys[i]], seq![vals[i]]), ctx) {
        assert forall|i: int| 0 <= i < keys.len() implies #[trigger] key_holds(q, core, ie, keys[i], vals[i], ctx) by {
            assert(operator_holds(op, Json::Object(seq![keys[i]], seq![vals[i]]), ctx));
        }
    }
    if operator_holds(op, Json::Object(keys, vals), ctx) {
        assert forall|i: int| 0 <= i < keys.len() implies #[trigger] operator_holds(op, Json::Object(seq![keys[i]], seq![vals[i]]), ctx) by {
            assert(key_holds(q, core, ie, keys[i], vals[i], ctx));
        }
    }
}

proof fn lemma_string_equals_plain()
    ensures
        quantifier_of("StringEquals"@) == Quantifier::Plain,
        base_operator("StringEquals"@) == "StringEquals"@,
        if_exists_of("StringEquals"@) == ("StringEquals"@, false),
{
    reveal_strlit("StringEquals");
    reveal_strlit("ForAnyValue:");
    reveal_strlit("ForAllValues:");
    reveal_strlit("IfExists");
    assert("StringEquals"@.subrange(0, 12)[0] != "ForAnyValue:"@[0]);
    assert(!is_prefix("ForAnyValue:"@, "StringEquals"@));
    assert(!is_prefix("ForAllValues:"@, "StringEquals"@));
    assert("StringEquals"@.subrange(4, 12)[0] != "IfExists"@[0]);
    assert(!is_suffix("IfExists"@, "StringEquals"@));
}

/// With the key present in the context, `StringEquals` on a key with two
/// policy values holds exactly when it holds with one of them alone.
pub proof fn law_string_equals_either_value(k: Seq<char>, a: Seq<char>, b: Seq<char>, ctx: ContextMap)
    requires
        ctx.dom().contains(k),
    ensures
        operator_holds("StringEquals"@, Json::Object(seq![k], seq![Json::Array(seq![Json::Str(a), Json::Str(b)])]), ctx)
            <==> (operator_holds("StringEquals"@, Json::Object(seq![k], seq![Json::Str(a)]), ctx)
                || operator_holds("StringEquals"@, Json::Object(seq![k], seq![Json::Str(b)]), ctx)),
{
    lemma_string_equals_plain();
    let cvs = ctx[k];
    assert(ctx_get(ctx, k) == Some(cvs));
    let both = seq![Json::Str(a), Json::Str(b)];
    assert(both.drop_last() =~= seq![Json::Str(a)]);
    assert(seq![Json::Str(a)].drop_last() =~= Seq::<Json>::empty());
    reveal_with_fuel(string_items, 3);
    assert(string_items(seq![Json::Str(a)]) =~= seq![a]);
    assert(string_items(both) =~= seq![a, b]);
    assert(string_values(Json::Array(both)) == seq![a, b]);
    let q = Quantifier::Plain;
    let core = "StringEquals"@;
    let two = Json::Array(both);
    let ja = Json::Str(a);
    let jb = Json::Str(b);
    assert(key_holds(q, core, false, k, two, ctx) == some_pair(PairTest::Exact, cvs, seq![a, b]));
    assert(key_holds(q, core, false, k, ja, ctx) == some_pair(PairTest::Exact, cvs, seq![a]));
    assert(key_holds(q, core, false, k, jb, ctx) == some_pair(PairTest::Exact, cvs, seq![b]));
    let sab = seq![a, b];
    let sa = seq![a];
    let sb = seq![b];
    if some_pair(PairTest::Exact, cvs, sab) {
        let (i, j) = choose|i: int, j: int| 0 <= i < cvs.len() && 0 <= j < sab.len() && #[trigger] pair_holds(PairTest::Exact, cvs[i], sab[j]);
        if j == 0 {
            assert(pair_holds(PairTest::Exact, cvs[i], sa[0]));
        } else {
            assert(pair_holds(PairTest::Exact, cvs[i], sb[0]));
        }
    }
    if some_pair(PairTest::Exact, cvs, sa) {
        let (i, j) = choose|i: int, j: int| 0 <= i < cvs.len() && 0 <= j < sa.len() && #[trigger] pair_holds(PairTest::Exact, cvs[i], sa[j]);
        assert(pair_holds(PairTest::Exact, cvs[i], sab[0]));
    }
    if some_pair(PairTest::Exact, cvs, sb) {
        let (i, j) = choose|i: int, j: int| 0 <= i < cvs.len() && 0 <= j < sb.len() && #[trigger] pair_holds(PairTest::Exact, cvs[i], sb[j]);
        assert(pair_holds(PairTest::Exact, cvs[i], sab[1]));
    }
    law_operator_splits_by_key(core, seq![k], seq![two], ctx);
    law_operator_splits_by_key(core, seq![k], seq![ja], ctx);
    law_operator_splits_by_key(core, seq![k], seq![jb], ctx);
    assert(seq![k][0] == k);
    assert(seq![two][0] == two);
    assert(seq![ja][0] == ja);
    assert(seq![jb][0] == jb);
    assert(operator_holds(core, Json::Object(seq![k], seq![two]), ctx) == key_holds(q, core, false, k, two, ctx)) by {
        assert(all_keys_hold(q, core, false, seq![k], seq![two], ctx) ==> key_holds(q, core, false, seq![k][0], seq![two][0], ctx));
    }
    assert(operator_holds(core, Json::Object(seq![k], seq![ja]), ctx) == key_holds(q, core, false, k, ja, ctx)) by {
        assert(all_keys_hold(q, core, false, seq![k], seq![ja], ctx) ==> key_holds(q, core, false, seq![k][0], seq![ja][0], ctx));
    }
    assert(operator_holds(core, Json::Object(seq![k], seq![jb]), ctx) == key_holds(q, core, false, k, jb, ctx)) by {
        assert(all_keys_hold(q, core, false, seq![k], seq![jb], ctx) ==> key_holds(q, core, false, seq![k][0], seq![jb][0], ctx));
    }
}

} // verus!
