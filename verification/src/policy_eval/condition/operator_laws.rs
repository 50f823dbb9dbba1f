//! What each family of condition operators decides, in terms of the values.
use vstd::prelude::*;
use crate::text::fold;
use crate::text::unicode_lowercase;
use crate::policy_eval::wildcard::pattern_matches;
use crate::policy_eval::condition::pairs::{PairTest, pair_holds, some_pair, some_unpaired, unpaired, is_true_text};
use crate::policy_eval::condition::string_ops::{StringOp, string_op_holds};
use crate::policy_eval::condition::arn_ops::{ArnOp, arn_op_holds};
use crate::policy_eval::condition::date_ops::{DateOp, date_pair, date_holds, date_of};
use crate::policy_eval::condition::null_ops::null_holds;
use crate::policy_eval::condition::ip_ops::{ip_holds, ip_address_of, in_some_network, address_qualifies};

verus! {

/// Some context value equals some policy value.
pub open spec fn some_equal(cvs: Seq<Seq<char>>, pvs: Seq<Seq<char>>) -> bool {
    exists|i: int, j: int| 0 <= i < cvs.len() && 0 <= j < pvs.len() && #[trigger] cvs[i] == #[trigger] pvs[j]
}

/// `cv` equals no policy value.
pub open spec fn equals_none(cv: Seq<char>, pvs: Seq<Seq<char>>) -> bool {
    forall|j: int| 0 <= j < pvs.len() ==> cv != #[trigger] pvs[j]
}

/// Some context value equals no policy value.
pub open spec fn some_unequal(cvs: Seq<Seq<char>>, pvs: Seq<Seq<char>>) -> bool {
    exists|i: int| 0 <= i < cvs.len() && #[trigger] equals_none(cvs[i], pvs)
}

/// Some context value has the same lower case as some policy value.
pub open spec fn some_equal_lower(cvs: Seq<Seq<char>>, pvs: Seq<Seq<char>>) -> bool {
    exists|i: int, j: int| 0 <= i < cvs.len() && 0 <= j < pvs.len()
        && #[trigger] unicode_lowercase(cvs[i]) == #[trigger] unicode_lowercase(pvs[j])
}

/// `cv` has the lower case of no policy value.
pub open spec fn lower_equals_none(cv: Seq<char>, pvs: Seq<Seq<char>>) -> bool {
    forall|j: int| 0 <= j < pvs.len() ==> unicode_lowercase(cv) != #[trigger] unicode_lowercase(pvs[j])
}

/// Some context value has the lower case of no policy value.
pub open spec fn some_unequal_lower(cvs: Seq<Seq<char>>, pvs: Seq<Seq<char>>) -> bool {
    exists|i: int| 0 <= i < cvs.len() && #[trigger] lower_equals_none(cvs[i], pvs)
}

/// Some context value is matched by some policy pattern.
pub open spec fn some_matched(cvs: Seq<Seq<char>>, pvs: Seq<Seq<char>>) -> bool {
    exists|i: int, j: int| 0 <= i < cvs.len() && 0 <= j < pvs.len() && #[trigger] pattern_matches(pvs[j], cvs[i])
}

/// No policy pattern matches `cv`.
pub open spec fn matched_by_none(cv: Seq<char>, pvs: Seq<Seq<char>>) -> bool {
    forall|j: int| 0 <= j < pvs.len() ==> !#[trigger] pattern_matches(pvs[j], cv)
}

/// Some context value is matched by no policy pattern.
pub open spec fn some_unmatched(cvs: Seq<Seq<char>>, pvs: Seq<Seq<char>>) -> bool {
    exists|i: int| 0 <= i < cvs.len() && #[trigger] matched_by_none(cvs[i], pvs)
}

proof fn lemma_pairs(t: PairTest, cvs: Seq<Seq<char>>, pvs: Seq<Seq<char>>)
    ensures
        t == PairTest::Exact ==> some_pair(t, cvs, pvs) == some_equal(cvs, pvs) && some_unpaired(t, cvs, pvs) == some_unequal(cvs, pvs),
        t == PairTest::IgnoreCase ==> some_pair(t, cvs, pvs) == some_equal_lower(cvs, pvs) && some_unpaired(t, cvs, pvs) == some_unequal_lower(cvs, pvs),
        t == PairTest::Wildcard ==> some_pair(t, cvs, pvs) == some_matched(cvs, pvs) && some_unpaired(t, cvs, pvs) == some_unmatched(cvs, pvs),
{
    if some_pair(t, cvs, pvs) {
        let (i, j) = choose|i: int, j: int| 0 <= i < cvs.len() && 0 <= j < pvs.len() && #[trigger] pair_holds(t, cvs[i], pvs[j]);
        assert(t == PairTest::Exact ==> cvs[i] == pvs[j]);
        assert(t == PairTest::IgnoreCase ==> unicode_lowercase(cvs[i]) == unicode_lowercase(pvs[j]));
        assert(t == PairTest::Wildcard ==> pattern_matches(pvs[j], cvs[i]));
    }
    if t == PairTest::Exact && some_equal(cvs, pvs) {
        let (i, j) = choose|i: int, j: int| 0 <= i < cvs.len() && 0 <= j < pvs.len() && #[trigger] cvs[i] == #[trigger] pvs[j];
        assert(pair_holds(t, cvs[i], pvs[j]));
    }
    if t == PairTest::IgnoreCase && some_equal_lower(cvs, pvs) {
        let (i, j) = choose|i: int, j: int| 0 <= i < cvs.len() && 0 <= j < pvs.len()
            && #[trigger] unicode_lowercase(cvs[i]) == #[trigger] unicode_lowercase(pvs[j]);
        assert(pair_holds(t, cvs[i], pvs[j]));
    }
    if t == PairTest::Wildcard && some_matched(cvs, pvs) {
        let (i, j) = choose|i: int, j: int| 0 <= i < cvs.len() && 0 <= j < pvs.len() && #[trigger] pattern_matches(pvs[j], cvs[i]);
        assert(pair_holds(t, cvs[i], pvs[j]));
    }
    assert forall|i: int|
        #![trigger unpaired(t, cvs[i], pvs)]
        #![trigger equals_none(cvs[i], pvs)]
        #![trigger lower_equals_none(cvs[i], pvs)]
        #![trigger matched_by_none(cvs[i], pvs)]
        0 <= i < cvs.len() implies
        (t == PairTest::Exact ==> (unpaired(t, cvs[i], pvs) <==> equals_none(cvs[i], pvs)))
        && (t == PairTest::IgnoreCase ==> (unpaired(t, cvs[i], pvs) <==> lower_equals_none(cvs[i], pvs)))
        && (t == PairTest::Wildcard ==> (unpaired(t, cvs[i], pvs) <==> matched_by_none(cvs[i], pvs))) by {
        let c = cvs[i];
        if unpaired(t, c, pvs) {
            assert forall|j: int| 0 <= j < pvs.len() implies !#[trigger] pair_holds(t, c, pvs[j]) by {}
            if t == PairTest::Exact {
                assert forall|j: int| 0 <= j < pvs.len() implies c != #[trigger] pvs[j] by {
                    assert(!pair_holds(t, c, pvs[j]));
                }
            }
            if t == PairTest::IgnoreCase {
                assert forall|j: int| 0 <= j < pvs.len() implies unicode_lowercase(c) != #[trigger] unicode_lowercase(pvs[j]) by {
                    assert(!pair_holds(t, c, pvs[j]));
                }
            }
            if t == PairTest::Wildcard {
                assert forall|j: int| 0 <= j < pvs.len() implies !#[trigger] pattern_matches(pvs[j], c) by {
                    assert(!pair_holds(t, c, pvs[j]));
                }
            }
        }
        if (t == PairTest::Exact && equals_none(c, pvs)) || (t == PairTest::IgnoreCase && lower_equals_none(c, pvs))
            || (t == PairTest::Wildcard && matched_by_none(c, pvs)) {
            assert forall|j: int| 0 <= j < pvs.len() implies !#[trigger] pair_holds(t, c, pvs[j]) by {
                if t == PairTest::Exact {
                    assert(c != pvs[j]);
                } else if t == PairTest::IgnoreCase {
                    assert(unicode_lowercase(c) != unicode_lowercase(pvs[j]));
                } else {
                    assert(!pattern_matches(pvs[j], c));
                }
            }
        }
    }
}

/// The string operators: `StringEquals` holds when some context value is
/// some policy value, `StringNotEquals` when some context value is none of
/// them; the `IgnoreCase` forms compare lower cases, `StringLike` and
/// `StringNotLike` match policy patterns.
pub proof fn law_string_operators(cvs: Seq<Seq<char>>, pvs: Seq<Seq<char>>)
    ensures
        string_op_holds(cvs, pvs, StringOp::Equals) == some_equal(cvs, pvs),
        string_op_holds(cvs, pvs, StringOp::NotEquals) == some_unequal(cvs, pvs),
        string_op_holds(cvs, pvs, StringOp::EqualsIgnoreCase) == some_equal_lower(cvs, pvs),
        string_op_holds(cvs, pvs, StringOp::NotEqualsIgnoreCase) == some_unequal_lower(cvs, pvs),
        string_op_holds(cvs, pvs, StringOp::Like) == some_matched(cvs, pvs),
        string_op_holds(cvs, pvs, StringOp::NotLike) == some_unmatched(cvs, pvs),
{
    lemma_pairs(PairTest::Exact, cvs, pvs);
    lemma_pairs(PairTest::IgnoreCase, cvs, pvs);
    lemma_pairs(PairTest::Wildcard, cvs, pvs);
}

/// The ARN operators: `ArnEquals` and `ArnLike` hold when some policy
/// pattern matches some context value, `ArnNotEquals` and `ArnNotLike` when
/// some context value is matched by no policy pattern.
pub proof fn law_arn_operators(cvs: Seq<Seq<char>>, pvs: Seq<Seq<char>>)
    ensures
        arn_op_holds(cvs, pvs, ArnOp::Equals) == some_matched(cvs, pvs),
        arn_op_holds(cvs, pvs, ArnOp::Like) == some_matched(cvs, pvs),
        arn_op_holds(cvs, pvs, ArnOp::NotEquals) == some_unmatched(cvs, pvs),
        arn_op_holds(cvs, pvs, ArnOp::NotLike) == some_unmatched(cvs, pvs),
{
    lemma_pairs(PairTest::Wildcard, cvs, pvs);
}

/// Instant `a` comes before instant `b` (seconds, then nanoseconds).
pub open spec fn earlier(a: (i64, u32), b: (i64, u32)) -> bool {
    a.0 < b.0 || (a.0 == b.0 && a.1 < b.1)
}

/// The date operators compare the instants the two values denote: the
/// context instant is equal to, not equal to, before, not after, after or
/// not before the policy instant; a value that denotes no instant satisfies
/// no operator; on one context value and one policy value the operator
/// answers exactly this.
pub proof fn law_date_operators(cv: Seq<char>, pv: Seq<char>)
    ensures
        (date_of(cv) is None || date_of(pv) is None) ==> forall|op: DateOp| !#[trigger] date_pair(cv, pv, op),
        date_of(cv) is Some && date_of(pv) is Some ==> {
            let a = date_of(cv)->0;
            let b = date_of(pv)->0;
            &&& date_pair(cv, pv, DateOp::Equals) == (a == b)
            &&& date_pair(cv, pv, DateOp::NotEquals) == (a != b)
            &&& date_pair(cv, pv, DateOp::LessThan) == earlier(a, b)
            &&& date_pair(cv, pv, DateOp::LessThanEquals) == (earlier(a, b) || a == b)
            &&& date_pair(cv, pv, DateOp::GreaterThan) == earlier(b, a)
            &&& date_pair(cv, pv, DateOp::GreaterThanEquals) == (earlier(b, a) || a == b)
        },
        forall|op: DateOp| date_holds(seq![cv], seq![pv], op) == #[trigger] date_pair(cv, pv, op),
{
    assert forall|op: DateOp| date_holds(seq![cv], seq![pv], op) == #[trigger] date_pair(cv, pv, op) by {
        if date_pair(cv, pv, op) {
            assert(date_pair(seq![cv][0], seq![pv][0], op));
        }
    }
}

/// `Null` with the policy value `true` holds exactly when the key is absent
/// or has no value, and with `false` exactly when it has a value.
pub proof fn law_null_operator(ctx_values: Option<Seq<Seq<char>>>)
    ensures
        null_holds(ctx_values, seq!["true"@]) == (ctx_values is None || ctx_values->0.len() == 0),
        null_holds(ctx_values, seq!["false"@]) == (ctx_values is Some && ctx_values->0.len() > 0),
{
    reveal_strlit("true");
    reveal_strlit("false");
    assert(fold("true"@) =~= seq!['t', 'r', 'u', 'e']);
    assert(is_true_text("true"@));
    assert(fold("false"@).len() == 5);
    assert(!is_true_text("false"@));
    assert(seq!["true"@][0] == "true"@);
    assert(seq!["false"@][0] == "false"@);
}

/// `Bool` holds when some context value and some policy value both read
/// `true` or both do not (ASCII case ignored), and `BinaryEquals` when some
/// context value is some policy value.
pub proof fn law_bool_and_binary_operators(cvs: Seq<Seq<char>>, pvs: Seq<Seq<char>>)
    ensures
        some_pair(PairTest::SameFlag, cvs, pvs) == exists|i: int, j: int| 0 <= i < cvs.len() && 0 <= j < pvs.len()
            && #[trigger] is_true_text(cvs[i]) == #[trigger] is_true_text(pvs[j]),
        some_pair(PairTest::Exact, cvs, pvs) == some_equal(cvs, pvs),
{
    lemma_pairs(PairTest::Exact, cvs, pvs);
    if some_pair(PairTest::SameFlag, cvs, pvs) {
        let (i, j) = choose|i: int, j: int| 0 <= i < cvs.len() && 0 <= j < pvs.len() && #[trigger] pair_holds(PairTest::SameFlag, cvs[i], pvs[j]);
        assert(is_true_text(cvs[i]) == is_true_text(pvs[j]));
    }
    if exists|i: int, j: int| 0 <= i < cvs.len() && 0 <= j < pvs.len() && #[trigger] is_true_text(cvs[i]) == #[trigger] is_true_text(pvs[j]) {
        let (i, j) = choose|i: int, j: int| 0 <= i < cvs.len() && 0 <= j < pvs.len() && #[trigger] is_true_text(cvs[i]) == #[trigger] is_true_text(pvs[j]);
        assert(pair_holds(PairTest::SameFlag, cvs[i], pvs[j]));
    }
}

/// `IpAddress` holds when some context value is an address inside a network
/// some policy value names, `NotIpAddress` when some context value is an
/// address outside all of them; on one address the two are opposite.
pub proof fn law_ip_operators(cvs: Seq<Seq<char>>, pvs: Seq<Seq<char>>, cv: Seq<char>)
    ensures
        ip_holds(cvs, pvs, false) == exists|i: int| 0 <= i < cvs.len()
            && (#[trigger] ip_address_of(cvs[i])) is Some && in_some_network(ip_address_of(cvs[i])->0, pvs),
        ip_holds(cvs, pvs, true) == exists|i: int| 0 <= i < cvs.len()
            && (#[trigger] ip_address_of(cvs[i])) is Some && !in_some_network(ip_address_of(cvs[i])->0, pvs),
        ip_address_of(cv) is Some ==> ip_holds(seq![cv], pvs, true) == !ip_holds(seq![cv], pvs, false),
{
    if ip_address_of(cv) is Some {
        assert(seq![cv][0] == cv);
        if ip_holds(seq![cv], pvs, true) {
            let i = choose|i: int| 0 <= i < 1 && #[trigger] address_qualifies(seq![cv][i], pvs, true);
        }
        if ip_holds(seq![cv], pvs, false) {
            let i = choose|i: int| 0 <= i < 1 && #[trigger] address_qualifies(seq![cv][i], pvs, false);
        }
        if !ip_holds(seq![cv], pvs, false) {
            assert(!address_qualifies(seq![cv][0], pvs, false));
            assert(address_qualifies(seq![cv][0], pvs, true));
        }
    }
    if ip_holds(cvs, pvs, false) {
        let i = choose|i: int| 0 <= i < cvs.len() && #[trigger] address_qualifies(cvs[i], pvs, false);
        assert(ip_address_of(cvs[i]) is Some);
    }
    if exists|i: int| 0 <= i < cvs.len() && (#[trigger] ip_address_of(cvs[i])) is Some && in_some_network(ip_address_of(cvs[i])->0, pvs) {
        let i = choose|i: int| 0 <= i < cvs.len() && (#[trigger] ip_address_of(cvs[i])) is Some && in_some_network(ip_address_of(cvs[i])->0, pvs);
        assert(address_qualifies(cvs[i], pvs, false));
    }
    if ip_holds(cvs, pvs, true) {
        let i = choose|i: int| 0 <= i < cvs.len() && #[trigger] address_qualifies(cvs[i], pvs, true);
        assert(ip_address_of(cvs[i]) is Some);
    }
    if exists|i: int| 0 <= i < cvs.len() && (#[trigger] ip_address_of(cvs[i])) is Some && !in_some_network(ip_address_of(cvs[i])->0, pvs) {
        let i = choose|i: int| 0 <= i < cvs.len() && (#[trigger] ip_address_of(cvs[i])) is Some && !in_some_network(ip_address_of(cvs[i])->0, pvs);
        assert(address_qualifies(cvs[i], pvs, true));
    }
}

} // verus!
