//! `String*` condition operators.
use vstd::prelude::*;
use crate::ci_map::strings_view;
use crate::policy_eval::condition::pairs::{PairTest, some_pair, some_unpaired, exists_pair, exists_unpaired};

verus! {

#[derive(Debug, Clone, Copy)]
pub enum StringOp {
    Equals,
    NotEquals,
    EqualsIgnoreCase,
    NotEqualsIgnoreCase,
    Like,
    NotLike,
}

/// `String*` semantics: a positive operator holds when some context value
/// matches some policy value; a negated one when some context value matches
/// no policy value.
pub open spec fn string_op_holds(cvs: Seq<Seq<char>>, pvs: Seq<Seq<char>>, op: StringOp) -> bool {
    match op {
        StringOp::Equals => some_pair(PairTest::Exact, cvs, pvs),
        StringOp::NotEquals => some_unpaired(PairTest::Exact, cvs, pvs),
        StringOp::EqualsIgnoreCase => some_pair(PairTest::IgnoreCase, cvs, pvs),
        StringOp::NotEqualsIgnoreCase => some_unpaired(PairTest::IgnoreCase, cvs, pvs),
        StringOp::Like => some_pair(PairTest::Wildcard, cvs, pvs),
        StringOp::NotLike => some_unpaired(PairTest::Wildcard, cvs, pvs),
    }
}

pub fn evaluate(context_values: &[String], policy_values: &[String], op: StringOp) -> (r: bool)
    ensures
        r == string_op_holds(strings_view(context_values@), strings_view(policy_values@), op),
{
    match op {
        StringOp::Equals => exists_pair(PairTest::Exact, context_values, policy_values),
        StringOp::NotEquals => exists_unpaired(PairTest::Exact, context_values, policy_values),
        StringOp::EqualsIgnoreCase => exists_pair(PairTest::IgnoreCase, context_values, policy_values),
        StringOp::NotEqualsIgnoreCase => exists_unpaired(PairTest::IgnoreCase, context_values, policy_values),
        StringOp::Like => exists_pair(PairTest::Wildcard, context_values, policy_values),
        StringOp::NotLike => exists_unpaired(PairTest::Wildcard, context_values, policy_values),
    }
}

} // verus!
