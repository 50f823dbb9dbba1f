//! `Arn*` condition operators. `ArnEquals` accepts wildcards just as `ArnLike`.
use vstd::prelude::*;
use crate::ci_map::strings_view;
use crate::policy_eval::condition::pairs::{PairTest, some_pair, some_unpaired, exists_pair, exists_unpaired};

verus! {

#[derive(Debug, Clone, Copy)]
pub enum ArnOp {
    Equals,
    NotEquals,
    Like,
    NotLike,
}

pub open spec fn arn_op_holds(cvs: Seq<Seq<char>>, pvs: Seq<Seq<char>>, op: ArnOp) -> bool {
    match op {
        ArnOp::Equals | ArnOp::Like => some_pair(PairTest::Wildcard, cvs, pvs),
        ArnOp::NotEquals | ArnOp::NotLike => some_unpaired(PairTest::Wildcard, cvs, pvs),
    }
}

pub fn evaluate(context_values: &[String], policy_values: &[String], op: ArnOp) -> (r: bool)
    ensures
        r == arn_op_holds(strings_view(context_values@), strings_view(policy_values@), op),
{
    match op {
        ArnOp::Equals | ArnOp::Like => exists_pair(PairTest::Wildcard, context_values, policy_values),
        ArnOp::NotEquals | ArnOp::NotLike => exists_unpaired(PairTest::Wildcard, context_values, policy_values),
    }
}

} // verus!
