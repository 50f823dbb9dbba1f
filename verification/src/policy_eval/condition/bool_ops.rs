//! `Bool`: a value is `true` when it reads `true` (ASCII case ignored); any
//! other text counts as `false`.
use vstd::prelude::*;
use crate::ci_map::strings_view;
use crate::policy_eval::condition::pairs::{PairTest, some_pair, exists_pair};

verus! {

pub fn evaluate(context_values: &[String], policy_values: &[String]) -> (r: bool)
    ensures
        r == some_pair(PairTest::SameFlag, strings_view(context_values@), strings_view(policy_values@)),
{
    exists_pair(PairTest::SameFlag, context_values, policy_values)
}

} // verus!
