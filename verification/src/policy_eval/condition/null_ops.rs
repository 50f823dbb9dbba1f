//! `Null`: policy value `true` asks for the key to be absent, `false` for it
//! to be present.
use vstd::prelude::*;
use crate::ci_map::strings_view;
use crate::policy_eval::condition::pairs::{is_true_text, reads_true};

verus! {

/// The key is absent or has no values.
pub open spec fn key_is_null(context_values: Option<Seq<Seq<char>>>) -> bool {
    match context_values {
        None => true,
        Some(v) => v.len() == 0,
    }
}

pub open spec fn null_holds(context_values: Option<Seq<Seq<char>>>, pvs: Seq<Seq<char>>) -> bool {
    exists|j: int| 0 <= j < pvs.len() && #[trigger] is_true_text(pvs[j]) == key_is_null(context_values)
}

pub fn evaluate_null(context_values: Option<&[String]>, policy_values: &[String]) -> (r: bool)
    ensures
        r == null_holds(
            match context_values {
                Some(v) => Some(strings_view(v@)),
                None => None,
            },
            strings_view(policy_values@),
        ),
{
    let key_is_null_now = match context_values {
        None => true,
        Some(v) => v.len() == 0,
    };
    let ghost pv = strings_view(policy_values@);
    let ghost cvo = match context_values {
        Some(v) => Some(strings_view(v@)),
        None => None,
    };
    let mut j: usize = 0;
    while j < policy_values.len()
        invariant
            j <= policy_values.len(),
            pv == strings_view(policy_values@),
            key_is_null_now == key_is_null(cvo),
            cvo == match context_values {
                Some(v) => Some(strings_view(v@)),
                None => None,
            },
            forall|k: int| 0 <= k < j ==> #[trigger] is_true_text(pv[k]) != key_is_null_now,
        decreases policy_values.len() - j,
    {
        if reads_true(policy_values[j].as_str()) == key_is_null_now {
            proof {
                assert(is_true_text(pv[j as int]) == key_is_null_now);
            }
            return true;
        }
        j = j + 1;
    }
    false
}

} // verus!
