//! Parts of an ARN (`arn:partition:service:region:account:resource`).
use vstd::prelude::*;
use crate::text::{chars_of, find_char_from, first_char_from, string_of_range};

verus! {

/// Index at which `:`-separated field `n` of `s` starts (0 for field 0);
/// `None` when `s` has fewer than `n` colons.
pub open spec fn field_start(s: Seq<char>, n: nat) -> Option<int>
    decreases n,
{
    if n == 0 {
        Some(0)
    } else {
        match field_start(s, (n - 1) as nat) {
            Some(i) => match first_char_from(s, ':', i) {
                Some(j) => Some(j + 1),
                None => None,
            },
            None => None,
        }
    }
}

/// The account ID: field 4 of the ARN, empty when there is none.
pub open spec fn account_id_of(arn: Seq<char>) -> Seq<char> {
    match field_start(arn, 4) {
        Some(i) => match first_char_from(arn, ':', i) {
            Some(j) => arn.subrange(i, j),
            None => arn.subrange(i, arn.len() as int),
        },
        None => Seq::empty(),
    }
}

/// The resource part: everything after the fifth colon (for an IAM principal
/// `user/Alice` or `role/path/Admin`); the whole text when there is no fifth colon.
pub open spec fn resource_of(arn: Seq<char>) -> Seq<char> {
    match field_start(arn, 5) {
        Some(i) => arn.subrange(i, arn.len() as int),
        None => arn,
    }
}

fn field_start_exec(s: &Vec<char>, n: usize) -> (r: Option<usize>)
    ensures
        r matches Some(i) ==> field_start(s@, n as nat) == Some(i as int) && i <= s@.len(),
        r is None ==> field_start(s@, n as nat) is None,
{
    let mut k: usize = 0;
    let mut pos: usize = 0;
    while k < n
        invariant
            k <= n,
            field_start(s@, k as nat) == Some(pos as int),
            pos <= s@.len(),
        decreases n - k,
    {
        match find_char_from(s, ':', pos) {
            Some(j) => {
                assert(s@.len() == s.len());
                pos = j + 1;
            },
            None => {
                proof {
                    assert(field_start(s@, (k + 1) as nat) is None);
                    lemma_field_start_none(s@, (k + 1) as nat, n as nat);
                }
                return None;
            },
        }
        k = k + 1;
    }
    Some(pos)
}

proof fn lemma_field_start_none(s: Seq<char>, k: nat, n: nat)
    requires
        k <= n,
        field_start(s, k) is None,
    ensures
        field_start(s, n) is None,
    decreases n - k,
{
    if k < n {
        lemma_field_start_none(s, k + 1, n);
    }
}

/// The account ID of an ARN.
pub fn get_account_id(arn: &str) -> (r: String)
    ensures
        r@ == account_id_of(arn@),
{
    let s = chars_of(arn);
    match field_start_exec(&s, 4) {
        Some(i) => match find_char_from(&s, ':', i) {
            Some(j) => string_of_range(&s, i, j),
            None => string_of_range(&s, i, s.len()),
        },
        None => String::new(),
    }
}

/// The resource part of an ARN, used as a principal's searchable name.
pub fn get_resource(arn: &str) -> (r: String)
    ensures
        r@ == resource_of(arn@),
{
    let s = chars_of(arn);
    match field_start_exec(&s, 5) {
        Some(i) => string_of_range(&s, i, s.len()),
        None => string_of_range(&s, 0, s.len()),
    }
}

} // verus!
