//! Quantification over pairs of context values and policy values.
use vstd::prelude::*;
use crate::text::{str_eq, to_lowercase, unicode_lowercase, eq_ignore_ascii_case, fold};
use crate::ci_map::strings_view;
use crate::policy_eval::wildcard::pattern_matches;

verus! {

/// How one context value is compared with one policy value.
#[derive(Clone, Copy)]
pub enum PairTest {
    /// Exact, case-sensitive equality.
    Exact,
    /// Equality after Unicode lower-casing.
    IgnoreCase,
    /// The policy value is a wildcard pattern the context value matches.
    Wildcard,
    /// Both are, or both are not, `true` (ASCII case ignored).
    SameFlag,
}

/// ASCII-folded `true`.
pub open spec fn true_text() -> Seq<char> {
    seq!['t', 'r', 'u', 'e']
}

/// Whether a value reads as boolean `true` (ASCII case ignored).
pub open spec fn is_true_text(s: Seq<char>) -> bool {
    fold(s) == true_text()
}

pub open spec fn pair_holds(t: PairTest, cv: Seq<char>, pv: Seq<char>) -> bool {
    match t {
        PairTest::Exact => cv == pv,
        PairTest::IgnoreCase => unicode_lowercase(cv) == unicode_lowercase(pv),
        PairTest::Wildcard => pattern_matches(pv, cv),
        PairTest::SameFlag => is_true_text(cv) == is_true_text(pv),
    }
}

/// Some context value stands in relation `t` to some policy value.
pub open spec fn some_pair(t: PairTest, cvs: Seq<Seq<char>>, pvs: Seq<Seq<char>>) -> bool {
    exists|i: int, j: int| 0 <= i < cvs.len() && 0 <= j < pvs.len() && #[trigger] pair_holds(t, cvs[i], pvs[j])
}

/// Some context value stands in relation `t` to no policy value.
pub open spec fn some_unpaired(t: PairTest, cvs: Seq<Seq<char>>, pvs: Seq<Seq<char>>) -> bool {
    exists|i: int| 0 <= i < cvs.len() && #[trigger] unpaired(t, cvs[i], pvs)
}

/// `cv` stands in relation `t` to no policy value.
pub open spec fn unpaired(t: PairTest, cv: Seq<char>, pvs: Seq<Seq<char>>) -> bool {
    forall|j: int| 0 <= j < pvs.len() ==> !#[trigger] pair_holds(t, cv, pvs[j])
}

/// Whether `s` reads as `true`, as `s.eq_ignore_ascii_case("true")`.
pub fn reads_true(s: &str) -> (r: bool)
    ensures
        r == is_true_text(s@),
{
    let t = "true";
    proof {
        reveal_strlit("true");
        assert(fold(t@) =~= true_text());
    }
    eq_ignore_ascii_case(s, t)
}

pub fn pair_holds_exec(t: PairTest, cv: &str, pv: &str) -> (r: bool)
    ensures
        r == pair_holds(t, cv@, pv@),
{
    match t {
        PairTest::Exact => str_eq(cv, pv),
        PairTest::IgnoreCase => {
            let a = to_lowercase(cv);
            let b = to_lowercase(pv);
            str_eq(a.as_str(), b.as_str())
        },
        PairTest::Wildcard => crate::policy_eval::wildcard::matches(pv, cv),
        PairTest::SameFlag => reads_true(cv) == reads_true(pv),
    }
}

/// Whether `cv` stands in relation `t` to some policy value.
pub fn paired_with_some(t: PairTest, cv: &str, pvs: &[String]) -> (r: bool)
    ensures
        r == !unpaired(t, cv@, strings_view(pvs@)),
{
    let ghost pv = strings_view(pvs@);
    let mut j: usize = 0;
    while j < pvs.len()
        invariant
            j <= pvs.len(),
            pv == strings_view(pvs@),
            forall|k: int| 0 <= k < j ==> !#[trigger] pair_holds(t, cv@, pv[k]),
        decreases pvs.len() - j,
    {
        if pair_holds_exec(t, cv, pvs[j].as_str()) {
            proof {
                assert(pair_holds(t, cv@, pv[j as int]));
            }
            return true;
        }
        j = j + 1;
    }
    false
}

/// Whether some context value stands in relation `t` to some policy value.
pub fn exists_pair(t: PairTest, cvs: &[String], pvs: &[String]) -> (r: bool)
    ensures
        r == some_pair(t, strings_view(cvs@), strings_view(pvs@)),
{
    let ghost cv = strings_view(cvs@);
    let ghost pv = strings_view(pvs@);
    let mut i: usize = 0;
    while i < cvs.len()
        invariant
            i <= cvs.len(),
            cv == strings_view(cvs@),
            pv == strings_view(pvs@),
            forall|a: int, b: int| 0 <= a < i && 0 <= b < pv.len() ==> !#[trigger] pair_holds(t, cv[a], pv[b]),
        decreases cvs.len() - i,
    {
        if paired_with_some(t, cvs[i].as_str(), pvs) {
            proof {
                assert(cv[i as int] == cvs@[i as int]@);
                let j = choose|j: int| 0 <= j < pv.len() && pair_holds(t, cv[i as int], pv[j]);
                assert(pair_holds(t, cv[i as int], pv[j]));
            }
            return true;
        }
        i = i + 1;
    }
    false
}

/// Whether some context value stands in relation `t` to no policy value.
pub fn exists_unpaired(t: PairTest, cvs: &[String], pvs: &[String]) -> (r: bool)
    ensures
        r == some_unpaired(t, strings_view(cvs@), strings_view(pvs@)),
{
    let ghost cv = strings_view(cvs@);
    let ghost pv = strings_view(pvs@);
    let mut i: usize = 0;
    while i < cvs.len()
        invariant
            i <= cvs.len(),
            cv == strings_view(cvs@),
            pv == strings_view(pvs@),
            forall|a: int| 0 <= a < i ==> !#[trigger] unpaired(t, cv[a], pv),
        decreases cvs.len() - i,
    {
        if !paired_with_some(t, cvs[i].as_str(), pvs) {
            proof {
                assert(unpaired(t, cv[i as int], pv));
            }
            return true;
        }
        i = i + 1;
    }
    false
}

} // verus!
