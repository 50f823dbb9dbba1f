//! `Numeric*` condition operators, compared as exact decimal numbers.
//!
//! Values are read as decimal numbers (an optional sign, digits, an optional
//! fraction and an optional exponent of at most 15 digits) and compared exactly, with no binary
//! floating point and no tolerance: `1` and `1.0000000000000001` are
//! different numbers, and spellings such as `inf` or `NaN` are not numbers,
//! so a pair that holds one never satisfies an operator.
use vstd::prelude::*;
use crate::ci_map::strings_view;
use crate::decimal::{parse_decimal, parse_decimal_spec, decimal_compare, decimal_order, lex_order, DecimalSpec};

verus! {

#[derive(Debug, Clone, Copy)]
pub enum NumericOp {
    Equals,
    NotEquals,
    LessThan,
    LessThanEquals,
    GreaterThan,
    GreaterThanEquals,
}

/// Whether the order `o` (-1, 0 or 1, context value against policy value) satisfies `op`.
pub open spec fn order_satisfies(o: int, op: NumericOp) -> bool {
    match op {
        NumericOp::Equals => o == 0,
        NumericOp::NotEquals => o != 0,
        NumericOp::LessThan => o < 0,
        NumericOp::LessThanEquals => o <= 0,
        NumericOp::GreaterThan => o > 0,
        NumericOp::GreaterThanEquals => o >= 0,
    }
}

/// Both values are decimal numbers and, compared exactly, they satisfy `op`.
pub open spec fn numeric_pair(cv: Seq<char>, pv: Seq<char>, op: NumericOp) -> bool {
    match (parse_decimal_spec(cv), parse_decimal_spec(pv)) {
        (Some(a), Some(b)) => order_satisfies(decimal_order(a, b), op),
        _ => false,
    }
}

/// Some context value and some policy value are numbers satisfying `op`.
pub open spec fn numeric_holds(cvs: Seq<Seq<char>>, pvs: Seq<Seq<char>>, op: NumericOp) -> bool {
    exists|i: int, j: int| 0 <= i < cvs.len() && 0 <= j < pvs.len() && #[trigger] numeric_pair(cvs[i], pvs[j], op)
}

fn satisfies(o: i8, op: NumericOp) -> (r: bool)
    ensures
        r == order_satisfies(o as int, op),
{
    match op {
        NumericOp::Equals => o == 0,
        NumericOp::NotEquals => o != 0,
        NumericOp::LessThan => o < 0,
        NumericOp::LessThanEquals => o <= 0,
        NumericOp::GreaterThan => o > 0,
        NumericOp::GreaterThanEquals => o >= 0,
    }
}

pub fn evaluate(context_values: &[String], policy_values: &[String], op: NumericOp) -> (r: bool)
    ensures
        r == numeric_holds(strings_view(context_values@), strings_view(policy_values@), op),
{
    let ghost cv = strings_view(context_values@);
    let ghost pv = strings_view(policy_values@);
    let mut i: usize = 0;
    while i < context_values.len()
        invariant
            i <= context_values.len(),
            cv == strings_view(context_values@),
            pv == strings_view(policy_values@),
            forall|a: int, b: int| 0 <= a < i && 0 <= b < pv.len() ==> !#[trigger] numeric_pair(cv[a], pv[b], op),
        decreases context_values.len() - i,
    {
        match parse_decimal(context_values[i].as_str()) {
            Some(x) => {
                let mut j: usize = 0;
                while j < policy_values.len()
                    invariant
                        j <= policy_values.len(),
                        i < context_values.len(),
                        cv == strings_view(context_values@),
                        pv == strings_view(policy_values@),
                        parse_decimal_spec(cv[i as int]) == Some(x@),
                        forall|b: int| 0 <= b < j ==> !#[trigger] numeric_pair(cv[i as int], pv[b], op),
                    decreases policy_values.len() - j,
                {
                    match parse_decimal(policy_values[j].as_str()) {
                        Some(y) => {
                            if satisfies(decimal_compare(&x, &y), op) {
                                proof {
                                    assert(numeric_pair(cv[i as int], pv[j as int], op));
                                }
                                return true;
                            }
                        },
                        None => {},
                    }
                    j = j + 1;
                }
            },
            None => {},
        }
        i = i + 1;
    }
    false
}

proof fn lemma_lex_reflexive(a: Seq<u8>)
    ensures
        lex_order(a, a) == 0,
    decreases a.len(),
{
    if a.len() > 0 {
        lemma_lex_reflexive(a.drop_first());
    }
}

proof fn lemma_lex_antisymmetric(a: Seq<u8>, b: Seq<u8>)
    ensures
        lex_order(b, a) == -lex_order(a, b),
        -1 <= lex_order(a, b) <= 1,
    decreases a.len(),
{
    if a.len() > 0 && b.len() > 0 && a[0] == b[0] {
        lemma_lex_antisymmetric(a.drop_first(), b.drop_first());
    }
}

proof fn lemma_order_facts(x: DecimalSpec, y: DecimalSpec)
    ensures
        decimal_order(x, x) == 0,
        decimal_order(y, x) == -decimal_order(x, y),
        -1 <= decimal_order(x, y) <= 1,
{
    lemma_lex_reflexive(x.digits);
    lemma_lex_antisymmetric(x.digits, y.digits);
}

/// The numeric operators mean what their names say, for every pair of
/// values: a pair of numbers is in exactly one of the orders less, equal and
/// greater; equality is reflexive and symmetric and `a > b` is `b < a`;
/// `<=` is `<` or `=`, `>=` is `>` or `=`, and `!=` is not `=`; a negative
/// number is less than any number without a minus sign, and of two positive
/// numbers the one with more digits before the point is the greater. A
/// value that is not a number satisfies no operator. On one context value and
/// one policy value, `evaluate` answers exactly this pair relation.
pub proof fn law_numeric_operators(cv: Seq<char>, pv: Seq<char>)
    ensures
        (parse_decimal_spec(cv) is None || parse_decimal_spec(pv) is None) ==> !numeric_pair(cv, pv, NumericOp::Equals)
            && !numeric_pair(cv, pv, NumericOp::NotEquals) && !numeric_pair(cv, pv, NumericOp::LessThan)
            && !numeric_pair(cv, pv, NumericOp::LessThanEquals) && !numeric_pair(cv, pv, NumericOp::GreaterThan)
            && !numeric_pair(cv, pv, NumericOp::GreaterThanEquals),
        parse_decimal_spec(cv) is Some && parse_decimal_spec(pv) is Some ==> {
            let lt = numeric_pair(cv, pv, NumericOp::LessThan);
            let eq = numeric_pair(cv, pv, NumericOp::Equals);
            let gt = numeric_pair(cv, pv, NumericOp::GreaterThan);
            &&& (lt || eq || gt)
            &&& !(lt && eq) && !(lt && gt) && !(eq && gt)
            &&& numeric_pair(cv, pv, NumericOp::NotEquals) == !eq
        },
        parse_decimal_spec(cv) is Some ==> numeric_pair(cv, cv, NumericOp::Equals),
        numeric_pair(cv, pv, NumericOp::Equals) == numeric_pair(pv, cv, NumericOp::Equals),
        numeric_pair(cv, pv, NumericOp::GreaterThan) == numeric_pair(pv, cv, NumericOp::LessThan),
        numeric_pair(cv, pv, NumericOp::LessThanEquals)
            == (numeric_pair(cv, pv, NumericOp::LessThan) || numeric_pair(cv, pv, NumericOp::Equals)),
        numeric_pair(cv, pv, NumericOp::GreaterThanEquals)
            == (numeric_pair(cv, pv, NumericOp::GreaterThan) || numeric_pair(cv, pv, NumericOp::Equals)),
        (parse_decimal_spec(cv) is Some && parse_decimal_spec(pv) is Some
            && parse_decimal_spec(cv)->0.negative && parse_decimal_spec(cv)->0.digits.len() > 0
            && !parse_decimal_spec(pv)->0.negative)
            ==> numeric_pair(cv, pv, NumericOp::LessThan),
        (parse_decimal_spec(cv) is Some && parse_decimal_spec(pv) is Some
            && !parse_decimal_spec(cv)->0.negative && parse_decimal_spec(cv)->0.digits.len() > 0
            && !parse_decimal_spec(pv)->0.negative && parse_decimal_spec(pv)->0.digits.len() > 0
            && parse_decimal_spec(cv)->0.point < parse_decimal_spec(pv)->0.point)
            ==> numeric_pair(cv, pv, NumericOp::LessThan),
        forall|op: NumericOp| numeric_holds(seq![cv], seq![pv], op) == #[trigger] numeric_pair(cv, pv, op),
{
    match (parse_decimal_spec(cv), parse_decimal_spec(pv)) {
        (Some(a), Some(b)) => {
            lemma_order_facts(a, b);
        },
        _ => {},
    }
    match parse_decimal_spec(cv) {
        Some(a) => lemma_order_facts(a, a),
        None => {},
    }
    assert forall|op: NumericOp| numeric_holds(seq![cv], seq![pv], op) == #[trigger] numeric_pair(cv, pv, op) by {
        if numeric_pair(cv, pv, op) {
            assert(numeric_pair(seq![cv][0], seq![pv][0], op));
        }
    }
}

} // verus!
