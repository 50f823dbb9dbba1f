//! `Date*` condition operators. A date is either an epoch time in seconds or
//! a date-time text; instants are compared as (seconds, nanoseconds) pairs.
use vstd::prelude::*;
use crate::ci_map::strings_view;
use crate::decimal::{parse_decimal, parse_decimal_spec, epoch_parts, epoch_seconds, epoch_nanos};

verus! {

#[derive(Debug, Clone, Copy)]
pub enum DateOp {
    Equals,
    NotEquals,
    LessThan,
    LessThanEquals,
    GreaterThan,
    GreaterThanEquals,
}

/// The seconds from the epoch to 1 January of year -262143, 00:00:00 UTC: the
/// earliest instant chrono holds.
pub open spec fn earliest_timestamp() -> int {
    -8334601228800
}

/// The seconds from the epoch to 31 December of year 262142, 23:59:59 UTC:
/// the last whole second chrono holds.
pub open spec fn latest_timestamp() -> int {
    8210266876799
}

/// `chrono::DateTime::<Utc>::from_timestamp(secs, nanos)` as (timestamp,
/// subsecond nanoseconds): the instant itself when the day is within chrono's
/// years and the nanoseconds are below one second, or below two seconds in the
/// last second of a minute (a leap second); `None` otherwise.
pub open spec fn chrono_from_timestamp(secs: i64, nanos: u32) -> Option<(i64, u32)> {
    if earliest_timestamp() <= secs <= latest_timestamp()
        && (nanos < 1_000_000_000 || (nanos < 2_000_000_000 && (secs as int % 86400) % 60 == 59)) {
        Some((secs, nanos))
    } else {
        None
    }
}

/// `chrono::DateTime::parse_from_rfc3339(s)` as (timestamp, subsecond nanoseconds).
pub uninterp spec fn chrono_rfc3339(s: Seq<char>) -> Option<(i64, u32)>;

/// `chrono::NaiveDateTime::parse_from_str(s, fmt)`, read as UTC, as (timestamp, subsecond nanoseconds).
pub uninterp spec fn chrono_naive(s: Seq<char>, fmt: Seq<char>) -> Option<(i64, u32)>;

/// `chrono::DateTime::from_timestamp`, read back by `timestamp` and
/// `timestamp_subsec_nanos`: the instant at `secs` seconds and `nanos`
/// nanoseconds after the epoch, `None` out of chrono's range (the days of the
/// years -262143 to 262142, and nanoseconds as `chrono_from_timestamp` says).
#[verifier::external_body]
fn instant_from_timestamp(secs: i64, nanos: u32) -> (r: Option<(i64, u32)>)
    ensures
        r == chrono_from_timestamp(secs, nanos),
{
    match chrono::DateTime::from_timestamp(secs, nanos) {
        Some(t) => Some((t.timestamp(), t.timestamp_subsec_nanos())),
        None => None,
    }
}

/// `chrono::DateTime::parse_from_rfc3339`: claimed only to be a function of `s`.
#[verifier::external_body]
fn instant_from_rfc3339(s: &str) -> (r: Option<(i64, u32)>)
    ensures
        r == chrono_rfc3339(s@),
{
    match chrono::DateTime::parse_from_rfc3339(s) {
        Ok(t) => Some((t.timestamp(), t.timestamp_subsec_nanos())),
        Err(_) => None,
    }
}

/// `chrono::NaiveDateTime::parse_from_str` read as UTC: claimed only to be a
/// function of `s` and `fmt`.
#[verifier::external_body]
fn instant_from_naive(s: &str, fmt: &str) -> (r: Option<(i64, u32)>)
    ensures
        r == chrono_naive(s@, fmt@),
{
    match chrono::NaiveDateTime::parse_from_str(s, fmt) {
        Ok(t) => Some((t.and_utc().timestamp(), t.and_utc().timestamp_subsec_nanos())),
        Err(_) => None,
    }
}

/// The instant a condition value denotes: an epoch time when the value is a
/// decimal number, otherwise RFC 3339, then `%Y-%m-%dT%H:%M:%S`, then
/// `%Y-%m-%d %H:%M:%S`. An epoch time is read exactly, with no binary floating
/// point: its whole seconds, and its fraction cut to whole nanoseconds
/// (`1672531200.1` is 100000000 nanoseconds past the second). Spellings such
/// as `NaN` or `inf` are not numbers and denote no epoch time.
pub open spec fn date_of(s: Seq<char>) -> Option<(i64, u32)> {
    match parse_decimal_spec(s) {
        Some(d) => chrono_from_timestamp(epoch_seconds(d), epoch_nanos(d)),
        None => match chrono_rfc3339(s) {
            Some(t) => Some(t),
            None => match chrono_naive(s, "%Y-%m-%dT%H:%M:%S"@) {
                Some(t) => Some(t),
                None => chrono_naive(s, "%Y-%m-%d %H:%M:%S"@),
            },
        },
    }
}

pub fn parse_date(s: &str) -> (r: Option<(i64, u32)>)
    ensures
        r == date_of(s@),
{
    match parse_decimal(s) {
        Some(d) => {
            let (secs, nanos) = epoch_parts(&d);
            instant_from_timestamp(secs, nanos)
        },
        None => {
            match instant_from_rfc3339(s) {
                Some(t) => Some(t),
                None => {
                    match instant_from_naive(s, "%Y-%m-%dT%H:%M:%S") {
                        Some(t) => Some(t),
                        None => instant_from_naive(s, "%Y-%m-%d %H:%M:%S"),
                    }
                },
            }
        },
    }
}

/// Whether instant `a` stands in relation `op` to instant `b`.
pub open spec fn instant_satisfies(a: (i64, u32), b: (i64, u32), op: DateOp) -> bool {
    let lt = a.0 < b.0 || (a.0 == b.0 && a.1 < b.1);
    let eq = a.0 == b.0 && a.1 == b.1;
    match op {
        DateOp::Equals => eq,
        DateOp::NotEquals => !eq,
        DateOp::LessThan => lt,
        DateOp::LessThanEquals => lt || eq,
        DateOp::GreaterThan => !lt && !eq,
        DateOp::GreaterThanEquals => !lt,
    }
}

/// Both values are dates and they stand in relation `op`.
pub open spec fn date_pair(cv: Seq<char>, pv: Seq<char>, op: DateOp) -> bool {
    match (date_of(cv), date_of(pv)) {
        (Some(a), Some(b)) => instant_satisfies(a, b, op),
        _ => false,
    }
}

pub open spec fn date_holds(cvs: Seq<Seq<char>>, pvs: Seq<Seq<char>>, op: DateOp) -> bool {
    exists|i: int, j: int| 0 <= i < cvs.len() && 0 <= j < pvs.len() && #[trigger] date_pair(cvs[i], pvs[j], op)
}

fn satisfies(a: (i64, u32), b: (i64, u32), op: DateOp) -> (r: bool)
    ensures
        r == instant_satisfies(a, b, op),
{
    let lt = a.0 < b.0 || (a.0 == b.0 && a.1 < b.1);
    let eq = a.0 == b.0 && a.1 == b.1;
    match op {
        DateOp::Equals => eq,
        DateOp::NotEquals => !eq,
        DateOp::LessThan => lt,
        DateOp::LessThanEquals => lt || eq,
        DateOp::GreaterThan => !lt && !eq,
        DateOp::GreaterThanEquals => !lt,
    }
}

pub fn evaluate(context_values: &[String], policy_values: &[String], op: DateOp) -> (r: bool)
    ensures
        r == date_holds(strings_view(context_values@), strings_view(policy_values@), op),
{
    let ghost cv = strings_view(context_values@);
    let ghost pv = strings_view(policy_values@);
    let mut i: usize = 0;
    while i < context_values.len()
        invariant
            i <= context_values.len(),
            cv == strings_view(context_values@),
            pv == strings_view(policy_values@),
            forall|a: int, b: int| 0 <= a < i && 0 <= b < pv.len() ==> !#[trigger] date_pair(cv[a], pv[b], op),
        decreases context_values.len() - i,
    {
        match parse_date(context_values[i].as_str()) {
            Some(x) => {
                let mut j: usize = 0;
                while j < policy_values.len()
                    invariant
                        j <= policy_values.len(),
                        i < context_values.len(),
                        cv == strings_view(context_values@),
                        pv == strings_view(policy_values@),
                        date_of(cv[i as int]) == Some(x),
                        forall|b: int| 0 <= b < j ==> !#[trigger] date_pair(cv[i as int], pv[b], op),
                    decreases policy_values.len() - j,
                {
                    match parse_date(policy_values[j].as_str()) {
                        Some(y) => {
                            if satisfies(x, y, op) {
                                proof {
                                    assert(date_pair(cv[i as int], pv[j as int], op));
                                }
                                return true;
                            }
                        },
                        None => {},
                    }
                    j = j + 1;
                }
            },
            None => {},
        }
        i = i + 1;
    }
    false
}

} // verus!
