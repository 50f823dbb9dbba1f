//! Selecting and labelling cached policies for listing.
use vstd::prelude::*;
use crate::text::{to_lowercase, unicode_lowercase, contains_str, contains_seq, str_eq};
use crate::gathering::cache::{PolicyIndex, PolicyIndexEntry};
use crate::cli::colors::{painted, bold_cyan, yellow, magenta, bold_yellow, gray};

verus! {

/// `hay` contains `needle`, both lower-cased; an absent needle lets everything through.
pub open spec fn filter_ok(hay: Seq<char>, needle: Option<Seq<char>>) -> bool {
    match needle {
        Some(n) => contains_seq(unicode_lowercase(hay), unicode_lowercase(n)),
        None => true,
    }
}

/// The view of an optional filter.
pub open spec fn opt_str(o: Option<&str>) -> Option<Seq<char>> {
    match o {
        Some(s) => Some(s@),
        None => None,
    }
}

/// An entry passes every filter given: name, type and attached principal.
pub open spec fn entry_selected(e: PolicyIndexEntry, name: Option<Seq<char>>, policy_type: Option<Seq<char>>, attached_to: Option<Seq<char>>) -> bool {
    filter_ok(e.name@, name) && filter_ok(e.policy_type@, policy_type) && filter_ok(e.attached_to@, attached_to)
}

/// The indices of the entries that pass every filter, in order.
pub open spec fn selected_indices(es: Seq<PolicyIndexEntry>, name: Option<Seq<char>>, policy_type: Option<Seq<char>>, attached_to: Option<Seq<char>>) -> Seq<int>
    decreases es.len(),
{
    if es.len() == 0 {
        Seq::empty()
    } else {
        let rest = selected_indices(es.drop_last(), name, policy_type, attached_to);
        if entry_selected(es.last(), name, policy_type, attached_to) { rest.push(es.len() - 1) } else { rest }
    }
}

fn passes(hay: &str, needle: Option<&str>) -> (r: bool)
    ensures
        r == filter_ok(hay@, opt_str(needle)),
{
    match needle {
        Some(n) => {
            let h = to_lowercase(hay);
            let l = to_lowercase(n);
            contains_str(h.as_str(), l.as_str())
        },
        None => true,
    }
}

/// Whether an entry passes every filter given (substring matches, ignoring case).
pub fn entry_matches(e: &PolicyIndexEntry, name: Option<&str>, policy_type: Option<&str>, attached_to: Option<&str>) -> (r: bool)
    ensures
        r == entry_selected(*e, opt_str(name), opt_str(policy_type), opt_str(attached_to)),
{
    passes(e.name.as_str(), name) && passes(e.policy_type.as_str(), policy_type) && passes(e.attached_to.as_str(), attached_to)
}

/// The entries of the index that pass every filter given, in order.
pub fn filter_entries<'a>(index: &'a PolicyIndex, name: Option<&str>, policy_type: Option<&str>, attached_to: Option<&str>) -> (r: Vec<&'a PolicyIndexEntry>)
    ensures
        r@.len() == selected_indices(index.entries@, opt_str(name), opt_str(policy_type), opt_str(attached_to)).len(),
        forall|k: int| 0 <= k < r@.len() ==> {
            let i = #[trigger] selected_indices(index.entries@, opt_str(name), opt_str(policy_type), opt_str(attached_to))[k];
            0 <= i < index.entries@.len() && *r@[k] == index.entries@[i]
        },
{
    let ghost es = index.entries@;
    let ghost (nv, tv, av) = (opt_str(name), opt_str(policy_type), opt_str(attached_to));
    let mut out: Vec<&'a PolicyIndexEntry> = Vec::new();
    let mut i: usize = 0;
    proof {
        assert(es.take(0) =~= Seq::<PolicyIndexEntry>::empty());
    }
    while i < index.entries.len()
        invariant
            i <= es.len(),
            es == index.entries@,
            nv == opt_str(name),
            tv == opt_str(policy_type),
            av == opt_str(attached_to),
            out@.len() == selected_indices(es.take(i as int), nv, tv, av).len(),
            forall|k: int| 0 <= k < out@.len() ==> {
                let j = #[trigger] selected_indices(es.take(i as int), nv, tv, av)[k];
                0 <= j < i && *out@[k] == es[j]
            },
        decreases es.len() - i,
    {
        proof {
            assert(es.take(i + 1).drop_last() =~= es.take(i as int));
            assert(es.take(i + 1).last() == es[i as int]);
        }
        if entry_matches(&index.entries[i], name, policy_type, attached_to) {
            out.push(&index.entries[i]);
        }
        i = i + 1;
    }
    proof {
        assert(es.take(i as int) =~= es);
    }
    out
}

/// The colour code of a policy type in listings.
pub open spec fn type_code(t: Seq<char>) -> Seq<char> {
    if t == "managed"@ {
        "1;36"@
    } else if t == "inline-user"@ || t == "inline-role"@ || t == "inline-group"@ {
        "33"@
    } else if t == "trust"@ {
        "35"@
    } else if t == "permissions-boundary"@ {
        "1;33"@
    } else {
        "90"@
    }
}

/// A policy type, coloured by kind.
pub fn type_label(t: &str, color: bool) -> (r: String)
    ensures
        r@ == painted(type_code(t@), t@, color),
{
    if str_eq(t, "managed") {
        bold_cyan(t, color)
    } else if str_eq(t, "inline-user") || str_eq(t, "inline-role") || str_eq(t, "inline-group") {
        yellow(t, color)
    } else if str_eq(t, "trust") {
        magenta(t, color)
    } else if str_eq(t, "permissions-boundary") {
        bold_yellow(t, color)
    } else {
        gray(t, color)
    }
}

} // verus!
