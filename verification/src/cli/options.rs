//! Reading command-line lists, and the counts that a graph summary shows.
use vstd::prelude::*;
use crate::text::{str_eq, split_char, split_spec, trim, trimmed, fold, chars_of, find_char_from, first_char_from, string_of_range};
use crate::ci_map::CaseInsensitiveMap;
use crate::ci_map::strings_view;
use crate::edges::{CheckerKind, checker_named, all_checkers, node_seq};
use crate::model::graph::Graph;
use crate::model::node::Node;

verus! {

/// The checkers that a comma-separated list names, names trimmed and unknown
/// names skipped.
pub open spec fn named_checkers(parts: Seq<Seq<char>>) -> Seq<CheckerKind>
    decreases parts.len(),
{
    if parts.len() == 0 {
        Seq::empty()
    } else {
        let rest = named_checkers(parts.drop_last());
        match checker_named(trimmed(parts.last())) {
            Some(k) => rest.push(k),
            None => rest,
        }
    }
}

/// The checkers that an `--include-services` value selects: every one for
/// `all`, else those that its comma-separated names name.
pub open spec fn selected_checkers(list: Seq<char>) -> Seq<CheckerKind> {
    if list == "all"@ { all_checkers() } else { named_checkers(split_spec(list, ',')) }
}

/// The checkers that an `--include-services` value selects.
pub fn parse_checkers(list: &str) -> (r: Vec<CheckerKind>)
    ensures
        r@ == selected_checkers(list@),
{
    if str_eq(list, "all") {
        return CheckerKind::all();
    }
    let parts = split_char(list, ',');
    let ghost pv = strings_view(parts@);
    let mut out: Vec<CheckerKind> = Vec::new();
    let mut i: usize = 0;
    proof {
        assert(pv.take(0) =~= Seq::<Seq<char>>::empty());
    }
    while i < parts.len()
        invariant
            i <= parts@.len(),
            pv == strings_view(parts@),
            out@ == named_checkers(pv.take(i as int)),
        decreases parts@.len() - i,
    {
        proof {
            assert(pv.take(i + 1).drop_last() =~= pv.take(i as int));
            assert(pv.take(i + 1).last() == parts@[i as int]@);
        }
        let name = trim(parts[i].as_str());
        match CheckerKind::from_name(name.as_str()) {
            Some(k) => out.push(k),
            None => {},
        }
        i = i + 1;
    }
    proof {
        assert(pv.take(i as int) =~= pv);
    }
    out
}

/// The trimmed pieces of a comma-separated list.
pub open spec fn trimmed_parts(list: Seq<char>) -> Seq<Seq<char>> {
    Seq::new(split_spec(list, ',').len(), |i: int| trimmed(split_spec(list, ',')[i]))
}

/// The regions of a comma-separated list, each trimmed.
pub fn parse_list(list: &str) -> (r: Vec<String>)
    ensures
        strings_view(r@) == trimmed_parts(list@),
{
    let parts = split_char(list, ',');
    let mut out: Vec<String> = Vec::new();
    let mut i: usize = 0;
    while i < parts.len()
        invariant
            i <= parts@.len(),
            strings_view(parts@) == split_spec(list@, ','),
            out@.len() == i,
            forall|k: int| 0 <= k < i ==> #[trigger] out@[k]@ == trimmed(parts@[k]@),
        decreases parts@.len() - i,
    {
        out.push(trim(parts[i].as_str()));
        i = i + 1;
    }
    proof {
        assert forall|k: int| 0 <= k < out@.len() implies strings_view(out@)[k] == trimmed_parts(list@)[k] by {
            assert(strings_view(parts@)[k] == parts@[k]@);
        }
        assert(strings_view(out@) =~= trimmed_parts(list@));
    }
    out
}

/// How many principals of the list are users, roles and admins.
pub open spec fn kind_counts(ns: Seq<Node>) -> (nat, nat, nat)
    decreases ns.len(),
{
    if ns.len() == 0 {
        (0, 0, 0)
    } else {
        let (u, r, a) = kind_counts(ns.drop_last());
        let n = ns.last();
        (
            u + if n.spec_is_user() { 1nat } else { 0nat },
            r + if n.spec_is_role() { 1nat } else { 0nat },
            a + if n.is_admin { 1nat } else { 0nat },
        )
    }
}

proof fn lemma_counts_bounded(ns: Seq<Node>)
    ensures
        kind_counts(ns).0 <= ns.len(),
        kind_counts(ns).1 <= ns.len(),
        kind_counts(ns).2 <= ns.len(),
    decreases ns.len(),
{
    if ns.len() > 0 {
        lemma_counts_bounded(ns.drop_last());
    }
}

/// The numbers of users, roles and admins of a graph.
pub fn graph_counts(graph: &Graph) -> (r: (usize, usize, usize))
    ensures
        (r.0 as nat, r.1 as nat, r.2 as nat) == kind_counts(node_seq(graph.nodes@)),
{
    let ghost ns = node_seq(graph.nodes@);
    let mut users: usize = 0;
    let mut roles: usize = 0;
    let mut admins: usize = 0;
    let mut i: usize = 0;
    proof {
        assert(ns.take(0) =~= Seq::<Node>::empty());
    }
    while i < graph.nodes.len()
        invariant
            i <= graph.nodes@.len(),
            ns == node_seq(graph.nodes@),
            (users as nat, roles as nat, admins as nat) == kind_counts(ns.take(i as int)),
        decreases graph.nodes@.len() - i,
    {
        let n: &Node = &graph.nodes[i];
        proof {
            assert(ns[i as int] == *n);
            assert(ns.take(i + 1).drop_last() =~= ns.take(i as int));
            assert(ns.take(i + 1).last() == *n);
            lemma_counts_bounded(ns.take(i as int));
        }
        if n.is_user() {
            users = users + 1;
        }
        if n.is_role() {
            roles = roles + 1;
        }
        if n.is_admin {
            admins = admins + 1;
        }
        i = i + 1;
    }
    proof {
        assert(ns.take(i as int) =~= ns);
    }
    (users, roles, admins)
}


/// `s` split at its first `=`, as `str::split_once('=')`.
pub open spec fn split_at_eq(s: Seq<char>) -> Option<(Seq<char>, Seq<char>)> {
    match first_char_from(s, '=', 0) {
        Some(i) => Some((s.take(i), s.skip(i + 1))),
        None => None,
    }
}

/// The value that the `key=value` arguments give to `k`: the one of the last
/// argument whose key equals `k` ignoring ASCII case. Arguments without `=` are skipped.
pub open spec fn condition_value(conds: Seq<Seq<char>>, k: Seq<char>) -> Option<Seq<Seq<char>>>
    decreases conds.len(),
{
    if conds.len() == 0 {
        None
    } else {
        match split_at_eq(conds.last()) {
            Some((key, value)) => if fold(key) == fold(k) {
                Some(seq![value])
            } else {
                condition_value(conds.drop_last(), k)
            },
            None => condition_value(conds.drop_last(), k),
        }
    }
}

fn split_once_eq(s: &str) -> (r: Option<(String, String)>)
    ensures
        match r {
            Some((a, b)) => split_at_eq(s@) == Some((a@, b@)),
            None => split_at_eq(s@) is None,
        },
{
    let cs = chars_of(s);
    match find_char_from(&cs, '=', 0) {
        Some(i) => {
            let a = string_of_range(&cs, 0, i);
            let b = string_of_range(&cs, i + 1, cs.len());
            proof {
                assert(a@ =~= s@.take(i as int));
                assert(b@ =~= s@.skip(i + 1));
            }
            Some((a, b))
        },
        None => None,
    }
}

/// The condition keys of `key=value` arguments.
pub fn parse_condition_keys(conds: &Vec<String>) -> (r: CaseInsensitiveMap)
    ensures
        forall|k: Seq<char>| #[trigger] r.spec_get(k) == condition_value(strings_view(conds@), k),
{
    let ghost cv = strings_view(conds@);
    let mut m = CaseInsensitiveMap::new();
    let mut i: usize = 0;
    proof {
        assert(cv.take(0) =~= Seq::<Seq<char>>::empty());
    }
    while i < conds.len()
        invariant
            i <= conds@.len(),
            cv == strings_view(conds@),
            forall|k: Seq<char>| #[trigger] m.spec_get(k) == condition_value(cv.take(i as int), k),
        decreases conds@.len() - i,
    {
        proof {
            assert(cv.take(i + 1).drop_last() =~= cv.take(i as int));
            assert(cv.take(i + 1).last() == conds@[i as int]@);
        }
        match split_once_eq(conds[i].as_str()) {
            Some((key, value)) => {
                m.insert_single(key.as_str(), value.as_str());
                proof {
                    assert forall|k: Seq<char>| #[trigger] m.spec_get(k) == condition_value(cv.take(i + 1), k) by {
                        if fold(k) == fold(key@) {
                            assert(fold(key@) == fold(k));
                        }
                    }
                }
            },
            None => {
                proof {
                    assert forall|k: Seq<char>| #[trigger] m.spec_get(k) == condition_value(cv.take(i + 1), k) by {}
                }
            },
        }
        i = i + 1;
    }
    proof {
        assert(cv.take(i as int) =~= cv);
    }
    m
}

} // verus!
