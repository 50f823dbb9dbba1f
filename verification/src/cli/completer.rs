//! Completion candidates drawn from a graph: principals, ARNs, policy
//! names, accounts, actions, presets and query keywords.
use vstd::prelude::*;
use std::sync::Arc;
use crate::json::{Json, JsonValue, lemma_array_view, items_view};
use crate::text::{owned, chars_of, str_eq, starts_with, is_prefix, to_lowercase, unicode_lowercase};
use crate::ci_map::strings_view;
use crate::arns::{get_account_id, account_id_of};
use crate::edges::node_seq;
use crate::gathering::policy_seq;
use crate::model::graph::Graph;
use crate::model::node::Node;
use crate::model::policy::Policy;
use crate::policy_eval::statement_match::statements_of;

verus! {

broadcast use vstd::seq_lib::group_to_multiset_ensures;

/// Lexicographic order on character sequences (the order of `str`).
pub open spec fn lex_le(a: Seq<char>, b: Seq<char>) -> bool
    decreases a.len(),
{
    if a.len() == 0 {
        true
    } else if b.len() == 0 {
        false
    } else if a[0] != b[0] {
        a[0] < b[0]
    } else {
        lex_le(a.drop_first(), b.drop_first())
    }
}

pub proof fn lemma_lex_total(a: Seq<char>, b: Seq<char>)
    ensures
        lex_le(a, b) || lex_le(b, a),
    decreases a.len(),
{
    if a.len() > 0 && b.len() > 0 && a[0] == b[0] {
        lemma_lex_total(a.drop_first(), b.drop_first());
    }
}

pub proof fn lemma_lex_antisymmetric(a: Seq<char>, b: Seq<char>)
    requires
        lex_le(a, b),
        lex_le(b, a),
    ensures
        a == b,
    decreases a.len(),
{
    if a.len() == 0 {
        assert(b.len() == 0);
        assert(a =~= b);
    } else {
        lemma_lex_antisymmetric(a.drop_first(), b.drop_first());
        assert(a =~= seq![a[0]] + a.drop_first());
        assert(b =~= seq![b[0]] + b.drop_first());
    }
}

pub proof fn lemma_lex_transitive(a: Seq<char>, b: Seq<char>, c: Seq<char>)
    requires
        lex_le(a, b),
        lex_le(b, c),
    ensures
        lex_le(a, c),
    decreases a.len(),
{
    if a.len() > 0 && b.len() > 0 && c.len() > 0 && a[0] == b[0] && b[0] == c[0] {
        lemma_lex_transitive(a.drop_first(), b.drop_first(), c.drop_first());
    }
}

/// `a` comes before or equals `b` in the order of `str`.
pub fn lex_less_eq(a: &str, b: &str) -> (r: bool)
    ensures
        r == lex_le(a@, b@),
{
    let x = chars_of(a);
    let y = chars_of(b);
    let mut i: usize = 0;
    proof {
        assert(a@.skip(0) =~= a@);
        assert(b@.skip(0) =~= b@);
    }
    while i < x.len() && i < y.len()
        invariant
            x@ == a@,
            y@ == b@,
            i <= x@.len(),
            i <= y@.len(),
            lex_le(a@, b@) == lex_le(a@.skip(i as int), b@.skip(i as int)),
        decreases x@.len() - i,
    {
        let ghost sa = a@.skip(i as int);
        let ghost sb = b@.skip(i as int);
        proof {
            assert(sa[0] == x@[i as int]);
            assert(sb[0] == y@[i as int]);
            assert(sa.drop_first() =~= a@.skip(i + 1));
            assert(sb.drop_first() =~= b@.skip(i + 1));
        }
        if x[i] != y[i] {
            return x[i] < y[i];
        }
        i = i + 1;
    }
    proof {
        if i == x@.len() {
            assert(a@.skip(i as int).len() == 0);
        } else {
            assert(b@.skip(i as int).len() == 0);
        }
    }
    i == x.len()
}

proof fn lemma_push_contains(s: Seq<Seq<char>>, x: Seq<char>, t: Seq<char>)
    ensures
        s.push(x).contains(t) <==> (s.contains(t) || t == x),
{
    if s.push(x).contains(t) {
        let k = choose|k: int| 0 <= k < s.push(x).len() && s.push(x)[k] == t;
        if k < s.len() {
            assert(s[k] == t);
        }
    }
    if s.contains(t) {
        let k = choose|k: int| 0 <= k < s.len() && s[k] == t;
        assert(s.push(x)[k] == t);
    }
    if t == x {
        assert(s.push(x)[s.len() as int] == t);
    }
}

/// The sequence is in order.
pub open spec fn sorted(s: Seq<Seq<char>>) -> bool {
    forall|i: int, j: int| 0 <= i < j < s.len() ==> lex_le(#[trigger] s[i], #[trigger] s[j])
}

/// The sequence is in order with no repeats.
pub open spec fn strictly_sorted(s: Seq<Seq<char>>) -> bool {
    forall|i: int, j: int| 0 <= i < j < s.len() ==> lex_le(#[trigger] s[i], #[trigger] s[j]) && s[i] != s[j]
}

/// Inserts `x` after the elements that come before or equal it.
fn sorted_insert(v: &mut Vec<String>, x: String)
    requires
        sorted(strings_view(old(v)@)),
    ensures
        sorted(strings_view(final(v)@)),
        strings_view(final(v)@).to_multiset() == strings_view(old(v)@).to_multiset().insert(x@),
{
    let ghost old_s = strings_view(v@);
    let mut p: usize = 0;
    while p < v.len() && lex_less_eq(v[p].as_str(), x.as_str())
        invariant
            p <= v@.len(),
            old_s == strings_view(v@),
            forall|k: int| 0 <= k < p ==> lex_le(#[trigger] old_s[k], x@),
        decreases v@.len() - p,
    {
        p = p + 1;
    }
    let ghost xv = x@;
    v.insert(p, x);
    proof {
        let s = strings_view(v@);
        assert(s =~= old_s.insert(p as int, xv));
        if p < old_s.len() {
            assert(!lex_le(old_s[p as int], xv));
            lemma_lex_total(old_s[p as int], xv);
        }
        assert forall|i: int, j: int| 0 <= i < j < s.len() implies lex_le(#[trigger] s[i], #[trigger] s[j]) by {
            if j < p {
                assert(s[i] == old_s[i] && s[j] == old_s[j]);
            } else if j == p {
                assert(s[i] == old_s[i]);
            } else if i == p {
                assert(s[j] == old_s[j - 1]);
                if j - 1 > p {
                    assert(lex_le(old_s[p as int], old_s[j - 1]));
                    lemma_lex_transitive(xv, old_s[p as int], old_s[j - 1]);
                }
            } else if i < p {
                assert(s[i] == old_s[i] && s[j] == old_s[j - 1]);
                lemma_lex_transitive(old_s[i], xv, old_s[p as int]);
                if j - 1 > p {
                    lemma_lex_transitive(old_s[i], old_s[p as int], old_s[j - 1]);
                }
            } else {
                assert(s[i] == old_s[i - 1] && s[j] == old_s[j - 1]);
            }
        }
        assert(s.remove(p as int) =~= old_s);
        assert(s[p as int] == xv);
        assert(s.to_multiset().remove(xv) =~= old_s.to_multiset());
        assert(s.to_multiset() =~= old_s.to_multiset().insert(xv));
    }
}

/// The strings in order, duplicates kept.
pub fn sort_strings(v: Vec<String>) -> (r: Vec<String>)
    ensures
        sorted(strings_view(r@)),
        strings_view(r@).to_multiset() == strings_view(v@).to_multiset(),
{
    let ghost orig = strings_view(v@);
    let n = v.len();
    let mut rest = v;
    let mut out: Vec<String> = Vec::new();
    let mut i: usize = 0;
    proof {
        assert(orig.take(0) =~= Seq::<Seq<char>>::empty());
        assert(strings_view(out@) =~= Seq::<Seq<char>>::empty());
    }
    while i < n
        invariant
            i <= n,
            n == orig.len(),
            rest@.len() == n - i,
            forall|k: int| 0 <= k < rest@.len() ==> rest@[k]@ == orig[k + i],
            sorted(strings_view(out@)),
            strings_view(out@).to_multiset() == orig.take(i as int).to_multiset(),
        decreases n - i,
    {
        let x = rest.remove(0);
        proof {
            assert(x@ == orig[i as int]);
            assert(orig.take(i + 1) =~= orig.take(i as int).push(orig[i as int]));
        }
        sorted_insert(&mut out, x);
        i = i + 1;
    }
    proof {
        assert(orig.take(n as int) =~= orig);
    }
    out
}

/// The strings of a sorted list with repeats removed.
pub fn dedup_sorted(v: Vec<String>) -> (r: Vec<String>)
    requires
        sorted(strings_view(v@)),
    ensures
        strictly_sorted(strings_view(r@)),
        forall|s: Seq<char>| strings_view(r@).contains(s) <==> strings_view(v@).contains(s),
{
    let ghost orig = strings_view(v@);
    let n = v.len();
    let mut rest = v;
    let mut out: Vec<String> = Vec::new();
    let mut i: usize = 0;
    while i < n
        invariant
            i <= n,
            n == orig.len(),
            sorted(orig),
            rest@.len() == n - i,
            forall|k: int| 0 <= k < rest@.len() ==> rest@[k]@ == orig[k + i],
            strictly_sorted(strings_view(out@)),
            forall|s: Seq<char>| strings_view(out@).contains(s) <==> orig.take(i as int).contains(s),
            out@.len() > 0 ==> strings_view(out@).last() == orig[i - 1],
            out@.len() == 0 <==> i == 0,
        decreases n - i,
    {
        let x = rest.remove(0);
        let ghost xv = x@;
        let ghost prev = strings_view(out@);
        proof {
            assert(xv == orig[i as int]);
            assert(orig.take(i + 1) =~= orig.take(i as int).push(xv));
        }
        let dup = out.len() > 0 && str_eq(out[out.len() - 1].as_str(), x.as_str());
        if !dup {
            out.push(x);
            proof {
                let s = strings_view(out@);
                assert(s =~= prev.push(xv));
                if prev.len() > 0 {
                    assert(lex_le(orig[i - 1], orig[i as int]));
                }
                assert forall|a: int, b: int| 0 <= a < b < s.len() implies lex_le(#[trigger] s[a], #[trigger] s[b]) && s[a] != s[b] by {
                    if b == s.len() - 1 && a < b {
                        assert(prev.contains(prev[a]));
                        assert(orig.take(i as int).contains(prev[a]));
                        let pre = orig.take(i as int);
                        let k = choose|k: int| 0 <= k < pre.len() && pre[k] == prev[a];
                        assert(lex_le(orig[k], orig[i as int]));
                        if a < prev.len() - 1 {
                            assert(lex_le(prev[a], prev[prev.len() - 1]) && prev[a] != prev[prev.len() - 1]);
                            if prev[a] == xv {
                                lemma_lex_antisymmetric(prev[prev.len() - 1], xv);
                            }
                        }
                    }
                }
                assert forall|t: Seq<char>| s.contains(t) <==> orig.take(i + 1).contains(t) by {
                    lemma_push_contains(prev, xv, t);
                    lemma_push_contains(orig.take(i as int), xv, t);
                }
            }
        } else {
            proof {
                assert forall|t: Seq<char>| prev.contains(t) <==> orig.take(i + 1).contains(t) by {
                    lemma_push_contains(orig.take(i as int), xv, t);
                    assert(prev[prev.len() - 1] == xv);
                }
            }
        }
        i = i + 1;
    }
    proof {
        assert(orig.take(n as int) =~= orig);
    }
    out
}

/// The strings in order, each once.
pub fn sorted_unique(v: Vec<String>) -> (r: Vec<String>)
    ensures
        strictly_sorted(strings_view(r@)),
        forall|s: Seq<char>| strings_view(r@).contains(s) <==> strings_view(v@).contains(s),
{
    let ghost orig = strings_view(v@);
    let sorted_v = sort_strings(v);
    proof {
        assert forall|s: Seq<char>| strings_view(sorted_v@).contains(s) <==> orig.contains(s) by {
            assert(strings_view(sorted_v@).to_multiset().count(s) == orig.to_multiset().count(s));
        }
    }
    dedup_sorted(sorted_v)
}


/// The strings of a JSON array's string items other than `*`, in order.
pub open spec fn named_items(items: Seq<Json>) -> Seq<Seq<char>>
    decreases items.len(),
{
    if items.len() == 0 {
        Seq::empty()
    } else {
        let rest = named_items(items.drop_last());
        match items.last() {
            Json::Str(s) => if s == "*"@ { rest } else { rest.push(s) },
            _ => rest,
        }
    }
}

/// The actions that an `Action` or `NotAction` member names, `*` left out.
pub open spec fn member_actions(v: Option<Json>) -> Seq<Seq<char>> {
    match v {
        Some(Json::Str(s)) => if s == "*"@ { Seq::empty() } else { seq![s] },
        Some(Json::Array(items)) => named_items(items),
        _ => Seq::empty(),
    }
}

/// The actions that one statement names: its `Action`, then its `NotAction`.
pub open spec fn statement_actions(stmt: Json) -> Seq<Seq<char>> {
    member_actions(stmt.get("Action"@)) + member_actions(stmt.get("NotAction"@))
}

/// The actions that a list of statements names, statement by statement.
pub open spec fn statements_actions(stmts: Seq<Json>) -> Seq<Seq<char>>
    decreases stmts.len(),
{
    if stmts.len() == 0 {
        Seq::empty()
    } else {
        statements_actions(stmts.drop_last()) + statement_actions(stmts.last())
    }
}

/// The actions that a policy document names.
pub open spec fn doc_actions(doc: Json) -> Seq<Seq<char>> {
    statements_actions(statements_of(doc))
}

/// The actions that a list of policies names, policy by policy.
pub open spec fn policies_actions(ps: Seq<Policy>) -> Seq<Seq<char>>
    decreases ps.len(),
{
    if ps.len() == 0 {
        Seq::empty()
    } else {
        policies_actions(ps.drop_last()) + doc_actions(ps.last().policy_doc@)
    }
}

/// The actions that the policies attached to each principal name, principal by principal.
pub open spec fn attached_actions(ns: Seq<Node>) -> Seq<Seq<char>>
    decreases ns.len(),
{
    if ns.len() == 0 {
        Seq::empty()
    } else {
        attached_actions(ns.drop_last()) + policies_actions(ns.last().attached_policies@)
    }
}

/// `acc` with `x` added at its end, unless `x` is empty or already there.
pub open spec fn add_account(acc: Seq<Seq<char>>, x: Seq<char>) -> Seq<Seq<char>> {
    if acc.contains(x) || x.len() == 0 { acc } else { acc.push(x) }
}

/// The account list built from `first` and the accounts of the ARNs, in order.
pub open spec fn account_list(first: Seq<char>, arns: Seq<Seq<char>>) -> Seq<Seq<char>>
    decreases arns.len(),
{
    if arns.len() == 0 {
        seq![first]
    } else {
        add_account(account_list(first, arns.drop_last()), account_id_of(arns.last()))
    }
}

/// The ARNs of a list of principals.
pub open spec fn node_arns(ns: Seq<Node>) -> Seq<Seq<char>> {
    Seq::new(ns.len(), |i: int| ns[i].arn@)
}

/// The preset query names offered for completion.
pub open spec fn preset_names() -> Seq<Seq<char>> {
    seq!["privesc"@, "connected"@, "wrongadmin"@, "endgame"@, "serviceaccess"@, "clusters"@]
}

/// The query keywords offered for completion.
pub open spec fn keyword_names() -> Seq<Seq<char>> {
    seq!["who"@, "can"@, "do"@, "with"@, "when"@, "is"@, "and"@, "preset"@, "exit"@, "quit"@, "help"@]
}

/// Completion candidates extracted from a loaded graph.
pub struct GraphCompleter {
    /// Searchable names: "user/Alice", "role/Admin", etc.
    pub principals: Vec<String>,
    /// Full ARNs
    pub arns: Vec<String>,
    /// Policy names
    pub policy_names: Vec<String>,
    /// Account IDs seen
    pub account_ids: Vec<String>,
    /// IAM actions named in policies
    pub actions: Vec<String>,
    /// Preset names
    pub presets: Vec<String>,
    /// Query keywords
    pub keywords: Vec<String>,
}

/// Appends the actions that `doc` names to `out`.
fn extract_actions(doc: &JsonValue, out: &mut Vec<String>)
    ensures
        strings_view(final(out)@) == strings_view(old(out)@) + doc_actions(doc@),
{
    let ghost sts = statements_of(doc@);
    match doc.get("Statement") {
        Some(stmts) => match stmts {
            JsonValue::Array(arr) => {
                proof {
                    lemma_array_view(*stmts, *arr);
                    assert(sts == items_view(arr@));
                    assert(sts.take(0) =~= Seq::<Json>::empty());
                    assert(strings_view(out@) =~= strings_view(old(out)@) + statements_actions(sts.take(0)));
                }
                let mut i: usize = 0;
                while i < arr.len()
                    invariant
                        i <= arr.len(),
                        sts == items_view(arr@),
                        sts == statements_of(doc@),
                        strings_view(out@) == strings_view(old(out)@) + statements_actions(sts.take(i as int)),
                    decreases arr.len() - i,
                {
                    let ghost before = strings_view(out@);
                    statement_into(&arr[i], out);
                    proof {
                        assert(sts.take(i + 1).drop_last() =~= sts.take(i as int));
                        assert(sts.take(i + 1).last() == arr@[i as int]@);
                        assert(strings_view(out@) =~= strings_view(old(out)@) + statements_actions(sts.take(i + 1)));
                    }
                    i = i + 1;
                }
                proof {
                    assert(sts.take(arr@.len() as int) =~= sts);
                }
            },
            _ => {
                statement_into(stmts, out);
                proof {
                    assert(sts =~= seq![stmts@]);
                    assert(sts.drop_last() =~= Seq::<Json>::empty());
                    assert(sts.last() == stmts@);
                    assert(statements_actions(sts.drop_last()) =~= Seq::<Seq<char>>::empty());
                    assert(strings_view(out@) =~= strings_view(old(out)@) + statements_actions(sts));
                }
            },
        },
        None => {
            proof {
                assert(strings_view(out@) =~= strings_view(old(out)@) + doc_actions(doc@));
            }
        },
    }
}

/// Appends the actions that one statement names to `out`.
fn statement_into(stmt: &JsonValue, out: &mut Vec<String>)
    ensures
        strings_view(final(out)@) == strings_view(old(out)@) + statement_actions(stmt@),
{
    member_into(stmt.get("Action"), out);
    member_into(stmt.get("NotAction"), out);
    proof {
        assert(strings_view(out@) =~= strings_view(old(out)@) + statement_actions(stmt@));
    }
}

/// The view of an optional reference to a JSON value.
pub open spec fn opt_view(v: Option<&JsonValue>) -> Option<Json> {
    match v {
        Some(x) => Some(x@),
        None => None,
    }
}

/// Appends the actions that an `Action` or `NotAction` member names to `out`.
fn member_into(v: Option<&JsonValue>, out: &mut Vec<String>)
    ensures
        strings_view(final(out)@) == strings_view(old(out)@) + member_actions(opt_view(v)),
{
    proof {
        reveal_strlit("*");
    }
    match v {
        Some(JsonValue::Str(s)) => {
            if !str_eq(s.as_str(), "*") {
                out.push(owned(s.as_str()));
            }
            proof {
                assert(strings_view(out@) =~= strings_view(old(out)@) + member_actions(opt_view(v)));
            }
        },
        Some(x) => match x {
            JsonValue::Array(arr) => {
                proof {
                    lemma_array_view(*x, *arr);
                }
                let ghost items = items_view(arr@);
                let mut i: usize = 0;
                proof {
                    assert(items.take(0) =~= Seq::<Json>::empty());
                    assert(strings_view(out@) =~= strings_view(old(out)@) + named_items(items.take(0)));
                }
                while i < arr.len()
                    invariant
                        i <= arr.len(),
                        items == items_view(arr@),
                        strings_view(out@) == strings_view(old(out)@) + named_items(items.take(i as int)),
                    decreases arr.len() - i,
                {
                    proof {
                        assert(items.take(i + 1).drop_last() =~= items.take(i as int));
                        assert(items.take(i + 1).last() == arr@[i as int]@);
                    }
                    let ghost before = strings_view(out@);
                    match arr[i].as_str() {
                        Some(t) => {
                            proof {
                                assert(items[i as int] == Json::Str(t@));
                            }
                            if !str_eq(t, "*") {
                                out.push(owned(t));
                                proof {
                                    assert(strings_view(out@) =~= before.push(t@));
                                }
                            }
                        },
                        None => {
                            proof {
                                assert(!(items[i as int] is Str));
                            }
                        },
                    }
                    proof {
                        assert(strings_view(out@) =~= strings_view(old(out)@) + named_items(items.take(i + 1)));
                    }
                    i = i + 1;
                }
                proof {
                    assert(items.take(arr@.len() as int) =~= items);
                }
            },
            _ => {
                proof {
                    assert(strings_view(out@) =~= strings_view(old(out)@) + member_actions(opt_view(v)));
                }
            },
        },
        None => {
            proof {
                assert(strings_view(out@) =~= strings_view(old(out)@) + member_actions(opt_view(v)));
            }
        },
    }
}


/// The searchable names of a list of principals.
pub open spec fn node_names(ns: Seq<Node>) -> Seq<Seq<char>> {
    Seq::new(ns.len(), |i: int| ns[i].spec_searchable_name())
}

/// The names of a list of policies.
pub open spec fn policy_names_of(ps: Seq<Policy>) -> Seq<Seq<char>> {
    Seq::new(ps.len(), |i: int| ps[i].name@)
}

/// `s` is one of the strings of `v`.
pub fn list_has(v: &Vec<String>, s: &str) -> (r: bool)
    ensures
        r == strings_view(v@).contains(s@),
{
    let mut i: usize = 0;
    while i < v.len()
        invariant
            i <= v@.len(),
            forall|k: int| 0 <= k < i ==> v@[k]@ != s@,
        decreases v@.len() - i,
    {
        if str_eq(v[i].as_str(), s) {
            proof {
                assert(strings_view(v@)[i as int] == s@);
            }
            return true;
        }
        i = i + 1;
    }
    proof {
        if strings_view(v@).contains(s@) {
            let k = choose|k: int| 0 <= k < strings_view(v@).len() && strings_view(v@)[k] == s@;
            assert(v@[k]@ == s@);
        }
    }
    false
}

fn collect_names(ns: &Vec<Arc<Node>>) -> (r: Vec<String>)
    ensures
        strings_view(r@) == node_names(node_seq(ns@)),
{
    let mut out: Vec<String> = Vec::new();
    let mut i: usize = 0;
    while i < ns.len()
        invariant
            i <= ns@.len(),
            strings_view(out@) == node_names(node_seq(ns@)).take(i as int),
        decreases ns@.len() - i,
    {
        proof {
            assert(node_seq(ns@)[i as int] == *ns@[i as int]);
        }
        let ghost before = strings_view(out@);
        let nm = ns[i].searchable_name();
        assert(nm@ == node_names(node_seq(ns@))[i as int]);
        out.push(nm);
        assert(strings_view(out@) =~= before.push(nm@));
        assert(before.len() == i);
        i = i + 1;
        proof {
            assert(strings_view(out@) =~= node_names(node_seq(ns@)).take(i as int));
        }
    }
    proof {
        assert(node_names(node_seq(ns@)).take(i as int) =~= node_names(node_seq(ns@)));
    }
    out
}

fn collect_arns(ns: &Vec<Arc<Node>>) -> (r: Vec<String>)
    ensures
        strings_view(r@) == node_arns(node_seq(ns@)),
{
    let mut out: Vec<String> = Vec::new();
    let mut i: usize = 0;
    while i < ns.len()
        invariant
            i <= ns@.len(),
            strings_view(out@) == node_arns(node_seq(ns@)).take(i as int),
        decreases ns@.len() - i,
    {
        proof {
            assert(node_seq(ns@)[i as int] == *ns@[i as int]);
        }
        let ghost before = strings_view(out@);
        let a = owned(ns[i].arn.as_str());
        assert(a@ == node_arns(node_seq(ns@))[i as int]);
        out.push(a);
        assert(strings_view(out@) =~= before.push(a@));
        i = i + 1;
        proof {
            assert(strings_view(out@) =~= node_arns(node_seq(ns@)).take(i as int));
        }
    }
    proof {
        assert(node_arns(node_seq(ns@)).take(i as int) =~= node_arns(node_seq(ns@)));
    }
    out
}

fn collect_policy_names(ps: &Vec<Arc<Policy>>) -> (r: Vec<String>)
    ensures
        strings_view(r@) == policy_names_of(policy_seq(ps@)),
{
    let mut out: Vec<String> = Vec::new();
    let mut i: usize = 0;
    while i < ps.len()
        invariant
            i <= ps@.len(),
            strings_view(out@) == policy_names_of(policy_seq(ps@)).take(i as int),
        decreases ps@.len() - i,
    {
        proof {
            assert(policy_seq(ps@)[i as int] == *ps@[i as int]);
        }
        let ghost before = strings_view(out@);
        let a = owned(ps[i].name.as_str());
        assert(a@ == policy_names_of(policy_seq(ps@))[i as int]);
        out.push(a);
        assert(strings_view(out@) =~= before.push(a@));
        i = i + 1;
        proof {
            assert(strings_view(out@) =~= policy_names_of(policy_seq(ps@)).take(i as int));
        }
    }
    proof {
        assert(policy_names_of(policy_seq(ps@)).take(i as int) =~= policy_names_of(policy_seq(ps@)));
    }
    out
}

fn collect_accounts(first: &str, ns: &Vec<Arc<Node>>) -> (r: Vec<String>)
    ensures
        strings_view(r@) == account_list(first@, node_arns(node_seq(ns@))),
{
    let ghost arns = node_arns(node_seq(ns@));
    let mut out: Vec<String> = Vec::new();
    out.push(owned(first));
    proof {
        assert(arns.take(0) =~= Seq::<Seq<char>>::empty());
        assert(strings_view(out@) =~= account_list(first@, arns.take(0)));
    }
    let mut i: usize = 0;
    while i < ns.len()
        invariant
            i <= ns@.len(),
            arns == node_arns(node_seq(ns@)),
            strings_view(out@) == account_list(first@, arns.take(i as int)),
        decreases ns@.len() - i,
    {
        let acct = get_account_id(ns[i].arn.as_str());
        let ghost before = strings_view(out@);
        proof {
            assert(arns.take(i + 1).drop_last() =~= arns.take(i as int));
            assert(node_seq(ns@)[i as int] == *ns@[i as int]);
            assert(arns[i as int] == ns@[i as int].arn@);
            assert(arns.take(i + 1).last() == ns@[i as int].arn@);
            assert(acct@ == account_id_of(arns[i as int]));
            assert(account_list(first@, arns.take(i + 1)) == add_account(before, acct@));
        }
        proof {
            reveal_strlit("");
        }
        let ghost av = acct@;
        if !list_has(&out, acct.as_str()) && !str_eq(acct.as_str(), "") {
            proof {
                if av.len() == 0 {
                    assert(av =~= ""@);
                }
            }
            out.push(acct);
            proof {
                assert(strings_view(out@) =~= before.push(account_id_of(arns[i as int])));
            }
        } else {
            proof {
                if !before.contains(acct@) {
                    assert(acct@ == ""@);
                    assert(acct@.len() == 0);
                }
            }
        }
        i = i + 1;
    }
    proof {
        assert(arns.take(i as int) =~= arns);
    }
    out
}

fn collect_policy_actions(ps: &Vec<Policy>, out: &mut Vec<String>)
    ensures
        strings_view(final(out)@) == strings_view(old(out)@) + policies_actions(ps@),
{
    let mut i: usize = 0;
    proof {
        assert(ps@.take(0) =~= Seq::<Policy>::empty());
        assert(strings_view(out@) =~= strings_view(old(out)@) + policies_actions(ps@.take(0)));
    }
    while i < ps.len()
        invariant
            i <= ps@.len(),
            strings_view(out@) == strings_view(old(out)@) + policies_actions(ps@.take(i as int)),
        decreases ps@.len() - i,
    {
        extract_actions(&ps[i].policy_doc, out);
        proof {
            assert(ps@.take(i + 1).drop_last() =~= ps@.take(i as int));
            assert(strings_view(out@) =~= strings_view(old(out)@) + policies_actions(ps@.take(i + 1)));
        }
        i = i + 1;
    }
    proof {
        assert(ps@.take(i as int) =~= ps@);
    }
}

fn collect_actions(graph: &Graph) -> (r: Vec<String>)
    ensures
        strings_view(r@) == policies_actions(policy_seq(graph.policies@)) + attached_actions(node_seq(graph.nodes@)),
{
    let ghost ps = policy_seq(graph.policies@);
    let ghost ns = node_seq(graph.nodes@);
    let mut out: Vec<String> = Vec::new();
    let mut i: usize = 0;
    proof {
        assert(ps.take(0) =~= Seq::<Policy>::empty());
        assert(strings_view(out@) =~= policies_actions(ps.take(0)));
    }
    while i < graph.policies.len()
        invariant
            i <= graph.policies@.len(),
            ps == policy_seq(graph.policies@),
            strings_view(out@) == policies_actions(ps.take(i as int)),
        decreases graph.policies@.len() - i,
    {
        extract_actions(&graph.policies[i].policy_doc, &mut out);
        proof {
            assert(ps.take(i + 1).drop_last() =~= ps.take(i as int));
            assert(ps.take(i + 1).last() == *graph.policies@[i as int]);
            assert(strings_view(out@) =~= policies_actions(ps.take(i + 1)));
        }
        i = i + 1;
    }
    proof {
        assert(ps.take(i as int) =~= ps);
    }
    let ghost mid = strings_view(out@);
    let mut j: usize = 0;
    proof {
        assert(ns.take(0) =~= Seq::<Node>::empty());
        assert(strings_view(out@) =~= mid + attached_actions(ns.take(0)));
    }
    while j < graph.nodes.len()
        invariant
            j <= graph.nodes@.len(),
            ns == node_seq(graph.nodes@),
            strings_view(out@) == mid + attached_actions(ns.take(j as int)),
        decreases graph.nodes@.len() - j,
    {
        collect_policy_actions(&graph.nodes[j].attached_policies, &mut out);
        proof {
            assert(ns.take(j + 1).drop_last() =~= ns.take(j as int));
            assert(ns.take(j + 1).last() == *graph.nodes@[j as int]);
            assert(strings_view(out@) =~= mid + attached_actions(ns.take(j + 1)));
        }
        j = j + 1;
    }
    proof {
        assert(ns.take(j as int) =~= ns);
    }
    out
}

fn names_vec(a: &[&str]) -> (r: Vec<String>)
    ensures
        r@.len() == a@.len(),
        forall|i: int| 0 <= i < a@.len() ==> #[trigger] r@[i]@ == a@[i]@,
{
    let mut out: Vec<String> = Vec::new();
    let mut i: usize = 0;
    while i < a.len()
        invariant
            i <= a@.len(),
            out@.len() == i,
            forall|k: int| 0 <= k < i ==> #[trigger] out@[k]@ == a@[k]@,
        decreases a@.len() - i,
    {
        out.push(owned(a[i]));
        i = i + 1;
    }
    out
}

impl GraphCompleter {
    /// The candidates that a graph offers.
    pub fn from_graph(graph: &Graph) -> (r: Self)
        ensures
            strictly_sorted(strings_view(r.principals@)),
            forall|s: Seq<char>| strings_view(r.principals@).contains(s) <==> node_names(node_seq(graph.nodes@)).contains(s),
            sorted(strings_view(r.arns@)),
            strings_view(r.arns@).to_multiset() == node_arns(node_seq(graph.nodes@)).to_multiset(),
            strictly_sorted(strings_view(r.policy_names@)),
            forall|s: Seq<char>| strings_view(r.policy_names@).contains(s) <==> policy_names_of(policy_seq(graph.policies@)).contains(s),
            strings_view(r.account_ids@) == account_list(graph.metadata.account_id@, node_arns(node_seq(graph.nodes@))),
            strictly_sorted(strings_view(r.actions@)),
            forall|s: Seq<char>| strings_view(r.actions@).contains(s) <==> (policies_actions(policy_seq(graph.policies@)) + attached_actions(node_seq(graph.nodes@))).contains(s),
            strings_view(r.presets@) == preset_names(),
            strings_view(r.keywords@) == keyword_names(),
    {
        let principals = sorted_unique(collect_names(&graph.nodes));
        let arns = sort_strings(collect_arns(&graph.nodes));
        let policy_names = sorted_unique(collect_policy_names(&graph.policies));
        let account_ids = collect_accounts(graph.metadata.account_id.as_str(), &graph.nodes);
        let actions = sorted_unique(collect_actions(graph));
        let presets = names_vec(&["privesc", "connected", "wrongadmin", "endgame", "serviceaccess", "clusters"]);
        let keywords = names_vec(&["who", "can", "do", "with", "when", "is", "and", "preset", "exit", "quit", "help"]);
        proof {
            assert(strings_view(presets@) =~= preset_names());
            assert(strings_view(keywords@) =~= keyword_names());
        }
        GraphCompleter { principals, arns, policy_names, account_ids, actions, presets, keywords }
    }
}


/// The strings of `xs` that start with `lower`: each compared lower-cased (`ci`)
/// or as it is, in the order of `xs`.
pub open spec fn matching(xs: Seq<Seq<char>>, lower: Seq<char>, ci: bool) -> Seq<Seq<char>>
    decreases xs.len(),
{
    if xs.len() == 0 {
        Seq::empty()
    } else {
        let rest = matching(xs.drop_last(), lower, ci);
        let key = if ci { unicode_lowercase(xs.last()) } else { xs.last() };
        if is_prefix(lower, key) { rest.push(xs.last()) } else { rest }
    }
}

/// The contents of a list of string slices.
pub open spec fn str_views(v: Seq<&str>) -> Seq<Seq<char>> {
    Seq::new(v.len(), |i: int| v[i]@)
}

impl GraphCompleter {
    /// Every candidate that completes `word`, category by category.
    pub open spec fn word_matches(self, word: Seq<char>) -> Seq<Seq<char>> {
        let lower = unicode_lowercase(word);
        matching(strings_view(self.principals@), lower, true)
            + matching(strings_view(self.actions@), lower, true)
            + matching(strings_view(self.presets@), lower, false)
            + matching(strings_view(self.keywords@), lower, false)
            + matching(strings_view(self.arns@), lower, true)
            + matching(strings_view(self.account_ids@), lower, false)
            + matching(strings_view(self.policy_names@), lower, true)
    }

    /// Every completion candidate as one list: principals, actions, presets,
    /// keywords, ARNs, account ids and policy names, in that order.
    pub fn all_candidates(&self) -> (r: Vec<&str>)
        ensures
            str_views(r@) == strings_view(self.principals@) + strings_view(self.actions@)
                + strings_view(self.presets@) + strings_view(self.keywords@)
                + strings_view(self.arns@) + strings_view(self.account_ids@)
                + strings_view(self.policy_names@),
    {
        let mut all: Vec<&str> = Vec::new();
        push_refs(&self.principals, &mut all);
        push_refs(&self.actions, &mut all);
        push_refs(&self.presets, &mut all);
        push_refs(&self.keywords, &mut all);
        push_refs(&self.arns, &mut all);
        push_refs(&self.account_ids, &mut all);
        push_refs(&self.policy_names, &mut all);
        all
    }

    /// The candidates that complete a partial word, in order and each once.
    pub fn complete_word(&self, word: &str) -> (r: Vec<String>)
        ensures
            strictly_sorted(strings_view(r@)),
            forall|s: Seq<char>| strings_view(r@).contains(s) <==> self.word_matches(word@).contains(s),
    {
        let lower = to_lowercase(word);
        let mut results: Vec<String> = Vec::new();
        push_matching(&self.principals, lower.as_str(), true, &mut results);
        push_matching(&self.actions, lower.as_str(), true, &mut results);
        push_matching(&self.presets, lower.as_str(), false, &mut results);
        push_matching(&self.keywords, lower.as_str(), false, &mut results);
        push_matching(&self.arns, lower.as_str(), true, &mut results);
        push_matching(&self.account_ids, lower.as_str(), false, &mut results);
        push_matching(&self.policy_names, lower.as_str(), true, &mut results);
        proof {
            assert(strings_view(results@) =~= self.word_matches(word@));
        }
        sorted_unique(results)
    }
}

fn push_refs<'a>(xs: &'a Vec<String>, out: &mut Vec<&'a str>)
    ensures
        str_views(final(out)@) == str_views(old(out)@) + strings_view(xs@),
{
    let mut i: usize = 0;
    while i < xs.len()
        invariant
            i <= xs@.len(),
            str_views(out@) == str_views(old(out)@) + strings_view(xs@).take(i as int),
        decreases xs@.len() - i,
    {
        let ghost before = str_views(out@);
        out.push(xs[i].as_str());
        proof {
            assert(str_views(out@) =~= before.push(xs@[i as int]@));
            assert(strings_view(xs@).take(i + 1) =~= strings_view(xs@).take(i as int).push(xs@[i as int]@));
        }
        i = i + 1;
    }
    proof {
        assert(strings_view(xs@).take(i as int) =~= strings_view(xs@));
    }
}

fn push_matching(xs: &Vec<String>, lower: &str, ci: bool, out: &mut Vec<String>)
    ensures
        strings_view(final(out)@) == strings_view(old(out)@) + matching(strings_view(xs@), lower@, ci),
{
    let ghost all = strings_view(xs@);
    let mut i: usize = 0;
    proof {
        assert(all.take(0) =~= Seq::<Seq<char>>::empty());
        assert(strings_view(out@) =~= strings_view(old(out)@) + matching(all.take(0), lower@, ci));
    }
    while i < xs.len()
        invariant
            i <= xs@.len(),
            all == strings_view(xs@),
            strings_view(out@) == strings_view(old(out)@) + matching(all.take(i as int), lower@, ci),
        decreases xs@.len() - i,
    {
        let ghost before = strings_view(out@);
        proof {
            assert(all.take(i + 1).drop_last() =~= all.take(i as int));
            assert(all.take(i + 1).last() == xs@[i as int]@);
        }
        let hit = if ci {
            let k = to_lowercase(xs[i].as_str());
            starts_with(k.as_str(), lower)
        } else {
            starts_with(xs[i].as_str(), lower)
        };
        if hit {
            out.push(owned(xs[i].as_str()));
            proof {
                assert(strings_view(out@) =~= before.push(xs@[i as int]@));
            }
        }
        proof {
            assert(strings_view(out@) =~= strings_view(old(out)@) + matching(all.take(i + 1), lower@, ci));
        }
        i = i + 1;
    }
    proof {
        assert(all.take(i as int) =~= all);
    }
}


proof fn lemma_matching_from(xs: Seq<Seq<char>>, lower: Seq<char>, ci: bool, s: Seq<char>)
    ensures
        matching(xs, lower, ci).contains(s) ==> xs.contains(s),
    decreases xs.len(),
{
    if xs.len() > 0 {
        let rest = matching(xs.drop_last(), lower, ci);
        lemma_matching_from(xs.drop_last(), lower, ci, s);
        if matching(xs, lower, ci).contains(s) {
            lemma_push_contains(rest, xs.last(), s);
            if rest.contains(s) {
                let k = choose|k: int| 0 <= k < xs.drop_last().len() && xs.drop_last()[k] == s;
                assert(xs[k] == s);
            } else {
                assert(xs[xs.len() - 1] == s);
            }
        }
    }
}

proof fn lemma_concat_contains(a: Seq<Seq<char>>, b: Seq<Seq<char>>, s: Seq<char>)
    ensures
        (a + b).contains(s) <==> (a.contains(s) || b.contains(s)),
{
    if (a + b).contains(s) {
        let k = choose|k: int| 0 <= k < (a + b).len() && (a + b)[k] == s;
        if k < a.len() {
            assert(a[k] == s);
        } else {
            assert(b[k - a.len()] == s);
        }
    }
    if a.contains(s) {
        let k = choose|k: int| 0 <= k < a.len() && a[k] == s;
        assert((a + b)[k] == s);
    }
    if b.contains(s) {
        let k = choose|k: int| 0 <= k < b.len() && b[k] == s;
        assert((a + b)[k + a.len()] == s);
    }
}

/// Every completion of a word is one of the completer's candidates: a principal,
/// action, preset, keyword, ARN, account id or policy name.
pub proof fn law_completions_are_candidates(c: GraphCompleter, word: Seq<char>, s: Seq<char>)
    requires
        c.word_matches(word).contains(s),
    ensures
        strings_view(c.principals@).contains(s) || strings_view(c.actions@).contains(s)
            || strings_view(c.presets@).contains(s) || strings_view(c.keywords@).contains(s)
            || strings_view(c.arns@).contains(s) || strings_view(c.account_ids@).contains(s)
            || strings_view(c.policy_names@).contains(s),
{
    let lower = unicode_lowercase(word);
    let m1 = matching(strings_view(c.principals@), lower, true);
    let m2 = matching(strings_view(c.actions@), lower, true);
    let m3 = matching(strings_view(c.presets@), lower, false);
    let m4 = matching(strings_view(c.keywords@), lower, false);
    let m5 = matching(strings_view(c.arns@), lower, true);
    let m6 = matching(strings_view(c.account_ids@), lower, false);
    let m7 = matching(strings_view(c.policy_names@), lower, true);
    lemma_concat_contains(m1 + m2 + m3 + m4 + m5 + m6, m7, s);
    lemma_concat_contains(m1 + m2 + m3 + m4 + m5, m6, s);
    lemma_concat_contains(m1 + m2 + m3 + m4, m5, s);
    lemma_concat_contains(m1 + m2 + m3, m4, s);
    lemma_concat_contains(m1 + m2, m3, s);
    lemma_concat_contains(m1, m2, s);
    lemma_matching_from(strings_view(c.principals@), lower, true, s);
    lemma_matching_from(strings_view(c.actions@), lower, true, s);
    lemma_matching_from(strings_view(c.presets@), lower, false, s);
    lemma_matching_from(strings_view(c.keywords@), lower, false, s);
    lemma_matching_from(strings_view(c.arns@), lower, true, s);
    lemma_matching_from(strings_view(c.account_ids@), lower, false, s);
    lemma_matching_from(strings_view(c.policy_names@), lower, true, s);
}

} // verus!
