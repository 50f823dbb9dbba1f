//! The condition context of a request: keys inferred from the principal,
//! overridden by keys the caller supplies.
use vstd::prelude::*;
use crate::ci_map::{CaseInsensitiveMap, CiEntry, ContextMap, ctx_get, strings_view, keys_distinct, folded_keys, lemma_fold_idempotent};
use crate::model::node::{Node, Tag};
use crate::arns::{account_id_of, get_account_id};
use crate::text::{fold, is_prefix, int_text, i64_text, join2, chars_of, string_of_range, starts_with, first_key, lemma_first_key, lemma_first_key_spec};

verus! {

/// The moment a request is evaluated: its RFC 3339 text, its Unix time in
/// seconds and the nanoseconds within that second.
pub struct RequestTime {
    pub rfc3339: String,
    pub epoch_seconds: i64,
    pub subsec_nanos: u32,
}

/// `chrono::Utc::now()`, read as its Unix timestamp (`timestamp`) and the
/// nanoseconds within that second (`timestamp_subsec_nanos`). The clock's
/// reading: nothing is claimed of it.
#[verifier::external_body]
pub(crate) fn utc_now() -> (r: (i64, u32)) {
    let now = chrono::Utc::now();
    (now.timestamp(), now.timestamp_subsec_nanos())
}

/// `chrono::DateTime::<Utc>::from_timestamp(secs, nanos)` written by `to_rfc3339`.
pub uninterp spec fn rfc3339_of(secs: i64, nanos: u32) -> Option<Seq<char>>;

/// `chrono::DateTime::<Utc>::from_timestamp` then `to_rfc3339`: `None` when
/// the instant is out of chrono's range. Claimed only to be a function of
/// its arguments.
#[verifier::external_body]
fn rfc3339_text(secs: i64, nanos: u32) -> (r: Option<String>)
    ensures
        match r {
            Some(t) => rfc3339_of(secs, nanos) == Some(t@),
            None => rfc3339_of(secs, nanos) is None,
        },
{
    match chrono::DateTime::from_timestamp(secs, nanos) {
        Some(t) => Some(t.to_rfc3339()),
        None => None,
    }
}

/// The text of a time is the RFC 3339 writing of its own seconds and
/// nanoseconds, or empty where that instant cannot be written.
pub open spec fn time_consistent(n: RequestTime) -> bool {
    match rfc3339_of(n.epoch_seconds, n.subsec_nanos) {
        Some(t) => n.rfc3339@ == t,
        None => n.rfc3339@ == Seq::<char>::empty(),
    }
}

/// The present moment, from the clock: its seconds, its nanoseconds and the
/// text written from both.
pub(crate) fn current_time() -> (r: RequestTime)
    ensures
        time_consistent(r),
{
    let (secs, nanos) = utc_now();
    let text = match rfc3339_text(secs, nanos) {
        Some(t) => t,
        None => String::new(),
    };
    RequestTime { rfc3339: text, epoch_seconds: secs, subsec_nanos: nanos }
}

/// What a context holds after setting each key of `pairs` in turn to its
/// single value: the last pair whose key matches `k` (ASCII case ignored).
pub open spec fn singles_lookup(pairs: Seq<(Seq<char>, Seq<char>)>, k: Seq<char>) -> Option<Seq<Seq<char>>>
    decreases pairs.len(),
{
    if pairs.len() == 0 {
        None
    } else if fold(pairs.last().0) == fold(k) {
        Some(seq![pairs.last().1])
    } else {
        singles_lookup(pairs.drop_last(), k)
    }
}

/// The context `m` holds exactly what setting `pairs` in turn gives.
pub open spec fn holds_pairs(m: ContextMap, pairs: Seq<(Seq<char>, Seq<char>)>) -> bool {
    forall|k: Seq<char>| #[trigger] ctx_get(m, k) == singles_lookup(pairs, k)
}

/// `aws:username` for a user whose searchable name is `user/<name>`.
pub open spec fn username_pairs(node: Node) -> Seq<(Seq<char>, Seq<char>)> {
    let name = node.spec_searchable_name();
    if node.spec_is_user() && is_prefix("user/"@, name) {
        seq![("aws:username"@, name.skip(5))]
    } else {
        Seq::empty()
    }
}

/// `aws:PrincipalTag/<key>` for each tag of the principal.
pub open spec fn tag_pairs(tags: Seq<Tag>) -> Seq<(Seq<char>, Seq<char>)> {
    Seq::new(tags.len(), |i: int| ("aws:PrincipalTag/"@ + tags[i].key@, tags[i].value@))
}

/// The keys inferred for a principal at a given time, in the order they are set.
pub open spec fn inferred_pairs(node: Node, time: Seq<char>, epoch: i64) -> Seq<(Seq<char>, Seq<char>)> {
    seq![
        ("aws:CurrentTime"@, time),
        ("aws:EpochTime"@, int_text(epoch as int)),
        ("aws:SecureTransport"@, "true"@),
        ("aws:userid"@, node.id_value@),
        ("aws:PrincipalArn"@, node.arn@),
        ("aws:PrincipalAccount"@, account_id_of(node.arn@)),
    ] + username_pairs(node) + tag_pairs(node.tags@)
}

/// Each value of each entry, paired with the entry's key, in order.
pub open spec fn user_pairs(user: CaseInsensitiveMap) -> Seq<(Seq<char>, Seq<char>)> {
    entry_pairs(user.entries@.map_values(|e: crate::ci_map::CiEntry| (e.key@, strings_view(e.values@))))
}

/// Flattening of (key, values) entries into (key, value) pairs.
pub open spec fn entry_pairs(es: Seq<(Seq<char>, Seq<Seq<char>>)>) -> Seq<(Seq<char>, Seq<char>)>
    decreases es.len(),
{
    if es.len() == 0 {
        Seq::empty()
    } else {
        entry_pairs(es.drop_last()) + es.last().1.map_values(|v: Seq<char>| (es.last().0, v))
    }
}

/// The context prepared for a principal and the caller's keys (given as
/// the pairs they set, see `user_pairs`).
pub open spec fn prepared_pairs(node: Node, up: Seq<(Seq<char>, Seq<char>)>, time: Seq<char>, epoch: i64) -> Seq<(Seq<char>, Seq<char>)> {
    inferred_pairs(node, time, epoch) + up
}

/// The multi-factor keys set on top of a prepared context.
pub open spec fn mfa_pairs() -> Seq<(Seq<char>, Seq<char>)> {
    seq![("aws:MultiFactorAuthPresent"@, "true"@), ("aws:MultiFactorAuthAge"@, "1"@)]
}

/// The context prepared with multi-factor authentication.
pub open spec fn mfa_prepared_pairs(node: Node, up: Seq<(Seq<char>, Seq<char>)>, time: Seq<char>, epoch: i64) -> Seq<(Seq<char>, Seq<char>)> {
    prepared_pairs(node, up, time, epoch) + mfa_pairs()
}

/// The context that setting `pairs` in turn gives.
pub open spec fn pairs_context(pairs: Seq<(Seq<char>, Seq<char>)>) -> ContextMap {
    Map::new(|k: Seq<char>| singles_lookup(pairs, k) is Some, |k: Seq<char>| singles_lookup(pairs, k)->0)
}

/// The context prepared for a principal and the caller's keys at a given time.
pub open spec fn prepared_context(node: Node, up: Seq<(Seq<char>, Seq<char>)>, time: Seq<char>, epoch: i64) -> ContextMap {
    pairs_context(prepared_pairs(node, up, time, epoch))
}

/// The context prepared with multi-factor authentication at a given time.
pub open spec fn mfa_context(node: Node, up: Seq<(Seq<char>, Seq<char>)>, time: Seq<char>, epoch: i64) -> ContextMap {
    pairs_context(mfa_prepared_pairs(node, up, time, epoch))
}

/// A context that holds exactly what `pairs` sets is `pairs_context(pairs)`.
pub proof fn lemma_pairs_context(m: ContextMap, pairs: Seq<(Seq<char>, Seq<char>)>)
    requires
        holds_pairs(m, pairs),
    ensures
        m == pairs_context(pairs),
{
    assert forall|k: Seq<char>| m.dom().contains(k) == pairs_context(pairs).dom().contains(k) by {
        assert(ctx_get(m, k) == singles_lookup(pairs, k));
    }
    assert forall|k: Seq<char>| m.dom().contains(k) implies m[k] == pairs_context(pairs)[k] by {
        assert(ctx_get(m, k) == singles_lookup(pairs, k));
    }
    assert(m =~= pairs_context(pairs));
}

proof fn lemma_push_pair(m_old: ContextMap, m_new: ContextMap, pairs: Seq<(Seq<char>, Seq<char>)>, key: Seq<char>, value: Seq<char>)
    requires
        holds_pairs(m_old, pairs),
        forall|k: Seq<char>| #[trigger] ctx_get(m_new, k) == if fold(k) == fold(key) { Some(seq![value]) } else { ctx_get(m_old, k) },
    ensures
        holds_pairs(m_new, pairs.push((key, value))),
{
    assert forall|k: Seq<char>| #[trigger] ctx_get(m_new, k) == singles_lookup(pairs.push((key, value)), k) by {
        assert(pairs.push((key, value)).drop_last() =~= pairs);
        assert(ctx_get(m_old, k) == singles_lookup(pairs, k));
    }
}

/// Sets `key` to `value` in `ctx`, keeping the record of the pairs set so far.
fn set_pair(ctx: &mut CaseInsensitiveMap, key: &str, value: &str, Ghost(pairs): Ghost<Seq<(Seq<char>, Seq<char>)>>)
    requires
        holds_pairs(old(ctx)@, pairs),
    ensures
        holds_pairs(final(ctx)@, pairs.push((key@, value@))),
        old(ctx).wf() ==> final(ctx).wf(),
{
    let ghost before = ctx@;
    ctx.insert_single(key, value);
    proof {
        lemma_push_pair(before, ctx@, pairs, key@, value@);
    }
}

/// The condition keys inferred from a principal at time `now`: the current
/// time, the epoch time, secure transport, the principal's id, ARN and
/// account, a user's name, and a key per principal tag.
pub fn infer_condition_keys_at(node: &Node, now: &RequestTime) -> (r: CaseInsensitiveMap)
    ensures
        holds_pairs(r@, inferred_pairs(*node, now.rfc3339@, now.epoch_seconds)),
        r.wf(),
{
    let mut ctx = CaseInsensitiveMap::new();
    let ghost mut pairs: Seq<(Seq<char>, Seq<char>)> = Seq::empty();
    proof {
        assert forall|k: Seq<char>| #[trigger] ctx_get(ctx@, k) == singles_lookup(pairs, k) by {}
    }
    set_pair(&mut ctx, "aws:CurrentTime", now.rfc3339.as_str(), Ghost(pairs));
    proof { pairs = pairs.push(("aws:CurrentTime"@, now.rfc3339@)); }
    let epoch = i64_text(now.epoch_seconds);
    set_pair(&mut ctx, "aws:EpochTime", epoch.as_str(), Ghost(pairs));
    proof { pairs = pairs.push(("aws:EpochTime"@, epoch@)); }
    set_pair(&mut ctx, "aws:SecureTransport", "true", Ghost(pairs));
    proof { pairs = pairs.push(("aws:SecureTransport"@, "true"@)); }
    set_pair(&mut ctx, "aws:userid", node.id_value.as_str(), Ghost(pairs));
    proof { pairs = pairs.push(("aws:userid"@, node.id_value@)); }
    set_pair(&mut ctx, "aws:PrincipalArn", node.arn.as_str(), Ghost(pairs));
    proof { pairs = pairs.push(("aws:PrincipalArn"@, node.arn@)); }
    let account_id = get_account_id(node.arn.as_str());
    set_pair(&mut ctx, "aws:PrincipalAccount", account_id.as_str(), Ghost(pairs));
    proof { pairs = pairs.push(("aws:PrincipalAccount"@, account_id@)); }
    let ghost base = pairs;
    if node.is_user() {
        let searchable = node.searchable_name();
        if starts_with(searchable.as_str(), "user/") {
            let chars = chars_of(searchable.as_str());
            proof {
                reveal_strlit("user/");
            }
            let name = string_of_range(&chars, 5, chars.len());
            set_pair(&mut ctx, "aws:username", name.as_str(), Ghost(pairs));
            proof {
                pairs = pairs.push(("aws:username"@, name@));
                assert(name@ == searchable@.skip(5));
            }
        }
    }
    proof {
        assert(pairs =~= base + username_pairs(*node));
    }
    let ghost with_name = pairs;
    let mut i: usize = 0;
    while i < node.tags.len()
        invariant
            i <= node.tags.len(),
            pairs == with_name + tag_pairs(node.tags@.take(i as int)),
            holds_pairs(ctx@, pairs),
            ctx.wf(),
        decreases node.tags.len() - i,
    {
        let key = join2("aws:PrincipalTag/", node.tags[i].key.as_str());
        set_pair(&mut ctx, key.as_str(), node.tags[i].value.as_str(), Ghost(pairs));
        proof {
            pairs = pairs.push((key@, node.tags@[i as int].value@));
            assert(tag_pairs(node.tags@.take(i + 1)) =~= tag_pairs(node.tags@.take(i as int)).push((key@, node.tags@[i as int].value@)));
        }
        i = i + 1;
    }
    proof {
        assert(node.tags@.take(node.tags@.len() as int) =~= node.tags@);
        assert(pairs =~= inferred_pairs(*node, now.rfc3339@, now.epoch_seconds));
    }
    ctx
}

/// The condition keys inferred from a principal at the present moment.
pub fn infer_condition_keys(node: &Node) -> (r: CaseInsensitiveMap)
    ensures
        exists|n: RequestTime| time_consistent(n) && holds_pairs(r@, #[trigger] inferred_pairs(*node, n.rfc3339@, n.epoch_seconds)),
{
    let now = current_time();
    let r = infer_condition_keys_at(node, &now);
    proof {
        assert(holds_pairs(r@, inferred_pairs(*node, now.rfc3339@, now.epoch_seconds)));
    }
    r
}

/// The inferred keys at time `now`, then each value of each key the caller
/// gives, set in turn: a caller's key replaces an inferred one.
pub fn prepare_condition_context_at(node: &Node, user_keys: &CaseInsensitiveMap, now: &RequestTime) -> (r: CaseInsensitiveMap)
    ensures
        holds_pairs(r@, prepared_pairs(*node, user_pairs(*user_keys), now.rfc3339@, now.epoch_seconds)),
        r.wf(),
{
    let mut ctx = infer_condition_keys_at(node, now);
    let ghost inferred = inferred_pairs(*node, now.rfc3339@, now.epoch_seconds);
    let ghost es = user_keys.entries@.map_values(|e: crate::ci_map::CiEntry| (e.key@, strings_view(e.values@)));
    let ghost mut pairs = inferred;
    proof {
        assert(es.take(0) =~= Seq::<(Seq<char>, Seq<Seq<char>>)>::empty());
        assert(pairs =~= inferred + entry_pairs(es.take(0)));
    }
    let mut i: usize = 0;
    while i < user_keys.entries.len()
        invariant
            i <= user_keys.entries.len(),
            es == user_keys.entries@.map_values(|e: crate::ci_map::CiEntry| (e.key@, strings_view(e.values@))),
            pairs == inferred + entry_pairs(es.take(i as int)),
            holds_pairs(ctx@, pairs),
            ctx.wf(),
        decreases user_keys.entries.len() - i,
    {
        let entry = &user_keys.entries[i];
        let ghost base = pairs;
        let ghost ei = es[i as int];
        let mut j: usize = 0;
        proof {
            assert(ei.1.take(0).map_values(|v: Seq<char>| (ei.0, v)) =~= Seq::<(Seq<char>, Seq<char>)>::empty());
            assert(pairs =~= base + ei.1.take(0).map_values(|v: Seq<char>| (ei.0, v)));
        }
        while j < entry.values.len()
            invariant
                j <= entry.values.len(),
                entry == user_keys.entries@[i as int],
                ei == es[i as int],
                ei.0 == entry.key@,
                ei.1 == strings_view(entry.values@),
                pairs == base + ei.1.take(j as int).map_values(|v: Seq<char>| (ei.0, v)),
                holds_pairs(ctx@, pairs),
                ctx.wf(),
            decreases entry.values.len() - j,
        {
            set_pair(&mut ctx, entry.key.as_str(), entry.values[j].as_str(), Ghost(pairs));
            proof {
                pairs = pairs.push((entry.key@, entry.values@[j as int]@));
                assert(ei.1.take(j + 1).map_values(|v: Seq<char>| (ei.0, v)) =~= ei.1.take(j as int).map_values(|v: Seq<char>| (ei.0, v)).push((ei.0, ei.1[j as int])));
                assert(pairs =~= base + ei.1.take(j + 1).map_values(|v: Seq<char>| (ei.0, v)));
            }
            j = j + 1;
        }
        proof {
            assert(ei.1.take(ei.1.len() as int) =~= ei.1);
            assert(es.take(i + 1).drop_last() =~= es.take(i as int));
            assert(pairs =~= inferred + entry_pairs(es.take(i + 1)));
        }
        i = i + 1;
    }
    proof {
        assert(es.take(es.len() as int) =~= es);
    }
    ctx
}

/// The prepared context at the present moment.
pub fn prepare_condition_context(node: &Node, user_keys: &CaseInsensitiveMap) -> (r: CaseInsensitiveMap)
    ensures
        exists|n: RequestTime| time_consistent(n) && holds_pairs(r@, #[trigger] prepared_pairs(*node, user_pairs(*user_keys), n.rfc3339@, n.epoch_seconds)),
{
    let now = current_time();
    let r = prepare_condition_context_at(node, user_keys, &now);
    proof {
        assert(holds_pairs(r@, prepared_pairs(*node, user_pairs(*user_keys), now.rfc3339@, now.epoch_seconds)));
    }
    r
}

/// The prepared context at time `now` with multi-factor authentication
/// present and one second old.
pub fn prepare_mfa_context_at(node: &Node, user_keys: &CaseInsensitiveMap, now: &RequestTime) -> (r: CaseInsensitiveMap)
    ensures
        holds_pairs(r@, mfa_prepared_pairs(*node, user_pairs(*user_keys), now.rfc3339@, now.epoch_seconds)),
        r.wf(),
{
    let mut ctx = prepare_condition_context_at(node, user_keys, now);
    let ghost p0 = prepared_pairs(*node, user_pairs(*user_keys), now.rfc3339@, now.epoch_seconds);
    set_pair(&mut ctx, "aws:MultiFactorAuthPresent", "true", Ghost(p0));
    let ghost p1 = p0.push(("aws:MultiFactorAuthPresent"@, "true"@));
    set_pair(&mut ctx, "aws:MultiFactorAuthAge", "1", Ghost(p1));
    proof {
        assert(p1.push(("aws:MultiFactorAuthAge"@, "1"@)) =~= mfa_prepared_pairs(*node, user_pairs(*user_keys), now.rfc3339@, now.epoch_seconds));
    }
    ctx
}

/// The multi-factor context at the present moment.
pub fn prepare_mfa_context(node: &Node, user_keys: &CaseInsensitiveMap) -> (r: CaseInsensitiveMap)
    ensures
        exists|n: RequestTime| time_consistent(n) && holds_pairs(r@, #[trigger] mfa_prepared_pairs(*node, user_pairs(*user_keys), n.rfc3339@, n.epoch_seconds)),
        r.wf(),
{
    let now = current_time();
    let r = prepare_mfa_context_at(node, user_keys, &now);
    proof {
        assert(holds_pairs(r@, mfa_prepared_pairs(*node, user_pairs(*user_keys), now.rfc3339@, now.epoch_seconds)));
    }
    r
}

/// Keys set later replace keys set earlier: looking up `k` after setting
/// `a` then `b` finds `b`'s value when `b` sets `k`, and `a`'s otherwise.
pub proof fn lemma_later_pairs_win(a: Seq<(Seq<char>, Seq<char>)>, b: Seq<(Seq<char>, Seq<char>)>, k: Seq<char>)
    ensures
        singles_lookup(a + b, k) == match singles_lookup(b, k) {
            Some(v) => Some(v),
            None => singles_lookup(a, k),
        },
    decreases b.len(),
{
    if b.len() == 0 {
        assert(a + b =~= a);
    } else {
        assert((a + b).drop_last() =~= a + b.drop_last());
        lemma_later_pairs_win(a, b.drop_last(), k);
    }
}

/// A key the caller supplies (with at least one value) overrides the key
/// inferred from the principal: the prepared context holds the caller's
/// last value for it, and keys the caller does not set keep their inferred
/// values.
pub proof fn law_user_keys_take_precedence(node: Node, user: CaseInsensitiveMap, time: Seq<char>, epoch: i64, k: Seq<char>)
    ensures
        singles_lookup(user_pairs(user), k) is Some ==> singles_lookup(prepared_pairs(node, user_pairs(user), time, epoch), k) == singles_lookup(user_pairs(user), k),
        singles_lookup(user_pairs(user), k) is None ==> singles_lookup(prepared_pairs(node, user_pairs(user), time, epoch), k) == singles_lookup(inferred_pairs(node, time, epoch), k),
{
    lemma_later_pairs_win(inferred_pairs(node, time, epoch), user_pairs(user), k);
}

/// The multi-factor context always says that multi-factor authentication
/// is present and one second old, whatever the caller supplied.
pub proof fn law_mfa_keys_set(node: Node, up: Seq<(Seq<char>, Seq<char>)>, time: Seq<char>, epoch: i64)
    ensures
        singles_lookup(mfa_prepared_pairs(node, up, time, epoch), "aws:MultiFactorAuthPresent"@) == Some(seq!["true"@]),
        singles_lookup(mfa_prepared_pairs(node, up, time, epoch), "aws:MultiFactorAuthAge"@) == Some(seq!["1"@]),
{
    let p = prepared_pairs(node, up, time, epoch);
    lemma_later_pairs_win(p, mfa_pairs(), "aws:MultiFactorAuthPresent"@);
    lemma_later_pairs_win(p, mfa_pairs(), "aws:MultiFactorAuthAge"@);
    reveal_strlit("aws:MultiFactorAuthPresent");
    reveal_strlit("aws:MultiFactorAuthAge");
    assert(mfa_pairs().drop_last() =~= seq![("aws:MultiFactorAuthPresent"@, "true"@)]);
    assert(fold("aws:MultiFactorAuthAge"@) != fold("aws:MultiFactorAuthPresent"@)) by {
        assert(fold("aws:MultiFactorAuthAge"@)[19] != fold("aws:MultiFactorAuthPresent"@)[19]);
    }
    reveal_with_fuel(singles_lookup, 3);
}

proof fn lemma_lookup_single(pairs: Seq<(Seq<char>, Seq<char>)>, k: Seq<char>)
    ensures
        singles_lookup(pairs, k) matches Some(v) ==> v.len() == 1,
    decreases pairs.len(),
{
    if pairs.len() > 0 {
        lemma_lookup_single(pairs.drop_last(), k);
    }
}

/// Looking up `k` in the pairs of the first `n` entries of a map whose keys
/// are distinct and whose entries hold one value each finds the entry for `k`.
proof fn lemma_entry_pairs_prefix(es: Seq<CiEntry>, n: int, k: Seq<char>)
    requires
        0 <= n <= es.len(),
        keys_distinct(es),
        forall|i: int| 0 <= i < es.len() ==> (#[trigger] es[i].values@).len() == 1,
    ensures
        (forall|i: int| 0 <= i < n ==> fold(#[trigger] es[i].key@) != fold(k))
            ==> singles_lookup(entry_pairs(es.map_values(|e: CiEntry| (e.key@, strings_view(e.values@))).take(n)), k) is None,
        forall|i: int| 0 <= i < n && fold(#[trigger] es[i].key@) == fold(k)
            ==> singles_lookup(entry_pairs(es.map_values(|e: CiEntry| (e.key@, strings_view(e.values@))).take(n)), k) == Some(strings_view(es[i].values@)),
    decreases n,
{
    let ev = es.map_values(|e: CiEntry| (e.key@, strings_view(e.values@)));
    if n == 0 {
        assert(ev.take(0) =~= Seq::<(Seq<char>, Seq<Seq<char>>)>::empty());
    } else {
        lemma_entry_pairs_prefix(es, n - 1, k);
        let last = ev[n - 1];
        assert(ev.take(n).drop_last() =~= ev.take(n - 1));
        assert(ev.take(n).last() == last);
        assert(last.1 =~= seq![es[n - 1].values@[0]@]);
        let tail = last.1.map_values(|v: Seq<char>| (last.0, v));
        assert(tail =~= seq![(es[n - 1].key@, es[n - 1].values@[0]@)]);
        let front = entry_pairs(ev.take(n - 1));
        assert(entry_pairs(ev.take(n)) == front + tail);
        assert((front + tail).drop_last() =~= front);
        assert((front + tail).last() == (es[n - 1].key@, es[n - 1].values@[0]@));
        assert forall|i: int| 0 <= i < n && fold(#[trigger] es[i].key@) == fold(k)
            implies singles_lookup(entry_pairs(ev.take(n)), k) == Some(strings_view(es[i].values@)) by {
            if i < n - 1 {
                assert(fold(es[n - 1].key@) != fold(k));
            } else {
                assert(strings_view(es[i].values@) =~= seq![es[n - 1].values@[0]@]);
            }
        }
    }
}

/// In a map whose keys are distinct and whose entries hold one value each,
/// looking a key up among the pairs it sets gives what the map holds.
proof fn lemma_user_pairs_lookup(m: CaseInsensitiveMap, k: Seq<char>)
    requires
        m.wf(),
        forall|i: int| 0 <= i < m.entries@.len() ==> (#[trigger] m.entries@[i].values@).len() == 1,
    ensures
        singles_lookup(user_pairs(m), k) == ctx_get(m@, k),
{
    let es = m.entries@;
    let ev = es.map_values(|e: CiEntry| (e.key@, strings_view(e.values@)));
    lemma_entry_pairs_prefix(es, es.len() as int, k);
    assert(ev.take(es.len() as int) =~= ev);
    let keys = folded_keys(es);
    lemma_first_key_spec(keys, fold(k));
    lemma_fold_idempotent(k);
    match first_key(keys, fold(k)) {
        Some(i) => {
            assert(keys[i] == fold(es[i].key@));
            assert(m.spec_get(k) == Some(strings_view(es[i].values@)));
        },
        None => {
            assert forall|i: int| 0 <= i < es.len() implies fold(#[trigger] es[i].key@) != fold(k) by {
                assert(keys[i] == fold(es[i].key@));
            }
        },
    }
}

/// Preparing again the context that multi-factor preparation gave (as the
/// full check does with whatever context it is handed) gives the
/// multi-factor context itself.
pub proof fn law_mfa_context_re_prepared(node: Node, up: Seq<(Seq<char>, Seq<char>)>, m: CaseInsensitiveMap, time: Seq<char>, epoch: i64)
    requires
        m.wf(),
        holds_pairs(m@, mfa_prepared_pairs(node, up, time, epoch)),
    ensures
        prepared_context(node, user_pairs(m), time, epoch) == mfa_context(node, up, time, epoch),
{
    let p = mfa_prepared_pairs(node, up, time, epoch);
    let inferred = inferred_pairs(node, time, epoch);
    let es = m.entries@;
    assert forall|i: int| 0 <= i < es.len() implies (#[trigger] es[i].values@).len() == 1 by {
        let keys = folded_keys(es);
        assert forall|j: int| 0 <= j < i implies keys[j] != fold(es[i].key@) by {
            assert(keys[j] == fold(es[j].key@));
        }
        lemma_fold_idempotent(es[i].key@);
        lemma_first_key(keys, fold(es[i].key@), i);
        assert(m.spec_get(es[i].key@) == Some(strings_view(es[i].values@)));
        assert(ctx_get(m@, es[i].key@) == singles_lookup(p, es[i].key@));
        lemma_lookup_single(p, es[i].key@);
        assert(strings_view(es[i].values@).len() == es[i].values@.len());
    }
    assert forall|k: Seq<char>| singles_lookup(inferred + user_pairs(m), k) == singles_lookup(p, k) by {
        lemma_user_pairs_lookup(m, k);
        assert(ctx_get(m@, k) == singles_lookup(p, k));
        lemma_later_pairs_win(inferred, user_pairs(m), k);
        lemma_later_pairs_win(inferred + up, mfa_pairs(), k);
        lemma_later_pairs_win(inferred, up, k);
    }
    assert(prepared_context(node, user_pairs(m), time, epoch) =~= mfa_context(node, up, time, epoch));
}

} // verus!
