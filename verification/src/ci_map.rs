//! A multi-valued map from condition-key names to values whose keys compare
//! without regard to ASCII case, as IAM condition keys do.
use vstd::prelude::*;
use crate::text::{fold, first_key, lemma_first_key, lemma_first_key_spec, lemma_first_key_none, eq_ignore_ascii_case, owned};

verus! {

/// One key with its values.
pub struct CiEntry {
    pub key: String,
    pub values: Vec<String>,
}

/// Condition context: condition-key names mapped to lists of values.
pub struct CaseInsensitiveMap {
    pub entries: Vec<CiEntry>,
}

/// The character sequences of a list of strings.
pub open spec fn strings_view(v: Seq<String>) -> Seq<Seq<char>> {
    Seq::new(v.len(), |i: int| v[i]@)
}

/// The case-folded keys of a list of entries.
pub open spec fn folded_keys(es: Seq<CiEntry>) -> Seq<Seq<char>> {
    Seq::new(es.len(), |i: int| fold(es[i].key@))
}

pub proof fn lemma_fold_idempotent(k: Seq<char>)
    ensures
        fold(fold(k)) == fold(k),
{
    assert(fold(fold(k)) =~= fold(k));
}

/// No two entries have keys that differ in ASCII case only.
pub open spec fn keys_distinct(es: Seq<CiEntry>) -> bool {
    forall|i: int, j: int| 0 <= i < es.len() && 0 <= j < es.len() && i != j ==> fold(#[trigger] es[i].key@) != fold(#[trigger] es[j].key@)
}

/// Lookup of folded key `fk` in a list of entries.
pub open spec fn entries_get(es: Seq<CiEntry>, fk: Seq<char>) -> Option<Seq<Seq<char>>> {
    match first_key(folded_keys(es), fk) {
        Some(i) => Some(strings_view(es[i].values@)),
        None => None,
    }
}

proof fn lemma_replace_entry(old_es: Seq<CiEntry>, new_es: Seq<CiEntry>, i: int, fk: Seq<char>, vv: Seq<Seq<char>>)
    requires
        first_key(folded_keys(old_es), fk) == Some(i),
        0 <= i < old_es.len(),
        new_es.len() == old_es.len(),
        new_es[i].key@ == old_es[i].key@,
        strings_view(new_es[i].values@) == vv,
        forall|j: int| 0 <= j < old_es.len() && j != i ==> new_es[j] == old_es[j],
    ensures
        forall|k: Seq<char>| #[trigger] entries_get(new_es, k) == if k == fk { Some(vv) } else { entries_get(old_es, k) },
{
    let ok = folded_keys(old_es);
    let nk = folded_keys(new_es);
    assert(nk =~= ok);
    lemma_first_key_spec(ok, fk);
    assert forall|k: Seq<char>| #[trigger] entries_get(new_es, k) == if k == fk { Some(vv) } else { entries_get(old_es, k) } by {
        if k != fk {
            lemma_first_key_spec(ok, k);
        }
    }
}

proof fn lemma_append_entry(old_es: Seq<CiEntry>, new_es: Seq<CiEntry>, fk: Seq<char>, vv: Seq<Seq<char>>)
    requires
        first_key(folded_keys(old_es), fk) is None,
        new_es.len() == old_es.len() + 1,
        fold(new_es[old_es.len() as int].key@) == fk,
        strings_view(new_es[old_es.len() as int].values@) == vv,
        forall|j: int| 0 <= j < old_es.len() ==> new_es[j] == old_es[j],
    ensures
        forall|k: Seq<char>| #[trigger] entries_get(new_es, k) == if k == fk { Some(vv) } else { entries_get(old_es, k) },
{
    let ok = folded_keys(old_es);
    let nk = folded_keys(new_es);
    let n = old_es.len() as int;
    lemma_first_key_spec(ok, fk);
    assert forall|j: int| 0 <= j < n implies nk[j] == ok[j] by {}
    assert forall|k: Seq<char>| #[trigger] entries_get(new_es, k) == if k == fk { Some(vv) } else { entries_get(old_es, k) } by {
        lemma_first_key_spec(ok, k);
        if k == fk {
            assert(nk[n] == k);
            assert forall|j: int| 0 <= j < n implies nk[j] != k by {
                assert(nk[j] == ok[j]);
            }
            lemma_first_key(nk, k, n);
        } else {
            match first_key(ok, k) {
                Some(j) => {
                    assert forall|m: int| 0 <= m < j implies nk[m] != k by {
                        assert(nk[m] == ok[m]);
                    }
                    lemma_first_key(nk, k, j);
                },
                None => {
                    assert forall|m: int| 0 <= m < nk.len() implies nk[m] != k by {
                        if m < n {
                            assert(nk[m] == ok[m]);
                        }
                    }
                    lemma_first_key_none(nk, k);
                },
            }
        }
    }
}

/// The context as a map from key names (in every casing) to values.
pub type ContextMap = Map<Seq<char>, Seq<Seq<char>>>;

/// Lookup in a context map.
pub open spec fn ctx_get(m: ContextMap, k: Seq<char>) -> Option<Seq<Seq<char>>> {
    if m.dom().contains(k) {
        Some(m[k])
    } else {
        None
    }
}

impl View for CaseInsensitiveMap {
    type V = ContextMap;

    open spec fn view(&self) -> ContextMap {
        Map::new(|k: Seq<char>| self.spec_get(k) is Some, |k: Seq<char>| self.spec_get(k)->0)
    }
}

impl CaseInsensitiveMap {
    /// Each key is held by one entry.
    pub open spec fn wf(&self) -> bool {
        keys_distinct(self.entries@)
    }

    /// The values recorded for `k`, compared without regard to ASCII case.
    pub open spec fn spec_get(&self, k: Seq<char>) -> Option<Seq<Seq<char>>> {
        entries_get(self.entries@, fold(k))
    }

    pub fn new() -> (m: Self)
        ensures
            m.wf(),
            m.entries@.len() == 0,
            forall|k: Seq<char>| m.spec_get(k) is None,
            forall|k: Seq<char>| #[trigger] ctx_get(m@, k) is None,
    {
        let m = CaseInsensitiveMap { entries: Vec::new() };
        proof {
            assert forall|k: Seq<char>| m.spec_get(k) is None by {
                lemma_first_key_none(folded_keys(m.entries@), fold(k));
            }
        }
        m
    }

    /// Index of the entry for `key`.
    fn find(&self, key: &str) -> (r: Option<usize>)
        ensures
            r matches Some(i) ==> first_key(folded_keys(self.entries@), fold(key@)) == Some(i as int)
                && i < self.entries@.len(),
            r is None ==> first_key(folded_keys(self.entries@), fold(key@)) is None,
    {
        let ghost keys = folded_keys(self.entries@);
        let mut i: usize = 0;
        while i < self.entries.len()
            invariant
                i <= self.entries.len(),
                keys == folded_keys(self.entries@),
                forall|k: int| 0 <= k < i ==> keys[k] != fold(key@),
            decreases self.entries.len() - i,
        {
            if eq_ignore_ascii_case(self.entries[i].key.as_str(), key) {
                proof {
                    lemma_first_key(keys, fold(key@), i as int);
                }
                return Some(i);
            }
            i = i + 1;
        }
        proof {
            lemma_first_key_none(keys, fold(key@));
        }
        None
    }

    /// The values of `key`.
    pub fn get(&self, key: &str) -> (r: Option<&Vec<String>>)
        ensures
            r matches Some(v) ==> self.spec_get(key@) == Some(strings_view(v@)),
            r is None ==> self.spec_get(key@) is None,
            r matches Some(v) ==> ctx_get(self@, key@) == Some(strings_view(v@)),
            r is None ==> ctx_get(self@, key@) is None,
    {
        match self.find(key) {
            Some(i) => {
                proof {
                    lemma_first_key_spec(folded_keys(self.entries@), fold(key@));
                }
                Some(&self.entries[i].values)
            },
            None => None,
        }
    }

    /// The first value of `key`, if it has one.
    pub fn get_first(&self, key: &str) -> (r: Option<&str>)
        ensures
            r matches Some(s) ==> self.spec_get(key@) matches Some(vs) && vs.len() > 0 && vs[0] == s@,
            r is None ==> self.spec_get(key@) is None || self.spec_get(key@)->0.len() == 0,
            r matches Some(s) ==> ctx_get(self@, key@) matches Some(vs) && vs.len() > 0 && vs[0] == s@,
            r is None ==> ctx_get(self@, key@) is None || ctx_get(self@, key@)->0.len() == 0,
    {
        match self.get(key) {
            Some(vals) => {
                if vals.len() > 0 {
                    Some(vals[0].as_str())
                } else {
                    None
                }
            },
            None => None,
        }
    }

    /// Sets `key` to the single value `value`, replacing what it held.
    pub fn insert_single(&mut self, key: &str, value: &str)
        ensures
            forall|k: Seq<char>| #[trigger] final(self).spec_get(k) == if fold(k) == fold(key@) {
                Some(seq![value@])
            } else {
                old(self).spec_get(k)
            },
            forall|k: Seq<char>| #[trigger] ctx_get(final(self)@, k) == if fold(k) == fold(key@) {
                Some(seq![value@])
            } else {
                ctx_get(old(self)@, k)
            },
            old(self).entries@.len() == 0 ==> final(self).entries@.len() == 1
                && final(self).entries@[0].key@ == key@
                && strings_view(final(self).entries@[0].values@) == seq![value@],
            old(self).wf() ==> final(self).wf(),
    {
        let mut vals: Vec<String> = Vec::new();
        vals.push(owned(value));
        proof {
            assert(strings_view(vals@) =~= seq![value@]);
        }
        self.put(key, vals);
    }

    /// Adds `value` to the values of `key`.
    pub fn insert(&mut self, key: &str, value: &str)
        ensures
            forall|k: Seq<char>| #[trigger] final(self).spec_get(k) == if fold(k) == fold(key@) {
                Some(match old(self).spec_get(k) {
                    Some(vs) => vs.push(value@),
                    None => seq![value@],
                })
            } else {
                old(self).spec_get(k)
            },
            forall|k: Seq<char>| #[trigger] ctx_get(final(self)@, k) == if fold(k) == fold(key@) {
                Some(match ctx_get(old(self)@, k) {
                    Some(vs) => vs.push(value@),
                    None => seq![value@],
                })
            } else {
                ctx_get(old(self)@, k)
            },
    {
        let mut vals: Vec<String> = match self.find(key) {
            Some(i) => {
                let v = self.entries[i].values.clone();
                proof {
                    lemma_first_key_spec(folded_keys(self.entries@), fold(key@));
                    assert(v@ =~= self.entries@[i as int].values@);
                }
                v
            },
            None => Vec::new(),
        };
        let ghost before = vals@;
        vals.push(owned(value));
        proof {
            assert(strings_view(vals@) =~= strings_view(before).push(value@));
            assert(strings_view(Seq::<String>::empty().push(vals@.last())) =~= seq![value@]);
            assert forall|k: Seq<char>| fold(k) == fold(key@) implies #[trigger] self.spec_get(k) == self.spec_get(key@) by {
                lemma_fold_idempotent(k);
            }
        }
        self.put(key, vals);
    }

    /// Replaces the values of `key` with `vals`.
    fn put(&mut self, key: &str, vals: Vec<String>)
        ensures
            forall|k: Seq<char>| #[trigger] final(self).spec_get(k) == if fold(k) == fold(key@) {
                Some(strings_view(vals@))
            } else {
                old(self).spec_get(k)
            },
            old(self).entries@.len() == 0 ==> final(self).entries@.len() == 1
                && final(self).entries@[0].key@ == key@
                && final(self).entries@[0].values == vals,
            old(self).wf() ==> final(self).wf(),
    {
        let ghost old_es = self.entries@;
        let ghost vv = strings_view(vals@);
        match self.find(key) {
            Some(i) => {
                let e = CiEntry { key: self.entries[i].key.clone(), values: vals };
                self.entries.set(i, e);
                proof {
                    lemma_replace_entry(old_es, self.entries@, i as int, fold(key@), vv);
                    assert forall|a: int| 0 <= a < self.entries@.len() implies #[trigger] self.entries@[a].key@ == old_es[a].key@ by {}
                }
            },
            None => {
                let e = CiEntry { key: owned(key), values: vals };
                self.entries.push(e);
                proof {
                    assert(old_es.len() == 0 ==> self.entries@ =~= seq![e]);
                }
                proof {
                    lemma_fold_idempotent(key@);
                    lemma_append_entry(old_es, self.entries@, fold(key@), vv);
                    lemma_first_key_spec(folded_keys(old_es), fold(key@));
                    if keys_distinct(old_es) {
                        let n = old_es.len() as int;
                        assert forall|a: int, b: int| 0 <= a < self.entries@.len() && 0 <= b < self.entries@.len() && a != b
                            implies fold(#[trigger] self.entries@[a].key@) != fold(#[trigger] self.entries@[b].key@) by {
                            if a < n && b < n {
                                assert(self.entries@[a] == old_es[a]);
                                assert(self.entries@[b] == old_es[b]);
                            } else if a < n {
                                assert(self.entries@[a] == old_es[a]);
                                assert(folded_keys(old_es)[a] == fold(old_es[a].key@));
                            } else {
                                assert(self.entries@[b] == old_es[b]);
                                assert(folded_keys(old_es)[b] == fold(old_es[b].key@));
                            }
                        }
                    }
                }
            },
        }
    }

    /// Number of distinct keys.
    pub fn len(&self) -> (r: usize)
        ensures
            r == self.entries@.len(),
    {
        self.entries.len()
    }
}

} // verus!
