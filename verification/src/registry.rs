//! The session registry: a mapping from session identifier to an owned
//! per-session record, the sole source of truth for "session exists".
//!
//! The registry is modelled as a `Map<Seq<char>, V>`; the implementation
//! keeps a vector of key/value pairs with pairwise-distinct keys.
use vstd::prelude::*;

verus! {

/// The map described by a sequence of key/value pairs; a later pair with
/// the same key wins.
pub open spec fn entries_map<V>(s: Seq<(String, V)>) -> Map<Seq<char>, V>
    decreases s.len(),
{
    if s.len() == 0 {
        Map::empty()
    } else {
        entries_map(s.drop_last()).insert(s.last().0@, s.last().1)
    }
}

pub open spec fn keys_distinct<V>(s: Seq<(String, V)>) -> bool {
    forall|i: int, j: int| 0 <= i < j < s.len() ==> s[i].0@ != s[j].0@
}

pub proof fn lemma_entries_map_dom<V>(s: Seq<(String, V)>, k: Seq<char>)
    ensures
        entries_map(s).dom().contains(k) <==> exists|i: int| 0 <= i < s.len() && s[i].0@ == k,
    decreases s.len(),
{
    if s.len() > 0 {
        lemma_entries_map_dom(s.drop_last(), k);
        if s.last().0@ == k {
            assert(s[s.len() - 1].0@ == k);
        } else if entries_map(s).dom().contains(k) {
            let i = choose|i: int| 0 <= i < s.drop_last().len() && s.drop_last()[i].0@ == k;
            assert(s[i].0@ == k);
        } else if exists|i: int| 0 <= i < s.len() && s[i].0@ == k {
            let i = choose|i: int| 0 <= i < s.len() && s[i].0@ == k;
            assert(s.drop_last()[i].0@ == k);
        }
    }
}

pub proof fn lemma_entries_map_index<V>(s: Seq<(String, V)>, i: int)
    requires
        keys_distinct(s),
        0 <= i < s.len(),
    ensures
        entries_map(s).dom().contains(s[i].0@),
        entries_map(s)[s[i].0@] == s[i].1,
    decreases s.len(),
{
    lemma_entries_map_dom(s, s[i].0@);
    if i < s.len() - 1 {
        assert(s[i].0@ != s.last().0@);
        assert(s.drop_last()[i] == s[i]);
        lemma_entries_map_index(s.drop_last(), i);
    }
}

pub proof fn lemma_entries_map_remove<V>(s: Seq<(String, V)>, i: int)
    requires
        keys_distinct(s),
        0 <= i < s.len(),
    ensures
        entries_map(s.remove(i)) == entries_map(s).remove(s[i].0@),
    decreases s.len(),
{
    if i == s.len() - 1 {
        assert(s.remove(i) =~= s.drop_last());
        lemma_entries_map_dom(s.drop_last(), s[i].0@);
        assert(entries_map(s.drop_last()) =~= entries_map(s).remove(s[i].0@));
    } else {
        assert(s.remove(i).last() == s.last());
        assert(s.remove(i).drop_last() =~= s.drop_last().remove(i));
        assert(s.drop_last()[i] == s[i]);
        lemma_entries_map_remove(s.drop_last(), i);
        assert(s[i].0@ != s.last().0@);
        assert(entries_map(s.remove(i)) =~= entries_map(s).remove(s[i].0@));
    }
}

pub proof fn lemma_entries_map_update<V>(s: Seq<(String, V)>, i: int, k: String, v: V)
    requires
        keys_distinct(s),
        0 <= i < s.len(),
        k@ == s[i].0@,
    ensures
        entries_map(s.update(i, (k, v))) == entries_map(s).insert(s[i].0@, v),
    decreases s.len(),
{
    if i == s.len() - 1 {
        assert(s.update(i, (k, v)).drop_last() =~= s.drop_last());
        assert(entries_map(s.update(i, (k, v))) =~= entries_map(s).insert(s[i].0@, v));
    } else {
        assert(s.update(i, (k, v)).last() == s.last());
        assert(s.update(i, (k, v)).drop_last() =~= s.drop_last().update(i, (k, v)));
        assert(s.drop_last()[i] == s[i]);
        lemma_entries_map_update(s.drop_last(), i, k, v);
        assert(s[i].0@ != s.last().0@);
        assert(entries_map(s.update(i, (k, v))) =~= entries_map(s).insert(s[i].0@, v));
    }
}

/// A concurrency-safe registry is this structure behind one lock owned by
/// the embedding application; every operation here is a single short
/// critical section and performs no I/O.
pub struct Registry<V> {
    entries: Vec<(String, V)>,
}

impl<V> Registry<V> {
    /// Distinct keys: each identifier names at most one session.
    pub closed spec fn wf(self) -> bool {
        keys_distinct(self.entries@)
    }

    /// The registry seen as a map from identifier to record.
    pub closed spec fn spec_map(self) -> Map<Seq<char>, V> {
        entries_map(self.entries@)
    }

    pub open spec fn spec_contains(self, k: Seq<char>) -> bool {
        self.spec_map().dom().contains(k)
    }

    pub closed spec fn spec_len(self) -> nat {
        self.entries@.len()
    }

    pub fn new() -> (r: Self)
        ensures
            r.wf(),
            r.spec_map() == Map::<Seq<char>, V>::empty(),
            r.spec_len() == 0,
    {
        Registry { entries: Vec::new() }
    }

    pub fn len(&self) -> (r: usize)
        ensures
            r == self.spec_len(),
    {
        self.entries.len()
    }

    fn index_of(&self, key: &String) -> (r: Option<usize>)
        requires
            self.wf(),
        ensures
            match r {
                Some(i) => i < self.entries@.len() && self.entries@[i as int].0@ == key@
                    && self.spec_contains(key@),
                None => !self.spec_contains(key@),
            },
    {
        let ghost s = self.entries@;
        let mut i: usize = 0;
        while i < self.entries.len()
            invariant
                i <= s.len(),
                s == self.entries@,
                forall|j: int| 0 <= j < i ==> s[j].0@ != key@,
            decreases s.len() - i,
        {
            if self.entries[i].0 == *key {
                proof {
                    lemma_entries_map_dom(s, key@);
                }
                return Some(i);
            }
            i += 1;
        }
        proof {
            lemma_entries_map_dom(s, key@);
        }
        None
    }

    pub fn contains_key(&self, key: &String) -> (r: bool)
        requires
            self.wf(),
        ensures
            r == self.spec_contains(key@),
    {
        self.index_of(key).is_some()
    }

    /// Look up the record for `key`.
    pub fn get(&self, key: &String) -> (r: Option<&V>)
        requires
            self.wf(),
        ensures
            match r {
                Some(v) => self.spec_contains(key@) && *v == self.spec_map()[key@],
                None => !self.spec_contains(key@),
            },
    {
        match self.index_of(key) {
            Some(i) => {
                proof {
                    lemma_entries_map_index(self.entries@, i as int);
                }
                Some(&self.entries[i].1)
            },
            None => None,
        }
    }

    /// Insert a record under an identifier not yet present.
    pub fn insert_fresh(&mut self, key: String, v: V)
        requires
            old(self).wf(),
            !old(self).spec_contains(key@),
        ensures
            final(self).wf(),
            final(self).spec_map() == old(self).spec_map().insert(key@, v),
            final(self).spec_len() == old(self).spec_len() + 1,
    {
        proof {
            lemma_entries_map_dom(self.entries@, key@);
        }
        let ghost s = self.entries@;
        self.entries.push((key, v));
        proof {
            assert(self.entries@.drop_last() =~= s);
        }
    }

    /// Replace the record under `key`, if present; reports whether it was.
    pub fn set(&mut self, key: &String, v: V) -> (r: bool)
        requires
            old(self).wf(),
        ensures
            final(self).wf(),
            r == old(self).spec_contains(key@),
            r ==> final(self).spec_map() == old(self).spec_map().insert(key@, v),
            !r ==> *final(self) == *old(self),
            final(self).spec_len() == old(self).spec_len(),
    {
        match self.index_of(key) {
            Some(i) => {
                let ghost s = self.entries@;
                let k = self.entries[i].0.clone();
                proof {
                    lemma_entries_map_update(s, i as int, k, v);
                }
                self.entries.set(i, (k, v));
                proof {
                    assert(forall|a: int, b: int|
                        0 <= a < b < self.entries@.len() ==> self.entries@[a].0@
                            != self.entries@[b].0@);
                }
                true
            },
            None => false,
        }
    }

    /// Remove and return the record under `key`; absent keys are left as a
    /// successful no-op, so removal is idempotent.
    pub fn remove(&mut self, key: &String) -> (r: Option<V>)
        requires
            old(self).wf(),
        ensures
            final(self).wf(),
            final(self).spec_map() == old(self).spec_map().remove(key@),
            match r {
                Some(v) => old(self).spec_contains(key@) && v == old(self).spec_map()[key@]
                    && final(self).spec_len() == old(self).spec_len() - 1,
                None => !old(self).spec_contains(key@) && *final(self) == *old(self),
            },
    {
        match self.index_of(key) {
            Some(i) => {
                let ghost s = self.entries@;
                proof {
                    lemma_entries_map_index(s, i as int);
                    lemma_entries_map_remove(s, i as int);
                }
                let (_, v) = self.entries.remove(i);
                proof {
                    assert(forall|a: int, b: int|
                        0 <= a < b < self.entries@.len() ==> self.entries@[a].0@
                            != self.entries@[b].0@);
                }
                Some(v)
            },
            None => {
                proof {
                    lemma_entries_map_dom(self.entries@, key@);
                    assert(self.spec_map() =~= self.spec_map().remove(key@));
                }
                None
            },
        }
    }

    /// Remove every record and return the identifiers that were present,
    /// leaving the registry empty.
    pub fn drain_keys(&mut self) -> (r: Vec<String>)
        requires
            old(self).wf(),
        ensures
            final(self).wf(),
            final(self).spec_map() == Map::<Seq<char>, V>::empty(),
            final(self).spec_len() == 0,
            forall|k: Seq<char>|
                old(self).spec_contains(k) <==> exists|i: int| 0 <= i < r@.len() && r@[i]@ == k,
    {
        let ghost s0 = self.entries@;
        let mut r: Vec<String> = Vec::new();
        loop
            invariant
                self.wf(),
                s0 == old(self).entries@,
                forall|k: Seq<char>|
                    #[trigger] entries_map(s0).dom().contains(k) <==> (self.spec_contains(k)
                        || exists|i: int| 0 <= i < r@.len() && r@[i]@ == k),
            decreases self.entries@.len(),
        {
            let ghost s = self.entries@;
            let ghost r0 = r@;
            match self.entries.pop() {
                Some((k, _)) => {
                    proof {
                        assert(self.entries@ =~= s.drop_last());
                        assert(forall|a: int, b: int|
                            0 <= a < b < self.entries@.len() ==> self.entries@[a].0@
                                != self.entries@[b].0@);
                    }
                    r.push(k);
                    proof {
                        assert(r@ =~= r0.push(k));
                        assert(r@[r0.len() as int]@ == s[s.len() - 1].0@);
                        assert forall|kk: Seq<char>|
                            #[trigger] entries_map(s0).dom().contains(kk) implies (
                        self.spec_contains(kk) || exists|i: int|
                            0 <= i < r@.len() && r@[i]@ == kk) by {
                            assert(entries_map(s).dom().contains(kk) || exists|i: int|
                                0 <= i < r0.len() && r0[i]@ == kk);
                            if entries_map(s).dom().contains(kk) {
                                lemma_entries_map_dom(s, kk);
                                lemma_entries_map_dom(s.drop_last(), kk);
                                let i = choose|i: int| 0 <= i < s.len() && s[i].0@ == kk;
                                if i < s.len() - 1 {
                                    assert(s.drop_last()[i].0@ == kk);
                                } else {
                                    assert(r@[r0.len() as int]@ == kk);
                                }
                            } else {
                                let i = choose|i: int| 0 <= i < r0.len() && r0[i]@ == kk;
                                assert(r@[i]@ == kk);
                            }
                        }
                        assert forall|kk: Seq<char>|
                            (self.spec_contains(kk) || exists|i: int|
                                0 <= i < r@.len() && r@[i]@ == kk)
                            implies #[trigger] entries_map(s0).dom().contains(kk) by {
                            if self.spec_contains(kk) {
                                lemma_entries_map_dom(s.drop_last(), kk);
                                let i = choose|i: int|
                                    0 <= i < s.drop_last().len() && s.drop_last()[i].0@ == kk;
                                assert(s[i].0@ == kk);
                                lemma_entries_map_dom(s, kk);
                                assert(entries_map(s).dom().contains(kk));
                            } else {
                                let i = choose|i: int| 0 <= i < r@.len() && r@[i]@ == kk;
                                if i < r0.len() {
                                    assert(r0[i]@ == kk);
                                } else {
                                    assert(kk == s[s.len() - 1].0@);
                                    lemma_entries_map_dom(s, kk);
                                    assert(entries_map(s).dom().contains(kk));
                                }
                            }
                        }
                    }
                },
                None => {
                    proof {
                        assert(self.entries@ =~= Seq::<(String, V)>::empty());
                        assert forall|k: Seq<char>|
                            old(self).spec_contains(k) <==> exists|i: int|
                                0 <= i < r@.len() && r@[i]@ == k by {
                            assert(entries_map(s0).dom().contains(k) <==> (self.spec_contains(k)
                                || exists|i: int| 0 <= i < r@.len() && r@[i]@ == k));
                            lemma_entries_map_dom(self.entries@, k);
                        }
                        assert forall|k: Seq<char>| !self.spec_contains(k) by {
                            lemma_entries_map_dom(self.entries@, k);
                        }
                        assert(self.spec_map() =~= Map::<Seq<char>, V>::empty());
                    }
                    return r;
                },
            }
        }
    }
}

} // verus!
