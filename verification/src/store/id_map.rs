//! A map from 64-bit identifiers to values that remembers insertion order.
use vstd::prelude::*;

verus! {

/// The keys of a list of entries, in order.
pub open spec fn keys_of<V>(entries: Seq<(u64, V)>) -> Seq<u64> {
    entries.map_values(|e: (u64, V)| e.0)
}

/// The map a list of entries with distinct keys stands for.
pub open spec fn map_of<V>(entries: Seq<(u64, V)>) -> Map<u64, V> {
    Map::new(
        |k: u64| keys_of(entries).contains(k),
        |k: u64| entries[keys_of(entries).index_of(k)].1,
    )
}

/// Finds the position of a key in a list of entries with distinct keys.
proof fn lemma_index_of<V>(entries: Seq<(u64, V)>, i: int)
    requires
        keys_of(entries).no_duplicates(),
        0 <= i < entries.len(),
    ensures
        keys_of(entries).contains(entries[i].0),
        keys_of(entries).index_of(entries[i].0) == i,
        map_of(entries).contains_key(entries[i].0),
        map_of(entries)[entries[i].0] == entries[i].1,
{
    let ks = keys_of(entries);
    assert(ks[i] == entries[i].0);
    let j = ks.index_of(entries[i].0);
    assert(0 <= j < ks.len() && ks[j] == entries[i].0);
}

/// An insertion-ordered map keyed by 64-bit identifiers.
pub struct IdMap<V> {
    entries: Vec<(u64, V)>,
}

impl<V> IdMap<V> {
    /// The keys in insertion order.
    pub closed spec fn key_seq(&self) -> Seq<u64> {
        keys_of(self.entries@)
    }

    /// The entries in insertion order.
    pub closed spec fn entry_seq(&self) -> Seq<(u64, V)> {
        self.entries@
    }

    /// The map of keys to values.
    pub closed spec fn map(&self) -> Map<u64, V> {
        map_of(self.entries@)
    }

    /// Keys are distinct.
    pub closed spec fn wf(&self) -> bool {
        keys_of(self.entries@).no_duplicates()
    }

    /// Facts about the views that every well-formed map satisfies.
    pub proof fn lemma_view(&self)
        requires
            self.wf(),
        ensures
            self.key_seq().no_duplicates(),
            self.key_seq().len() == self.entry_seq().len(),
            forall|i: int| 0 <= i < self.key_seq().len() ==> #[trigger] self.key_seq()[i] == self.entry_seq()[i].0,
            forall|k: u64| self.map().contains_key(k) == self.key_seq().contains(k),
            forall|i: int| 0 <= i < self.entry_seq().len() ==> #[trigger] self.map()[self.entry_seq()[i].0] == self.entry_seq()[i].1,
    {
        assert forall|i: int| 0 <= i < self.entry_seq().len() implies #[trigger] self.map()[self.entry_seq()[i].0] == self.entry_seq()[i].1 by {
            lemma_index_of(self.entries@, i);
        }
    }

    /// Creates an empty map.
    pub fn new() -> (m: IdMap<V>)
        ensures
            m.wf(),
            m.map() == Map::<u64, V>::empty(),
            m.key_seq() == Seq::<u64>::empty(),
            m.entry_seq() == Seq::<(u64, V)>::empty(),
    {
        let m = IdMap { entries: Vec::new() };
        assert(m.map() =~= Map::<u64, V>::empty());
        assert(m.key_seq() =~= Seq::<u64>::empty());
        m
    }

    /// Returns the position of `key`, if present.
    fn position(&self, key: u64) -> (p: Option<usize>)
        requires
            self.wf(),
        ensures
            match p {
                Some(i) => i < self.entries@.len() && self.entries@[i as int].0 == key,
                None => !self.key_seq().contains(key),
            },
    {
        let mut i: usize = 0;
        while i < self.entries.len()
            invariant
                i <= self.entries@.len(),
                forall|j: int| 0 <= j < i ==> self.entries@[j].0 != key,
            decreases self.entries@.len() - i,
        {
            if self.entries[i].0 == key {
                return Some(i);
            }
            i = i + 1;
        }
        proof {
            if self.key_seq().contains(key) {
                let j = self.key_seq().index_of(key);
                assert(self.key_seq()[j] == self.entries@[j].0);
            }
        }
        None
    }

    /// Returns the value of `key`, if present.
    pub fn get(&self, key: u64) -> (r: Option<&V>)
        requires
            self.wf(),
        ensures
            match r {
                Some(v) => self.map().contains_key(key) && self.map()[key] == *v,
                None => !self.map().contains_key(key),
            },
    {
        match self.position(key) {
            Some(i) => {
                proof {
                    lemma_index_of(self.entries@, i as int);
                }
                Some(&self.entries[i].1)
            },
            None => None,
        }
    }

    /// Returns `true` if `key` is present.
    pub fn contains_key(&self, key: u64) -> (b: bool)
        requires
            self.wf(),
        ensures
            b == self.map().contains_key(key),
    {
        match self.position(key) {
            Some(i) => {
                proof {
                    lemma_index_of(self.entries@, i as int);
                }
                true
            },
            None => false,
        }
    }

    /// Returns the number of entries.
    pub fn len(&self) -> (n: usize)
        requires
            self.wf(),
        ensures
            n == self.key_seq().len(),
    {
        self.entries.len()
    }

    /// Inserts `value` under `key`, replacing a present value in place or
    /// appending a new entry.
    pub fn insert(&mut self, key: u64, value: V)
        requires
            old(self).wf(),
        ensures
            final(self).wf(),
            final(self).map() == old(self).map().insert(key, value),
            old(self).key_seq().contains(key) ==> final(self).key_seq() == old(self).key_seq(),
            !old(self).key_seq().contains(key) ==> final(self).key_seq() == old(self).key_seq().push(key),
            old(self).key_seq().contains(key) ==> final(self).entry_seq() == old(self).entry_seq().update(
                old(self).key_seq().index_of(key),
                (key, value),
            ),
            !old(self).key_seq().contains(key) ==> final(self).entry_seq() == old(self).entry_seq().push((key, value)),
    {
        let ghost old_entries = self.entries@;
        match self.position(key) {
            Some(i) => {
                self.entries.set(i, (key, value));
                proof {
                    let ne = self.entries@;
                    assert(keys_of(ne) =~= keys_of(old_entries));
                    lemma_index_of(old_entries, i as int);
                    assert forall|k: u64| map_of(ne).contains_key(k) implies #[trigger] map_of(ne)[k] == map_of(old_entries).insert(key, value)[k] by {
                        assert(keys_of(ne).contains(k));
                        let j = keys_of(ne).index_of(k);
                        assert(keys_of(ne)[j] == k);
                        lemma_index_of(ne, j);
                        if k != key {
                            assert(ne[j] == old_entries[j]);
                            lemma_index_of(old_entries, j);
                        } else {
                            lemma_index_of(ne, i as int);
                        }
                    }
                    assert(map_of(ne).dom() =~= map_of(old_entries).insert(key, value).dom());
                    assert(map_of(ne) =~= map_of(old_entries).insert(key, value));
                }
            },
            None => {
                self.entries.push((key, value));
                proof {
                    let ne = self.entries@;
                    let n = old_entries.len() as int;
                    assert(keys_of(ne) =~= keys_of(old_entries).push(key));
                    assert forall|k: u64| map_of(ne).contains_key(k) implies #[trigger] map_of(ne)[k] == map_of(old_entries).insert(key, value)[k] by {
                        assert(keys_of(ne).contains(k));
                        let j = keys_of(ne).index_of(k);
                        assert(keys_of(ne)[j] == k);
                        lemma_index_of(ne, j);
                        if k != key {
                            assert(j < n);
                            assert(ne[j] == old_entries[j]);
                            lemma_index_of(old_entries, j);
                        } else {
                            lemma_index_of(ne, n);
                        }
                    }
                    assert forall|k: u64| #[trigger] map_of(ne).contains_key(k) == map_of(old_entries).insert(key, value).contains_key(k) by {
                        if k != key && keys_of(old_entries).contains(k) {
                            let j = keys_of(old_entries).index_of(k);
                            assert(keys_of(ne)[j] == k);
                        }
                        if k == key {
                            assert(keys_of(ne)[n] == k);
                        }
                    }
                    assert(map_of(ne).dom() =~= map_of(old_entries).insert(key, value).dom());
                    assert(map_of(ne) =~= map_of(old_entries).insert(key, value));
                }
            },
        }
    }

    /// Removes `key` and its value, keeping the order of the other entries.
    pub fn remove(&mut self, key: u64)
        requires
            old(self).wf(),
        ensures
            final(self).wf(),
            final(self).map() == old(self).map().remove(key),
            final(self).key_seq() == old(self).key_seq().filter(|k: u64| k != key),
            old(self).key_seq().contains(key) ==> final(self).entry_seq() == old(self).entry_seq().remove(
                old(self).key_seq().index_of(key),
            ),
            !old(self).key_seq().contains(key) ==> final(self).entry_seq() == old(self).entry_seq(),
    {
        let ghost old_entries = self.entries@;
        match self.position(key) {
            Some(i) => {
                let _ = self.entries.remove(i);
                proof {
                    let ne = self.entries@;
                    let ks = keys_of(old_entries);
                    assert(keys_of(ne) =~= ks.remove(i as int));
                    lemma_index_of(old_entries, i as int);
                    assert forall|k: u64| map_of(ne).contains_key(k) implies #[trigger] map_of(ne)[k] == map_of(old_entries).remove(key)[k] by {
                        assert(keys_of(ne).contains(k));
                        let j = keys_of(ne).index_of(k);
                        assert(keys_of(ne)[j] == k);
                        lemma_index_of(ne, j);
                        if j < i {
                            assert(ne[j] == old_entries[j]);
                            lemma_index_of(old_entries, j);
                        } else {
                            assert(ne[j] == old_entries[j + 1]);
                            lemma_index_of(old_entries, j + 1);
                        }
                    }
                    assert forall|k: u64| #[trigger] map_of(ne).contains_key(k) == map_of(old_entries).remove(key).contains_key(k) by {
                        if k != key && ks.contains(k) {
                            let j = ks.index_of(k);
                            if j < i {
                                assert(keys_of(ne)[j] == k);
                            } else {
                                assert(j != i);
                                assert(keys_of(ne)[j - 1] == k);
                            }
                        }
                        if keys_of(ne).contains(k) {
                            let j = keys_of(ne).index_of(k);
                            if j < i {
                                assert(ks[j] == k);
                            } else {
                                assert(ks[j + 1] == k);
                            }
                        }
                    }
                    assert(map_of(ne).dom() =~= map_of(old_entries).remove(key).dom());
                    assert(map_of(ne) =~= map_of(old_entries).remove(key));
                    lemma_filter_remove_unique(ks, i as int, key);
                }
            },
            None => {
                proof {
                    assert(map_of(self.entries@) =~= map_of(old_entries).remove(key));
                    lemma_filter_absent(keys_of(old_entries), key);
                }
            },
        }
    }

    /// Returns the keys in insertion order.
    pub fn keys(&self) -> (ks: Vec<u64>)
        requires
            self.wf(),
        ensures
            ks@ == self.key_seq(),
    {
        let mut ks: Vec<u64> = Vec::new();
        let mut i: usize = 0;
        while i < self.entries.len()
            invariant
                i <= self.entries@.len(),
                ks@ =~= keys_of(self.entries@).subrange(0, i as int),
            decreases self.entries@.len() - i,
        {
            ks.push(self.entries[i].0);
            i = i + 1;
        }
        proof {
            assert(ks@ =~= keys_of(self.entries@));
        }
        ks
    }

    /// Returns the entry at position `i` in insertion order.
    pub fn entry_at(&self, i: usize) -> (e: (u64, &V))
        requires
            i < self.entry_seq().len(),
        ensures
            e.0 == self.entry_seq()[i as int].0,
            *e.1 == self.entry_seq()[i as int].1,
    {
        (self.entries[i].0, &self.entries[i].1)
    }
}

/// Filtering out a key that occurs once removes exactly its position.
proof fn lemma_filter_remove_unique(ks: Seq<u64>, i: int, key: u64)
    requires
        ks.no_duplicates(),
        0 <= i < ks.len(),
        ks[i] == key,
    ensures
        ks.filter(|k: u64| k != key) == ks.remove(i),
    decreases ks.len(),
{
    reveal(Seq::filter);
    if i == ks.len() - 1 {
        lemma_filter_absent(ks.drop_last(), key);
        assert(ks.remove(i) =~= ks.drop_last());
    } else {
        let d = ks.drop_last();
        assert(d.no_duplicates());
        lemma_filter_remove_unique(d, i, key);
        assert(ks.remove(i) =~= d.remove(i).push(ks.last()));
        assert(ks.last() != key);
    }
}

/// Filtering out an absent key changes nothing.
proof fn lemma_filter_absent(ks: Seq<u64>, key: u64)
    requires
        !ks.contains(key),
    ensures
        ks.filter(|k: u64| k != key) == ks,
    decreases ks.len(),
{
    reveal(Seq::filter);
    if ks.len() > 0 {
        assert(!ks.drop_last().contains(key)) by {
            if ks.drop_last().contains(key) {
                let j = ks.drop_last().index_of(key);
                assert(ks[j] == key);
            }
        }
        lemma_filter_absent(ks.drop_last(), key);
        assert(ks.last() != key);
        assert(ks.drop_last().push(ks.last()) =~= ks);
    }
}

} // verus!
