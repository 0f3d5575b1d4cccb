//! A small map from byte strings to values, kept as a list of distinct keys.

use crate::buffer::bytes_of;
use crate::buffer::contents;
use crate::buffer::same_bytes;
use bytes::Bytes;
use vstd::prelude::*;

verus! {

/// A map keyed by byte strings. Two keys are the same key when they hold the
/// same bytes.
pub struct ByteMap<V> {
    entries: Vec<(Bytes, V)>,
}

impl<V> ByteMap<V> {
    /// The keys, in the order in which the map holds them.
    pub closed spec fn key_seq(&self) -> Seq<Seq<u8>> {
        Seq::new(self.entries@.len(), |i: int| contents(self.entries@[i].0))
    }

    /// The values, in the order of `key_seq`.
    pub closed spec fn value_seq(&self) -> Seq<V> {
        Seq::new(self.entries@.len(), |i: int| self.entries@[i].1)
    }

    /// No two places of the list hold the same key. Every operation keeps it
    /// so.
    pub closed spec fn wf(&self) -> bool {
        forall|i: int, j: int|
            0 <= i < j < self.entries@.len() ==> contents(#[trigger] self.entries@[i].0)
                != contents(#[trigger] self.entries@[j].0)
    }

    /// The map that the list stands for.
    pub closed spec fn view(&self) -> Map<Seq<u8>, V> {
        Map::new(
            |k: Seq<u8>| self.key_seq().contains(k),
            |k: Seq<u8>| self.value_seq()[self.key_seq().index_of(k)],
        )
    }

    /// The list holds each key of the map once, beside its value.
    pub proof fn lemma_listing(&self)
        requires
            self.wf(),
        ensures
            self.key_seq().len() == self.value_seq().len(),
            self.key_seq().no_duplicates(),
            forall|k: Seq<u8>| self@.contains_key(k) <==> self.key_seq().contains(k),
            forall|i: int|
                0 <= i < self.key_seq().len() ==> self@.contains_key(#[trigger] self.key_seq()[i])
                    && self@[self.key_seq()[i]] == self.value_seq()[i],
    {
        let ks = self.key_seq();
        assert forall|i: int, j: int| 0 <= i < ks.len() && 0 <= j < ks.len() && i != j implies ks[i]
            != ks[j] by {
            if i < j {
                assert(contents(self.entries@[i].0) != contents(self.entries@[j].0));
            } else {
                assert(contents(self.entries@[j].0) != contents(self.entries@[i].0));
            }
        }
        assert forall|i: int| 0 <= i < ks.len() implies self@.contains_key(#[trigger] ks[i])
            && self@[ks[i]] == self.value_seq()[i] by {
            assert(ks.contains(ks[i]));
            let j = ks.index_of(ks[i]);
            assert(ks[j] == ks[i]);
        }
    }

    pub fn new() -> (m: Self)
        ensures
            m.wf(),
            m@ == Map::<Seq<u8>, V>::empty(),
    {
        let m = ByteMap { entries: Vec::new() };
        assert(m@ =~= Map::<Seq<u8>, V>::empty());
        m
    }

    /// The number of keys.
    pub fn len(&self) -> (n: usize)
        requires
            self.wf(),
        ensures
            n == self.key_seq().len(),
            n == self@.dom().len(),
            self@.dom().finite(),
    {
        proof {
            self.lemma_listing();
            self.key_seq().unique_seq_to_set();
            assert(self.key_seq().to_set() =~= self@.dom());
        }
        self.entries.len()
    }

    /// Where `key` stands in the list, if it is a key of the map.
    pub fn position(&self, key: &[u8]) -> (found: Option<usize>)
        requires
            self.wf(),
        ensures
            match found {
                Some(i) => i < self.key_seq().len() && self.key_seq()[i as int] == key@,
                None => !self@.contains_key(key@),
            },
    {
        let mut i: usize = 0;
        while i < self.entries.len()
            invariant
                i <= self.entries@.len(),
                forall|j: int| 0 <= j < i ==> contents(self.entries@[j].0) != key@,
            decreases self.entries@.len() - i,
        {
            if same_bytes(bytes_of(&self.entries[i].0), key) {
                return Some(i);
            }
            i = i + 1;
        }
        None
    }

    pub fn contains_key(&self, key: &[u8]) -> (found: bool)
        requires
            self.wf(),
        ensures
            found == self@.contains_key(key@),
    {
        proof {
            self.lemma_listing();
        }
        self.position(key).is_some()
    }

    /// The value under `key`.
    pub fn get(&self, key: &[u8]) -> (found: Option<&V>)
        requires
            self.wf(),
        ensures
            match found {
                Some(v) => self@.contains_key(key@) && *v == self@[key@],
                None => !self@.contains_key(key@),
            },
    {
        proof {
            self.lemma_listing();
        }
        match self.position(key) {
            Some(i) => Some(&self.entries[i].1),
            None => None,
        }
    }

    /// The key at a place of the list.
    pub fn key_at(&self, i: usize) -> (key: &Bytes)
        requires
            i < self.key_seq().len(),
        ensures
            contents(*key) == self.key_seq()[i as int],
    {
        &self.entries[i].0
    }

    /// The value at a place of the list.
    pub fn value_at(&self, i: usize) -> (value: &V)
        requires
            i < self.key_seq().len(),
        ensures
            *value == self.value_seq()[i as int],
    {
        &self.entries[i].1
    }

    /// Takes `key` and its value out of the map.
    pub fn remove(&mut self, key: &[u8]) -> (removed: Option<V>)
        requires
            old(self).wf(),
        ensures
            final(self).wf(),
            final(self)@ == old(self)@.remove(key@),
            match removed {
                Some(v) => old(self)@.contains_key(key@) && v == old(self)@[key@],
                None => !old(self)@.contains_key(key@),
            },
    {
        proof {
            self.lemma_listing();
        }
        match self.position(key) {
            Some(i) => {
                let ghost before = self.entries@;
                let entry = self.entries.swap_remove(i);
                proof {
                    let after = self.entries@;
                    assert forall|a: int, b: int| 0 <= a < b < after.len() implies contents(
                        #[trigger] after[a].0,
                    ) != contents(#[trigger] after[b].0) by {
                        let a0 = if a == i { before.len() - 1 } else { a };
                        let b0 = if b == i { before.len() - 1 } else { b };
                        assert(after[a] == before[a0]);
                        assert(after[b] == before[b0]);
                        if a0 < b0 {
                            assert(contents(before[a0].0) != contents(before[b0].0));
                        } else {
                            assert(contents(before[b0].0) != contents(before[a0].0));
                        }
                    }
                }
                proof {
                    self.lemma_listing();
                    let after = self.entries@;
                    let m0 = old(self)@;
                    let m1 = self@;
                    assert forall|k: Seq<u8>| m1.contains_key(k) <==> m0.remove(key@).contains_key(
                        k,
                    ) by {
                        if m1.contains_key(k) {
                            let a = self.key_seq().index_of(k);
                            let a0 = if a == i { before.len() - 1 } else { a };
                            assert(after[a] == before[a0]);
                            assert(old(self).key_seq()[a0] == k);
                            assert(contents(before[a0].0) != contents(before[i as int].0)) by {
                                if a0 < i {
                                    assert(contents(before[a0].0) != contents(before[i as int].0));
                                } else {
                                    assert(contents(before[i as int].0) != contents(before[a0].0));
                                }
                            }
                        }
                        if m0.remove(key@).contains_key(k) {
                            let a0 = old(self).key_seq().index_of(k);
                            assert(a0 != i);
                            let a = if a0 == before.len() - 1 { i as int } else { a0 };
                            assert(after[a] == before[a0]);
                            assert(self.key_seq()[a] == k);
                        }
                    }
                    assert forall|k: Seq<u8>| m1.contains_key(k) implies m1[k] == m0.remove(
                        key@,
                    )[k] by {
                        let a = self.key_seq().index_of(k);
                        let a0 = if a == i { before.len() - 1 } else { a };
                        assert(after[a] == before[a0]);
                        assert(old(self).key_seq()[a0] == k);
                        assert(self.key_seq()[a] == k);
                    }
                    assert(m1 =~= m0.remove(key@));
                }
                Some(entry.1)
            },
            None => {
                assert(self@ =~= old(self)@.remove(key@));
                None
            },
        }
    }

    /// Puts `value` under `key`; a value that stood there before is returned.
    pub fn insert(&mut self, key: Bytes, value: V) -> (replaced: Option<V>)
        requires
            old(self).wf(),
        ensures
            final(self).wf(),
            final(self)@ == old(self)@.insert(contents(key), value),
            match replaced {
                Some(v) => old(self)@.contains_key(contents(key)) && v == old(self)@[contents(key)],
                None => !old(self)@.contains_key(contents(key)),
            },
    {
        let replaced = self.remove(bytes_of(&key));
        let ghost mid = self@;
        let ghost before = self.entries@;
        let ghost keys0 = self.key_seq();
        let ghost vals0 = self.value_seq();
        proof {
            self.lemma_listing();
            assert forall|a: int| 0 <= a < before.len() implies contents(before[a].0) != contents(
                key,
            ) by {
                assert(keys0[a] == contents(before[a].0));
            }
        }
        self.entries.push((key, value));
        proof {
            let after = self.entries@;
            assert forall|a: int, b: int| 0 <= a < b < after.len() implies contents(
                #[trigger] after[a].0,
            ) != contents(#[trigger] after[b].0) by {
                assert(after[a] == before[a]);
                if b < before.len() {
                    assert(after[b] == before[b]);
                    assert(contents(before[a].0) != contents(before[b].0));
                }
            }
            self.lemma_listing();
            let keys1 = self.key_seq();
            let m1 = self@;
            let goal = mid.insert(contents(key), value);
            assert forall|a: int| 0 <= a < before.len() implies keys1[a] == keys0[a]
                && self.value_seq()[a] == vals0[a] by {
                assert(after[a] == before[a]);
            }
            assert(keys1[before.len() as int] == contents(key));
            assert forall|k: Seq<u8>| m1.contains_key(k) <==> goal.contains_key(k) by {
                if m1.contains_key(k) {
                    let a = keys1.index_of(k);
                    assert(keys1[a] == k);
                    if a < before.len() {
                        assert(keys0[a] == k);
                    }
                }
                if goal.contains_key(k) && k != contents(key) {
                    let a = keys0.index_of(k);
                    assert(keys0[a] == k);
                    assert(keys1[a] == k);
                }
            }
            assert forall|k: Seq<u8>| m1.contains_key(k) implies m1[k] == goal[k] by {
                let a = keys1.index_of(k);
                assert(keys1[a] == k);
                if a < before.len() {
                    assert(keys0[a] == k);
                }
            }
            assert(m1 =~= goal);
            assert(goal =~= old(self)@.insert(contents(key), value));
        }
        replaced
    }
}

} // verus!
