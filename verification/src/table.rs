//! A small map for keys that are compared, not hashed.

use vstd::prelude::*;

verus! {

/// A key that can be compared.
pub trait TableKey: Sized + Copy {
    fn same(&self, other: &Self) -> (r: bool)
        ensures
            r == (*self == *other),
    ;
}

/// The place of a key among entries, or their number if it is not there.
pub open spec fn position<K, V>(entries: Seq<(K, V)>, key: K) -> int
    decreases entries.len(),
{
    if entries.len() == 0 || entries[0].0 == key {
        0
    } else {
        1 + position(entries.drop_first(), key)
    }
}

proof fn lemma_position<K, V>(entries: Seq<(K, V)>, key: K)
    ensures
        0 <= position(entries, key) <= entries.len(),
        position(entries, key) < entries.len() ==> entries[position(entries, key)].0 == key,
        forall|i: int| 0 <= i < position(entries, key) ==> (#[trigger] entries[i]).0 != key,
    decreases entries.len(),
{
    if entries.len() > 0 && entries[0].0 != key {
        let rest = entries.drop_first();
        lemma_position(rest, key);
        assert forall|i: int| 0 <= i < position(entries, key) implies (#[trigger] entries[i]).0
            != key by {
            if i > 0 {
                assert(entries[i] == rest[i - 1]);
            }
        }
    }
}

/// Keys with their values.
pub struct Table<K: TableKey, V: Copy> {
    entries: Vec<(K, V)>,
}

impl<K: TableKey, V: Copy> Table<K, V> {
    /// No key is there twice.
    pub closed spec fn wf(&self) -> bool {
        forall|i: int, j: int|
            0 <= i < j < self.entries@.len() ==> (#[trigger] self.entries@[i]).0 != (
            #[trigger] self.entries@[j]).0
    }
}

impl<K: TableKey, V: Copy> View for Table<K, V> {
    type V = Map<K, V>;

    closed spec fn view(&self) -> Map<K, V> {
        Map::new(
            |k: K| position(self.entries@, k) < self.entries@.len(),
            |k: K| self.entries@[position(self.entries@, k)].1,
        )
    }
}

impl<K: TableKey, V: Copy> Table<K, V> {
    pub fn new() -> (r: Self)
        ensures
            r@ == Map::<K, V>::empty(),
            r.wf(),
    {
        let r = Table { entries: Vec::new() };
        assert(r@ =~= Map::<K, V>::empty());
        r
    }

    fn find(&self, key: &K) -> (r: usize)
        ensures
            r == position(self.entries@, *key),
            r <= self.entries@.len(),
            r < self.entries@.len() ==> self.entries@[r as int].0 == *key,
            forall|i: int| 0 <= i < r ==> (#[trigger] self.entries@[i]).0 != *key,
    {
        let mut i: usize = 0;
        while i < self.entries.len() && !self.entries[i].0.same(key)
            invariant
                i <= self.entries@.len(),
                forall|j: int| 0 <= j < i ==> (#[trigger] self.entries@[j]).0 != *key,
            decreases self.entries@.len() - i,
        {
            i += 1;
        }
        proof {
            lemma_position(self.entries@, *key);
            let p = position(self.entries@, *key);
            if p < i {
                assert(self.entries@[p].0 != *key);
            }
        }
        i
    }

    /// What the table holds for a key.
    pub fn get(&self, key: &K) -> (r: Option<V>)
        ensures
            r == (if self@.contains_key(*key) {
                Some(self@[*key])
            } else {
                None
            }),
    {
        let i: usize = self.find(key);
        if i < self.entries.len() {
            Some(self.entries[i].1)
        } else {
            None
        }
    }

    /// Puts a value in for a key.
    pub fn insert(&mut self, key: K, value: V)
        ensures
            final(self)@ == old(self)@.insert(key, value),
            old(self).wf() ==> final(self).wf(),
    {
        let at: usize = self.find(&key);
        let ghost before = self.entries@;
        if at < self.entries.len() {
            self.entries.set(at, (key, value));
        } else {
            self.entries.push((key, value));
        }
        proof {
            let after = self.entries@;
            assert forall|k: K| #[trigger] position(after, k) == (if k == key {
                at as int
            } else if position(before, k) < before.len() {
                position(before, k)
            } else {
                after.len() as int
            }) by {
                lemma_position(before, k);
                lemma_position(after, k);
                let p = position(after, k);
                let q = position(before, k);
                if k == key {
                    if p < at {
                        assert(after[p] == before[p]);
                    } else if p > at {
                        assert(after[at as int].0 == key);
                    }
                } else if q < before.len() {
                    assert(q != at);
                    assert(after[q] == before[q]);
                    if p < q {
                        assert(p == at || after[p] == before[p]);
                    }
                } else if p < after.len() {
                    assert(p != at);
                    assert(after[p] == before[p]);
                }
            }
            let want = old(self)@.insert(key, value);
            assert forall|k: K| #[trigger] self@.dom().contains(k) <==> want.dom().contains(k) by {
                let p = position(after, k);
                lemma_position(before, k);
            }
            assert forall|k: K| #[trigger] self@.dom().contains(k) implies self@[k] == want[k] by {
                let p = position(after, k);
                lemma_position(before, k);
                if k != key {
                    assert(after[p] == before[p]);
                }
            }
            assert(self@ =~= want);
        }
    }

    /// How many keys there are.
    pub fn len(&self) -> (r: usize)
        requires
            self.wf(),
        ensures
            r == self@.dom().len(),
            self@.dom().finite(),
    {
        proof {
            let keys = self.entries@.map_values(|e: (K, V)| e.0);
            assert(keys.no_duplicates()) by {
                assert forall|i: int, j: int| 0 <= i < keys.len() && 0 <= j < keys.len() && i
                    != j implies keys[i] != keys[j] by {
                    if i < j {
                        assert(self.entries@[i].0 != self.entries@[j].0);
                    } else {
                        assert(self.entries@[j].0 != self.entries@[i].0);
                    }
                }
            }
            keys.unique_seq_to_set();
            assert forall|k: K| self@.dom().contains(k) <==> #[trigger] keys.to_set().contains(
                k,
            ) by {
                lemma_position(self.entries@, k);
                let p = position(self.entries@, k);
                if p < self.entries@.len() {
                    assert(keys[p] == k);
                }
                if keys.contains(k) {
                    let i = choose|i: int| 0 <= i < keys.len() && keys[i] == k;
                    assert(self.entries@[i].0 == k);
                }
            }
            assert(self@.dom() =~= keys.to_set());
        }
        self.entries.len()
    }
}

} // verus!
