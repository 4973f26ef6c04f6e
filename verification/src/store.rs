//! The byte-accounted data store.
//!
//! A mapping from keys to values with an explicit byte counter: every
//! entry weighs the length of its key plus the length of its value,
//! and the sum of all weights never exceeds the configured budget. An
//! insertion that would exceed the budget is refused and leaves the
//! store unchanged; an overwrite is charged only the difference
//! between the new and the old value.

use vstd::prelude::*;

verus! {

/// The weight of one entry: key length plus value length.
pub open spec fn entry_weight(e: (Vec<u8>, Vec<u8>)) -> nat {
    e.0@.len() + e.1@.len()
}

/// The total weight of a sequence of entries.
pub open spec fn spec_used(es: Seq<(Vec<u8>, Vec<u8>)>) -> nat
    decreases es.len(),
{
    if es.len() == 0 {
        0
    } else {
        spec_used(es.drop_last()) + entry_weight(es.last())
    }
}

/// The total weight of a sequence of entry views.
pub open spec fn seq_weight(es: Seq<(Seq<u8>, Seq<u8>)>) -> nat
    decreases es.len(),
{
    if es.len() == 0 {
        0
    } else {
        seq_weight(es.drop_last()) + es.last().0.len() + es.last().1.len()
    }
}

/// The weight of a sequence of entries equals the weight of their
/// views.
pub proof fn lemma_weight_views(es: Seq<(Vec<u8>, Vec<u8>)>)
    ensures
        seq_weight(es.map_values(|e: (Vec<u8>, Vec<u8>)| (e.0@, e.1@))) == spec_used(es),
    decreases es.len(),
{
    let vs = es.map_values(|e: (Vec<u8>, Vec<u8>)| (e.0@, e.1@));
    if es.len() > 0 {
        lemma_weight_views(es.drop_last());
        assert(vs.drop_last() =~= es.drop_last().map_values(
            |e: (Vec<u8>, Vec<u8>)| (e.0@, e.1@),
        ));
        assert(vs.last() == (es.last().0@, es.last().1@));
    }
}

/// The mapping a sequence of entries denotes; a later entry for the
/// same key wins, though a well-formed store never holds two.
pub open spec fn store_map_of(es: Seq<(Vec<u8>, Vec<u8>)>) -> Map<Seq<u8>, Seq<u8>>
    decreases es.len(),
{
    if es.len() == 0 {
        Map::empty()
    } else {
        store_map_of(es.drop_last()).insert(es.last().0@, es.last().1@)
    }
}

/// No two entries share a key.
pub open spec fn unique_keys(es: Seq<(Vec<u8>, Vec<u8>)>) -> bool {
    forall|i: int, j: int|
        0 <= i < es.len() && 0 <= j < es.len() && i != j ==> #[trigger] es[i].0@ != #[trigger] es[j].0@
}

/// A key stands in the denoted map exactly when some entry holds it.
pub proof fn lemma_map_of_contains(es: Seq<(Vec<u8>, Vec<u8>)>)
    ensures
        forall|k: Seq<u8>|
            #[trigger] store_map_of(es).contains_key(k) <==> exists|i: int|
                0 <= i < es.len() && (#[trigger] es[i]).0@ == k,
    decreases es.len(),
{
    if es.len() > 0 {
        lemma_map_of_contains(es.drop_last());
        assert forall|k: Seq<u8>| #[trigger]
            store_map_of(es).contains_key(k) implies exists|i: int|
            0 <= i < es.len() && (#[trigger] es[i]).0@ == k by {
            if k == es.last().0@ {
                assert(es[es.len() - 1].0@ == k);
            } else {
                assert(store_map_of(es.drop_last()).contains_key(k));
                assert(exists|i: int|
                    0 <= i < es.drop_last().len() && (#[trigger] es.drop_last()[i]).0@ == k);
                let i = choose|i: int|
                    0 <= i < es.drop_last().len() && (#[trigger] es.drop_last()[i]).0@ == k;
                assert(es.drop_last()[i] == es[i]);
                assert(es[i].0@ == k);
            }
        }
        assert forall|k: Seq<u8>|
            (exists|i: int| 0 <= i < es.len() && (#[trigger] es[i]).0@ == k) implies #[trigger]
            store_map_of(es).contains_key(k) by {
            let i = choose|i: int| 0 <= i < es.len() && (#[trigger] es[i]).0@ == k;
            if i < es.len() - 1 {
                assert(es.drop_last()[i] == es[i]);
                assert(es.drop_last()[i].0@ == k);
                assert(store_map_of(es.drop_last()).contains_key(k));
            } else {
                assert(k == es.last().0@);
            }
        }
    }
}

/// Under unique keys, the entry at `i` gives the value the denoted map
/// assigns to its key.
pub proof fn lemma_map_of_value(es: Seq<(Vec<u8>, Vec<u8>)>, i: int)
    requires
        unique_keys(es),
        0 <= i < es.len(),
    ensures
        store_map_of(es).contains_key(es[i].0@),
        store_map_of(es)[es[i].0@] == es[i].1@,
    decreases es.len(),
{
    if i == es.len() - 1 {
    } else {
        assert(unique_keys(es.drop_last()));
        lemma_map_of_value(es.drop_last(), i);
        assert(es.drop_last()[i] == es[i]);
        assert(es[i].0@ != es.last().0@);
    }
}

/// Every entry weighs no more than the whole store.
pub proof fn lemma_used_entry_bound(es: Seq<(Vec<u8>, Vec<u8>)>, i: int)
    requires
        0 <= i < es.len(),
    ensures
        entry_weight(es[i]) <= spec_used(es),
    decreases es.len(),
{
    if i == es.len() - 1 {
    } else {
        lemma_used_entry_bound(es.drop_last(), i);
        assert(es.drop_last()[i] == es[i]);
    }
}

/// Replacing the entry at `i` shifts the total weight by the
/// difference of the two entries.
pub proof fn lemma_used_update(es: Seq<(Vec<u8>, Vec<u8>)>, i: int, p: (Vec<u8>, Vec<u8>))
    requires
        0 <= i < es.len(),
    ensures
        spec_used(es.update(i, p)) == spec_used(es) - entry_weight(es[i]) + entry_weight(p),
    decreases es.len(),
{
    let es2 = es.update(i, p);
    if i == es.len() - 1 {
        assert(es2.drop_last() =~= es.drop_last());
        assert(es2.last() == p);
    } else {
        assert(es2.drop_last() =~= es.drop_last().update(i, p));
        lemma_used_update(es.drop_last(), i, p);
        assert(es.drop_last()[i] == es[i]);
        assert(es2.last() == es.last());
    }
}

/// Under unique keys, replacing the entry at `i` by one with the same
/// key re-points that key in the denoted map.
pub proof fn lemma_map_of_update(es: Seq<(Vec<u8>, Vec<u8>)>, i: int, p: (Vec<u8>, Vec<u8>))
    requires
        unique_keys(es),
        0 <= i < es.len(),
        p.0@ == es[i].0@,
    ensures
        store_map_of(es.update(i, p)) == store_map_of(es).insert(p.0@, p.1@),
        unique_keys(es.update(i, p)),
    decreases es.len(),
{
    let es2 = es.update(i, p);
    assert forall|a: int, b: int|
        0 <= a < es2.len() && 0 <= b < es2.len() && a != b implies #[trigger] es2[a].0@
        != #[trigger] es2[b].0@ by {
        assert(es2[a].0@ == es[a].0@);
        assert(es2[b].0@ == es[b].0@);
    }
    if i == es.len() - 1 {
        assert(es2.drop_last() =~= es.drop_last());
        assert(store_map_of(es2) =~= store_map_of(es).insert(p.0@, p.1@));
    } else {
        assert(unique_keys(es.drop_last()));
        assert(es2.drop_last() =~= es.drop_last().update(i, p));
        assert(es.drop_last()[i] == es[i]);
        lemma_map_of_update(es.drop_last(), i, p);
        assert(es2.last() == es.last());
        assert(es.last().0@ != p.0@);
        assert(store_map_of(es2) == store_map_of(es.drop_last()).insert(p.0@, p.1@).insert(
            es.last().0@,
            es.last().1@,
        ));
        assert(store_map_of(es2) =~= store_map_of(es).insert(p.0@, p.1@));
    }
}

/// Appending a fresh entry adds its key to the denoted map and its
/// weight to the total.
pub proof fn lemma_map_of_push(es: Seq<(Vec<u8>, Vec<u8>)>, p: (Vec<u8>, Vec<u8>))
    ensures
        store_map_of(es.push(p)) == store_map_of(es).insert(p.0@, p.1@),
        spec_used(es.push(p)) == spec_used(es) + entry_weight(p),
{
    assert(es.push(p).drop_last() =~= es);
    assert(es.push(p).last() == p);
}

/// Removing the entry at `i` takes its key out of the denoted map and
/// its weight out of the total.
pub proof fn lemma_map_of_remove(es: Seq<(Vec<u8>, Vec<u8>)>, i: int)
    requires
        unique_keys(es),
        0 <= i < es.len(),
    ensures
        store_map_of(es.remove(i)) == store_map_of(es).remove(es[i].0@),
        spec_used(es.remove(i)) == spec_used(es) - entry_weight(es[i]),
        unique_keys(es.remove(i)),
    decreases es.len(),
{
    let es2 = es.remove(i);
    assert forall|a: int, b: int|
        0 <= a < es2.len() && 0 <= b < es2.len() && a != b implies #[trigger] es2[a].0@
        != #[trigger] es2[b].0@ by {
        let a0 = if a < i {
            a
        } else {
            a + 1
        };
        let b0 = if b < i {
            b
        } else {
            b + 1
        };
        assert(es2[a] == es[a0]);
        assert(es2[b] == es[b0]);
    }
    if i == es.len() - 1 {
        assert(es2 =~= es.drop_last());
        lemma_map_of_contains(es.drop_last());
        assert(!store_map_of(es.drop_last()).contains_key(es.last().0@));
        assert(store_map_of(es2) =~= store_map_of(es).remove(es[i].0@));
    } else {
        assert(unique_keys(es.drop_last()));
        assert(es2.drop_last() =~= es.drop_last().remove(i));
        assert(es.drop_last()[i] == es[i]);
        lemma_map_of_remove(es.drop_last(), i);
        assert(es2.last() == es.last());
        assert(es.last().0@ != es[i].0@);
        assert(store_map_of(es2) == store_map_of(es.drop_last()).remove(es[i].0@).insert(
            es.last().0@,
            es.last().1@,
        ));
        assert(store_map_of(es2) =~= store_map_of(es).remove(es[i].0@));
    }
}

/// Whether two byte strings hold the same bytes.
pub fn bytes_eq(a: &Vec<u8>, b: &Vec<u8>) -> (r: bool)
    ensures
        r == (a@ == b@),
{
    let r = a == b;
    proof {
        if r {
            assert(a@ =~= b@);
        } else {
            if a@ == b@ {
                assert(forall|i: int| 0 <= i < a@.len() ==> a@[i] == b@[i]);
                assert(false);
            }
        }
    }
    r
}

/// The byte-accounted key-value store of one node.
pub struct DataStore {
    entries: Vec<(Vec<u8>, Vec<u8>)>,
    used: u64,
    max_mem: u64,
}

impl View for DataStore {
    type V = Map<Seq<u8>, Seq<u8>>;

    closed spec fn view(&self) -> Map<Seq<u8>, Seq<u8>> {
        store_map_of(self.entries@)
    }
}

impl DataStore {
    /// The store's internal invariant: keys are unique, the counter
    /// equals the total weight of the entries, and the total never
    /// exceeds the budget.
    pub closed spec fn wf(&self) -> bool {
        &&& unique_keys(self.entries@)
        &&& self.used as nat == spec_used(self.entries@)
        &&& self.used <= self.max_mem
    }

    /// The byte budget the store was created with.
    pub closed spec fn spec_max_mem(&self) -> u64 {
        self.max_mem
    }

    /// The bytes currently accounted for.
    pub closed spec fn spec_used(&self) -> u64 {
        self.used
    }

    /// The entries the store holds, as mathematical byte strings.
    pub closed spec fn entry_views(&self) -> Seq<(Seq<u8>, Seq<u8>)> {
        self.entries@.map_values(|e: (Vec<u8>, Vec<u8>)| (e.0@, e.1@))
    }

    /// The accounting law: a well-formed store uses exactly the summed
    /// weight of the entries it currently holds, and no more than its
    /// budget.
    pub proof fn lemma_accounting(&self)
        requires
            self.wf(),
        ensures
            self.spec_used() as nat == seq_weight(self.entry_views()),
            self.spec_used() <= self.spec_max_mem(),
    {
        lemma_weight_views(self.entries@);
    }

    /// An empty store with the given byte budget.
    pub fn new(max_mem: u64) -> (r: DataStore)
        ensures
            r.wf(),
            r@ == Map::<Seq<u8>, Seq<u8>>::empty(),
            r.spec_max_mem() == max_mem,
            r.spec_used() == 0,
    {
        let r = DataStore { entries: Vec::new(), used: 0, max_mem };
        proof {
            assert(r@ =~= Map::<Seq<u8>, Seq<u8>>::empty());
        }
        r
    }

    /// The index of the entry holding `key`, if any.
    fn find(&self, key: &Vec<u8>) -> (r: Option<usize>)
        requires
            self.wf(),
        ensures
            match r {
                Some(i) => i < self.entries@.len() && self.entries@[i as int].0@ == key@,
                None => !self@.contains_key(key@),
            },
    {
        let mut i: usize = 0;
        while i < self.entries.len()
            invariant
                i <= self.entries@.len(),
                forall|j: int| 0 <= j < i ==> (#[trigger] self.entries@[j]).0@ != key@,
            decreases self.entries@.len() - i,
        {
            if bytes_eq(&self.entries[i].0, key) {
                return Some(i);
            }
            i = i + 1;
        }
        proof {
            lemma_map_of_contains(self.entries@);
        }
        None
    }

    /// Looks a key up; the returned value is exactly the one the store
    /// maps the key to.
    pub fn get(&self, key: &Vec<u8>) -> (r: Option<&Vec<u8>>)
        requires
            self.wf(),
        ensures
            match r {
                Some(v) => self@.contains_key(key@) && v@ == self@[key@],
                None => !self@.contains_key(key@),
            },
    {
        match self.find(key) {
            None => None,
            Some(i) => {
                proof {
                    lemma_map_of_value(self.entries@, i as int);
                }
                Some(&self.entries[i].1)
            },
        }
    }

    /// Inserts or overwrites; refused, with the store unchanged, when
    /// the new total weight would exceed the budget. An overwrite is
    /// charged the difference between the new and the old value.
    pub fn insert(&mut self, key: Vec<u8>, value: Vec<u8>) -> (r: bool)
        requires
            old(self).wf(),
        ensures
            final(self).wf(),
            final(self).spec_max_mem() == old(self).spec_max_mem(),
            r ==> final(self)@ == old(self)@.insert(key@, value@),
            r ==> final(self).spec_used() as int == old(self).spec_used() - (if old(
                self,
            )@.contains_key(key@) {
                key@.len() + old(self)@[key@].len() as int
            } else {
                0int
            }) + key@.len() + value@.len(),
            !r ==> *final(self) == *old(self),
            r <==> old(self).spec_used() - (if old(self)@.contains_key(key@) {
                key@.len() + old(self)@[key@].len() as int
            } else {
                0int
            }) + key@.len() + value@.len() <= old(self).spec_max_mem(),
    {
        let new_weight: u128 = key.len() as u128 + value.len() as u128;
        match self.find(&key) {
            Some(i) => {
                proof {
                    lemma_used_entry_bound(self.entries@, i as int);
                    lemma_map_of_value(self.entries@, i as int);
                }
                let old_weight: u128 = self.entries[i].0.len() as u128 + self.entries[i].1.len()
                    as u128;
                let new_used: u128 = self.used as u128 - old_weight + new_weight;
                if new_used <= self.max_mem as u128 {
                    proof {
                        lemma_used_update(self.entries@, i as int, (key, value));
                        lemma_map_of_update(self.entries@, i as int, (key, value));
                    }
                    let entry = &mut self.entries[i];
                    *entry = (key, value);
                    self.used = new_used as u64;
                    true
                } else {
                    false
                }
            },
            None => {
                let new_used: u128 = self.used as u128 + new_weight;
                if new_used <= self.max_mem as u128 {
                    proof {
                        lemma_map_of_push(self.entries@, (key, value));
                        lemma_map_of_contains(self.entries@);
                        let es2 = self.entries@.push((key, value));
                        assert forall|a: int, b: int|
                            0 <= a < es2.len() && 0 <= b < es2.len() && a != b implies #[trigger] es2[a].0@ != #[trigger] es2[b].0@ by {
                            if a < es2.len() - 1 && b < es2.len() - 1 {
                                assert(es2[a] == self.entries@[a]);
                                assert(es2[b] == self.entries@[b]);
                            } else if a == es2.len() - 1 {
                                assert(es2[b] == self.entries@[b]);
                                assert(es2[a].0@ == key@);
                            } else {
                                assert(es2[a] == self.entries@[a]);
                                assert(es2[b].0@ == key@);
                            }
                        }
                    }
                    self.entries.push((key, value));
                    self.used = new_used as u64;
                    true
                } else {
                    false
                }
            },
        }
    }

    /// Removes a key, returning its value; the accounting drops by the
    /// entry's weight.
    pub fn remove(&mut self, key: &Vec<u8>) -> (r: Option<Vec<u8>>)
        requires
            old(self).wf(),
        ensures
            final(self).wf(),
            final(self).spec_max_mem() == old(self).spec_max_mem(),
            match r {
                Some(v) => {
                    &&& old(self)@.contains_key(key@)
                    &&& v@ == old(self)@[key@]
                    &&& final(self)@ == old(self)@.remove(key@)
                    &&& final(self).spec_used() as int == old(self).spec_used() - key@.len()
                        - v@.len()
                },
                None => !old(self)@.contains_key(key@) && *final(self) == *old(self),
            },
    {
        match self.find(key) {
            None => None,
            Some(i) => {
                proof {
                    lemma_map_of_value(self.entries@, i as int);
                    lemma_used_entry_bound(self.entries@, i as int);
                    lemma_map_of_remove(self.entries@, i as int);
                }
                let entry = self.entries.remove(i);
                self.used = self.used - (entry.0.len() as u64) - (entry.1.len() as u64);
                Some(entry.1)
            },
        }
    }

    /// Clears the store; the accounting returns to zero.
    pub fn wipe(&mut self)
        ensures
            final(self).wf(),
            final(self).spec_max_mem() == old(self).spec_max_mem(),
            final(self)@ == Map::<Seq<u8>, Seq<u8>>::empty(),
            final(self).spec_used() == 0,
    {
        self.entries.clear();
        self.used = 0;
        proof {
            assert(self@ =~= Map::<Seq<u8>, Seq<u8>>::empty());
        }
    }

    /// The bytes currently accounted for.
    pub fn used(&self) -> (r: u64)
        ensures
            r == self.spec_used(),
    {
        self.used
    }

    /// The byte budget the store was created with.
    pub fn max_mem(&self) -> (r: u64)
        ensures
            r == self.spec_max_mem(),
    {
        self.max_mem
    }
}

} // verus!
