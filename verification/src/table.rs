//! A component table: one value per entity id, with a `Map` view.
//!
//! Entries keep their insertion order, which makes every scan over a table
//! deterministic; lookups are linear, which is fine at the entity counts the
//! simulation targets.

use vstd::prelude::*;

verus! {

/// A keyed store of one component value per entity id.
pub struct Table<V> {
    keys: Vec<u64>,
    vals: Vec<V>,
}

impl<V> Table<V> {
    /// Abstract contents: a finite map from entity id to component value.
    pub closed spec fn view(&self) -> Map<u64, V> {
        Map::new(
            |k: u64| self.keys@.contains(k),
            |k: u64| self.vals@[self.keys@.index_of(k)],
        )
    }

    /// The ids present, in insertion order: the order every scan follows.
    pub closed spec fn key_seq(&self) -> Seq<u64> {
        self.keys@
    }

    pub closed spec fn wf(&self) -> bool {
        &&& self.keys@.len() == self.vals@.len()
        &&& self.keys@.no_duplicates()
    }

    /// What the table's two representations agree on.
    pub proof fn lemma_key_seq(&self)
        requires
            self.wf(),
        ensures
            forall|k: u64| self@.contains_key(k) <==> self.key_seq().contains(k),
            self.key_seq().no_duplicates(),
    {
    }

    proof fn lemma_at(&self, i: int)
        requires
            self.wf(),
            0 <= i < self.keys@.len(),
        ensures
            self@.contains_key(self.keys@[i]),
            self@[self.keys@[i]] == self.vals@[i],
    {
        let k = self.keys@[i];
        assert(self.keys@.contains(k));
        let j = self.keys@.index_of(k);
        assert(self.keys@[j] == k);
        if i != j {
            assert(false);
        }
    }

    pub fn new() -> (r: Self)
        ensures
            r.wf(),
            r@ == Map::<u64, V>::empty(),
            r.key_seq() == Seq::<u64>::empty(),
    {
        let r = Table { keys: Vec::new(), vals: Vec::new() };
        proof {
            assert(r@ =~= Map::<u64, V>::empty());
            assert(r.key_seq() =~= Seq::<u64>::empty());
        }
        r
    }

    pub fn len(&self) -> (r: usize)
        requires
            self.wf(),
        ensures
            r == self.key_seq().len(),
    {
        self.keys.len()
    }

    /// The scan position of `k`, if it is bound.
    pub fn index_of_key(&self, k: u64) -> (r: Option<usize>)
        requires
            self.wf(),
        ensures
            match r {
                Some(i) => i < self.key_seq().len() && self.key_seq()[i as int] == k,
                None => !self@.contains_key(k),
            },
    {
        let n = self.keys.len();
        let mut i: usize = 0;
        while i < n
            invariant
                self.wf(),
                n == self.keys@.len(),
                i <= n,
                forall|j: int| 0 <= j < i ==> self.keys@[j] != k,
            decreases n - i,
        {
            if self.keys[i] == k {
                return Some(i);
            }
            i = i + 1;
        }
        proof {
            assert(!self.keys@.contains(k));
        }
        None
    }

    pub fn contains(&self, k: u64) -> (r: bool)
        requires
            self.wf(),
        ensures
            r == self@.contains_key(k),
    {
        match self.index_of_key(k) {
            Some(i) => {
                proof {
                    self.lemma_at(i as int);
                }
                true
            },
            None => false,
        }
    }

    pub fn get(&self, k: u64) -> (r: Option<&V>)
        requires
            self.wf(),
        ensures
            match r {
                Some(v) => self@.contains_key(k) && *v == self@[k],
                None => !self@.contains_key(k),
            },
    {
        match self.index_of_key(k) {
            Some(i) => {
                proof {
                    self.lemma_at(i as int);
                }
                Some(&self.vals[i])
            },
            None => None,
        }
    }

    /// Binds `k` to `v`, overwriting any previous value; a fresh id goes to
    /// the end of the scan order.
    pub fn insert(&mut self, k: u64, v: V)
        requires
            old(self).wf(),
        ensures
            final(self).wf(),
            final(self)@ == old(self)@.insert(k, v),
            final(self).key_seq() == if old(self)@.contains_key(k) {
                old(self).key_seq()
            } else {
                old(self).key_seq().push(k)
            },
    {
        let ghost old_self = *old(self);
        match self.index_of_key(k) {
            Some(i) => {
                self.vals[i] = v;
                proof {
                    old_self.lemma_at(i as int);
                    assert forall|k2: u64|
                        self@.contains_key(k2)
                        implies #[trigger] self@[k2] == old_self@.insert(k, v)[k2] by {
                        let j = self.keys@.index_of(k2);
                        assert(self.keys@.contains(k2));
                        assert(0 <= j < self.keys@.len() && self.keys@[j] == k2);
                        if k2 == k {
                            if j != i {
                                assert(false);
                            }
                        } else {
                            assert(j != i);
                            assert(self@[k2] == self.vals@[j]);
                            old_self.lemma_at(j);
                        }
                    }
                    assert(self@ =~= old_self@.insert(k, v));
                }
            },
            None => {
                self.keys.push(k);
                self.vals.push(v);
                proof {
                    assert(self.keys@ == old_self.keys@.push(k));
                    assert forall|j: int, l: int|
                        0 <= j < self.keys@.len() && 0 <= l < self.keys@.len() && j != l
                        implies self.keys@[j] != self.keys@[l] by {
                        if j < old_self.keys@.len() && l < old_self.keys@.len() {
                        } else if j < old_self.keys@.len() {
                            assert(self.keys@[l] == k);
                            if self.keys@[j] == k {
                                assert(old_self.keys@.contains(k));
                            }
                        } else if l < old_self.keys@.len() {
                            assert(self.keys@[j] == k);
                            if self.keys@[l] == k {
                                assert(old_self.keys@.contains(k));
                            }
                        }
                    }
                    assert(self.wf());
                    assert forall|k2: u64|
                        self@.contains_key(k2)
                        implies #[trigger] self@[k2] == old_self@.insert(k, v)[k2] by {
                        let j = self.keys@.index_of(k2);
                        assert(self.keys@.contains(k2));
                        assert(0 <= j < self.keys@.len() && self.keys@[j] == k2);
                        if k2 == k {
                            if j != old_self.keys@.len() {
                                assert(old_self.keys@[j] == k);
                                assert(old_self.keys@.contains(k));
                                assert(false);
                            }
                            assert(self@[k2] == self.vals@[j]);
                        } else {
                            assert(j != old_self.keys@.len());
                            assert(old_self.keys@[j] == k2);
                            assert(self@[k2] == self.vals@[j]);
                            old_self.lemma_at(j);
                        }
                    }
                    assert forall|k2: u64| self@.contains_key(k2)
                        == old_self@.insert(k, v).contains_key(k2) by {
                        if k2 == k {
                            assert(self.keys@[old_self.keys@.len() as int] == k);
                            assert(self.keys@.contains(k));
                        } else {
                            if old_self.keys@.contains(k2) {
                                let j = old_self.keys@.index_of(k2);
                                assert(self.keys@[j] == k2);
                                assert(self.keys@.contains(k2));
                            }
                            if self.keys@.contains(k2) {
                                let j = self.keys@.index_of(k2);
                                assert(0 <= j < self.keys@.len() && self.keys@[j] == k2);
                                assert(j != old_self.keys@.len());
                                assert(old_self.keys@[j] == k2);
                                assert(old_self.keys@.contains(k2));
                            }
                        }
                    }
                    assert(self@ =~= old_self@.insert(k, v));
                }
            },
        }
    }

    /// Unbinds `k`; a no-op when it is absent.
    pub fn remove(&mut self, k: u64)
        requires
            old(self).wf(),
        ensures
            final(self).wf(),
            final(self)@ == old(self)@.remove(k),
            !old(self)@.contains_key(k) ==> final(self).key_seq() == old(self).key_seq(),
            old(self)@.contains_key(k) ==> exists|i: int|
                0 <= i < old(self).key_seq().len() && old(self).key_seq()[i] == k
                    && final(self).key_seq() == old(self).key_seq().remove(i),
    {
        let ghost old_self = *old(self);
        match self.index_of_key(k) {
            Some(i) => {
                self.keys.remove(i);
                self.vals.remove(i);
                proof {
                    let oks = old_self.keys@;
                    assert(self.keys@ == oks.remove(i as int));
                    assert(self.vals@ == old_self.vals@.remove(i as int));
                    oks.remove_ensures(i as int);
                    old_self.vals@.remove_ensures(i as int);
                    assert(self.keys@.no_duplicates()) by {
                        assert forall|a: int, b: int|
                            0 <= a < self.keys@.len() && 0 <= b < self.keys@.len() && a != b
                            implies self.keys@[a] != self.keys@[b] by {
                            let a0 = if a < i { a } else { a + 1 };
                            let b0 = if b < i { b } else { b + 1 };
                            assert(self.keys@[a] == oks[a0]);
                            assert(self.keys@[b] == oks[b0]);
                        }
                    }
                    assert(self.wf());
                    assert forall|k2: u64|
                        self@.contains_key(k2)
                        implies old_self@.remove(k).contains_key(k2)
                            && #[trigger] self@[k2] == old_self@.remove(k)[k2] by {
                        let j = self.keys@.index_of(k2);
                        assert(self.keys@.contains(k2));
                        assert(0 <= j < self.keys@.len() && self.keys@[j] == k2);
                        let j0 = if j < i { j } else { j + 1 };
                        assert(oks[j0] == k2);
                        assert(oks.contains(k2));
                        assert(self@[k2] == self.vals@[j]);
                        assert(self.vals@[j] == old_self.vals@[j0]);
                        old_self.lemma_at(j0);
                        assert(k2 != k);
                    }
                    assert forall|k2: u64| old_self@.remove(k).contains_key(k2)
                        implies self@.contains_key(k2) by {
                        assert(oks.contains(k2));
                        let j0 = oks.index_of(k2);
                        assert(0 <= j0 < oks.len() && oks[j0] == k2);
                        assert(j0 != i);
                        let j = if j0 < i { j0 } else { j0 - 1 };
                        assert(self.keys@[j] == oks[j0]);
                        assert(self.keys@.contains(k2));
                    }
                    assert(self@ =~= old_self@.remove(k));
                }
            },
            None => {
                proof {
                    assert(self@ =~= old_self@.remove(k));
                }
            },
        }
    }

    /// The id at scan position `i`.
    pub fn key_at(&self, i: usize) -> (r: u64)
        requires
            self.wf(),
            i < self.key_seq().len(),
        ensures
            r == self.key_seq()[i as int],
            self@.contains_key(r),
    {
        proof {
            self.lemma_at(i as int);
        }
        self.keys[i]
    }

    /// The value at scan position `i`.
    pub fn val_at(&self, i: usize) -> (r: &V)
        requires
            self.wf(),
            i < self.key_seq().len(),
        ensures
            *r == self@[self.key_seq()[i as int]],
    {
        proof {
            self.lemma_at(i as int);
        }
        &self.vals[i]
    }

    /// Exchanges the value at scan position `i` for `v`, returning the old
    /// value; read-modify-write without a borrow held across the write.
    pub fn swap_val_at(&mut self, i: usize, v: V) -> (r: V)
        requires
            old(self).wf(),
            i < old(self).key_seq().len(),
        ensures
            r == old(self)@[old(self).key_seq()[i as int]],
            final(self).wf(),
            final(self).key_seq() == old(self).key_seq(),
            final(self)@ == old(self)@.insert(old(self).key_seq()[i as int], v),
    {
        let ghost old_self = *old(self);
        let mut tmp = v;
        let slot = vstd::std_specs::vec::vec_index_mut(&mut self.vals, i);
        core::mem::swap(&mut tmp, slot);
        proof {
            old_self.lemma_at(i as int);
            assert(self.keys@ == old_self.keys@);
            assert(self.vals@ == old_self.vals@.update(i as int, v));
            let k = old_self.keys@[i as int];
            assert forall|k2: u64|
                self@.contains_key(k2)
                implies #[trigger] self@[k2] == old_self@.insert(k, v)[k2] by {
                let j = self.keys@.index_of(k2);
                assert(self.keys@.contains(k2));
                assert(0 <= j < self.keys@.len() && self.keys@[j] == k2);
                if k2 == k {
                    if j != i {
                        assert(false);
                    }
                    assert(self@[k2] == self.vals@[j]);
                } else {
                    assert(j != i);
                    assert(self@[k2] == self.vals@[j]);
                    assert(self.vals@[j] == old_self.vals@[j]);
                    old_self.lemma_at(j);
                }
            }
            assert(self@ =~= old_self@.insert(k, v));
        }
        tmp
    }

    /// Overwrites the value at scan position `i`, leaving the scan order as
    /// it was.
    pub fn set_val_at(&mut self, i: usize, v: V)
        requires
            old(self).wf(),
            i < old(self).key_seq().len(),
        ensures
            final(self).wf(),
            final(self).key_seq() == old(self).key_seq(),
            final(self)@ == old(self)@.insert(old(self).key_seq()[i as int], v),
    {
        let ghost old_self = *old(self);
        self.vals[i] = v;
        proof {
            old_self.lemma_at(i as int);
            let k = old_self.keys@[i as int];
            assert forall|k2: u64|
                self@.contains_key(k2)
                implies #[trigger] self@[k2] == old_self@.insert(k, v)[k2] by {
                let j = self.keys@.index_of(k2);
                assert(self.keys@.contains(k2));
                assert(0 <= j < self.keys@.len() && self.keys@[j] == k2);
                if k2 == k {
                    if j != i {
                        assert(false);
                    }
                    assert(self@[k2] == self.vals@[j]);
                } else {
                    assert(j != i);
                    assert(self@[k2] == self.vals@[j]);
                    assert(self.vals@[j] == old_self.vals@[j]);
                    old_self.lemma_at(j);
                }
            }
            assert(self@ =~= old_self@.insert(k, v));
        }
    }
}

} // verus!
