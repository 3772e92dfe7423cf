use vstd::prelude::*;

use crate::hash256::H256;

verus! {

/// An association table keyed by 64-bit numbers (accounts and block
/// numbers). Viewed as a `Map<u64, V>`; the representation keeps one
/// entry per key.
pub struct NumTable<V> {
    keys: Vec<u64>,
    vals: Vec<V>,
}

impl<V> View for NumTable<V> {
    type V = Map<u64, V>;

    closed spec fn view(&self) -> Map<u64, V> {
        Map::new(|k: u64| self.keys@.contains(k), |k: u64| self.vals@[self.keys@.index_of(k)])
    }
}

impl<V> NumTable<V> {
    /// The table is well formed when keys and values line up and no key
    /// occurs twice.
    pub closed spec fn wf(self) -> bool {
        &&& self.keys@.len() == self.vals@.len()
        &&& forall|i: int, j: int|
            0 <= i < j < self.keys@.len() ==> self.keys@[i] != self.keys@[j]
    }

    proof fn lemma_unique_index(self, i: int, j: int)
        requires
            self.wf(),
            0 <= i < self.keys@.len(),
            0 <= j < self.keys@.len(),
            self.keys@[i] == self.keys@[j],
        ensures
            i == j,
    {
    }

    proof fn lemma_at(self, i: int)
        requires
            self.wf(),
            0 <= i < self.keys@.len(),
        ensures
            self@.contains_key(self.keys@[i]),
            self@[self.keys@[i]] == self.vals@[i],
    {
        let k = self.keys@[i];
        assert(self.keys@.contains(k));
        let j = self.keys@.index_of(k);
        assert(0 <= j < self.keys@.len() && self.keys@[j] == k);
        self.lemma_unique_index(i, j);
    }

    /// An empty table.
    pub fn new() -> (r: Self)
        ensures
            r.wf(),
            r@ == Map::<u64, V>::empty(),
    {
        let r = NumTable { keys: Vec::new(), vals: Vec::new() };
        proof {
            assert(r@ =~= Map::<u64, V>::empty());
        }
        r
    }

    fn find(&self, key: u64) -> (r: Option<usize>)
        requires
            self.wf(),
        ensures
            match r {
                Some(i) => i < self.keys@.len() && self.keys@[i as int] == key,
                None => !self.keys@.contains(key),
            },
    {
        let mut i: usize = 0;
        while i < self.keys.len()
            invariant
                i <= self.keys@.len(),
                forall|j: int| 0 <= j < i ==> self.keys@[j] != key,
            decreases self.keys@.len() - i,
        {
            if self.keys[i] == key {
                return Some(i);
            }
            i = i + 1;
        }
        None
    }

    /// Whether the table has an entry for `key`.
    pub fn contains_key(&self, key: u64) -> (r: bool)
        requires
            self.wf(),
        ensures
            r == self@.contains_key(key),
    {
        match self.find(key) {
            Some(i) => {
                proof {
                    self.lemma_at(i as int);
                }
                true
            },
            None => false,
        }
    }

    /// The value stored for `key`, if any.
    pub fn get(&self, key: u64) -> (r: Option<&V>)
        requires
            self.wf(),
        ensures
            match r {
                Some(v) => self@.contains_key(key) && *v == self@[key],
                None => !self@.contains_key(key),
            },
    {
        match self.find(key) {
            Some(i) => {
                proof {
                    self.lemma_at(i as int);
                }
                Some(&self.vals[i])
            },
            None => None,
        }
    }

    /// Stores `value` under `key`, replacing any earlier entry.
    pub fn insert(&mut self, key: u64, value: V)
        requires
            old(self).wf(),
        ensures
            final(self).wf(),
            final(self)@ == old(self)@.insert(key, value),
    {
        match self.find(key) {
            Some(i) => {
                self.vals[i] = value;
                proof {
                    let ks = self.keys@;
                    assert forall|k: u64| ks.contains(k) implies self@[k] == old(self)@.insert(
                        key,
                        value,
                    )[k] by {
                        let j = ks.index_of(k);
                        assert(0 <= j < ks.len() && ks[j] == k);
                        if k == key {
                            self.lemma_unique_index(j, i as int);
                        } else {
                            assert(j != i);
                        }
                    }
                    old(self).lemma_at(i as int);
                    assert(self@ =~= old(self)@.insert(key, value));
                }
            },
            None => {
                self.keys.push(key);
                self.vals.push(value);
                proof {
                    let oks = old(self).keys@;
                    let ks = self.keys@;
                    let n = oks.len() as int;
                    assert forall|k: u64| ks.contains(k) implies self@[k] == old(self)@.insert(
                        key,
                        value,
                    )[k] by {
                        let j = ks.index_of(k);
                        assert(0 <= j < ks.len() && ks[j] == k);
                        if k == key {
                            if j < n {
                                assert(oks[j] == k);
                                assert(oks.contains(k));
                            }
                            assert(j == n);
                        } else {
                            assert(j < n);
                            assert(oks.contains(k));
                            let j2 = oks.index_of(k);
                            assert(0 <= j2 < oks.len() && oks[j2] == k);
                            self.lemma_unique_index(j, j2);
                        }
                    }
                    assert forall|k: u64| old(self)@.insert(key, value).contains_key(
                        k,
                    ) implies ks.contains(k) by {
                        if k == key {
                            assert(ks[n] == k);
                        } else {
                            let j2 = oks.index_of(k);
                            assert(0 <= j2 < oks.len() && oks[j2] == k);
                            assert(ks[j2] == k);
                        }
                    }
                    assert(self@ =~= old(self)@.insert(key, value));
                }
            },
        }
    }

    /// Removes and returns the entry for `key`, if any.
    pub fn take(&mut self, key: u64) -> (r: Option<V>)
        requires
            old(self).wf(),
        ensures
            final(self).wf(),
            match r {
                Some(v) => {
                    &&& old(self)@.contains_key(key)
                    &&& v == old(self)@[key]
                    &&& final(self)@ == old(self)@.remove(key)
                },
                None => {
                    &&& !old(self)@.contains_key(key)
                    &&& *final(self) == *old(self)
                },
            },
    {
        match self.find(key) {
            Some(i) => {
                let _removed_key = self.keys.swap_remove(i);
                let removed_val = self.vals.swap_remove(i);
                proof {
                    let oks = old(self).keys@;
                    let ovs = old(self).vals@;
                    let ks = self.keys@;
                    let n = oks.len() as int;
                    let ii = i as int;
                    assert forall|a: int, b: int|
                        0 <= a < b < ks.len() implies ks[a] != ks[b] by {
                        if a == ii {
                            assert(ks[a] == oks[n - 1]);
                            assert(ks[b] == oks[b]);
                        } else if b == ii {
                            assert(ks[b] == oks[n - 1]);
                            assert(ks[a] == oks[a]);
                        }
                    }
                    assert(self.wf());
                    assert forall|k: u64| ks.contains(k) implies old(self)@.remove(
                        key,
                    ).contains_key(k) && self@[k] == old(self)@.remove(key)[k] by {
                        let a = ks.index_of(k);
                        assert(0 <= a < ks.len() && ks[a] == k);
                        if a == ii {
                            assert(k == oks[n - 1]);
                            old(self).lemma_at(n - 1);
                            assert(k != key);
                        } else {
                            assert(k == oks[a]);
                            old(self).lemma_at(a);
                            assert(k != key);
                        }
                    }
                    assert forall|k: u64| old(self)@.remove(key).contains_key(
                        k,
                    ) implies ks.contains(k) by {
                        let j = oks.index_of(k);
                        assert(0 <= j < oks.len() && oks[j] == k);
                        assert(j != ii);
                        if j == n - 1 {
                            assert(ii < n - 1);
                            assert(ks[ii] == k);
                        } else {
                            assert(ks[j] == k);
                        }
                    }
                    assert(self@ =~= old(self)@.remove(key));
                    old(self).lemma_at(ii);
                }
                Some(removed_val)
            },
            None => None,
        }
    }
}

/// An association table keyed by 256-bit values (token identifiers).
/// Viewed as a `Map<Seq<u8>, V>` from the identifier's bytes; the
/// representation keeps one entry per key.
pub struct IdTable<V> {
    keys: Vec<H256>,
    vals: Vec<V>,
}

impl<V> View for IdTable<V> {
    type V = Map<Seq<u8>, V>;

    closed spec fn view(&self) -> Map<Seq<u8>, V> {
        Map::new(
            |k: Seq<u8>| self.key_seq().contains(k),
            |k: Seq<u8>| self.vals@[self.key_seq().index_of(k)],
        )
    }
}

impl<V> IdTable<V> {
    /// The byte sequences of the stored keys, in storage order.
    pub closed spec fn key_seq(self) -> Seq<Seq<u8>> {
        self.keys@.map_values(|k: H256| k@)
    }

    /// The table is well formed when keys and values line up and no key
    /// occurs twice.
    pub closed spec fn wf(self) -> bool {
        &&& self.keys@.len() == self.vals@.len()
        &&& forall|i: int, j: int|
            0 <= i < j < self.key_seq().len() ==> self.key_seq()[i] != self.key_seq()[j]
    }

    proof fn lemma_unique_index(self, i: int, j: int)
        requires
            self.wf(),
            0 <= i < self.key_seq().len(),
            0 <= j < self.key_seq().len(),
            self.key_seq()[i] == self.key_seq()[j],
        ensures
            i == j,
    {
    }

    proof fn lemma_at(self, i: int)
        requires
            self.wf(),
            0 <= i < self.key_seq().len(),
        ensures
            self@.contains_key(self.key_seq()[i]),
            self@[self.key_seq()[i]] == self.vals@[i],
    {
        let ks = self.key_seq();
        let k = ks[i];
        assert(ks.contains(k));
        let j = ks.index_of(k);
        assert(0 <= j < ks.len() && ks[j] == k);
        self.lemma_unique_index(i, j);
    }

    /// An empty table.
    pub fn new() -> (r: Self)
        ensures
            r.wf(),
            r@ == Map::<Seq<u8>, V>::empty(),
    {
        let r = IdTable { keys: Vec::new(), vals: Vec::new() };
        proof {
            assert(r@ =~= Map::<Seq<u8>, V>::empty());
        }
        r
    }

    fn find(&self, key: &H256) -> (r: Option<usize>)
        requires
            self.wf(),
        ensures
            match r {
                Some(i) => i < self.key_seq().len() && self.key_seq()[i as int] == key@,
                None => !self.key_seq().contains(key@),
            },
    {
        let mut i: usize = 0;
        while i < self.keys.len()
            invariant
                i <= self.keys@.len(),
                forall|j: int| 0 <= j < i ==> self.key_seq()[j] != key@,
            decreases self.keys@.len() - i,
        {
            if self.keys[i].eq_bytes(key) {
                return Some(i);
            }
            i = i + 1;
        }
        None
    }

    /// Whether the table has an entry for the identifier `key`.
    pub fn contains_key(&self, key: &H256) -> (r: bool)
        requires
            self.wf(),
        ensures
            r == self@.contains_key(key@),
    {
        match self.find(key) {
            Some(i) => {
                proof {
                    self.lemma_at(i as int);
                }
                true
            },
            None => false,
        }
    }

    /// The value stored for the identifier `key`, if any.
    pub fn get(&self, key: &H256) -> (r: Option<&V>)
        requires
            self.wf(),
        ensures
            match r {
                Some(v) => self@.contains_key(key@) && *v == self@[key@],
                None => !self@.contains_key(key@),
            },
    {
        match self.find(key) {
            Some(i) => {
                proof {
                    self.lemma_at(i as int);
                }
                Some(&self.vals[i])
            },
            None => None,
        }
    }

    /// Stores `value` under `key`, replacing any earlier entry.
    pub fn insert(&mut self, key: H256, value: V)
        requires
            old(self).wf(),
        ensures
            final(self).wf(),
            final(self)@ == old(self)@.insert(key@, value),
    {
        match self.find(&key) {
            Some(i) => {
                self.vals[i] = value;
                proof {
                    let ks = self.key_seq();
                    assert(ks == old(self).key_seq());
                    assert forall|k: Seq<u8>| ks.contains(k) implies self@[k] == old(
                        self,
                    )@.insert(key@, value)[k] by {
                        let j = ks.index_of(k);
                        assert(0 <= j < ks.len() && ks[j] == k);
                        if k == key@ {
                            self.lemma_unique_index(j, i as int);
                        } else {
                            assert(j != i);
                        }
                    }
                    old(self).lemma_at(i as int);
                    assert(ks[i as int] == key@);
                    assert(ks.contains(key@));
                    assert(self@ =~= old(self)@.insert(key@, value));
                }
            },
            None => {
                self.keys.push(key);
                self.vals.push(value);
                proof {
                    let oks = old(self).key_seq();
                    let ks = self.key_seq();
                    let n = oks.len() as int;
                    let kb = self.keys@[n]@;
                    assert(ks.len() == n + 1);
                    assert forall|a: int| 0 <= a < n implies ks[a] == oks[a] by {
                        assert(self.keys@[a] == old(self).keys@[a]);
                    }
                    assert forall|k: Seq<u8>| ks.contains(k) implies self@[k] == old(
                        self,
                    )@.insert(kb, value)[k] by {
                        let j = ks.index_of(k);
                        assert(0 <= j < ks.len() && ks[j] == k);
                        if k == kb {
                            if j < n {
                                assert(oks[j] == k);
                                assert(oks.contains(k));
                            }
                            assert(j == n);
                        } else {
                            assert(j < n);
                            assert(oks[j] == k);
                            assert(oks.contains(k));
                            let j2 = oks.index_of(k);
                            assert(0 <= j2 < oks.len() && oks[j2] == k);
                            self.lemma_unique_index(j, j2);
                        }
                    }
                    assert forall|k: Seq<u8>| old(self)@.insert(kb, value).contains_key(
                        k,
                    ) implies ks.contains(k) by {
                        if k == kb {
                            assert(ks[n] == k);
                        } else {
                            let j2 = oks.index_of(k);
                            assert(0 <= j2 < oks.len() && oks[j2] == k);
                            assert(ks[j2] == k);
                        }
                    }
                    assert(self@ =~= old(self)@.insert(kb, value));
                }
            },
        }
    }

    /// Removes and returns the entry for `key`, if any.
    pub fn take(&mut self, key: &H256) -> (r: Option<V>)
        requires
            old(self).wf(),
        ensures
            final(self).wf(),
            match r {
                Some(v) => {
                    &&& old(self)@.contains_key(key@)
                    &&& v == old(self)@[key@]
                    &&& final(self)@ == old(self)@.remove(key@)
                },
                None => {
                    &&& !old(self)@.contains_key(key@)
                    &&& *final(self) == *old(self)
                },
            },
    {
        match self.find(key) {
            Some(i) => {
                let _removed_key = self.keys.swap_remove(i);
                let removed_val = self.vals.swap_remove(i);
                proof {
                    let oks = old(self).key_seq();
                    let ks = self.key_seq();
                    let n = oks.len() as int;
                    let ii = i as int;
                    assert(ks.len() == n - 1);
                    assert forall|a: int| 0 <= a < n - 1 implies ks[a] == (if a == ii {
                        oks[n - 1]
                    } else {
                        oks[a]
                    }) by {
                        if a == ii {
                            assert(self.keys@[a] == old(self).keys@[n - 1]);
                        } else {
                            assert(self.keys@[a] == old(self).keys@[a]);
                        }
                    }
                    assert forall|a: int, b: int|
                        0 <= a < b < ks.len() implies ks[a] != ks[b] by {
                        if a == ii {
                            assert(ks[a] == oks[n - 1]);
                            assert(ks[b] == oks[b]);
                        } else if b == ii {
                            assert(ks[b] == oks[n - 1]);
                            assert(ks[a] == oks[a]);
                        }
                    }
                    assert(self.wf());
                    assert forall|k: Seq<u8>| ks.contains(k) implies old(self)@.remove(
                        key@,
                    ).contains_key(k) && self@[k] == old(self)@.remove(key@)[k] by {
                        let a = ks.index_of(k);
                        assert(0 <= a < ks.len() && ks[a] == k);
                        if a == ii {
                            assert(k == oks[n - 1]);
                            old(self).lemma_at(n - 1);
                            assert(k != key@);
                        } else {
                            assert(k == oks[a]);
                            old(self).lemma_at(a);
                            assert(k != key@);
                        }
                    }
                    assert forall|k: Seq<u8>| old(self)@.remove(key@).contains_key(
                        k,
                    ) implies ks.contains(k) by {
                        let j = oks.index_of(k);
                        assert(0 <= j < oks.len() && oks[j] == k);
                        assert(j != ii);
                        if j == n - 1 {
                            assert(ii < n - 1);
                            assert(ks[ii] == k);
                        } else {
                            assert(ks[j] == k);
                        }
                    }
                    assert(self@ =~= old(self)@.remove(key@));
                    old(self).lemma_at(ii);
                }
                Some(removed_val)
            },
            None => None,
        }
    }
}

} // verus!
