//! A map keyed by strings, stored as a list of slots with pairwise distinct keys.

use vstd::prelude::*;

verus! {

/// One key with the value recorded for it.
#[derive(Debug)]
pub struct Slot<V> {
    pub key: String,
    pub value: V,
}

/// A finite map from strings to values of type `V`.
///
/// Its view is the mathematical map from each key's characters to the value
/// stored for it. The slots carry no meaning beyond that map; the order in
/// which they are kept only matters to code that walks the whole map.
#[derive(Debug)]
pub struct StringMap<V> {
    slots: Vec<Slot<V>>,
}

impl<V> View for StringMap<V> {
    type V = Map<Seq<char>, V>;

    closed spec fn view(&self) -> Map<Seq<char>, V> {
        Map::new(
            |k: Seq<char>| exists|i: int| 0 <= i < self.spec_len() && #[trigger] self.spec_key(i) == k,
            |k: Seq<char>|
                self.spec_value(
                    choose|i: int| 0 <= i < self.spec_len() && #[trigger] self.spec_key(i) == k,
                ),
        )
    }
}

impl<V> StringMap<V> {
    /// Number of slots.
    pub closed spec fn spec_len(&self) -> nat {
        self.slots@.len()
    }

    /// The key held by slot `i`.
    pub closed spec fn spec_key(&self, i: int) -> Seq<char> {
        self.slots@[i].key@
    }

    /// The value held by slot `i`.
    pub closed spec fn spec_value(&self, i: int) -> V {
        self.slots@[i].value
    }

    /// No key occurs in two slots.
    pub closed spec fn wf(&self) -> bool {
        forall|i: int, j: int|
            0 <= i < j < self.spec_len() ==> #[trigger] self.spec_key(i) != #[trigger] self.spec_key(j)
    }

    /// The slots and the view describe the same map: every slot is an entry of
    /// the view, every entry of the view sits in some slot, and no two slots
    /// share a key.
    pub proof fn lemma_slots(&self)
        requires
            self.wf(),
        ensures
            forall|i: int|
                0 <= i < self.spec_len() ==> self@.contains_key(#[trigger] self.spec_key(i))
                    && self@[self.spec_key(i)] == self.spec_value(i),
            forall|k: Seq<char>| #[trigger]
                self@.contains_key(k) ==> exists|i: int|
                    0 <= i < self.spec_len() && #[trigger] self.spec_key(i) == k,
            forall|i: int, j: int|
                0 <= i < self.spec_len() && 0 <= j < self.spec_len() && i != j
                    ==> #[trigger] self.spec_key(i) != #[trigger] self.spec_key(j),
            self.spec_len() == 0 <==> self@ == Map::<Seq<char>, V>::empty(),
    {
        assert forall|i: int| 0 <= i < self.spec_len() implies self@.contains_key(
            #[trigger] self.spec_key(i),
        ) && self@[self.spec_key(i)] == self.spec_value(i) by {
            let k = self.spec_key(i);
            let j = choose|j: int| 0 <= j < self.spec_len() && #[trigger] self.spec_key(j) == k;
            assert(j == i);
        }
        if self.spec_len() == 0 {
            assert(self@ =~= Map::<Seq<char>, V>::empty());
        } else {
            assert(self@.contains_key(self.spec_key(0)));
        }
    }

    /// The keys of the first `k` slots.
    closed spec fn prefix_keys(&self, k: int) -> Set<Seq<char>> {
        Set::new(|s: Seq<char>| exists|i: int| 0 <= i < k && #[trigger] self.spec_key(i) == s)
    }

    proof fn lemma_prefix_len(&self, k: int)
        requires
            self.wf(),
            0 <= k <= self.spec_len(),
        ensures
            self.prefix_keys(k).finite(),
            self.prefix_keys(k).len() == k,
        decreases k,
    {
        if k == 0 {
            assert(self.prefix_keys(0) =~= Set::<Seq<char>>::empty());
        } else {
            self.lemma_prefix_len(k - 1);
            let key = self.spec_key(k - 1);
            assert(self.prefix_keys(k) =~= self.prefix_keys(k - 1).insert(key));
        }
    }

    /// The map is finite and has as many entries as there are slots.
    pub proof fn lemma_len(&self)
        requires
            self.wf(),
        ensures
            self@.dom().finite(),
            self@.len() == self.spec_len(),
    {
        self.lemma_prefix_len(self.spec_len() as int);
    }

    /// An empty map.
    pub fn new() -> (m: Self)
        ensures
            m.wf(),
            m@ == Map::<Seq<char>, V>::empty(),
            m.spec_len() == 0,
    {
        let m = StringMap { slots: Vec::new() };
        m
    }

    /// Number of entries.
    pub fn len(&self) -> (n: usize)
        ensures
            n == self.spec_len(),
            self.wf() ==> n == self@.len() && self@.dom().finite(),
    {
        proof {
            if self.wf() {
                self.lemma_len();
            }
        }
        self.slots.len()
    }

    /// Whether the map has no entry.
    pub fn is_empty(&self) -> (b: bool)
        requires
            self.wf(),
        ensures
            b <==> self@ == Map::<Seq<char>, V>::empty(),
            b <==> self.spec_len() == 0,
    {
        proof {
            self.lemma_slots();
        }
        self.slots.len() == 0
    }

    /// The key of slot `i`.
    pub fn key_at(&self, i: usize) -> (k: &String)
        requires
            i < self.spec_len(),
        ensures
            k@ == self.spec_key(i as int),
    {
        &self.slots[i].key
    }

    /// The value of slot `i`.
    pub fn value_at(&self, i: usize) -> (v: &V)
        requires
            i < self.spec_len(),
        ensures
            *v == self.spec_value(i as int),
    {
        &self.slots[i].value
    }

    /// The slot that holds `key`, if there is one.
    fn find(&self, key: &String) -> (r: Option<usize>)
        ensures
            match r {
                Some(i) => i < self.spec_len() && self.spec_key(i as int) == key@,
                None => forall|i: int| 0 <= i < self.spec_len() ==> #[trigger] self.spec_key(i) != key@,
            },
    {
        let mut i: usize = 0;
        while i < self.slots.len()
            invariant
                i <= self.slots.len(),
                forall|j: int| 0 <= j < i ==> #[trigger] self.spec_key(j) != key@,
            decreases self.slots.len() - i,
        {
            if self.slots[i].key == *key {
                return Some(i);
            }
            i += 1;
        }
        None
    }

    /// Whether `key` has an entry.
    pub fn contains_key(&self, key: &String) -> (b: bool)
        requires
            self.wf(),
        ensures
            b == self@.contains_key(key@),
    {
        proof {
            self.lemma_slots();
        }
        self.find(key).is_some()
    }

    /// The value recorded for `key`, if any.
    pub fn get(&self, key: &String) -> (r: Option<&V>)
        requires
            self.wf(),
        ensures
            match r {
                Some(v) => self@.contains_key(key@) && *v == self@[key@],
                None => !self@.contains_key(key@),
            },
    {
        proof {
            self.lemma_slots();
        }
        match self.find(key) {
            Some(i) => Some(&self.slots[i].value),
            None => None,
        }
    }

    /// Records `value` for `key` and returns the value it replaces, if any.
    pub fn insert(&mut self, key: String, value: V) -> (prev: Option<V>)
        requires
            old(self).wf(),
        ensures
            final(self).wf(),
            final(self)@ == old(self)@.insert(key@, value),
            prev == if old(self)@.contains_key(key@) {
                Some(old(self)@[key@])
            } else {
                None::<V>
            },
    {
        proof {
            self.lemma_slots();
        }
        let prev = self.remove(&key);
        let ghost mid = *self;
        self.slots.push(Slot { key, value });
        proof {
            let n = mid.spec_len() as int;
            mid.lemma_slots();
            assert forall|i: int, j: int| 0 <= i < j < self.spec_len() implies #[trigger]
                self.spec_key(i) != #[trigger] self.spec_key(j) by {
                assert(self.spec_key(i) == mid.spec_key(i));
                if j < n {
                    assert(self.spec_key(j) == mid.spec_key(j));
                }
            }
            self.lemma_slots();
            assert(self@ =~= mid@.insert(key@, value)) by {
                assert forall|k: Seq<char>| self@.contains_key(k) <==> mid@.insert(
                    key@,
                    value,
                ).contains_key(k) by {
                    if mid@.contains_key(k) {
                        let i = choose|i: int| 0 <= i < n && mid.spec_key(i) == k;
                        assert(self.spec_key(i) == k);
                    }
                    if k == key@ {
                        assert(self.spec_key(n) == k);
                    }
                    if self@.contains_key(k) {
                        let i = choose|i: int| 0 <= i < n + 1 && self.spec_key(i) == k;
                        if i < n {
                            assert(mid.spec_key(i) == k);
                        }
                    }
                }
                assert forall|k: Seq<char>| self@.contains_key(k) implies self@[k] == mid@.insert(
                    key@,
                    value,
                )[k] by {
                    let i = choose|i: int| 0 <= i < n + 1 && self.spec_key(i) == k;
                    if i < n {
                        assert(mid.spec_key(i) == k);
                    }
                }
            }
        }
        prev
    }

    /// Drops the entry of `key` and returns its value, if it had one.
    pub fn remove(&mut self, key: &String) -> (prev: Option<V>)
        requires
            old(self).wf(),
        ensures
            final(self).wf(),
            final(self)@ == old(self)@.remove(key@),
            prev == if old(self)@.contains_key(key@) {
                Some(old(self)@[key@])
            } else {
                None::<V>
            },
            final(self).spec_len() == if old(self)@.contains_key(key@) {
                old(self).spec_len() - 1
            } else {
                old(self).spec_len() as int
            },
    {
        proof {
            self.lemma_slots();
        }
        match self.find(key) {
            Some(i) => {
                let slot = self.slots.remove(i);
                proof {
                    let n = old(self).spec_len() as int;
                    assert(forall|j: int| 0 <= j < i ==> self.spec_key(j) == old(self).spec_key(j));
                    assert(forall|j: int|
                        i <= j < n - 1 ==> self.spec_key(j) == old(self).spec_key(j + 1));
                    assert(forall|j: int|
                        0 <= j < i ==> self.spec_value(j) == old(self).spec_value(j));
                    assert(forall|j: int|
                        i <= j < n - 1 ==> self.spec_value(j) == old(self).spec_value(j + 1));
                    self.lemma_slots();
                    assert(self@ =~= old(self)@.remove(key@)) by {
                        assert forall|k: Seq<char>| self@.contains_key(k) <==> old(self)@.remove(
                            key@,
                        ).contains_key(k) by {
                            if old(self)@.contains_key(k) && k != key@ {
                                let j = choose|j: int| 0 <= j < n && old(self).spec_key(j) == k;
                                if j >= i {
                                    assert(self.spec_key(j - 1) == k);
                                }
                            }
                        }
                    }
                }
                Some(slot.value)
            },
            None => {
                None
            },
        }
    }
}

} // verus!
