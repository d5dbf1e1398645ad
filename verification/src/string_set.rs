//! A finite set of strings.

use crate::string_map::StringMap;
use vstd::prelude::*;

verus! {

/// A finite set of strings. Its view is the set of their character sequences.
#[derive(Debug)]
pub struct StringSet {
    members: StringMap<()>,
}

impl View for StringSet {
    type V = Set<Seq<char>>;

    closed spec fn view(&self) -> Set<Seq<char>> {
        self.members@.dom()
    }
}

impl StringSet {
    /// No string is held twice.
    pub closed spec fn wf(&self) -> bool {
        self.members.wf()
    }

    /// The empty set.
    pub fn new() -> (s: Self)
        ensures
            s.wf(),
            s@ == Set::<Seq<char>>::empty(),
    {
        let s = StringSet { members: StringMap::new() };
        s
    }

    /// Whether the set has no member.
    pub fn is_empty(&self) -> (b: bool)
        requires
            self.wf(),
        ensures
            b <==> self@ == Set::<Seq<char>>::empty(),
    {
        let b = self.members.is_empty();
        proof {
            if !b {
                if self@ == Set::<Seq<char>>::empty() {
                    assert(self.members@ =~= Map::<Seq<char>, ()>::empty());
                }
            }
        }
        b
    }

    /// Number of members.
    pub fn len(&self) -> (n: usize)
        requires
            self.wf(),
        ensures
            n == self@.len(),
            self@.finite(),
    {
        self.members.len()
    }

    /// Whether `item` is a member.
    pub fn contains(&self, item: &String) -> (b: bool)
        requires
            self.wf(),
        ensures
            b == self@.contains(item@),
    {
        self.members.contains_key(item)
    }

    /// Adds `item`; says whether it was new.
    pub fn insert(&mut self, item: String) -> (added: bool)
        requires
            old(self).wf(),
        ensures
            final(self).wf(),
            final(self)@ == old(self)@.insert(item@),
            added == !old(self)@.contains(item@),
    {
        let prev = self.members.insert(item, ());
        prev.is_none()
    }

    /// Takes `item` out; says whether it was a member.
    pub fn remove(&mut self, item: &String) -> (removed: bool)
        requires
            old(self).wf(),
        ensures
            final(self).wf(),
            final(self)@ == old(self)@.remove(item@),
            removed == old(self)@.contains(item@),
    {
        let prev = self.members.remove(item);
        prev.is_some()
    }

    /// The members, each once, in no particular order.
    pub fn to_vec(&self) -> (items: Vec<String>)
        requires
            self.wf(),
        ensures
            forall|i: int| 0 <= i < items.len() ==> self@.contains(#[trigger] items[i]@),
            forall|s: Seq<char>| #[trigger]
                self@.contains(s) ==> exists|i: int| 0 <= i < items.len() && #[trigger] items[i]@ == s,
            forall|i: int, j: int|
                0 <= i < j < items.len() ==> #[trigger] items[i]@ != #[trigger] items[j]@,
    {
        let mut items: Vec<String> = Vec::new();
        let n = self.members.len();
        let mut i: usize = 0;
        proof {
            self.members.lemma_slots();
        }
        while i < n
            invariant
                self.wf(),
                i <= n,
                n == self.members.spec_len(),
                items.len() == i,
                forall|j: int| 0 <= j < i ==> #[trigger] items[j]@ == self.members.spec_key(j),
            decreases n - i,
        {
            items.push(self.members.key_at(i).clone());
            i += 1;
        }
        proof {
            assert forall|s: Seq<char>| #[trigger] self@.contains(s) implies exists|i: int|
                0 <= i < items.len() && #[trigger] items[i]@ == s by {
                let j = choose|j: int| 0 <= j < self.members.spec_len() && self.members.spec_key(j) == s;
                assert(items[j]@ == s);
            }
        }
        items
    }
}

} // verus!
