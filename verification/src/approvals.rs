//! The accounts that may move one token for its owner, each with the id of
//! its approval.

use crate::string_map::StringMap;
use vstd::prelude::*;

verus! {

/// `h` is the largest approval id in `grants`, or 0 where there is none.
pub open spec fn is_highest_id(grants: Map<Seq<char>, u64>, h: u64) -> bool {
    &&& forall|a: Seq<char>| grants.contains_key(a) ==> #[trigger] grants[a] <= h
    &&& h == 0 || exists|a: Seq<char>| grants.contains_key(a) && #[trigger] grants[a] == h
}

/// The largest approval id in `grants`, or 0 where there is none.
pub open spec fn highest_id(grants: Map<Seq<char>, u64>) -> u64 {
    choose|h: u64| is_highest_id(grants, h)
}

/// There is only one largest id.
pub proof fn lemma_highest_id_unique(grants: Map<Seq<char>, u64>, h: u64)
    requires
        is_highest_id(grants, h),
    ensures
        highest_id(grants) == h,
{
    let c = highest_id(grants);
    assert(is_highest_id(grants, c));
    if c < h {
        let a = choose|a: Seq<char>| grants.contains_key(a) && #[trigger] grants[a] == h;
        assert(grants[a] <= c);
    }
    if h < c {
        let a = choose|a: Seq<char>| grants.contains_key(a) && #[trigger] grants[a] == c;
        assert(grants[a] <= h);
    }
}

/// The approvals of one token: a finite map from account to approval id.
#[derive(Debug)]
pub struct ApprovalSet {
    grants: StringMap<u64>,
}

impl View for ApprovalSet {
    type V = Map<Seq<char>, u64>;

    closed spec fn view(&self) -> Map<Seq<char>, u64> {
        self.grants@
    }
}

impl ApprovalSet {
    /// No account is recorded twice.
    pub closed spec fn wf(&self) -> bool {
        self.grants.wf()
    }

    /// No approval at all.
    pub fn new() -> (s: Self)
        ensures
            s.wf(),
            s@ == Map::<Seq<char>, u64>::empty(),
    {
        ApprovalSet { grants: StringMap::new() }
    }

    /// Whether no account is approved.
    pub fn is_empty(&self) -> (b: bool)
        requires
            self.wf(),
        ensures
            b <==> self@ == Map::<Seq<char>, u64>::empty(),
    {
        self.grants.is_empty()
    }

    /// Number of approved accounts.
    pub fn len(&self) -> (n: usize)
        requires
            self.wf(),
        ensures
            n == self@.len(),
            self@.dom().finite(),
    {
        self.grants.len()
    }

    /// The approval id of `account_id`, if it is approved.
    pub fn get(&self, account_id: &String) -> (id: Option<u64>)
        requires
            self.wf(),
        ensures
            id == if self@.contains_key(account_id@) {
                Some(self@[account_id@])
            } else {
                None::<u64>
            },
    {
        match self.grants.get(account_id) {
            Some(id) => Some(*id),
            None => None,
        }
    }

    /// Whether `account_id` is approved.
    pub fn contains(&self, account_id: &String) -> (b: bool)
        requires
            self.wf(),
        ensures
            b == self@.contains_key(account_id@),
    {
        self.grants.contains_key(account_id)
    }

    /// Approves `account_id` under `approval_id`; returns the id it had before.
    pub fn insert(&mut self, account_id: String, approval_id: u64) -> (prev: Option<u64>)
        requires
            old(self).wf(),
        ensures
            final(self).wf(),
            final(self)@ == old(self)@.insert(account_id@, approval_id),
            prev == if old(self)@.contains_key(account_id@) {
                Some(old(self)@[account_id@])
            } else {
                None::<u64>
            },
    {
        self.grants.insert(account_id, approval_id)
    }

    /// Withdraws the approval of `account_id`; returns the id it had.
    pub fn remove(&mut self, account_id: &String) -> (prev: Option<u64>)
        requires
            old(self).wf(),
        ensures
            final(self).wf(),
            final(self)@ == old(self)@.remove(account_id@),
            prev == if old(self)@.contains_key(account_id@) {
                Some(old(self)@[account_id@])
            } else {
                None::<u64>
            },
    {
        self.grants.remove(account_id)
    }

    /// The approved accounts, each once, in no particular order.
    pub fn accounts(&self) -> (items: Vec<String>)
        requires
            self.wf(),
        ensures
            forall|i: int| 0 <= i < items.len() ==> self@.contains_key(#[trigger] items[i]@),
            forall|a: Seq<char>| #[trigger]
                self@.contains_key(a) ==> exists|i: int|
                    0 <= i < items.len() && #[trigger] items[i]@ == a,
            forall|i: int, j: int|
                0 <= i < j < items.len() ==> #[trigger] items[i]@ != #[trigger] items[j]@,
    {
        let mut items: Vec<String> = Vec::new();
        let n = self.grants.len();
        let mut i: usize = 0;
        proof {
            self.grants.lemma_slots();
        }
        while i < n
            invariant
                self.wf(),
                i <= n,
                n == self.grants.spec_len(),
                items.len() == i,
                forall|j: int| 0 <= j < i ==> #[trigger] items[j]@ == self.grants.spec_key(j),
            decreases n - i,
        {
            items.push(self.grants.key_at(i).clone());
            i += 1;
        }
        proof {
            assert forall|a: Seq<char>| #[trigger] self@.contains_key(a) implies exists|i: int|
                0 <= i < items.len() && #[trigger] items[i]@ == a by {
                let j = choose|j: int| 0 <= j < self.grants.spec_len() && self.grants.spec_key(j) == a;
                assert(items[j]@ == a);
            }
        }
        items
    }

    /// The largest approval id recorded, or 0 where none is.
    pub fn highest_id(&self) -> (h: u64)
        requires
            self.wf(),
        ensures
            h == highest_id(self@),
            is_highest_id(self@, h),
    {
        let n = self.grants.len();
        let mut h: u64 = 0;
        let mut i: usize = 0;
        proof {
            self.grants.lemma_slots();
        }
        while i < n
            invariant
                self.wf(),
                i <= n,
                n == self.grants.spec_len(),
                forall|j: int| 0 <= j < i ==> #[trigger] self.grants.spec_value(j) <= h,
                h == 0 || exists|j: int| 0 <= j < i && #[trigger] self.grants.spec_value(j) == h,
            decreases n - i,
        {
            let id = *self.grants.value_at(i);
            if id > h {
                h = id;
            }
            i += 1;
        }
        proof {
            assert forall|a: Seq<char>| self@.contains_key(a) implies #[trigger] self@[a] <= h by {
                let j = choose|j: int| 0 <= j < self.grants.spec_len() && self.grants.spec_key(j) == a;
                assert(self.grants.spec_value(j) <= h);
            }
            if h != 0 {
                let j = choose|j: int| 0 <= j < n && #[trigger] self.grants.spec_value(j) == h;
                let a = self.grants.spec_key(j);
                assert(self@.contains_key(a) && self@[a] == h);
            }
            lemma_highest_id_unique(self@, h);
        }
        h
    }
}

impl Clone for ApprovalSet {
    /// A copy with the same approvals.
    fn clone(&self) -> (copy: Self)
        ensures
            self.wf() ==> copy.wf() && copy@ == self@,
    {
        let mut copy = ApprovalSet::new();
        let n = self.grants.len();
        let mut i: usize = 0;
        while i < n
            invariant
                i <= n,
                n == self.grants.spec_len(),
                copy.wf(),
                self.wf() ==> forall|a: Seq<char>|
                    copy@.contains_key(a) <==> exists|j: int|
                        0 <= j < i && #[trigger] self.grants.spec_key(j) == a,
                self.wf() ==> forall|j: int|
                    0 <= j < i ==> copy@[#[trigger] self.grants.spec_key(j)] == self.grants.spec_value(j),
            decreases n - i,
        {
            let ghost before = copy@;
            copy.insert(self.grants.key_at(i).clone(), *self.grants.value_at(i));
            proof {
                if self.wf() {
                    self.grants.lemma_slots();
                    assert forall|a: Seq<char>| copy@.contains_key(a) <==> exists|j: int|
                        0 <= j < i + 1 && #[trigger] self.grants.spec_key(j) == a by {
                        if before.contains_key(a) {
                            let j = choose|j: int| 0 <= j < i && #[trigger] self.grants.spec_key(j) == a;
                            assert(0 <= j < i + 1 && self.grants.spec_key(j) == a);
                        }
                    }
                }
            }
            i += 1;
        }
        proof {
            if self.wf() {
                self.grants.lemma_slots();
            }
        }
        copy
    }
}

} // verus!
