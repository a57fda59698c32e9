//! The approvals of one token: which accounts may act for its owner, each
//! under an approval id drawn from a counter that never goes back.

use vstd::prelude::*;

use crate::account::AccountId;

verus! {

/// One grant: an account and the id under which it was approved.
pub struct Approval {
    pub account_id: AccountId,
    pub approval_id: u64,
}

impl View for Approval {
    type V = (Seq<char>, u64);

    open spec fn view(&self) -> (Seq<char>, u64) {
        (self.account_id@, self.approval_id)
    }
}

impl Clone for Approval {
    fn clone(&self) -> (r: Self)
        ensures
            r@ == self@,
    {
        Approval { account_id: self.account_id.clone(), approval_id: self.approval_id }
    }
}

/// The model of an approval table: the approved accounts with their ids, and
/// the last id handed out.
pub ghost struct ApprovalsView {
    pub grants: Map<Seq<char>, u64>,
    pub counter: u64,
}

/// The approvals of one token, with the counter of ids issued for it.
pub struct ApprovalTable {
    entries: Vec<Approval>,
    counter: u64,
    grants: Ghost<Map<Seq<char>, u64>>,
}

impl View for ApprovalTable {
    type V = ApprovalsView;

    closed spec fn view(&self) -> ApprovalsView {
        ApprovalsView { grants: self.grants@, counter: self.counter }
    }
}

impl ApprovalTable {
    /// The entries name each account at most once, agree with the model, and
    /// no id in use exceeds the counter.
    pub closed spec fn wf(&self) -> bool {
        &&& forall|i: int, j: int|
            0 <= i < j < self.entries@.len() ==> (#[trigger] self.entries@[i])@.0 != (
            #[trigger] self.entries@[j])@.0
        &&& forall|i: int|
            0 <= i < self.entries@.len() ==> self.grants@.contains_key(
                (#[trigger] self.entries@[i])@.0,
            ) && self.grants@[self.entries@[i]@.0] == self.entries@[i]@.1
        &&& forall|a: Seq<char>|
            #[trigger] self.grants@.contains_key(a) ==> exists|i: int|
                0 <= i < self.entries@.len() && (#[trigger] self.entries@[i])@.0 == a
        &&& forall|a: Seq<char>| #[trigger]
            self.grants@.contains_key(a) ==> self.grants@[a] <= self.counter
    }

    /// In a well-formed table no approval id in use exceeds the counter, so
    /// the next id handed out is new.
    pub proof fn lemma_ids_within_counter(&self)
        requires
            self.wf(),
        ensures
            forall|a: Seq<char>| #[trigger]
                self@.grants.contains_key(a) ==> self@.grants[a] <= self@.counter,
    {
    }

    /// A table with no approvals whose first id will be 1.
    pub fn new() -> (r: ApprovalTable)
        ensures
            r.wf(),
            r@.grants == Map::<Seq<char>, u64>::empty(),
            r@.counter == 0,
    {
        ApprovalTable { entries: Vec::new(), counter: 0, grants: Ghost(Map::empty()) }
    }

    /// The position of `account`'s entry, if it has one.
    fn find(&self, account: &AccountId) -> (r: Option<usize>)
        requires
            self.wf(),
        ensures
            match r {
                Some(i) => i < self.entries@.len() && self.entries@[i as int]@.0 == account@,
                None => !self@.grants.contains_key(account@),
            },
    {
        let mut i: usize = 0;
        while i < self.entries.len()
            invariant
                self.wf(),
                i <= self.entries@.len(),
                forall|k: int| 0 <= k < i ==> (#[trigger] self.entries@[k])@.0 != account@,
            decreases self.entries@.len() - i,
        {
            if self.entries[i].account_id.same(account) {
                return Some(i);
            }
            i = i + 1;
        }
        None
    }

    /// Removes the approval of `account`, if there is one; the counter stays.
    pub fn revoke(&mut self, account: &AccountId)
        requires
            old(self).wf(),
        ensures
            final(self).wf(),
            final(self)@.grants == old(self)@.grants.remove(account@),
            final(self)@.counter == old(self)@.counter,
    {
        match self.find(account) {
            Some(i) => {
                let ghost before = self.entries@;
                self.entries.remove(i);
                self.grants = Ghost(self.grants@.remove(account@));
                assert forall|a: Seq<char>| #[trigger]
                    self.grants@.contains_key(a) implies exists|k: int|
                        0 <= k < self.entries@.len() && (#[trigger] self.entries@[k])@.0 == a by {
                    let k = choose|k: int| 0 <= k < before.len() && (#[trigger] before[k])@.0 == a;
                    if k < i {
                        assert(self.entries@[k] == before[k]);
                    } else {
                        assert(k != i);
                        assert(self.entries@[k - 1] == before[k]);
                    }
                }
            },
            None => {
                assert(self.grants@.remove(account@) =~= self.grants@);
            },
        }
    }

    /// Approves `account` under the next id, replacing any approval it had,
    /// and returns that id.
    pub fn grant(&mut self, account: AccountId) -> (r: u64)
        requires
            old(self).wf(),
            old(self)@.counter < u64::MAX,
        ensures
            final(self).wf(),
            r == old(self)@.counter + 1,
            final(self)@.counter == r,
            final(self)@.grants == old(self)@.grants.insert(account@, r),
    {
        self.revoke(&account);
        let id: u64 = self.counter + 1;
        let ghost key = account@;
        let ghost before = self.entries@;
        self.entries.push(Approval { account_id: account, approval_id: id });
        self.counter = id;
        self.grants = Ghost(self.grants@.insert(key, id));
        assert forall|a: Seq<char>| #[trigger]
            self.grants@.contains_key(a) implies exists|k: int|
                0 <= k < self.entries@.len() && (#[trigger] self.entries@[k])@.0 == a by {
            if a == key {
                assert(self.entries@[before.len() as int]@.0 == a);
            } else {
                let k = choose|k: int| 0 <= k < before.len() && (#[trigger] before[k])@.0 == a;
                assert(self.entries@[k] == before[k]);
            }
        }
        assert(self.grants@ == old(self)@.grants.insert(account@, id)) by {
            assert(self.grants@ =~= old(self)@.grants.remove(key).insert(key, id));
            assert(old(self)@.grants.remove(key).insert(key, id) =~= old(self)@.grants.insert(key, id));
        }
        id
    }

    /// Removes every approval; the counter stays, so no id is handed out twice.
    pub fn revoke_all(&mut self)
        requires
            old(self).wf(),
        ensures
            final(self).wf(),
            final(self)@.grants == Map::<Seq<char>, u64>::empty(),
            final(self)@.counter == old(self)@.counter,
    {
        self.entries = Vec::new();
        self.grants = Ghost(Map::empty());
    }

    /// Whether `account` holds an approval, and, when `expected` is given,
    /// under exactly that id.
    pub fn is_approved(&self, account: &AccountId, expected: Option<u64>) -> (r: bool)
        requires
            self.wf(),
        ensures
            r == (self@.grants.contains_key(account@) && match expected {
                Some(id) => self@.grants[account@] == id,
                None => true,
            }),
    {
        match self.find(account) {
            Some(i) => match expected {
                Some(id) => self.entries[i].approval_id == id,
                None => true,
            },
            None => false,
        }
    }

    /// The id under which `account` is approved, if it is.
    pub fn approval_id(&self, account: &AccountId) -> (r: Option<u64>)
        requires
            self.wf(),
        ensures
            r == (if self@.grants.contains_key(account@) {
                Some(self@.grants[account@])
            } else {
                None
            }),
    {
        match self.find(account) {
            Some(i) => Some(self.entries[i].approval_id),
            None => None,
        }
    }

    /// The last approval id handed out (0 before the first).
    pub fn counter(&self) -> (r: u64)
        ensures
            r == self@.counter,
    {
        self.counter
    }

    /// The number of approved accounts.
    pub fn len(&self) -> (r: usize)
        requires
            self.wf(),
        ensures
            r == self@.grants.len(),
    {
        proof {
            self.lemma_len();
        }
        self.entries.len()
    }

    /// The entries, one per approved account.
    pub fn entries(&self) -> (r: &Vec<Approval>)
        requires
            self.wf(),
        ensures
            r@.len() == self@.grants.len(),
            forall|i: int|
                0 <= i < r@.len() ==> self@.grants.contains_key((#[trigger] r@[i])@.0)
                    && self@.grants[r@[i]@.0] == r@[i]@.1,
    {
        proof {
            self.lemma_len();
        }
        &self.entries
    }

    proof fn lemma_len(&self)
        requires
            self.wf(),
        ensures
            self.grants@.dom().finite(),
            self.entries@.len() == self.grants@.len(),
    {
        let keys = self.entries@.map_values(|e: Approval| e@.0);
        assert(keys.no_duplicates()) by {
            assert forall|i: int, j: int|
                0 <= i < keys.len() && 0 <= j < keys.len() && i != j implies keys[i] != keys[j] by {
                if i < j {
                    assert(self.entries@[i]@.0 != self.entries@[j]@.0);
                } else {
                    assert(self.entries@[j]@.0 != self.entries@[i]@.0);
                }
            }
        }
        assert(keys.to_set() =~= self.grants@.dom()) by {
            assert forall|a: Seq<char>| keys.to_set().contains(a) implies self.grants@.contains_key(a) by {
                let i = choose|i: int| 0 <= i < keys.len() && keys[i] == a;
                assert(self.grants@.contains_key(self.entries@[i]@.0));
            }
            assert forall|a: Seq<char>| self.grants@.contains_key(a) implies keys.to_set().contains(a) by {
                let i = choose|i: int| 0 <= i < self.entries@.len() && (#[trigger] self.entries@[i])@.0 == a;
                assert(keys[i] == a);
            }
        }
        keys.unique_seq_to_set();
    }

    /// A copy with the same approvals and counter.
    pub fn copy(&self) -> (r: ApprovalTable)
        requires
            self.wf(),
        ensures
            r.wf(),
            r@ == self@,
    {
        let mut entries: Vec<Approval> = Vec::new();
        let mut i: usize = 0;
        while i < self.entries.len()
            invariant
                self.wf(),
                i <= self.entries@.len(),
                entries@.len() == i,
                forall|k: int| 0 <= k < i ==> (#[trigger] entries@[k])@ == self.entries@[k]@,
            decreases self.entries@.len() - i,
        {
            entries.push(self.entries[i].clone());
            i = i + 1;
        }
        let r = ApprovalTable { entries, counter: self.counter, grants: Ghost(self.grants@) };
        assert forall|a: Seq<char>| #[trigger]
            r.grants@.contains_key(a) implies exists|k: int|
                0 <= k < r.entries@.len() && (#[trigger] r.entries@[k])@.0 == a by {
            let k = choose|k: int| 0 <= k < self.entries@.len() && (#[trigger] self.entries@[k])@.0 == a;
            assert(r.entries@[k]@ == self.entries@[k]@);
        }
        assert(r.wf());
        r
    }
}

} // verus!
