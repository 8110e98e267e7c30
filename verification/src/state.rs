//! The access contract's storage: a per-account capability index.
//!
//! The host keeps one storage cell per account key and the contract follows
//! a cell-per-named-key pattern: a read of a missing key yields the empty
//! sequence, a write creates the cell on first assignment and overwrites it
//! afterwards. "No record for this account" and "empty record for this
//! account" are therefore deliberately indistinguishable.

use vstd::prelude::*;

use crate::cap::{AccountId, CapModel, Capability, ADDR_LEN};

verus! {

/// The sequence of capability models a sequence of capabilities stands for.
pub open spec fn cap_views(s: Seq<Capability>) -> Seq<CapModel> {
    s.map_values(|c: Capability| c@)
}

/// The sequence of account models a sequence of identifiers stands for.
pub open spec fn acct_views(s: Seq<AccountId>) -> Seq<Seq<u8>> {
    s.map_values(|a: AccountId| a@)
}

/// One account's slot in the index: the account key and the capabilities
/// recorded for it, in insertion order.
struct Entry {
    account: AccountId,
    caps: Vec<Capability>,
}

/// The user capability index: for each account that has ever received a
/// capability from this contract, the ordered sequence of capabilities
/// recorded for it.
pub struct ContractState {
    entries: Vec<Entry>,
}

impl ContractState {
    /// Whether the index holds a (necessarily non-empty) record for `a`.
    pub closed spec fn contains_account(self, a: Seq<u8>) -> bool {
        exists|i: int| 0 <= i < self.entries@.len() && self.entries@[i].account@ == a
    }

    spec fn idx_of(self, a: Seq<u8>) -> int {
        choose|i: int| 0 <= i < self.entries@.len() && self.entries@[i].account@ == a
    }

    /// The capabilities recorded for account `a`, in insertion order; the
    /// empty sequence if the index holds no record for `a`.
    pub closed spec fn caps_of(self, a: Seq<u8>) -> Seq<CapModel> {
        if self.contains_account(a) {
            cap_views(self.entries@[self.idx_of(a)].caps@)
        } else {
            Seq::empty()
        }
    }

    /// The number of accounts with a record in the index.
    pub closed spec fn num_accounts(self) -> nat {
        self.entries@.len()
    }

    /// Index invariant: account keys are full width and pairwise distinct,
    /// every record is non-empty, and every recorded capability is
    /// well-formed.
    pub closed spec fn wf(self) -> bool {
        &&& forall|i: int|
            0 <= i < self.entries@.len() ==> (#[trigger] self.entries@[i]).account.wf()
        &&& forall|i: int|
            0 <= i < self.entries@.len() ==> (#[trigger] self.entries@[i]).caps@.len() > 0
        &&& forall|i: int, j: int|
            0 <= i < self.entries@.len() && 0 <= j < self.entries@[i].caps@.len() ==> (
            #[trigger] self.entries@[i].caps@[j])@.wf()
        &&& forall|i: int, j: int|
            0 <= i < j < self.entries@.len() ==> (#[trigger] self.entries@[i]).account@ != (
            #[trigger] self.entries@[j]).account@
    }

    proof fn lemma_idx(self, a: Seq<u8>, i: int)
        requires
            self.wf(),
            0 <= i < self.entries@.len(),
            self.entries@[i].account@ == a,
        ensures
            self.contains_account(a),
            self.idx_of(a) == i,
    {
        assert(self.contains_account(a));
        let j = self.idx_of(a);
        assert(0 <= j < self.entries@.len() && self.entries@[j].account@ == a);
        if i < j {
            assert(self.entries@[i].account@ != self.entries@[j].account@);
        } else if j < i {
            assert(self.entries@[j].account@ != self.entries@[i].account@);
        }
    }

    /// Any account present in a well-formed index has a non-empty record:
    /// records are created only by a first append and never shrink.
    pub proof fn lemma_present_nonempty(self, a: Seq<u8>)
        requires
            self.wf(),
            self.contains_account(a),
        ensures
            self.caps_of(a).len() > 0,
    {
        let i = self.idx_of(a);
        assert(0 <= i < self.entries@.len() && self.entries@[i].account@ == a);
        assert(self.entries@[i].caps@.len() > 0);
    }

    /// A fresh, empty index, as the contract starts with.
    pub fn new() -> (s: ContractState)
        ensures
            s.wf(),
            s.num_accounts() == 0,
            forall|a: Seq<u8>| !(#[trigger] s.contains_account(a)),
            forall|a: Seq<u8>| #[trigger] s.caps_of(a) == Seq::<CapModel>::empty(),
    {
        ContractState { entries: Vec::new() }
    }

    fn find(&self, account: &AccountId) -> (r: Option<usize>)
        ensures
            match r {
                Some(i) => i < self.entries@.len() && self.entries@[i as int].account@
                    == account@,
                None => !self.contains_account(account@),
            },
    {
        let mut i: usize = 0;
        while i < self.entries.len()
            invariant
                i <= self.entries@.len(),
                forall|j: int| 0 <= j < i ==> (#[trigger] self.entries@[j]).account@ != account@,
            decreases self.entries@.len() - i,
        {
            if self.entries[i].account.same_account(account) {
                return Some(i);
            }
            i += 1;
        }
        None
    }

    /// The record stored for `account`, or the empty sequence if there is
    /// none: the contract's lazy defaulted read of a per-account cell.
    pub fn caps_for(&self, account: &AccountId) -> (r: Vec<Capability>)
        requires
            self.wf(),
        ensures
            cap_views(r@) == self.caps_of(account@),
            forall|j: int| 0 <= j < r@.len() ==> (#[trigger] r@[j])@.wf(),
    {
        match self.find(account) {
            None => {
                let r: Vec<Capability> = Vec::new();
                proof {
                    assert(cap_views(r@) =~= self.caps_of(account@));
                }
                r
            },
            Some(i) => {
                proof {
                    self.lemma_idx(account@, i as int);
                }
                let mut r: Vec<Capability> = Vec::new();
                let n = self.entries[i].caps.len();
                let mut j: usize = 0;
                while j < n
                    invariant
                        self.wf(),
                        i < self.entries@.len(),
                        n == self.entries@[i as int].caps@.len(),
                        j <= n,
                        r@.len() == j,
                        forall|k: int|
                            0 <= k < j ==> (#[trigger] r@[k])@ == self.entries@[i as int].caps@[k]@,
                    decreases n - j,
                {
                    r.push(self.entries[i].caps[j].duplicate());
                    j += 1;
                }
                proof {
                    self.lemma_idx(account@, i as int);
                    assert(cap_views(r@) =~= self.caps_of(account@));
                    assert forall|k: int| 0 <= k < r@.len() implies (#[trigger] r@[k])@.wf() by {
                        assert(self.entries@[i as int].caps@[k]@.wf());
                    }
                }
                r
            },
        }
    }

    /// Appends `cap` to the record of `account`, creating the record on
    /// first write and extending the existing one afterwards; every other
    /// account's record is untouched.
    pub fn append_one(&mut self, account: &AccountId, cap: Capability)
        requires
            old(self).wf(),
            account.wf(),
            cap@.wf(),
        ensures
            final(self).wf(),
            final(self).caps_of(account@) == old(self).caps_of(account@).push(cap@),
            forall|a: Seq<u8>|
                a != account@ ==> #[trigger] final(self).caps_of(a) == old(self).caps_of(a),
            forall|a: Seq<u8>|
                #[trigger] final(self).contains_account(a) <==> (old(self).contains_account(a) || a
                    == account@),
            final(self).num_accounts() == old(self).num_accounts() + (if old(
                self,
            ).contains_account(account@) {
                0int
            } else {
                1int
            }),
    {
        match self.find(account) {
            Some(i) => {
                proof {
                    old(self).lemma_idx(account@, i as int);
                }
                let mut e = self.entries.remove(i);
                e.caps.push(cap);
                let ghost e_snap = e;
                self.entries.insert(i, e);
                proof {
                    assert(self.entries@ =~= old(self).entries@.update(i as int, e_snap));
                    lemma_append_update(*old(self), *self, i as int, e_snap, account@, cap);
                }
            },
            None => {
                let mut caps: Vec<Capability> = Vec::new();
                caps.push(cap);
                let e = Entry { account: account.duplicate(), caps };
                let ghost e_snap = e;
                self.entries.push(e);
                proof {
                    lemma_append_push(*old(self), *self, e_snap, account@, cap);
                }
            },
        }
    }
}

proof fn lemma_append_update(
    prev: ContractState,
    cur: ContractState,
    i: int,
    e: Entry,
    acct: Seq<u8>,
    cap: Capability,
)
    requires
        prev.wf(),
        0 <= i < prev.entries@.len(),
        prev.entries@[i].account@ == acct,
        cap@.wf(),
        e.account@ == acct,
        e.caps@ == prev.entries@[i].caps@.push(cap),
        cur.entries@ == prev.entries@.update(i, e),
    ensures
        cur.wf(),
        cur.caps_of(acct) == prev.caps_of(acct).push(cap@),
        forall|a: Seq<u8>| a != acct ==> #[trigger] cur.caps_of(a) == prev.caps_of(a),
        forall|a: Seq<u8>|
            #[trigger] cur.contains_account(a) <==> (prev.contains_account(a) || a == acct),
        cur.num_accounts() == prev.num_accounts(),
{
    let n = prev.entries@.len() as int;
    assert(cur.entries@.len() == n);
    assert(cur.entries@[i] == e);
    assert forall|k: int| 0 <= k < n && k != i implies cur.entries@[k] == prev.entries@[k] by {}
    assert forall|k: int| 0 <= k < n implies (#[trigger] cur.entries@[k]).account@
        == prev.entries@[k].account@ by {}

    // Well-formedness of the updated index.
    assert forall|k: int| 0 <= k < n implies (#[trigger] cur.entries@[k]).account.wf() by {
        assert(prev.entries@[k].account.wf());
    }
    assert forall|k: int| 0 <= k < n implies (#[trigger] cur.entries@[k]).caps@.len() > 0 by {
        if k == i {
            assert(e.caps@.len() == prev.entries@[i].caps@.len() + 1);
        } else {
            assert(prev.entries@[k].caps@.len() > 0);
        }
    }
    assert forall|k: int, j: int|
        0 <= k < n && 0 <= j < cur.entries@[k].caps@.len() implies (
    #[trigger] cur.entries@[k].caps@[j])@.wf() by {
        if k == i {
            if j < prev.entries@[i].caps@.len() {
                assert(e.caps@[j] == prev.entries@[i].caps@[j]);
                assert(prev.entries@[i].caps@[j]@.wf());
            } else {
                assert(e.caps@[j] == cap);
            }
        } else {
            assert(prev.entries@[k].caps@[j]@.wf());
        }
    }
    assert forall|k: int, j: int| 0 <= k < j < n implies (#[trigger] cur.entries@[k]).account@ != (
    #[trigger] cur.entries@[j]).account@ by {
        assert(prev.entries@[k].account@ != prev.entries@[j].account@);
    }
    assert(cur.wf());

    // Membership is unchanged; `acct` was and stays present.
    assert forall|a: Seq<u8>| #[trigger] cur.contains_account(a) <==> (prev.contains_account(a)
        || a == acct) by {
        if cur.contains_account(a) {
            let w = choose|w: int| 0 <= w < cur.entries@.len() && cur.entries@[w].account@ == a;
            assert(prev.entries@[w].account@ == a);
            assert(prev.contains_account(a));
        }
        if prev.contains_account(a) {
            let w = choose|w: int| 0 <= w < prev.entries@.len() && prev.entries@[w].account@ == a;
            assert(cur.entries@[w].account@ == a);
            assert(cur.contains_account(a));
        }
        if a == acct {
            assert(prev.contains_account(acct));
        }
    }

    // The record of `acct` grew by exactly `cap`.
    prev.lemma_idx(acct, i);
    cur.lemma_idx(acct, i);
    assert(cur.caps_of(acct) == cap_views(e.caps@));
    assert(prev.caps_of(acct) == cap_views(prev.entries@[i].caps@));
    assert(cap_views(e.caps@) =~= cap_views(prev.entries@[i].caps@).push(cap@));

    // Every other record is untouched.
    assert forall|a: Seq<u8>| a != acct implies #[trigger] cur.caps_of(a) == prev.caps_of(a) by {
        if prev.contains_account(a) {
            let w = choose|w: int| 0 <= w < prev.entries@.len() && prev.entries@[w].account@ == a;
            assert(w != i);
            assert(cur.entries@[w].account@ == a);
            prev.lemma_idx(a, w);
            cur.lemma_idx(a, w);
            assert(cur.entries@[w] == prev.entries@[w]);
        } else {
            assert(!cur.contains_account(a));
        }
    }
}

proof fn lemma_append_push(
    prev: ContractState,
    cur: ContractState,
    e: Entry,
    acct: Seq<u8>,
    cap: Capability,
)
    requires
        prev.wf(),
        !prev.contains_account(acct),
        acct.len() == ADDR_LEN,
        cap@.wf(),
        e.account@ == acct,
        e.caps@ == Seq::<Capability>::empty().push(cap),
        cur.entries@ == prev.entries@.push(e),
    ensures
        cur.wf(),
        cur.caps_of(acct) == prev.caps_of(acct).push(cap@),
        forall|a: Seq<u8>| a != acct ==> #[trigger] cur.caps_of(a) == prev.caps_of(a),
        forall|a: Seq<u8>|
            #[trigger] cur.contains_account(a) <==> (prev.contains_account(a) || a == acct),
        cur.num_accounts() == prev.num_accounts() + 1,
{
    let n = prev.entries@.len() as int;
    assert(cur.entries@.len() == n + 1);
    assert(cur.entries@[n] == e);
    assert forall|k: int| 0 <= k < n implies cur.entries@[k] == prev.entries@[k] by {}
    assert forall|k: int| 0 <= k < n implies (#[trigger] prev.entries@[k]).account@ != acct by {
        if prev.entries@[k].account@ == acct {
            assert(prev.contains_account(acct));
        }
    }

    // Well-formedness of the extended index.
    assert forall|k: int| 0 <= k < n + 1 implies (#[trigger] cur.entries@[k]).account.wf() by {
        if k < n {
            assert(prev.entries@[k].account.wf());
        }
    }
    assert forall|k: int| 0 <= k < n + 1 implies (#[trigger] cur.entries@[k]).caps@.len() > 0 by {
        if k < n {
            assert(prev.entries@[k].caps@.len() > 0);
        }
    }
    assert forall|k: int, j: int|
        0 <= k < n + 1 && 0 <= j < cur.entries@[k].caps@.len() implies (
    #[trigger] cur.entries@[k].caps@[j])@.wf() by {
        if k < n {
            assert(prev.entries@[k].caps@[j]@.wf());
        } else {
            assert(e.caps@[j] == cap);
        }
    }
    assert forall|k: int, j: int|
        0 <= k < j < n + 1 implies (#[trigger] cur.entries@[k]).account@ != (
    #[trigger] cur.entries@[j]).account@ by {
        if j < n {
            assert(prev.entries@[k].account@ != prev.entries@[j].account@);
        } else {
            assert(prev.entries@[k].account@ != acct);
        }
    }
    assert(cur.wf());

    // Membership grew by exactly `acct`.
    assert forall|a: Seq<u8>| #[trigger] cur.contains_account(a) <==> (prev.contains_account(a)
        || a == acct) by {
        if cur.contains_account(a) {
            let w = choose|w: int| 0 <= w < cur.entries@.len() && cur.entries@[w].account@ == a;
            if w < n {
                assert(prev.entries@[w].account@ == a);
                assert(prev.contains_account(a));
            }
        }
        if prev.contains_account(a) {
            let w = choose|w: int| 0 <= w < prev.entries@.len() && prev.entries@[w].account@ == a;
            assert(cur.entries@[w].account@ == a);
            assert(cur.contains_account(a));
        }
        if a == acct {
            assert(cur.entries@[n].account@ == acct);
            assert(cur.contains_account(acct));
        }
    }

    // The fresh record holds exactly `cap`.
    cur.lemma_idx(acct, n);
    assert(cur.caps_of(acct) == cap_views(e.caps@));
    assert(prev.caps_of(acct) == Seq::<CapModel>::empty());
    assert(cap_views(e.caps@) =~= Seq::<CapModel>::empty().push(cap@));

    // Every other record is untouched.
    assert forall|a: Seq<u8>| a != acct implies #[trigger] cur.caps_of(a) == prev.caps_of(a) by {
        if prev.contains_account(a) {
            let w = choose|w: int| 0 <= w < prev.entries@.len() && prev.entries@[w].account@ == a;
            assert(cur.entries@[w].account@ == a);
            prev.lemma_idx(a, w);
            cur.lemma_idx(a, w);
            assert(cur.entries@[w] == prev.entries@[w]);
        } else {
            assert(!cur.contains_account(a));
        }
    }
}

} // verus!
