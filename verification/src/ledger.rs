//! The reservable-currency ledger: each account holds a free balance and a
//! reserved balance. Reserving moves value from free to reserved without
//! changing the account's total; a plain transfer moves free value between
//! two accounts.

use vstd::prelude::*;
use crate::letter::{AccountId, Balance};

verus! {

/// One account's balances.
#[derive(Clone, Copy, Debug, PartialEq, Eq, Structural)]
pub struct AccountEntry {
    pub account: AccountId,
    pub free: Balance,
    pub reserved: Balance,
}

/// The in-memory currency ledger. Accounts that never appear hold zero.
pub struct Ledger {
    pub accounts: Vec<AccountEntry>,
}

impl Ledger {
    /// Entries name pairwise distinct accounts.
    pub open spec fn wf(self) -> bool {
        forall|i: int, j: int|
            0 <= i < j < self.accounts@.len()
                ==> (#[trigger] self.accounts@[i].account) != (#[trigger] self.accounts@[j].account)
    }

    /// Whether the ledger holds an entry for `a`.
    pub open spec fn has_account(self, a: AccountId) -> bool {
        exists|i: int| 0 <= i < self.accounts@.len() && (#[trigger] self.accounts@[i].account) == a
    }

    /// The index of `a`'s entry; meaningful only when `has_account(a)`.
    pub open spec fn acct_at(self, a: AccountId) -> int {
        choose|i: int| 0 <= i < self.accounts@.len() && (#[trigger] self.accounts@[i].account) == a
    }

    /// `a`'s free balance; zero for an account with no entry.
    pub open spec fn free_of(self, a: AccountId) -> Balance {
        if self.has_account(a) {
            self.accounts@[self.acct_at(a)].free
        } else {
            0
        }
    }

    /// `a`'s reserved balance; zero for an account with no entry.
    pub open spec fn reserved_of(self, a: AccountId) -> Balance {
        if self.has_account(a) {
            self.accounts@[self.acct_at(a)].reserved
        } else {
            0
        }
    }

    /// In a well-formed ledger an account's entry is the only one naming it.
    pub proof fn lemma_entry_is_the_account(self, a: AccountId, i: int)
        requires
            self.wf(),
            0 <= i < self.accounts@.len(),
            self.accounts@[i].account == a,
        ensures
            self.has_account(a),
            self.acct_at(a) == i,
            self.free_of(a) == self.accounts@[i].free,
            self.reserved_of(a) == self.accounts@[i].reserved,
    {
        assert(self.has_account(a));
        let j = self.acct_at(a);
        if i < j {
            assert(self.accounts@[i].account != self.accounts@[j].account);
        } else if j < i {
            assert(self.accounts@[j].account != self.accounts@[i].account);
        }
    }

    /// An empty ledger.
    pub fn new() -> (l: Ledger)
        ensures
            l.wf(),
            forall|a: AccountId| #[trigger] l.free_of(a) == 0,
            forall|a: AccountId| #[trigger] l.reserved_of(a) == 0,
    {
        let l = Ledger { accounts: Vec::new() };
        proof {
            assert forall|a: AccountId| !l.has_account(a) by {}
        }
        l
    }

    /// Looks up `a`'s entry.
    fn find_account(&self, a: AccountId) -> (r: Option<usize>)
        requires
            self.wf(),
        ensures
            match r {
                Some(i) => self.has_account(a) && self.acct_at(a) == i
                    && i < self.accounts@.len() && self.accounts@[i as int].account == a,
                None => !self.has_account(a),
            },
    {
        let n = self.accounts.len();
        let mut idx: usize = 0;
        while idx < n
            invariant
                n == self.accounts@.len(),
                idx <= n,
                self.wf(),
                forall|k: int| 0 <= k < idx ==> (#[trigger] self.accounts@[k].account) != a,
            decreases n - idx,
        {
            if self.accounts[idx].account == a {
                proof {
                    self.lemma_entry_is_the_account(a, idx as int);
                }
                return Some(idx);
            }
            idx = idx + 1;
        }
        proof {
            assert(!self.has_account(a));
        }
        None
    }

    /// Finds `a`'s entry, creating a zero entry when there is none. Balances
    /// read through `free_of` and `reserved_of` do not change.
    fn account_or_create(&mut self, a: AccountId) -> (i: usize)
        requires
            old(self).wf(),
        ensures
            final(self).wf(),
            i < final(self).accounts@.len(),
            final(self).accounts@[i as int].account == a,
            final(self).has_account(a),
            final(self).acct_at(a) == i,
            forall|b: AccountId| #[trigger] final(self).free_of(b) == old(self).free_of(b),
            forall|b: AccountId| #[trigger] final(self).reserved_of(b) == old(self).reserved_of(b),
    {
        match self.find_account(a) {
            Some(i) => i,
            None => {
                let i = self.accounts.len();
                self.accounts.push(AccountEntry { account: a, free: 0, reserved: 0 });
                proof {
                    let post = *self;
                    let pre = *old(self);
                    assert forall|p: int, q: int| 0 <= p < q < post.accounts@.len()
                        implies (#[trigger] post.accounts@[p].account)
                            != (#[trigger] post.accounts@[q].account) by {
                        if q < i as int {
                        } else {
                            assert(q == i);
                            assert(post.accounts@[p].account == pre.accounts@[p].account);
                            if pre.accounts@[p].account == a {
                                pre.lemma_entry_is_the_account(a, p);
                            }
                        }
                    }
                    post.lemma_entry_is_the_account(a, i as int);
                    assert forall|b: AccountId| #[trigger] post.free_of(b) == pre.free_of(b) by {
                        Self::lemma_balances_after_push(pre, post, a, b);
                    }
                    assert forall|b: AccountId| #[trigger] post.reserved_of(b)
                        == pre.reserved_of(b) by {
                        Self::lemma_balances_after_push(pre, post, a, b);
                    }
                }
                i
            },
        }
    }

    /// Pushing a zero entry for an account with no entry leaves every
    /// account's balances as read through the ledger unchanged.
    proof fn lemma_balances_after_push(pre: Ledger, post: Ledger, a: AccountId, b: AccountId)
        requires
            pre.wf(),
            post.wf(),
            !pre.has_account(a),
            post.accounts@ == pre.accounts@.push(AccountEntry { account: a, free: 0, reserved: 0 }),
        ensures
            post.free_of(b) == pre.free_of(b),
            post.reserved_of(b) == pre.reserved_of(b),
    {
        let n = pre.accounts@.len() as int;
        if b == a {
            post.lemma_entry_is_the_account(a, n);
        } else {
            if pre.has_account(b) {
                let i = pre.acct_at(b);
                assert(post.accounts@[i].account == b);
                post.lemma_entry_is_the_account(b, i);
            } else {
                if post.has_account(b) {
                    let i = post.acct_at(b);
                    assert(0 <= i < n + 1 && post.accounts@[i].account == b);
                    assert(i != n);
                    assert(pre.accounts@[i].account == b);
                }
            }
        }
    }

    /// Overwrites `a`'s free balance: the host's genesis endowment.
    pub(crate) fn endow(&mut self, a: AccountId, amount: Balance)
        requires
            old(self).wf(),
        ensures
            final(self).wf(),
            final(self).free_of(a) == amount,
            final(self).reserved_of(a) == old(self).reserved_of(a),
            forall|b: AccountId| b != a ==> #[trigger] final(self).free_of(b) == old(self).free_of(b),
            forall|b: AccountId| b != a ==> #[trigger] final(self).reserved_of(b) == old(self).reserved_of(b),
    {
        let i = self.account_or_create(a);
        proof {
            assert(self.free_of(a) == old(self).free_of(a));
            assert(self.reserved_of(a) == old(self).reserved_of(a));
        }
        let ghost mid = *self;
        self.accounts[i].free = amount;
        proof {
            Self::lemma_balances_after_update(mid, *self, i as int);
        }
    }

    /// Updating one entry in place, without renaming its account, keeps the
    /// ledger well formed and leaves every other account's balances unchanged.
    proof fn lemma_balances_after_update(pre: Ledger, post: Ledger, i: int)
        requires
            pre.wf(),
            0 <= i < pre.accounts@.len(),
            post.accounts@.len() == pre.accounts@.len(),
            post.accounts@[i].account == pre.accounts@[i].account,
            forall|k: int| 0 <= k < pre.accounts@.len() && k != i
                ==> #[trigger] post.accounts@[k] == pre.accounts@[k],
        ensures
            post.wf(),
            post.has_account(pre.accounts@[i].account),
            post.acct_at(pre.accounts@[i].account) == i,
            post.free_of(pre.accounts@[i].account) == post.accounts@[i].free,
            post.reserved_of(pre.accounts@[i].account) == post.accounts@[i].reserved,
            forall|b: AccountId| b != pre.accounts@[i].account
                ==> #[trigger] post.free_of(b) == pre.free_of(b),
            forall|b: AccountId| b != pre.accounts@[i].account
                ==> #[trigger] post.reserved_of(b) == pre.reserved_of(b),
    {
        let a = pre.accounts@[i].account;
        assert forall|p: int, q: int| 0 <= p < q < post.accounts@.len()
            implies (#[trigger] post.accounts@[p].account)
                != (#[trigger] post.accounts@[q].account) by {
            assert(post.accounts@[p].account == pre.accounts@[p].account);
            assert(post.accounts@[q].account == pre.accounts@[q].account);
        }
        post.lemma_entry_is_the_account(a, i);
        assert forall|b: AccountId| b != a
            implies #[trigger] post.free_of(b) == pre.free_of(b) by {
            Self::lemma_other_entry_untouched(pre, post, i, b);
        }
        assert forall|b: AccountId| b != a
            implies #[trigger] post.reserved_of(b) == pre.reserved_of(b) by {
            Self::lemma_other_entry_untouched(pre, post, i, b);
        }
    }

    /// Helper for `lemma_balances_after_update`: an account other than the
    /// updated entry's reads the same balances before and after.
    proof fn lemma_other_entry_untouched(pre: Ledger, post: Ledger, i: int, b: AccountId)
        requires
            pre.wf(),
            post.wf(),
            0 <= i < pre.accounts@.len(),
            post.accounts@.len() == pre.accounts@.len(),
            post.accounts@[i].account == pre.accounts@[i].account,
            b != pre.accounts@[i].account,
            forall|k: int| 0 <= k < pre.accounts@.len() && k != i
                ==> #[trigger] post.accounts@[k] == pre.accounts@[k],
        ensures
            post.free_of(b) == pre.free_of(b),
            post.reserved_of(b) == pre.reserved_of(b),
    {
        if pre.has_account(b) {
            let k = pre.acct_at(b);
            assert(k != i);
            assert(post.accounts@[k] == pre.accounts@[k]);
            post.lemma_entry_is_the_account(b, k);
        } else {
            if post.has_account(b) {
                let k = post.acct_at(b);
                assert(k != i);
                assert(pre.accounts@[k].account == b);
            }
        }
    }

    /// Moves `amt` of `a`'s balance from free to reserved.
    pub(crate) fn reserve(&mut self, a: AccountId, amt: Balance)
        requires
            old(self).wf(),
            old(self).free_of(a) >= amt,
            old(self).reserved_of(a) + amt <= u64::MAX,
        ensures
            final(self).wf(),
            final(self).free_of(a) == old(self).free_of(a) - amt,
            final(self).reserved_of(a) == old(self).reserved_of(a) + amt,
            forall|b: AccountId| b != a ==> #[trigger] final(self).free_of(b) == old(self).free_of(b),
            forall|b: AccountId| b != a ==> #[trigger] final(self).reserved_of(b) == old(self).reserved_of(b),
    {
        let i = self.account_or_create(a);
        proof {
            assert(self.free_of(a) == old(self).free_of(a));
            assert(self.reserved_of(a) == old(self).reserved_of(a));
        }
        let ghost mid = *self;
        let e = &mut self.accounts[i];
        e.free = e.free - amt;
        e.reserved = e.reserved + amt;
        proof {
            Self::lemma_balances_after_update(mid, *self, i as int);
        }
    }

    /// Moves `amt` of `a`'s balance from reserved back to free.
    pub(crate) fn unreserve(&mut self, a: AccountId, amt: Balance)
        requires
            old(self).wf(),
            old(self).reserved_of(a) >= amt,
            old(self).free_of(a) + amt <= u64::MAX,
        ensures
            final(self).wf(),
            final(self).free_of(a) == old(self).free_of(a) + amt,
            final(self).reserved_of(a) == old(self).reserved_of(a) - amt,
            forall|b: AccountId| b != a ==> #[trigger] final(self).free_of(b) == old(self).free_of(b),
            forall|b: AccountId| b != a ==> #[trigger] final(self).reserved_of(b) == old(self).reserved_of(b),
    {
        let i = self.account_or_create(a);
        proof {
            assert(self.free_of(a) == old(self).free_of(a));
            assert(self.reserved_of(a) == old(self).reserved_of(a));
        }
        let ghost mid = *self;
        let e = &mut self.accounts[i];
        e.free = e.free + amt;
        e.reserved = e.reserved - amt;
        proof {
            Self::lemma_balances_after_update(mid, *self, i as int);
        }
    }

    /// Replaces a reservation of `old_amt` under `a` by one of `new_amt`, as
    /// one step: the freed and newly bound value are netted against each
    /// other, so no intermediate state is ever visible.
    pub(crate) fn rebond(&mut self, a: AccountId, old_amt: Balance, new_amt: Balance)
        requires
            old(self).wf(),
            old(self).reserved_of(a) >= old_amt,
            new_amt > old_amt ==> old(self).free_of(a) >= new_amt - old_amt,
            new_amt > old_amt ==> old(self).reserved_of(a) - old_amt + new_amt <= u64::MAX,
            new_amt < old_amt ==> old(self).free_of(a) + (old_amt - new_amt) <= u64::MAX,
        ensures
            final(self).wf(),
            final(self).free_of(a) == old(self).free_of(a) + old_amt - new_amt,
            final(self).reserved_of(a) == old(self).reserved_of(a) - old_amt + new_amt,
            forall|b: AccountId| b != a ==> #[trigger] final(self).free_of(b) == old(self).free_of(b),
            forall|b: AccountId| b != a ==> #[trigger] final(self).reserved_of(b) == old(self).reserved_of(b),
    {
        if new_amt > old_amt {
            self.reserve(a, new_amt - old_amt);
        } else if old_amt > new_amt {
            self.unreserve(a, old_amt - new_amt);
        }
    }

    /// Moves a reservation of `amt` from `from` to `to`: `from`'s hold is
    /// released and the identical amount is bound under `to`.
    pub(crate) fn move_reservation(&mut self, from: AccountId, to: AccountId, amt: Balance)
        requires
            old(self).wf(),
            from != to,
            old(self).reserved_of(from) >= amt,
            old(self).free_of(from) + amt <= u64::MAX,
            old(self).free_of(to) >= amt,
            old(self).reserved_of(to) + amt <= u64::MAX,
        ensures
            final(self).wf(),
            final(self).free_of(from) == old(self).free_of(from) + amt,
            final(self).reserved_of(from) == old(self).reserved_of(from) - amt,
            final(self).free_of(to) == old(self).free_of(to) - amt,
            final(self).reserved_of(to) == old(self).reserved_of(to) + amt,
            forall|b: AccountId| b != from && b != to
                ==> #[trigger] final(self).free_of(b) == old(self).free_of(b),
            forall|b: AccountId| b != from && b != to
                ==> #[trigger] final(self).reserved_of(b) == old(self).reserved_of(b),
    {
        self.unreserve(from, amt);
        self.reserve(to, amt);
    }

    /// Moves `amt` of free balance from `from` to `to`.
    pub(crate) fn transfer_free(&mut self, from: AccountId, to: AccountId, amt: Balance)
        requires
            old(self).wf(),
            from != to,
            old(self).free_of(from) >= amt,
            old(self).free_of(to) + amt <= u64::MAX,
        ensures
            final(self).wf(),
            final(self).free_of(from) == old(self).free_of(from) - amt,
            final(self).free_of(to) == old(self).free_of(to) + amt,
            forall|b: AccountId| #[trigger] final(self).reserved_of(b) == old(self).reserved_of(b),
            forall|b: AccountId| b != from && b != to
                ==> #[trigger] final(self).free_of(b) == old(self).free_of(b),
    {
        let i = self.account_or_create(from);
        proof {
            assert(self.free_of(from) == old(self).free_of(from));
            assert(self.free_of(to) == old(self).free_of(to));
            assert(self.reserved_of(from) == old(self).reserved_of(from));
            assert(self.reserved_of(to) == old(self).reserved_of(to));
        }
        let ghost mid1 = *self;
        let e = &mut self.accounts[i];
        e.free = e.free - amt;
        proof {
            Self::lemma_balances_after_update(mid1, *self, i as int);
            assert(self.free_of(to) == old(self).free_of(to));
            assert(self.reserved_of(to) == old(self).reserved_of(to));
        }
        let j = self.account_or_create(to);
        proof {
            assert(self.free_of(from) == old(self).free_of(from) - amt);
            assert(self.free_of(to) == old(self).free_of(to));
        }
        let ghost mid2 = *self;
        let f = &mut self.accounts[j];
        f.free = f.free + amt;
        proof {
            Self::lemma_balances_after_update(mid2, *self, j as int);
            assert forall|b: AccountId| #[trigger] self.reserved_of(b)
                == old(self).reserved_of(b) by {
                assert(mid2.reserved_of(b) == old(self).reserved_of(b));
            }
        }
    }

    /// Reads `a`'s free balance.
    pub(crate) fn free_balance(&self, a: AccountId) -> (r: Balance)
        requires
            self.wf(),
        ensures
            r == self.free_of(a),
    {
        match self.find_account(a) {
            Some(i) => self.accounts[i].free,
            None => 0,
        }
    }

    /// Reads `a`'s reserved balance.
    pub(crate) fn reserved_balance(&self, a: AccountId) -> (r: Balance)
        requires
            self.wf(),
        ensures
            r == self.reserved_of(a),
    {
        match self.find_account(a) {
            Some(i) => self.accounts[i].reserved,
            None => 0,
        }
    }
}

} // verus!
