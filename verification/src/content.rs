//! Pages: reading a page, and appending one, which recomputes and rebonds
//! the owner's deposit.

use vstd::prelude::*;
use crate::errors::Error;
use crate::letter::{AccountId, Balance, Event, LetterId};
use crate::store::Pallet;

verus! {

impl Pallet {
    /// Reads page `index` (0-based) of `letter_id`.
    pub fn read_page(&self, letter_id: LetterId, index: u64) -> (r: Result<&Vec<u8>, Error>)
        requires
            self.wf(),
        ensures
            !self.is_minted(letter_id)
                ==> r == Result::<&Vec<u8>, Error>::Err(Error::NonExistentLetter),
            self.is_minted(letter_id) && index >= self.pages_of(letter_id).len()
                ==> r == Result::<&Vec<u8>, Error>::Err(Error::NonExistentPage),
            self.is_minted(letter_id) && index < self.pages_of(letter_id).len()
                ==> (r matches Ok(p) && p@ == self.pages_of(letter_id)[index as int]),
    {
        let s = match self.find_slot(letter_id) {
            Some(s) => s,
            None => {
                return Err(Error::NonExistentLetter);
            },
        };
        let pages = &self.letters[s].letter.pages;
        if index >= pages.len() as u64 {
            return Err(Error::NonExistentPage);
        }
        let p = &pages[index as usize];
        proof {
            assert(p@ == self.pages_of(letter_id)[index as int]);
        }
        Ok(p)
    }

    /// Appends `page` to the letter in arena slot `s`. Only the page list of
    /// that one slot changes.
    pub(crate) fn mint_page(&mut self, s: usize, page: Vec<u8>)
        requires
            (s as int) < old(self).letters@.len(),
        ensures
            final(self).letters@.len() == old(self).letters@.len(),
            forall|t: int| 0 <= t < old(self).letters@.len() && t != s as int
                ==> #[trigger] final(self).letters@[t] == old(self).letters@[t],
            final(self).letters@[s as int].letter.id == old(self).letters@[s as int].letter.id,
            final(self).letters@[s as int].letter.title == old(self).letters@[s as int].letter.title,
            final(self).letters@[s as int].letter.author == old(self).letters@[s as int].letter.author,
            final(self).letters@[s as int].letter.price == old(self).letters@[s as int].letter.price,
            final(self).letters@[s as int].letter.pages_spec()
                == old(self).letters@[s as int].letter.pages_spec().push(page@),
            final(self).letters@[s as int].deposit == old(self).letters@[s as int].deposit,
            final(self).letters@[s as int].owner_pos == old(self).letters@[s as int].owner_pos,
            final(self).letters@[s as int].owner_slot == old(self).letters@[s as int].owner_slot,
            final(self).cfg == old(self).cfg,
            final(self).nonce == old(self).nonce,
            final(self).owners@ == old(self).owners@,
            final(self).balances == old(self).balances,
            final(self).events@ == old(self).events@,
    {
        let ghost page_snap = page;
        let entry = &mut self.letters[s];
        entry.letter.pages.push(page);
        proof {
            let pre_pages = old(self).letters@[s as int].letter.pages;
            let post_pages = self.letters@[s as int].letter.pages;
            let n = pre_pages@.len() as int;
            assert(post_pages@ == pre_pages@.push(page_snap));
            assert(page_snap.deep_view() =~= page_snap@);
            assert forall|i: int| 0 <= i < post_pages@.len()
                implies #[trigger] post_pages.deep_view()[i]
                    == pre_pages.deep_view().push(page_snap@)[i] by {
                if i < n {
                    assert(post_pages@[i] == pre_pages@[i]);
                } else {
                    assert(post_pages@[i] == page_snap);
                }
            }
            assert(post_pages.deep_view() =~= pre_pages.deep_view().push(page_snap@));
        }
    }

    /// Why a `write_page` call would be refused, or `None` when it goes
    /// through. The checks run in this order, all before any mutation. The
    /// deposit is recomputed wholesale as the letter cost plus the cost of
    /// the page now being written, replacing whatever was bonded before.
    pub open spec fn write_check(self, caller: AccountId, letter_id: LetterId, page: Seq<u8>) -> Option<Error> {
        let letter = self.letter_of(letter_id);
        let old_dep = self.deposit_of(letter_id) as int;
        let new_dep = self.cfg.letter_deposit_spec(
            letter.title@.len() as int,
            letter.author@.len() as int,
        ) + self.cfg.page_deposit_spec(page.len() as int);
        let owner = self.owner_of_spec(letter_id);
        if !self.is_minted(letter_id) {
            Some(Error::NonExistentLetter)
        } else if owner != caller {
            Some(Error::NotOwner)
        } else if page.len() > self.cfg.max_page_len {
            Some(Error::PageLenOverflow)
        } else if self.pages_of(letter_id).len() >= self.cfg.max_page_num {
            Some(Error::PageCountOverflow)
        } else if new_dep > u64::MAX {
            Some(Error::AmountOverflow)
        } else if new_dep > old_dep && self.free_of(owner) < new_dep - old_dep {
            Some(Error::InsufficientDeposit)
        } else if new_dep > old_dep && self.reserved_of(owner) - old_dep + new_dep > u64::MAX {
            Some(Error::AmountOverflow)
        } else if new_dep < old_dep && self.free_of(owner) + (old_dep - new_dep) > u64::MAX {
            Some(Error::AmountOverflow)
        } else {
            None
        }
    }

    /// Appends `page` to `letter_id`, whose owner must be the caller, then
    /// rebonds the owner's deposit to the letter cost plus this page's cost.
    /// A refused call changes nothing.
    pub fn write_page(&mut self, caller: AccountId, letter_id: LetterId, page: Vec<u8>) -> (r: Result<(), Error>)
        requires
            old(self).wf(),
        ensures
            final(self).wf(),
            r is Err <==> old(self).write_check(caller, letter_id, page@) is Some,
            r matches Err(e) ==> Some(e) == old(self).write_check(caller, letter_id, page@)
                && *final(self) == *old(self),
            r is Ok ==> {
                let pre = *old(self);
                let post = *final(self);
                let letter = pre.letter_of(letter_id);
                let new_dep = pre.cfg.letter_deposit_spec(
                    letter.title@.len() as int,
                    letter.author@.len() as int,
                ) + pre.cfg.page_deposit_spec(page@.len() as int);
                let old_dep = pre.deposit_of(letter_id);
                &&& post.cfg == pre.cfg
                &&& post.nonce == pre.nonce
                &&& post.ids() == pre.ids()
                &&& forall|x: LetterId| #[trigger] post.is_minted(x) == pre.is_minted(x)
                &&& post.letter_of(letter_id).id == letter.id
                &&& post.letter_of(letter_id).title@ == letter.title@
                &&& post.letter_of(letter_id).author@ == letter.author@
                &&& post.letter_of(letter_id).price == letter.price
                &&& post.pages_of(letter_id) == pre.pages_of(letter_id).push(page@)
                &&& post.deposit_of(letter_id) == new_dep
                &&& post.owner_of_spec(letter_id) == caller
                &&& forall|x: LetterId| pre.is_minted(x) && x != letter_id
                    ==> (#[trigger] post.letter_state(x)) == pre.letter_state(x)
                &&& forall|b: AccountId| #[trigger] post.held_ids(b) == pre.held_ids(b)
                &&& post.free_of(caller) == pre.free_of(caller) + old_dep - new_dep
                &&& post.reserved_of(caller) == pre.reserved_of(caller) - old_dep + new_dep
                &&& forall|b: AccountId| b != caller
                    ==> #[trigger] post.free_of(b) == pre.free_of(b)
                &&& forall|b: AccountId| b != caller
                    ==> #[trigger] post.reserved_of(b) == pre.reserved_of(b)
                &&& post.events@ == pre.events@.push(Event::PageWritten(caller, letter_id))
            },
    {
        // Checks: all of them, before any mutation.
        let s = match self.find_slot(letter_id) {
            Some(s) => s,
            None => {
                return Err(Error::NonExistentLetter);
            },
        };
        proof {
            assert(self.slot_linked(s as int));
        }
        let owner = self.owners[self.letters[s].owner_pos].account;
        if owner != caller {
            return Err(Error::NotOwner);
        }
        if page.len() as u64 > self.cfg.max_page_len {
            return Err(Error::PageLenOverflow);
        }
        if self.letters[s].letter.pages.len() as u64 >= self.cfg.max_page_num {
            return Err(Error::PageCountOverflow);
        }
        let letter_part = match self.cfg.letter_deposit(
            self.letters[s].letter.title.len() as u64,
            self.letters[s].letter.author.len() as u64,
        ) {
            Ok(d) => d,
            Err(e) => {
                return Err(e);
            },
        };
        let page_part = match self.cfg.page_deposit(page.len() as u64) {
            Ok(d) => d,
            Err(e) => {
                return Err(e);
            },
        };
        let new_dep = match letter_part.checked_add(page_part) {
            Some(d) => d,
            None => {
                return Err(Error::AmountOverflow);
            },
        };
        let old_dep = self.letters[s].deposit;
        if new_dep > old_dep {
            let delta = new_dep - old_dep;
            if self.balances.free_balance(caller) < delta {
                return Err(Error::InsufficientDeposit);
            }
            if delta > u64::MAX - self.balances.reserved_balance(caller) {
                return Err(Error::AmountOverflow);
            }
        } else if old_dep > new_dep {
            let delta = old_dep - new_dep;
            if delta > u64::MAX - self.balances.free_balance(caller) {
                return Err(Error::AmountOverflow);
            }
        }

        // Mutations: none of these can fail.
        let ghost pre = *old(self);
        self.mint_page(s, page);
        let ghost mid = *self;
        let entry = &mut self.letters[s];
        entry.deposit = new_dep;
        proof {
            Pallet::lemma_update_slot(pre, mid, s as int);
            pre.lemma_bonded_includes(caller, s as int, pre.letters@.len() as int);
            assert(pre.balances.reserved_of(caller) == pre.bonded(caller));
            assert(pre.bond_share(s as int, caller) == old_dep);
        }
        self.balances.rebond(caller, old_dep, new_dep);
        self.events.push(Event::PageWritten(caller, letter_id));
        proof {
            let post = *self;
            let n = pre.letters@.len() as int;
            Pallet::lemma_update_slot(mid, post, s as int);
            assert forall|a: AccountId| #[trigger] post.balances.reserved_of(a)
                == post.bonded(a) by {
                assert(pre.balances.reserved_of(a) == pre.bonded(a));
                assert(mid.bonded(a) == pre.bonded(a)
                    - pre.bond_share(s as int, a) + mid.bond_share(s as int, a));
                assert(post.bonded(a) == mid.bonded(a)
                    - mid.bond_share(s as int, a) + post.bond_share(s as int, a));
                if a == caller {
                    assert(post.bond_share(s as int, a) == new_dep);
                } else {
                    assert(pre.bond_share(s as int, a) == 0);
                    assert(post.bond_share(s as int, a) == 0);
                    assert(post.balances.reserved_of(a) == pre.balances.reserved_of(a));
                }
            }
            assert(post.ids() == pre.ids());
            assert forall|x: LetterId| #[trigger] post.is_minted(x) == pre.is_minted(x) by {
                assert(mid.is_minted(x) == pre.is_minted(x));
            }
            assert forall|x: LetterId| pre.is_minted(x) && x != letter_id
                implies (#[trigger] post.letter_state(x)) == pre.letter_state(x) by {
                assert(mid.letter_state(x) == pre.letter_state(x));
            }
            assert forall|b: AccountId| #[trigger] post.held_ids(b) == pre.held_ids(b) by {
                assert(mid.held_ids(b) == pre.held_ids(b));
            }
            assert(post.pages_of(letter_id) == mid.pages_of(letter_id));
            assert(mid.pages_of(letter_id) == pre.pages_of(letter_id).push(page@));
            assert forall|b: AccountId| b != caller
                implies #[trigger] post.free_of(b) == pre.free_of(b) by {}
            assert forall|b: AccountId| b != caller
                implies #[trigger] post.reserved_of(b) == pre.reserved_of(b) by {}
        }
        Ok(())
    }
}

} // verus!
