//! Trading: pricing a letter, reassigning ownership with the swap-with-last
//! compaction, and buying.

use vstd::prelude::*;
use crate::errors::Error;
use crate::letter::{AccountId, Balance, Event, LetterId};
use crate::store::Pallet;

verus! {

impl Pallet {
    /// Why a `set_price` call would be refused, or `None` when it goes
    /// through.
    pub open spec fn set_price_check(self, caller: AccountId, letter_id: LetterId) -> Option<Error> {
        if !self.is_minted(letter_id) {
            Some(Error::NonExistentLetter)
        } else if self.owner_of_spec(letter_id) != caller {
            Some(Error::NotOwner)
        } else {
            None
        }
    }

    /// Sets the asking price of `letter_id`, which the caller must own.
    /// No deposit moves. A refused call changes nothing.
    pub fn set_price(&mut self, caller: AccountId, letter_id: LetterId, new_price: Balance) -> (r: Result<(), Error>)
        requires
            old(self).wf(),
        ensures
            final(self).wf(),
            r is Err <==> old(self).set_price_check(caller, letter_id) is Some,
            r matches Err(e) ==> Some(e) == old(self).set_price_check(caller, letter_id)
                && *final(self) == *old(self),
            r is Ok ==> {
                let pre = *old(self);
                let post = *final(self);
                let letter = pre.letter_of(letter_id);
                &&& post.cfg == pre.cfg
                &&& post.nonce == pre.nonce
                &&& post.ids() == pre.ids()
                &&& forall|x: LetterId| #[trigger] post.is_minted(x) == pre.is_minted(x)
                &&& post.letter_of(letter_id).id == letter.id
                &&& post.letter_of(letter_id).title@ == letter.title@
                &&& post.letter_of(letter_id).author@ == letter.author@
                &&& post.letter_of(letter_id).price == new_price
                &&& post.pages_of(letter_id) == pre.pages_of(letter_id)
                &&& post.deposit_of(letter_id) == pre.deposit_of(letter_id)
                &&& post.owner_of_spec(letter_id) == caller
                &&& forall|x: LetterId| pre.is_minted(x) && x != letter_id
                    ==> (#[trigger] post.letter_state(x)) == pre.letter_state(x)
                &&& forall|b: AccountId| #[trigger] post.held_ids(b) == pre.held_ids(b)
                &&& forall|b: AccountId| #[trigger] post.free_of(b) == pre.free_of(b)
                &&& forall|b: AccountId| #[trigger] post.reserved_of(b) == pre.reserved_of(b)
                &&& post.events@ == pre.events@.push(Event::PriceSet(caller, letter_id, new_price))
            },
    {
        let s = match self.find_slot(letter_id) {
            Some(s) => s,
            None => {
                return Err(Error::NonExistentLetter);
            },
        };
        proof {
            assert(self.slot_linked(s as int));
        }
        if self.owners[self.letters[s].owner_pos].account != caller {
            return Err(Error::NotOwner);
        }
        let ghost pre = *old(self);
        let entry = &mut self.letters[s];
        entry.letter.price = new_price;
        self.events.push(Event::PriceSet(caller, letter_id, new_price));
        proof {
            let post = *self;
            Pallet::lemma_update_slot(pre, post, s as int);
            assert forall|a: AccountId| #[trigger] post.balances.reserved_of(a)
                == post.bonded(a) by {
                assert(pre.balances.reserved_of(a) == pre.bonded(a));
                assert(post.bond_share(s as int, a) == pre.bond_share(s as int, a));
            }
            assert(post.pages_of(letter_id) == pre.pages_of(letter_id));
        }
        Ok(())
    }
    /// Why a reassignment would be refused, or `None` when it goes through.
    pub open spec fn reassign_check(self, from: AccountId, to: AccountId, letter_id: LetterId) -> Option<Error> {
        let dep = self.deposit_of(letter_id);
        if !self.is_minted(letter_id) {
            Some(Error::NonExistentLetter)
        } else if self.owner_of_spec(letter_id) != from {
            Some(Error::NotOwner)
        } else if from != to && self.held_ids(to).len() + 1 > u64::MAX {
            Some(Error::CountOverflow)
        } else if from != to && self.free_of(to) < dep {
            Some(Error::InsufficientDeposit)
        } else if from != to && self.free_of(from) + dep > u64::MAX {
            Some(Error::AmountOverflow)
        } else if from != to && self.reserved_of(to) + dep > u64::MAX {
            Some(Error::AmountOverflow)
        } else {
            None
        }
    }

    /// What a successful reassignment does. The letter leaves `from`'s list
    /// by the swap-with-last compaction (the last letter moves into the
    /// vacated position, so the list stays gapless) and joins the end of
    /// `to`'s list; the letter's deposit moves from `from`'s reservation to
    /// `to`'s. The letter record itself and the global enumeration do not
    /// change.
    pub open spec fn reassign_effect(pre: Pallet, post: Pallet, from: AccountId, to: AccountId, letter_id: LetterId) -> bool {
        let dep = pre.deposit_of(letter_id);
        let k = pre.owner_slot_of(letter_id);
        let compacted = pre.held_ids(from).update(k, pre.held_ids(from).last()).drop_last();
        &&& post.cfg == pre.cfg
        &&& post.nonce == pre.nonce
        &&& post.ids() == pre.ids()
        &&& forall|x: LetterId| #[trigger] post.is_minted(x) == pre.is_minted(x)
        &&& post.letter_of(letter_id) == pre.letter_of(letter_id)
        &&& post.deposit_of(letter_id) == dep
        &&& post.owner_of_spec(letter_id) == to
        &&& forall|x: LetterId| pre.is_minted(x) && x != letter_id
            ==> (#[trigger] post.letter_state(x)) == pre.letter_state(x)
        &&& from != to ==> post.held_ids(from) == compacted
        &&& from != to ==> post.held_ids(to) == pre.held_ids(to).push(letter_id)
        &&& from == to ==> post.held_ids(from) == compacted.push(letter_id)
        &&& forall|b: AccountId| b != from && b != to
            ==> #[trigger] post.held_ids(b) == pre.held_ids(b)
        &&& from != to ==> post.free_of(from) == pre.free_of(from) + dep
        &&& from != to ==> post.reserved_of(from) == pre.reserved_of(from) - dep
        &&& from != to ==> post.free_of(to) == pre.free_of(to) - dep
        &&& from != to ==> post.reserved_of(to) == pre.reserved_of(to) + dep
        &&& forall|b: AccountId| b != from && b != to
            ==> #[trigger] post.free_of(b) == pre.free_of(b)
        &&& forall|b: AccountId| b != from && b != to
            ==> #[trigger] post.reserved_of(b) == pre.reserved_of(b)
        &&& from == to ==> forall|b: AccountId| #[trigger] post.free_of(b) == pre.free_of(b)
        &&& from == to ==> forall|b: AccountId|
            #[trigger] post.reserved_of(b) == pre.reserved_of(b)
        &&& post.events@ == pre.events@.push(Event::Transferred(from, to, letter_id))
    }

    /// Reassigns `letter_id` from `from` (which must own it) to `to`. The
    /// per-owner lists are compacted in place, the deposit is moved between
    /// the two reservations, and the letter record and the global
    /// enumeration stay untouched. A refused call changes nothing.
    pub(crate) fn transfer_from(&mut self, from: AccountId, to: AccountId, letter_id: LetterId) -> (r: Result<(), Error>)
        requires
            old(self).wf(),
        ensures
            final(self).wf(),
            r is Err <==> old(self).reassign_check(from, to, letter_id) is Some,
            r matches Err(e) ==> Some(e) == old(self).reassign_check(from, to, letter_id)
                && *final(self) == *old(self),
            r is Ok ==> Self::reassign_effect(*old(self), *final(self), from, to, letter_id),
    {
        // Checks: all of them, before any mutation.
        let s = match self.find_slot(letter_id) {
            Some(s) => s,
            None => {
                return Err(Error::NonExistentLetter);
            },
        };
        proof {
            assert(self.slot_linked(s as int));
        }
        let o_from = self.letters[s].owner_pos;
        let k = self.letters[s].owner_slot;
        if self.owners[o_from].account != from {
            return Err(Error::NotOwner);
        }
        let dep = self.letters[s].deposit;
        if to != from {
            let to_count: u64 = match self.find_owner(to) {
                Some(o) => self.owners[o].held.len() as u64,
                None => 0,
            };
            if to_count == u64::MAX {
                return Err(Error::CountOverflow);
            }
            if self.balances.free_balance(to) < dep {
                return Err(Error::InsufficientDeposit);
            }
            if dep > u64::MAX - self.balances.free_balance(from) {
                return Err(Error::AmountOverflow);
            }
            if dep > u64::MAX - self.balances.reserved_balance(to) {
                return Err(Error::AmountOverflow);
            }
        }

        // Mutations: none of these can fail.
        let ghost pre = *old(self);
        let o_to = self.owner_or_create(to);
        let ghost mid = *self;
        proof {
            mid.lemma_slot_is(letter_id, s as int);
            mid.lemma_owner_is(from, o_from as int);
            if from == to {
                assert(o_to == o_from);
            } else {
                assert(o_to != o_from);
            }
            assert(mid.slot_linked(s as int));
        }
        let held_len = self.owners[o_from].held.len();
        let m = self.owners[o_from].held[held_len - 1];
        proof {
            assert(mid.held_linked(o_from as int, held_len - 1));
            if m != s {
                assert(mid.letters@[m as int].owner_slot != k);
            }
        }
        let entry_from = &mut self.owners[o_from];
        let _ = entry_from.held.swap_remove(k);
        if m != s {
            let e_m = &mut self.letters[m];
            e_m.owner_slot = k;
        }
        let entry_to = &mut self.owners[o_to];
        entry_to.held.push(s);
        let new_k = self.owners[o_to].held.len() - 1;
        let e_s = &mut self.letters[s];
        e_s.owner_pos = o_to;
        e_s.owner_slot = new_k;
        proof {
            mid.lemma_bonded_includes(from, s as int, mid.letters@.len() as int);
            assert(mid.balances.reserved_of(from) == mid.bonded(from));
            assert(mid.bond_share(s as int, from) == dep);
        }
        if to != from {
            self.balances.move_reservation(from, to, dep);
        }
        self.events.push(Event::Transferred(from, to, letter_id));
        proof {
            let post = *self;
            lemma_reassign_structure(mid, post, from, to, s, o_from, k, o_to, m);
            assert forall|a: AccountId| #[trigger] post.balances.reserved_of(a)
                == post.bonded(a) by {
                assert(mid.balances.reserved_of(a) == mid.bonded(a));
                assert(post.bonded(a) == mid.bonded(a)
                    - mid.bond_share(s as int, a) + post.bond_share(s as int, a));
                if to != from {
                    if a != from && a != to {
                        assert(post.balances.reserved_of(a) == mid.balances.reserved_of(a));
                        assert(mid.bond_share(s as int, a) == 0);
                        assert(post.bond_share(s as int, a) == 0);
                    }
                } else {
                    assert(post.balances == mid.balances);
                    if a != from {
                        assert(mid.bond_share(s as int, a) == 0);
                        assert(post.bond_share(s as int, a) == 0);
                    }
                }
            }
            assert(pre.held_ids(from) == mid.held_ids(from));
            assert(pre.held_ids(to) == mid.held_ids(to));
            assert(pre.deposit_of(letter_id) == mid.deposit_of(letter_id)) by {
                pre.lemma_slot_is(letter_id, s as int);
            }
            assert(pre.owner_slot_of(letter_id) == k) by {
                pre.lemma_slot_is(letter_id, s as int);
            }
            assert(pre.letter_of(letter_id) == mid.letter_of(letter_id)) by {
                pre.lemma_slot_is(letter_id, s as int);
            }
            assert forall|x: LetterId| pre.is_minted(x) && x != letter_id
                implies (#[trigger] post.letter_state(x)) == pre.letter_state(x) by {
                let t = pre.slot_of(x);
                pre.lemma_slot_is(x, t);
                mid.lemma_slot_is(x, t);
                assert(mid.letter_state(x) == pre.letter_state(x)) by {
                    assert(pre.slot_linked(t));
                    assert(mid.owners@[pre.letters@[t].owner_pos as int].account
                        == pre.owners@[pre.letters@[t].owner_pos as int].account);
                }
            }
            assert forall|x: LetterId| #[trigger] post.is_minted(x) == pre.is_minted(x) by {
                assert(post.is_minted(x) == mid.is_minted(x));
                if pre.is_minted(x) {
                    let t = pre.slot_of(x);
                    assert(mid.letters@[t].letter.id == x);
                }
                if mid.is_minted(x) {
                    let t = mid.slot_of(x);
                    assert(pre.letters@[t].letter.id == x);
                }
            }
            assert(post.ids() =~= pre.ids());
        }
        Ok(())
    }
}

impl Pallet {
    /// Moves `letter_id`, which the caller must own, to `to`. The letter's
    /// deposit is released from the caller and the identical amount is
    /// reserved under `to`, so `to` must be able to afford it; otherwise the
    /// call fails and ownership does not change.
    pub fn transfer(&mut self, caller: AccountId, to: AccountId, letter_id: LetterId) -> (r: Result<(), Error>)
        requires
            old(self).wf(),
        ensures
            final(self).wf(),
            r is Err <==> old(self).reassign_check(caller, to, letter_id) is Some,
            r matches Err(e) ==> Some(e) == old(self).reassign_check(caller, to, letter_id)
                && *final(self) == *old(self),
            r is Ok ==> Self::reassign_effect(*old(self), *final(self), caller, to, letter_id),
    {
        self.transfer_from(caller, to, letter_id)
    }

    /// Why a `buy_letter` call would be refused, or `None` when it goes
    /// through. The buyer pays the letter's asking price and then takes over
    /// the letter's deposit, so every currency step is checked here, before
    /// any value moves.
    pub open spec fn buy_check(self, caller: AccountId, letter_id: LetterId, max_price: Balance) -> Option<Error> {
        let price = self.letter_of(letter_id).price;
        let seller = self.owner_of_spec(letter_id);
        let dep = self.deposit_of(letter_id);
        let ed = self.cfg.existential_deposit;
        if !self.is_minted(letter_id) {
            Some(Error::NonExistentLetter)
        } else if seller == caller {
            Some(Error::SelfTrade)
        } else if price == 0 {
            Some(Error::NotForSale)
        } else if price > max_price {
            Some(Error::OverBudget)
        } else if self.free_of(caller) < price {
            Some(Error::InsufficientDeposit)
        } else if self.free_of(caller) - price + self.reserved_of(caller) < ed {
            Some(Error::InsufficientDeposit)
        } else if self.free_of(seller) + price > u64::MAX {
            Some(Error::AmountOverflow)
        } else if self.held_ids(caller).len() + 1 > u64::MAX {
            Some(Error::CountOverflow)
        } else if self.free_of(caller) - price < dep {
            Some(Error::InsufficientDeposit)
        } else if self.free_of(seller) + price + dep > u64::MAX {
            Some(Error::AmountOverflow)
        } else if self.reserved_of(caller) + dep > u64::MAX {
            Some(Error::AmountOverflow)
        } else {
            None
        }
    }

    /// Buys `letter_id` at its asking price, which must be non-zero and
    /// within `max_price`. The price moves from the buyer to the seller as
    /// free balance, with the buyer kept above the existential deposit; the
    /// letter and its bonded deposit move to the buyer; the accepted bid
    /// becomes the new asking price. A refused call changes nothing.
    pub fn buy_letter(&mut self, caller: AccountId, letter_id: LetterId, max_price: Balance) -> (r: Result<(), Error>)
        requires
            old(self).wf(),
        ensures
            final(self).wf(),
            r is Err <==> old(self).buy_check(caller, letter_id, max_price) is Some,
            r matches Err(e) ==> Some(e) == old(self).buy_check(caller, letter_id, max_price)
                && *final(self) == *old(self),
            r is Ok ==> {
                let pre = *old(self);
                let post = *final(self);
                let letter = pre.letter_of(letter_id);
                let price = letter.price;
                let seller = pre.owner_of_spec(letter_id);
                let dep = pre.deposit_of(letter_id);
                let k = pre.owner_slot_of(letter_id);
                let compacted = pre.held_ids(seller).update(
                    k,
                    pre.held_ids(seller).last(),
                ).drop_last();
                &&& post.cfg == pre.cfg
                &&& post.nonce == pre.nonce
                &&& post.ids() == pre.ids()
                &&& forall|x: LetterId| #[trigger] post.is_minted(x) == pre.is_minted(x)
                &&& post.letter_of(letter_id).id == letter.id
                &&& post.letter_of(letter_id).title@ == letter.title@
                &&& post.letter_of(letter_id).author@ == letter.author@
                &&& post.letter_of(letter_id).price == max_price
                &&& post.pages_of(letter_id) == pre.pages_of(letter_id)
                &&& post.deposit_of(letter_id) == dep
                &&& post.owner_of_spec(letter_id) == caller
                &&& forall|x: LetterId| pre.is_minted(x) && x != letter_id
                    ==> (#[trigger] post.letter_state(x)) == pre.letter_state(x)
                &&& post.held_ids(seller) == compacted
                &&& post.held_ids(caller) == pre.held_ids(caller).push(letter_id)
                &&& forall|b: AccountId| b != seller && b != caller
                    ==> #[trigger] post.held_ids(b) == pre.held_ids(b)
                &&& post.free_of(caller) == pre.free_of(caller) - price - dep
                &&& post.reserved_of(caller) == pre.reserved_of(caller) + dep
                &&& post.free_of(seller) == pre.free_of(seller) + price + dep
                &&& post.reserved_of(seller) == pre.reserved_of(seller) - dep
                &&& forall|b: AccountId| b != seller && b != caller
                    ==> #[trigger] post.free_of(b) == pre.free_of(b)
                &&& forall|b: AccountId| b != seller && b != caller
                    ==> #[trigger] post.reserved_of(b) == pre.reserved_of(b)
                &&& post.events@ == pre.events@
                    .push(Event::Transferred(seller, caller, letter_id))
                    .push(Event::Bought(caller, seller, letter_id, price))
            },
    {
        // Checks: all of them, before any mutation.
        let s = match self.find_slot(letter_id) {
            Some(s) => s,
            None => {
                return Err(Error::NonExistentLetter);
            },
        };
        proof {
            assert(self.slot_linked(s as int));
        }
        let seller = self.owners[self.letters[s].owner_pos].account;
        if seller == caller {
            return Err(Error::SelfTrade);
        }
        let price = self.letters[s].letter.price;
        if price == 0 {
            return Err(Error::NotForSale);
        }
        if price > max_price {
            return Err(Error::OverBudget);
        }
        let dep = self.letters[s].deposit;
        let buyer_free = self.balances.free_balance(caller);
        if buyer_free < price {
            return Err(Error::InsufficientDeposit);
        }
        let buyer_reserved = self.balances.reserved_balance(caller);
        let rest = buyer_free - price;
        if rest <= u64::MAX - buyer_reserved && rest + buyer_reserved < self.cfg.existential_deposit {
            // When the sum overflows it exceeds any existential deposit.
            return Err(Error::InsufficientDeposit);
        }
        let seller_free = self.balances.free_balance(seller);
        if price > u64::MAX - seller_free {
            return Err(Error::AmountOverflow);
        }
        let buyer_count: u64 = match self.find_owner(caller) {
            Some(o) => self.owners[o].held.len() as u64,
            None => 0,
        };
        if buyer_count == u64::MAX {
            return Err(Error::CountOverflow);
        }
        if buyer_free - price < dep {
            return Err(Error::InsufficientDeposit);
        }
        if dep > u64::MAX - (seller_free + price) {
            return Err(Error::AmountOverflow);
        }
        if dep > u64::MAX - buyer_reserved {
            return Err(Error::AmountOverflow);
        }

        // Mutations: none of these can fail. The payment precedes the
        // reassignment, as every precondition of both was checked above.
        let ghost pre = *old(self);
        self.balances.transfer_free(caller, seller, price);
        let ghost mid1 = *self;
        proof {
            Pallet::lemma_same_registry(pre, mid1);
            assert forall|a: AccountId| #[trigger] mid1.balances.reserved_of(a)
                == mid1.bonded(a) by {
                assert(pre.balances.reserved_of(a) == pre.bonded(a));
                assert(mid1.balances.reserved_of(a) == pre.balances.reserved_of(a));
            }
            mid1.lemma_slot_is(letter_id, s as int);
            pre.lemma_slot_is(letter_id, s as int);
            assert(mid1.slot_linked(s as int));
        }
        let moved = match self.transfer_from(seller, caller, letter_id) {
            Ok(()) => true,
            Err(_) => false,
        };
        proof {
            assert(moved);
        }
        let ghost mid2 = *self;
        proof {
            assert(mid1.ids().len() == mid1.letters@.len());
            assert(mid2.ids().len() == mid2.letters@.len());
            assert(mid2.ids() == mid1.ids());
            assert(mid2.letters@.len() == mid1.letters@.len());
            assert(mid1.ids()[s as int] == letter_id);
            assert(mid2.ids()[s as int] == letter_id);
            assert(mid2.letters@[s as int].letter.id == letter_id);
            mid2.lemma_slot_is(letter_id, s as int);
        }
        let entry = &mut self.letters[s];
        entry.letter.price = max_price;
        self.events.push(Event::Bought(caller, seller, letter_id, price));
        proof {
            let post = *self;
            Pallet::lemma_update_slot(mid2, post, s as int);
            assert forall|a: AccountId| #[trigger] post.balances.reserved_of(a)
                == post.bonded(a) by {
                assert(mid2.balances.reserved_of(a) == mid2.bonded(a));
                assert(post.bond_share(s as int, a) == mid2.bond_share(s as int, a));
            }
            assert(post.pages_of(letter_id) == mid2.pages_of(letter_id));
            assert(mid1.owner_slot_of(letter_id) == pre.owner_slot_of(letter_id));
            assert(pre.held_ids(seller) == mid1.held_ids(seller));
            assert(pre.held_ids(caller) == mid1.held_ids(caller));
            assert forall|x: LetterId| pre.is_minted(x) && x != letter_id
                implies (#[trigger] post.letter_state(x)) == pre.letter_state(x) by {
                assert(mid1.is_minted(x));
                assert(mid1.letter_state(x) == pre.letter_state(x));
                assert(mid2.letter_state(x) == mid1.letter_state(x));
            }
            assert forall|x: LetterId| #[trigger] post.is_minted(x) == pre.is_minted(x) by {
                assert(mid2.is_minted(x) == mid1.is_minted(x));
                assert(mid1.is_minted(x) == pre.is_minted(x));
            }
            assert(post.ids() == pre.ids());
            assert forall|b: AccountId| b != seller && b != caller
                implies #[trigger] post.held_ids(b) == pre.held_ids(b) by {
                assert(mid2.held_ids(b) == mid1.held_ids(b));
                assert(mid1.held_ids(b) == pre.held_ids(b));
            }
            assert forall|b: AccountId| b != seller && b != caller
                implies #[trigger] post.free_of(b) == pre.free_of(b) by {
                assert(mid2.free_of(b) == mid1.free_of(b));
                assert(mid1.free_of(b) == pre.free_of(b));
            }
            assert forall|b: AccountId| b != seller && b != caller
                implies #[trigger] post.reserved_of(b) == pre.reserved_of(b) by {
                assert(mid2.reserved_of(b) == mid1.reserved_of(b));
                assert(mid1.reserved_of(b) == pre.reserved_of(b));
            }
        }
        Ok(())
    }
}

/// After the structural half of a reassignment (the swap-with-last removal
/// from `from`'s list, the append to `to`'s list, and the two back-pointer
/// fixes), the enumeration bijection holds again. Only the moved letter's
/// bond share changes, and only the two lists involved change.
proof fn lemma_reassign_structure(
    mid: Pallet,
    post: Pallet,
    from: AccountId,
    to: AccountId,
    s: usize,
    o_from: usize,
    k: usize,
    o_to: usize,
    m: usize,
)
    requires
        mid.wf(),
        (s as int) < mid.letters@.len(),
        mid.letters@[s as int].owner_pos == o_from,
        mid.letters@[s as int].owner_slot == k,
        (o_from as int) < mid.owners@.len(),
        mid.owners@[o_from as int].account == from,
        (o_to as int) < mid.owners@.len(),
        mid.owners@[o_to as int].account == to,
        from == to <==> o_from == o_to,
        mid.owners@[o_from as int].held@.len() > 0,
        m == mid.owners@[o_from as int].held@.last(),
        // The owner lists after the removal and the append.
        post.owners@.len() == mid.owners@.len(),
        forall|p: int| 0 <= p < mid.owners@.len() && p != o_from as int && p != o_to as int
            ==> #[trigger] post.owners@[p] == mid.owners@[p],
        forall|p: int| 0 <= p < mid.owners@.len()
            ==> #[trigger] post.owners@[p].account == mid.owners@[p].account,
        o_from != o_to ==> post.owners@[o_from as int].held@
            == mid.owners@[o_from as int].held@.update(
                k as int,
                mid.owners@[o_from as int].held@.last(),
            ).drop_last(),
        o_from != o_to ==> post.owners@[o_to as int].held@
            == mid.owners@[o_to as int].held@.push(s),
        o_from == o_to ==> post.owners@[o_to as int].held@
            == mid.owners@[o_from as int].held@.update(
                k as int,
                mid.owners@[o_from as int].held@.last(),
            ).drop_last().push(s),
        // The letters after the two back-pointer fixes.
        post.letters@.len() == mid.letters@.len(),
        forall|t: int| 0 <= t < mid.letters@.len() && t != s as int && t != m as int
            ==> #[trigger] post.letters@[t] == mid.letters@[t],
        post.letters@[s as int].letter == mid.letters@[s as int].letter,
        post.letters@[s as int].deposit == mid.letters@[s as int].deposit,
        post.letters@[s as int].owner_pos == o_to,
        post.letters@[s as int].owner_slot as int == post.owners@[o_to as int].held@.len() - 1,
        m != s ==> post.letters@[m as int].letter == mid.letters@[m as int].letter,
        m != s ==> post.letters@[m as int].deposit == mid.letters@[m as int].deposit,
        m != s ==> post.letters@[m as int].owner_pos == mid.letters@[m as int].owner_pos,
        m != s ==> post.letters@[m as int].owner_slot == k,
    ensures
        post.registry_wf(),
        forall|x: LetterId| #[trigger] post.is_minted(x) == mid.is_minted(x),
        post.ids() == mid.ids(),
        post.owner_of_spec(mid.letters@[s as int].letter.id) == to,
        post.letter_of(mid.letters@[s as int].letter.id) == mid.letter_of(mid.letters@[s as int].letter.id),
        post.deposit_of(mid.letters@[s as int].letter.id) == mid.deposit_of(mid.letters@[s as int].letter.id),
        forall|x: LetterId| mid.is_minted(x) && x != mid.letters@[s as int].letter.id
            ==> (#[trigger] post.letter_state(x)) == mid.letter_state(x),
        o_from != o_to ==> post.held_ids(from)
            == mid.held_ids(from).update(k as int, mid.held_ids(from).last()).drop_last(),
        o_from != o_to ==> post.held_ids(to)
            == mid.held_ids(to).push(mid.letters@[s as int].letter.id),
        o_from == o_to ==> post.held_ids(from)
            == mid.held_ids(from).update(k as int, mid.held_ids(from).last()).drop_last().push(
                mid.letters@[s as int].letter.id,
            ),
        forall|b: AccountId| b != from && b != to
            ==> #[trigger] post.held_ids(b) == mid.held_ids(b),
        forall|t: int, b: AccountId| 0 <= t < mid.letters@.len() && t != s as int
            ==> #[trigger] post.bond_share(t, b) == mid.bond_share(t, b),
        post.bond_share(s as int, to) == mid.letters@[s as int].deposit,
        forall|b: AccountId| b != to ==> #[trigger] post.bond_share(s as int, b) == 0,
        forall|b: AccountId| #[trigger] post.bonded(b)
            == mid.bonded(b) - mid.bond_share(s as int, b) + post.bond_share(s as int, b),
{
    let id = mid.letters@[s as int].letter.id;
    let s = s as int;
    let o_from = o_from as int;
    let o_to = o_to as int;
    let k = k as int;
    let m = m as int;
    let held_from = mid.owners@[o_from].held@;
    let last = held_from.len() - 1;
    let n = mid.letters@.len() as int;

    assert(mid.slot_linked(s));
    assert(k <= last);
    assert(mid.held_linked(o_from, last));
    assert(held_from[last] as int == m);
    assert(mid.letters@[m].owner_pos as int == o_from);
    assert(mid.letters@[m].owner_slot as int == last);
    if m == s {
        assert(k == last);
    } else {
        assert(k < last);
    }

    // Any position of `from`'s list holding slot `s` is position `k`; any
    // holding `m` is position `last`.
    assert forall|j: int| 0 <= j < held_from.len() && held_from[j] as int == s
        implies j == k by {
        assert(mid.held_linked(o_from, j));
    }
    assert forall|j: int| 0 <= j < held_from.len() && held_from[j] as int == m
        implies j == last by {
        assert(mid.held_linked(o_from, j));
    }

    assert forall|t: int| 0 <= t < post.letters@.len()
        implies #[trigger] post.slot_linked(t) by {
        assert(mid.slot_linked(t));
        if t == s {
            assert(post.owners@[o_to].held@.last() as int == s);
        } else if t == m {
            if o_from != o_to {
                assert(post.owners@[o_from].held@[k] as int == m);
            } else {
                assert(post.owners@[o_to].held@[k] as int == m);
            }
        } else {
            let op = mid.letters@[t].owner_pos as int;
            let ok = mid.letters@[t].owner_slot as int;
            assert(mid.held_linked(op, ok));
            if op == o_from {
                assert(ok != k);
                assert(ok != last);
                if o_from != o_to {
                    assert(post.owners@[o_from].held@[ok] == held_from[ok]);
                } else {
                    assert(post.owners@[o_to].held@[ok] == held_from[ok]);
                }
            } else if op == o_to {
                assert(post.owners@[o_to].held@[ok] == mid.owners@[o_to].held@[ok]);
            } else {
                assert(post.owners@[op] == mid.owners@[op]);
            }
        }
    }

    assert forall|o: int, j: int|
        0 <= o < post.owners@.len() && 0 <= j < post.owners@[o].held@.len()
        implies #[trigger] post.held_linked(o, j) by {
        if o != o_from && o != o_to {
            assert(post.owners@[o] == mid.owners@[o]);
            assert(mid.held_linked(o, j));
            let t = mid.owners@[o].held@[j] as int;
            assert(mid.letters@[t].owner_pos as int == o);
            assert(t != s && t != m);
            assert(post.letters@[t] == mid.letters@[t]);
        } else if o == o_from && o_from != o_to {
            let t = post.owners@[o_from].held@[j] as int;
            if j == k && k < last {
                assert(t == m);
            } else {
                assert(post.owners@[o_from].held@[j] == held_from[j]);
                assert(mid.held_linked(o_from, j));
                assert(t != s && t != m);
                assert(post.letters@[t] == mid.letters@[t]);
            }
        } else if o == o_to && o_from != o_to {
            let held_to = mid.owners@[o_to].held@;
            let t = post.owners@[o_to].held@[j] as int;
            if j < held_to.len() {
                assert(post.owners@[o_to].held@[j] == held_to[j]);
                assert(mid.held_linked(o_to, j));
                assert(mid.letters@[t].owner_pos as int == o_to);
                assert(t != s && t != m);
                assert(post.letters@[t] == mid.letters@[t]);
            } else {
                assert(t == s);
            }
        } else {
            // o == o_from == o_to
            let compacted = held_from.update(k, held_from.last()).drop_last();
            let t = post.owners@[o].held@[j] as int;
            if j == compacted.len() {
                assert(t == s);
            } else if j == k && k < last {
                assert(t == m);
            } else {
                assert(post.owners@[o].held@[j] == held_from[j]);
                assert(mid.held_linked(o_from, j));
                assert(t != s && t != m);
                assert(post.letters@[t] == mid.letters@[t]);
            }
        }
    }

    assert forall|s1: int, s2: int| 0 <= s1 < s2 < post.letters@.len()
        implies (#[trigger] post.letters@[s1].letter.id)
            != (#[trigger] post.letters@[s2].letter.id) by {
        assert(post.letters@[s1].letter.id == mid.letters@[s1].letter.id);
        assert(post.letters@[s2].letter.id == mid.letters@[s2].letter.id);
    }

    assert forall|p: int, q: int| 0 <= p < q < post.owners@.len()
        implies (#[trigger] post.owners@[p].account)
            != (#[trigger] post.owners@[q].account) by {
        assert(post.owners@[p].account == mid.owners@[p].account);
        assert(post.owners@[q].account == mid.owners@[q].account);
    }

    assert forall|x: LetterId| #[trigger] post.is_minted(x) == mid.is_minted(x) by {
        if mid.is_minted(x) {
            let t = mid.slot_of(x);
            assert(post.letters@[t].letter.id == x);
        }
        if post.is_minted(x) {
            let t = post.slot_of(x);
            assert(mid.letters@[t].letter.id == x);
        }
    }
    assert(post.ids() =~= mid.ids());

    mid.lemma_slot_is(id, s);
    post.lemma_slot_is(id, s);
    mid.lemma_owner_is(from, o_from);
    mid.lemma_owner_is(to, o_to);
    post.lemma_owner_is(from, o_from);
    post.lemma_owner_is(to, o_to);

    assert forall|x: LetterId| mid.is_minted(x) && x != id
        implies (#[trigger] post.letter_state(x)) == mid.letter_state(x) by {
        let t = mid.slot_of(x);
        mid.lemma_slot_is(x, t);
        post.lemma_slot_is(x, t);
        assert(t != s);
        if t == m {
            assert(post.letters@[t].letter == mid.letters@[t].letter);
            assert(post.letters@[t].deposit == mid.letters@[t].deposit);
            assert(post.owners@[mid.letters@[t].owner_pos as int].account
                == mid.owners@[mid.letters@[t].owner_pos as int].account);
        } else {
            assert(post.letters@[t] == mid.letters@[t]);
            assert(mid.slot_linked(t));
            assert(post.owners@[mid.letters@[t].owner_pos as int].account
                == mid.owners@[mid.letters@[t].owner_pos as int].account);
        }
    }

    // The held-id sequences.
    let ghost_map_mid = mid.letters@;
    if o_from != o_to {
        assert forall|j: int| 0 <= j < post.held_ids(from).len()
            implies #[trigger] post.held_ids(from)[j]
                == mid.held_ids(from).update(k, mid.held_ids(from).last()).drop_last()[j] by {
            if j == k && k < last {
                assert(post.held_slots(from)[j] as int == m);
                assert(mid.held_ids(from)[last] == mid.letters@[m].letter.id);
                assert(post.letters@[m].letter.id == mid.letters@[m].letter.id);
            } else {
                assert(post.held_slots(from)[j] == held_from[j]);
                assert(mid.held_linked(o_from, j));
                let t = held_from[j] as int;
                assert(t != s && t != m);
                assert(post.letters@[t] == mid.letters@[t]);
            }
        }
        assert(post.held_ids(from)
            =~= mid.held_ids(from).update(k, mid.held_ids(from).last()).drop_last());
        assert forall|j: int| 0 <= j < post.held_ids(to).len()
            implies #[trigger] post.held_ids(to)[j] == mid.held_ids(to).push(id)[j] by {
            let held_to = mid.owners@[o_to].held@;
            if j < held_to.len() {
                assert(post.held_slots(to)[j] == held_to[j]);
                assert(mid.held_linked(o_to, j));
                let t = held_to[j] as int;
                assert(t != s && t != m);
                assert(post.letters@[t] == mid.letters@[t]);
            } else {
                assert(post.held_slots(to)[j] as int == s);
            }
        }
        assert(post.held_ids(to) =~= mid.held_ids(to).push(id));
    } else {
        assert forall|j: int| 0 <= j < post.held_ids(from).len()
            implies #[trigger] post.held_ids(from)[j]
                == mid.held_ids(from).update(k, mid.held_ids(from).last()).drop_last().push(id)[j] by {
            let compacted_len = held_from.len() - 1;
            if j == compacted_len {
                assert(post.held_slots(from)[j] as int == s);
            } else if j == k && k < last {
                assert(post.held_slots(from)[j] as int == m);
                assert(mid.held_ids(from)[last] == mid.letters@[m].letter.id);
            } else {
                assert(post.held_slots(from)[j] == held_from[j]);
                assert(mid.held_linked(o_from, j));
                let t = held_from[j] as int;
                assert(t != s && t != m);
                assert(post.letters@[t] == mid.letters@[t]);
            }
        }
        assert(post.held_ids(from)
            =~= mid.held_ids(from).update(k, mid.held_ids(from).last()).drop_last().push(id));
    }
    assert forall|b: AccountId| b != from && b != to
        implies #[trigger] post.held_ids(b) == mid.held_ids(b) by {
        if mid.has_owner(b) {
            let ob = mid.owner_at(b);
            assert(ob != o_from && ob != o_to);
            assert(post.owners@[ob] == mid.owners@[ob]);
            post.lemma_owner_is(b, ob);
            assert forall|j: int| 0 <= j < post.held_ids(b).len()
                implies #[trigger] post.held_ids(b)[j] == mid.held_ids(b)[j] by {
                assert(mid.held_linked(ob, j));
                let t = mid.owners@[ob].held@[j] as int;
                assert(mid.letters@[t].owner_pos as int == ob);
                assert(t != s && t != m);
                assert(post.letters@[t] == mid.letters@[t]);
            }
            assert(post.held_ids(b) =~= mid.held_ids(b));
        } else {
            if post.has_owner(b) {
                let ob = post.owner_at(b);
                assert(mid.owners@[ob].account == b);
            }
            assert(post.held_ids(b) =~= mid.held_ids(b));
        }
    }

    // Bond shares.
    assert forall|t: int, b: AccountId| 0 <= t < mid.letters@.len() && t != s
        implies #[trigger] post.bond_share(t, b) == mid.bond_share(t, b) by {
        if t == m {
            assert(post.letters@[t].deposit == mid.letters@[t].deposit);
            assert(post.letters@[t].owner_pos == mid.letters@[t].owner_pos);
            assert(post.owners@[mid.letters@[t].owner_pos as int].account
                == mid.owners@[mid.letters@[t].owner_pos as int].account);
        } else {
            assert(post.letters@[t] == mid.letters@[t]);
            assert(mid.slot_linked(t));
            assert(post.owners@[mid.letters@[t].owner_pos as int].account
                == mid.owners@[mid.letters@[t].owner_pos as int].account);
        }
    }
    assert(post.owner_holding(s) == to);
    assert forall|b: AccountId| #[trigger] post.bonded(b)
        == mid.bonded(b) - mid.bond_share(s, b) + post.bond_share(s, b) by {
        Pallet::lemma_bonded_prefix_update(mid, post, b, s, n);
    }
}

} // verus!
