//! Minting: id derivation from the host-supplied entropy, the mint nonce,
//! and the mint itself, which installs a letter into both enumerations and
//! bonds its deposit.

use vstd::prelude::*;
use crate::errors::Error;
use crate::letter::{AccountId, Balance, Event, Letter, LetterId};
use crate::store::{LetterEntry, OwnerEntry, Pallet};

verus! {

/// The id derived for a mint: host entropy, the minter, and the current
/// nonce, scrambled together. The exact scramble is part of the contract of
/// `Pallet::random_hash`.
pub open spec fn derived_id(seed: u64, sender: AccountId, nonce: u64) -> LetterId {
    let a = seed.wrapping_mul(0x9E37_79B9_7F4A_7C15).wrapping_add(sender);
    let b = a.wrapping_mul(0xBF58_476D_1CE4_E5B9).wrapping_add(nonce);
    (b ^ (b >> 31)).wrapping_mul(0x94D0_49BB_1331_11EB)
}

impl Pallet {
    /// Derives the id a mint by `sender` would get now, from the entropy the
    /// host supplies and the current nonce.
    pub fn random_hash(&self, seed: u64, sender: AccountId) -> (id: LetterId)
        ensures
            id == derived_id(seed, sender, self.nonce),
    {
        let a = seed.wrapping_mul(0x9E37_79B9_7F4A_7C15).wrapping_add(sender);
        let b = a.wrapping_mul(0xBF58_476D_1CE4_E5B9).wrapping_add(self.nonce);
        (b ^ (b >> 31)).wrapping_mul(0x94D0_49BB_1331_11EB)
    }

    /// Steps the mint nonce. Callers check for the wrap themselves, before
    /// they mutate anything, so that the step cannot fail halfway through an
    /// operation.
    pub(crate) fn increment_nonce(&mut self)
        requires
            old(self).nonce < u64::MAX,
        ensures
            final(self).nonce == old(self).nonce + 1,
            final(self).cfg == old(self).cfg,
            final(self).letters@ == old(self).letters@,
            final(self).owners@ == old(self).owners@,
            final(self).balances == old(self).balances,
            final(self).events@ == old(self).events@,
    {
        self.nonce = self.nonce + 1;
    }

    /// Why a mint would be refused, or `None` when it goes through. The
    /// checks run in this order, and all of them precede any mutation.
    pub open spec fn mint_check(self, to: AccountId, new_letter: Letter, deposit: Balance) -> Option<Error> {
        if self.is_minted(new_letter.id) {
            Some(Error::AlreadyMinted)
        } else if self.ids().len() + 1 > u64::MAX {
            Some(Error::CountOverflow)
        } else if self.held_ids(to).len() + 1 > u64::MAX {
            Some(Error::CountOverflow)
        } else if self.free_of(to) < deposit {
            Some(Error::InsufficientDeposit)
        } else if self.reserved_of(to) + deposit > u64::MAX {
            Some(Error::AmountOverflow)
        } else {
            None
        }
    }

    /// What a successful mint does: the letter joins the end of the global
    /// enumeration and of `to`'s enumeration, its deposit is bonded under
    /// `to`, and nothing else moves.
    pub open spec fn mint_effect(pre: Pallet, post: Pallet, to: AccountId, new_letter: Letter, deposit: Balance) -> bool {
        let id = new_letter.id;
        &&& post.cfg == pre.cfg
        &&& post.nonce == pre.nonce
        &&& post.ids() == pre.ids().push(id)
        &&& forall|x: LetterId| #[trigger] post.is_minted(x) <==> pre.is_minted(x) || x == id
        &&& post.letter_of(id) == new_letter
        &&& post.deposit_of(id) == deposit
        &&& post.owner_of_spec(id) == to
        &&& forall|x: LetterId| pre.is_minted(x) && x != id
            ==> (#[trigger] post.letter_state(x)) == pre.letter_state(x)
        &&& post.held_ids(to) == pre.held_ids(to).push(id)
        &&& forall|b: AccountId| b != to ==> #[trigger] post.held_ids(b) == pre.held_ids(b)
        &&& post.free_of(to) == pre.free_of(to) - deposit
        &&& post.reserved_of(to) == pre.reserved_of(to) + deposit
        &&& forall|b: AccountId| b != to ==> #[trigger] post.free_of(b) == pre.free_of(b)
        &&& forall|b: AccountId| b != to ==> #[trigger] post.reserved_of(b) == pre.reserved_of(b)
        &&& post.events@ == pre.events@.push(Event::LetterInit(to, id))
    }

    /// Mints `new_letter` for `to`, bonding `deposit` under `to`. Refused
    /// when the id is taken, a counter would wrap, or `to` cannot afford the
    /// deposit; a refused mint changes nothing.
    pub fn mint_letter(&mut self, to: AccountId, new_letter: Letter, deposit: Balance) -> (r: Result<(), Error>)
        requires
            old(self).wf(),
        ensures
            final(self).wf(),
            r is Err <==> old(self).mint_check(to, new_letter, deposit) is Some,
            r matches Err(e) ==> Some(e) == old(self).mint_check(to, new_letter, deposit)
                && *final(self) == *old(self),
            r is Ok ==> Self::mint_effect(*old(self), *final(self), to, new_letter, deposit),
    {
        let id = new_letter.id;

        // Checks: all of them, before any mutation.
        match self.find_slot(id) {
            Some(_) => {
                return Err(Error::AlreadyMinted);
            },
            None => {},
        }
        if self.letters.len() as u64 == u64::MAX {
            return Err(Error::CountOverflow);
        }
        let owned: u64 = match self.find_owner(to) {
            Some(o) => self.owners[o].held.len() as u64,
            None => 0,
        };
        if owned == u64::MAX {
            return Err(Error::CountOverflow);
        }
        let free = self.balances.free_balance(to);
        if free < deposit {
            return Err(Error::InsufficientDeposit);
        }
        let reserved = self.balances.reserved_balance(to);
        if deposit > u64::MAX - reserved {
            return Err(Error::AmountOverflow);
        }

        // Mutations: none of these can fail.
        let ghost pre = *old(self);
        let o = self.owner_or_create(to);
        let ghost mid = *self;
        let s = self.letters.len();
        let k = self.owners[o].held.len();
        self.letters.push(LetterEntry { letter: new_letter, deposit, owner_pos: o, owner_slot: k });
        let entry = &mut self.owners[o];
        entry.held.push(s);
        self.balances.reserve(to, deposit);
        self.events.push(Event::LetterInit(to, id));
        proof {
            let post = *self;
            let n = pre.letters@.len() as int;
            let ghost new_entry = LetterEntry {
                letter: new_letter,
                deposit,
                owner_pos: o,
                owner_slot: k,
            };
            assert(post.letters@ == mid.letters@.push(new_entry));
            lemma_mint_structure(pre, mid, post, to, o, s, k, new_entry);
            assert forall|a: AccountId| #[trigger] post.balances.reserved_of(a)
                == post.bonded(a) by {
                assert(pre.balances.reserved_of(a) == pre.bonded(a));
                assert(post.bonded_prefix(a, n + 1)
                    == post.bonded_prefix(a, n) + post.bond_share(n, a));
                assert(post.bonded_prefix(a, n) == pre.bonded_prefix(a, n));
            }
            assert(post.ids() =~= pre.ids().push(id));
            assert forall|x: LetterId| #[trigger] post.is_minted(x)
                <==> pre.is_minted(x) || x == id by {
                if pre.is_minted(x) {
                    let sx = pre.slot_of(x);
                    assert(post.letters@[sx].letter.id == x);
                }
                if post.is_minted(x) && x != id {
                    let sx = post.slot_of(x);
                    assert(sx != n);
                    assert(pre.letters@[sx].letter.id == x);
                }
                if x == id {
                    assert(post.letters@[n].letter.id == id);
                }
            }
            post.lemma_slot_is(id, n);
            assert forall|x: LetterId| pre.is_minted(x) && x != id
                implies (#[trigger] post.letter_state(x)) == pre.letter_state(x) by {
                let sx = pre.slot_of(x);
                pre.lemma_slot_is(x, sx);
                post.lemma_slot_is(x, sx);
                assert(post.letters@[sx] == pre.letters@[sx]);
                assert(pre.slot_linked(sx));
                let op = pre.letters@[sx].owner_pos as int;
                assert(post.owners@[op].account == mid.owners@[op].account);
            }
            assert(pre.held_slots(to) == mid.owners@[o as int].held@);
            assert forall|j: int| 0 <= j < pre.held_ids(to).len()
                implies #[trigger] post.held_ids(to)[j] == pre.held_ids(to)[j] by {
                assert(mid.held_linked(o as int, j));
                let sj = pre.held_slots(to)[j] as int;
                assert(post.letters@[sj] == pre.letters@[sj]);
            }
            assert(post.held_ids(to)[pre.held_ids(to).len() as int] == id);
            assert(post.held_ids(to) =~= pre.held_ids(to).push(id));
            assert forall|b: AccountId| b != to
                implies #[trigger] post.held_ids(b) == pre.held_ids(b) by {
                if mid.has_owner(b) {
                    let ob = mid.owner_at(b);
                    assert(ob != o);
                    assert(post.owners@[ob] == mid.owners@[ob]);
                    post.lemma_owner_is(b, ob);
                    assert(post.held_slots(b) =~= mid.held_slots(b));
                    assert forall|j: int| 0 <= j < post.held_ids(b).len()
                        implies #[trigger] post.held_ids(b)[j] == pre.held_ids(b)[j] by {
                        assert(mid.held_linked(ob, j));
                        let sj = mid.held_slots(b)[j] as int;
                        assert(post.letters@[sj] == mid.letters@[sj]);
                    }
                    assert(post.held_ids(b) =~= pre.held_ids(b));
                } else {
                    if post.has_owner(b) {
                        let ob = post.owner_at(b);
                        assert(mid.owners@[ob].account == b);
                    }
                    assert(post.held_slots(b) =~= Seq::<usize>::empty());
                    assert(mid.held_slots(b) =~= Seq::<usize>::empty());
                    assert(post.held_ids(b) =~= pre.held_ids(b));
                }
            }
        }
        Ok(())
    }
}

impl Pallet {
    /// Why an `init_letter` call would be refused, or `None` when it goes
    /// through. The checks run in this order, all before any mutation.
    pub open spec fn init_check(self, caller: AccountId, title: Seq<u8>, author: Seq<u8>, seed: u64) -> Option<Error> {
        let id = derived_id(seed, caller, self.nonce);
        let dep = self.cfg.letter_deposit_spec(title.len() as int, author.len() as int);
        if title.len() > self.cfg.max_title_len {
            Some(Error::TitleLenOverflow)
        } else if author.len() > self.cfg.max_author_len {
            Some(Error::AuthorLenOverflow)
        } else if self.nonce == u64::MAX {
            Some(Error::NonceOverflow)
        } else if dep > u64::MAX {
            Some(Error::AmountOverflow)
        } else if self.is_minted(id) {
            Some(Error::AlreadyMinted)
        } else if self.ids().len() + 1 > u64::MAX {
            Some(Error::CountOverflow)
        } else if self.held_ids(caller).len() + 1 > u64::MAX {
            Some(Error::CountOverflow)
        } else if self.free_of(caller) < dep {
            Some(Error::InsufficientDeposit)
        } else if self.reserved_of(caller) + dep > u64::MAX {
            Some(Error::AmountOverflow)
        } else {
            None
        }
    }

    /// Mints a fresh letter for `caller` with the given title and author,
    /// an empty page list and a price of zero. The id is derived from the
    /// host-supplied entropy, the caller, and the nonce, which steps by one;
    /// the letter deposit is bonded under the caller. A refused call changes
    /// nothing.
    pub fn init_letter(&mut self, caller: AccountId, title: Vec<u8>, author: Vec<u8>, seed: u64) -> (r: Result<LetterId, Error>)
        requires
            old(self).wf(),
        ensures
            final(self).wf(),
            r is Err <==> old(self).init_check(caller, title@, author@, seed) is Some,
            r matches Err(e) ==> Some(e) == old(self).init_check(caller, title@, author@, seed)
                && *final(self) == *old(self),
            r matches Ok(id) ==> {
                let pre = *old(self);
                let post = *final(self);
                let dep = pre.cfg.letter_deposit_spec(title@.len() as int, author@.len() as int);
                &&& id == derived_id(seed, caller, pre.nonce)
                &&& post.cfg == pre.cfg
                &&& post.nonce == pre.nonce + 1
                &&& post.ids() == pre.ids().push(id)
                &&& forall|x: LetterId| #[trigger] post.is_minted(x)
                    <==> pre.is_minted(x) || x == id
                &&& post.letter_of(id).id == id
                &&& post.letter_of(id).title@ == title@
                &&& post.letter_of(id).author@ == author@
                &&& post.letter_of(id).price == 0
                &&& post.pages_of(id) == Seq::<Seq<u8>>::empty()
                &&& post.deposit_of(id) == dep
                &&& post.owner_of_spec(id) == caller
                &&& forall|x: LetterId| pre.is_minted(x) && x != id
                    ==> (#[trigger] post.letter_state(x)) == pre.letter_state(x)
                &&& post.held_ids(caller) == pre.held_ids(caller).push(id)
                &&& forall|b: AccountId| b != caller
                    ==> #[trigger] post.held_ids(b) == pre.held_ids(b)
                &&& post.free_of(caller) == pre.free_of(caller) - dep
                &&& post.reserved_of(caller) == pre.reserved_of(caller) + dep
                &&& forall|b: AccountId| b != caller
                    ==> #[trigger] post.free_of(b) == pre.free_of(b)
                &&& forall|b: AccountId| b != caller
                    ==> #[trigger] post.reserved_of(b) == pre.reserved_of(b)
                &&& post.events@ == pre.events@.push(Event::LetterInit(caller, id))
            },
    {
        if title.len() as u64 > self.cfg.max_title_len {
            return Err(Error::TitleLenOverflow);
        }
        if author.len() as u64 > self.cfg.max_author_len {
            return Err(Error::AuthorLenOverflow);
        }
        if self.nonce == u64::MAX {
            return Err(Error::NonceOverflow);
        }
        let dep = match self.cfg.letter_deposit(title.len() as u64, author.len() as u64) {
            Ok(d) => d,
            Err(e) => {
                return Err(e);
            },
        };
        let id = self.random_hash(seed, caller);
        let letter = Letter::new(id, title, author, 0);
        match self.mint_letter(caller, letter, dep) {
            Err(e) => Err(e),
            Ok(()) => {
                let ghost mid = *self;
                self.increment_nonce();
                proof {
                    Pallet::lemma_same_registry(mid, *self);
                    let post = *self;
                    assert forall|a: AccountId| #[trigger] post.balances.reserved_of(a)
                        == post.bonded(a) by {
                        assert(mid.balances.reserved_of(a) == mid.bonded(a));
                    }
                    assert(mid.is_minted(id));
                    assert(post.letter_state(id) == mid.letter_state(id));
                    assert forall|b: AccountId| b != caller
                        implies #[trigger] post.free_of(b) == old(self).free_of(b) by {
                        assert(mid.free_of(b) == old(self).free_of(b));
                    }
                    assert forall|b: AccountId| b != caller
                        implies #[trigger] post.reserved_of(b) == old(self).reserved_of(b) by {
                        assert(mid.reserved_of(b) == old(self).reserved_of(b));
                    }
                    assert(post.free_of(caller) == mid.free_of(caller));
                    assert(post.reserved_of(caller) == mid.reserved_of(caller));
                }
                Ok(id)
            },
        }
    }
}

/// After a mint's two structural pushes (the new arena slot and its position
/// at the end of the owner's list), the enumeration bijection holds again,
/// and the new slot is bonded to `to` while every old slot's share of every
/// bond is unchanged.
proof fn lemma_mint_structure(
    pre: Pallet,
    mid: Pallet,
    post: Pallet,
    to: AccountId,
    o: usize,
    s_new: usize,
    k_new: usize,
    new_entry: LetterEntry,
)
    requires
        pre.wf(),
        mid.wf(),
        // What owner_or_create guarantees.
        mid.letters@ == pre.letters@,
        (o as int) < mid.owners@.len(),
        mid.owners@[o as int].account == to,
        mid.owner_at(to) == o,
        mid.has_owner(to),
        forall|b: AccountId| #[trigger] mid.held_slots(b) == pre.held_slots(b),
        forall|s: int, b: AccountId| 0 <= s < pre.letters@.len()
            ==> #[trigger] mid.bond_share(s, b) == pre.bond_share(s, b),
        // The two pushes.
        s_new as int == pre.letters@.len(),
        k_new as int == mid.owners@[o as int].held@.len(),
        new_entry.owner_pos == o,
        new_entry.owner_slot == k_new,
        post.letters@ == mid.letters@.push(new_entry),
        post.owners@.len() == mid.owners@.len(),
        forall|p: int| 0 <= p < mid.owners@.len() && p != o as int
            ==> #[trigger] post.owners@[p] == mid.owners@[p],
        post.owners@[o as int].account == to,
        post.owners@[o as int].held@ == mid.owners@[o as int].held@.push(s_new),
        // The new id is fresh.
        !pre.is_minted(new_entry.letter.id),
    ensures
        post.registry_wf(),
        post.has_owner(to),
        post.owner_at(to) == o,
        post.owner_holding(pre.letters@.len() as int) == to,
        post.bond_share(pre.letters@.len() as int, to) == new_entry.deposit,
        forall|b: AccountId| b != to
            ==> #[trigger] post.bond_share(pre.letters@.len() as int, b) == 0,
        forall|s: int, b: AccountId| 0 <= s < pre.letters@.len()
            ==> #[trigger] post.bond_share(s, b) == pre.bond_share(s, b),
        forall|b: AccountId| #[trigger] post.bonded_prefix(b, pre.letters@.len() as int)
            == pre.bonded_prefix(b, pre.letters@.len() as int),
{
    let n = pre.letters@.len() as int;
    let o = o as int;
    let kk = k_new as int;

    assert forall|p: int, q: int| 0 <= p < q < post.owners@.len()
        implies (#[trigger] post.owners@[p].account)
            != (#[trigger] post.owners@[q].account) by {
        assert(post.owners@[p].account == mid.owners@[p].account);
        assert(post.owners@[q].account == mid.owners@[q].account);
    }
    post.lemma_owner_is(to, o);

    assert forall|s: int| 0 <= s < post.letters@.len()
        implies #[trigger] post.slot_linked(s) by {
        if s < n {
            assert(mid.slot_linked(s));
            let op = mid.letters@[s].owner_pos as int;
            let ok = mid.letters@[s].owner_slot as int;
            if op == o {
                assert(post.owners@[o].held@[ok] == mid.owners@[o].held@[ok]);
            } else {
                assert(post.owners@[op] == mid.owners@[op]);
            }
        } else {
            assert(post.owners@[o].held@[kk] as int == n);
        }
    }

    assert forall|p: int, q: int|
        0 <= p < post.owners@.len() && 0 <= q < post.owners@[p].held@.len()
        implies #[trigger] post.held_linked(p, q) by {
        if p != o {
            assert(post.owners@[p] == mid.owners@[p]);
            assert(mid.held_linked(p, q));
            let sq = mid.owners@[p].held@[q] as int;
            assert(post.letters@[sq] == mid.letters@[sq]);
        } else {
            if q < kk {
                assert(mid.held_linked(o, q));
                let sq = mid.owners@[o].held@[q] as int;
                assert(post.owners@[o].held@[q] == mid.owners@[o].held@[q]);
                assert(post.letters@[sq] == mid.letters@[sq]);
            } else {
                assert(q == kk);
                assert(post.owners@[o].held@[q] as int == n);
            }
        }
    }

    assert forall|s1: int, s2: int| 0 <= s1 < s2 < post.letters@.len()
        implies (#[trigger] post.letters@[s1].letter.id)
            != (#[trigger] post.letters@[s2].letter.id) by {
        if s2 < n {
            assert(post.letters@[s1] == mid.letters@[s1]);
            assert(post.letters@[s2] == mid.letters@[s2]);
        } else {
            assert(s2 == n);
            assert(post.letters@[s1] == pre.letters@[s1]);
        }
    }

    assert forall|s: int, b: AccountId| 0 <= s < n
        implies #[trigger] post.bond_share(s, b) == pre.bond_share(s, b) by {
        assert(post.letters@[s] == mid.letters@[s]);
        assert(mid.slot_linked(s));
        let op = mid.letters@[s].owner_pos as int;
        assert(post.owners@[op].account == mid.owners@[op].account);
        assert(mid.bond_share(s, b) == pre.bond_share(s, b));
    }

    assert forall|b: AccountId| #[trigger] post.bonded_prefix(b, n)
        == pre.bonded_prefix(b, n) by {
        Pallet::lemma_bonded_prefix_pointwise(pre, post, b, n);
    }
}

} // verus!
