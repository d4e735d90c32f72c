//! The letter store: an arena of letter records, the global and per-owner
//! enumeration indices over it, the currency ledger, and the event log.
//!
//! The per-owner enumeration is kept as a gapless bijection: every minted
//! letter sits at exactly one position of its owner's list, and every
//! position of an owner's list names exactly one letter owned there.
//! Alongside it, every account's reserved balance equals the sum of the
//! deposits recorded for the letters it currently owns.

use vstd::prelude::*;
use crate::config::Config;
use crate::ledger::Ledger;
use crate::letter::{AccountId, Balance, Event, Letter, LetterId};

verus! {

/// One minted letter: its record, its bonded deposit, and where it sits in
/// its owner's enumeration.
pub struct LetterEntry {
    pub letter: Letter,
    /// The amount currently reserved under the owner for this letter.
    pub deposit: Balance,
    /// Index of the owner's entry in `Pallet::owners`.
    pub owner_pos: usize,
    /// Position of this letter's slot within that owner's `held` list.
    pub owner_slot: usize,
}

/// One account's per-owner enumeration: the arena slots it owns, in index
/// order. Entries are created on first acquisition and never removed; a
/// past owner keeps an empty list.
pub struct OwnerEntry {
    pub account: AccountId,
    pub held: Vec<usize>,
}

/// The whole store. Letters are minted into `letters` in mint order and
/// never removed, so the arena itself is the global enumeration.
pub struct Pallet {
    pub cfg: Config,
    pub nonce: u64,
    pub letters: Vec<LetterEntry>,
    pub owners: Vec<OwnerEntry>,
    pub balances: Ledger,
    pub events: Vec<Event>,
}

impl Pallet {
    // ------------------------------------------------------------------
    // The mathematical reading of the store.

    /// All minted ids, in mint order.
    pub open spec fn ids(self) -> Seq<LetterId> {
        Seq::new(self.letters@.len(), |s: int| self.letters@[s].letter.id)
    }

    /// Whether `id` is minted.
    pub open spec fn is_minted(self, id: LetterId) -> bool {
        exists|s: int|
            0 <= s < self.letters@.len() && (#[trigger] self.letters@[s].letter.id) == id
    }

    /// The arena slot of a minted `id`.
    pub open spec fn slot_of(self, id: LetterId) -> int {
        choose|s: int|
            0 <= s < self.letters@.len() && (#[trigger] self.letters@[s].letter.id) == id
    }

    /// The stored record of a minted `id`.
    pub open spec fn letter_of(self, id: LetterId) -> Letter {
        self.letters@[self.slot_of(id)].letter
    }

    /// The deposit bonded for a minted `id`.
    pub open spec fn deposit_of(self, id: LetterId) -> Balance {
        self.letters@[self.slot_of(id)].deposit
    }

    /// The pages of a minted `id`, as byte sequences.
    pub open spec fn pages_of(self, id: LetterId) -> Seq<Seq<u8>> {
        self.letter_of(id).pages_spec()
    }

    /// The current owner of a minted `id`.
    pub open spec fn owner_of_spec(self, id: LetterId) -> AccountId {
        self.owners@[self.letters@[self.slot_of(id)].owner_pos as int].account
    }

    /// The position (0-based) of a minted `id` within its owner's list.
    pub open spec fn owner_slot_of(self, id: LetterId) -> int {
        self.letters@[self.slot_of(id)].owner_slot as int
    }

    /// Whether `a` has an owner entry (it acquired a letter at some point).
    pub open spec fn has_owner(self, a: AccountId) -> bool {
        exists|o: int|
            0 <= o < self.owners@.len() && (#[trigger] self.owners@[o].account) == a
    }

    /// The index of `a`'s owner entry.
    pub open spec fn owner_at(self, a: AccountId) -> int {
        choose|o: int|
            0 <= o < self.owners@.len() && (#[trigger] self.owners@[o].account) == a
    }

    /// The arena slots `a` owns, in enumeration order.
    pub open spec fn held_slots(self, a: AccountId) -> Seq<usize> {
        if self.has_owner(a) {
            self.owners@[self.owner_at(a)].held@
        } else {
            Seq::empty()
        }
    }

    /// The ids `a` owns, in enumeration order.
    pub open spec fn held_ids(self, a: AccountId) -> Seq<LetterId> {
        let letters = self.letters@;
        self.held_slots(a).map_values(|s: usize| letters[s as int].letter.id)
    }

    /// Everything the store records about a minted `id`: its letter record,
    /// its bonded deposit, and its owner. Frame conditions quantify over
    /// this to say that other letters are untouched.
    pub open spec fn letter_state(self, id: LetterId) -> (Letter, Balance, AccountId) {
        (self.letter_of(id), self.deposit_of(id), self.owner_of_spec(id))
    }

    /// `a`'s free balance.
    pub open spec fn free_of(self, a: AccountId) -> Balance {
        self.balances.free_of(a)
    }

    /// `a`'s reserved balance.
    pub open spec fn reserved_of(self, a: AccountId) -> Balance {
        self.balances.reserved_of(a)
    }

    // ------------------------------------------------------------------
    // The deposit bond: who owes what.

    /// The account that currently owns the letter in slot `s`.
    pub open spec fn owner_holding(self, s: int) -> AccountId {
        self.owners@[self.letters@[s].owner_pos as int].account
    }

    /// Slot `s`'s share of `a`'s bond: its deposit when `a` owns it.
    pub open spec fn bond_share(self, s: int, a: AccountId) -> int {
        if self.owner_holding(s) == a {
            self.letters@[s].deposit as int
        } else {
            0
        }
    }

    /// The sum of `a`'s shares over the first `n` slots.
    pub open spec fn bonded_prefix(self, a: AccountId, n: int) -> int
        decreases n,
    {
        if n <= 0 {
            0
        } else {
            self.bonded_prefix(a, n - 1) + self.bond_share(n - 1, a)
        }
    }

    /// The total deposit `a` owes: the sum of the deposits of the letters
    /// it owns.
    pub open spec fn bonded(self, a: AccountId) -> int {
        self.bonded_prefix(a, self.letters@.len() as int)
    }

    // ------------------------------------------------------------------
    // Well-formedness.

    /// Slot `s` points into its owner's list, and that position points back.
    pub open spec fn slot_linked(self, s: int) -> bool {
        let e = self.letters@[s];
        &&& (e.owner_pos as int) < self.owners@.len()
        &&& (e.owner_slot as int) < self.owners@[e.owner_pos as int].held@.len()
        &&& self.owners@[e.owner_pos as int].held@[e.owner_slot as int] as int == s
    }

    /// Position `k` of owner `o`'s list names a slot that points back to it.
    pub open spec fn held_linked(self, o: int, k: int) -> bool {
        let s = self.owners@[o].held@[k] as int;
        &&& s < self.letters@.len()
        &&& self.letters@[s].owner_pos as int == o
        &&& self.letters@[s].owner_slot as int == k
    }

    /// No two owner entries name the same account.
    pub open spec fn owners_distinct(self) -> bool {
        forall|o1: int, o2: int|
            0 <= o1 < o2 < self.owners@.len()
                ==> (#[trigger] self.owners@[o1].account)
                    != (#[trigger] self.owners@[o2].account)
    }

    /// No two slots hold the same id.
    pub open spec fn ids_distinct(self) -> bool {
        forall|s1: int, s2: int|
            0 <= s1 < s2 < self.letters@.len()
                ==> (#[trigger] self.letters@[s1].letter.id)
                    != (#[trigger] self.letters@[s2].letter.id)
    }

    /// The enumeration structure alone: slots and owner lists form a
    /// bijection, and owners and ids are unambiguous.
    pub open spec fn registry_wf(self) -> bool {
        &&& forall|s: int| 0 <= s < self.letters@.len() ==> #[trigger] self.slot_linked(s)
        &&& forall|o: int, k: int|
            0 <= o < self.owners@.len() && 0 <= k < self.owners@[o].held@.len()
                ==> #[trigger] self.held_linked(o, k)
        &&& self.owners_distinct()
        &&& self.ids_distinct()
    }

    /// The store's invariant: the enumeration bijection, a well-formed
    /// ledger, and every account's reserved balance equal to its bond.
    pub open spec fn wf(self) -> bool {
        &&& self.balances.wf()
        &&& self.registry_wf()
        &&& forall|a: AccountId| #[trigger] self.balances.reserved_of(a) == self.bonded(a)
    }

    /// A store with the same letters and owner lists has the same
    /// enumeration structure and the same bonds.
    pub proof fn lemma_same_registry(pre: Pallet, post: Pallet)
        requires
            pre.registry_wf(),
            post.letters@ == pre.letters@,
            post.owners@ == pre.owners@,
        ensures
            post.registry_wf(),
            forall|a: AccountId| #[trigger] post.bonded(a) == pre.bonded(a),
            forall|a: AccountId| #[trigger] post.held_slots(a) == pre.held_slots(a),
            forall|a: AccountId| #[trigger] post.held_ids(a) == pre.held_ids(a),
            forall|id: LetterId| #[trigger] post.is_minted(id) == pre.is_minted(id),
            forall|id: LetterId| pre.is_minted(id)
                ==> (#[trigger] post.letter_state(id)) == pre.letter_state(id),
            post.ids() == pre.ids(),
    {
        assert forall|s: int| 0 <= s < post.letters@.len()
            implies #[trigger] post.slot_linked(s) by {
            assert(pre.slot_linked(s));
        }
        assert forall|o: int, k: int|
            0 <= o < post.owners@.len() && 0 <= k < post.owners@[o].held@.len()
            implies #[trigger] post.held_linked(o, k) by {
            assert(pre.held_linked(o, k));
        }
        assert forall|a: AccountId| #[trigger] post.bonded(a) == pre.bonded(a) by {
            assert forall|s: int| 0 <= s < post.letters@.len()
                implies #[trigger] post.bond_share(s, a) == pre.bond_share(s, a) by {}
            Self::lemma_bonded_prefix_pointwise(pre, post, a, post.letters@.len() as int);
        }
        assert forall|a: AccountId| #[trigger] post.held_slots(a) == pre.held_slots(a) by {
            if pre.has_owner(a) {
                assert(post.owners@[pre.owner_at(a)].account == a);
            } else {
                assert(!post.has_owner(a));
                assert(post.held_slots(a) =~= pre.held_slots(a));
            }
        }
        assert forall|a: AccountId| #[trigger] post.held_ids(a) == pre.held_ids(a) by {
            assert(post.held_ids(a) =~= pre.held_ids(a));
        }
        assert forall|id: LetterId| #[trigger] post.is_minted(id) == pre.is_minted(id) by {
            if pre.is_minted(id) {
                let s = pre.slot_of(id);
                assert(post.letters@[s].letter.id == id);
            }
            if post.is_minted(id) {
                let s = post.slot_of(id);
                assert(pre.letters@[s].letter.id == id);
            }
        }
        assert forall|id: LetterId| pre.is_minted(id)
            implies (#[trigger] post.letter_state(id)) == pre.letter_state(id) by {
            let s = pre.slot_of(id);
            post.lemma_slot_is(id, s);
        }
        assert(post.ids() =~= pre.ids());
    }

    // ------------------------------------------------------------------
    // Uniqueness lemmas: an entry found by scanning is the entry the
    // accessors speak of.

    /// A slot holding `id` is the slot of `id`.
    pub proof fn lemma_slot_is(self, id: LetterId, s: int)
        requires
            self.ids_distinct(),
            0 <= s < self.letters@.len(),
            self.letters@[s].letter.id == id,
        ensures
            self.is_minted(id),
            self.slot_of(id) == s,
    {
        assert(self.is_minted(id));
        let t = self.slot_of(id);
        if s < t {
            assert(self.letters@[s].letter.id != self.letters@[t].letter.id);
        } else if t < s {
            assert(self.letters@[t].letter.id != self.letters@[s].letter.id);
        }
    }

    /// An owner entry naming `a` is the owner entry of `a`.
    pub proof fn lemma_owner_is(self, a: AccountId, o: int)
        requires
            self.owners_distinct(),
            0 <= o < self.owners@.len(),
            self.owners@[o].account == a,
        ensures
            self.has_owner(a),
            self.owner_at(a) == o,
    {
        assert(self.has_owner(a));
        let p = self.owner_at(a);
        if o < p {
            assert(self.owners@[o].account != self.owners@[p].account);
        } else if p < o {
            assert(self.owners@[p].account != self.owners@[o].account);
        }
    }

    // ------------------------------------------------------------------
    // Sum lemmas for the deposit bond.

    /// If every slot below `n` contributes the same to `a` in two stores,
    /// their prefix sums for `a` agree.
    pub proof fn lemma_bonded_prefix_pointwise(pre: Pallet, post: Pallet, a: AccountId, n: int)
        requires
            forall|s: int| 0 <= s < n ==> #[trigger] post.bond_share(s, a) == pre.bond_share(s, a),
        ensures
            post.bonded_prefix(a, n) == pre.bonded_prefix(a, n),
        decreases n,
    {
        if n > 0 {
            Self::lemma_bonded_prefix_pointwise(pre, post, a, n - 1);
        }
    }

    /// If only slot `i` changed its contribution to `a`, the prefix sum
    /// moves by exactly that difference.
    pub proof fn lemma_bonded_prefix_update(pre: Pallet, post: Pallet, a: AccountId, i: int, n: int)
        requires
            0 <= i < n,
            forall|s: int|
                0 <= s < n && s != i ==> #[trigger] post.bond_share(s, a) == pre.bond_share(s, a),
        ensures
            post.bonded_prefix(a, n)
                == pre.bonded_prefix(a, n) - pre.bond_share(i, a) + post.bond_share(i, a),
        decreases n,
    {
        if i == n - 1 {
            Self::lemma_bonded_prefix_pointwise(pre, post, a, n - 1);
        } else {
            Self::lemma_bonded_prefix_update(pre, post, a, i, n - 1);
        }
    }

    /// If no slot below `n` contributes to `a`, the prefix sum is zero.
    pub proof fn lemma_bonded_prefix_zero(self, a: AccountId, n: int)
        requires
            forall|s: int| 0 <= s < n ==> #[trigger] self.bond_share(s, a) == 0,
        ensures
            self.bonded_prefix(a, n) == 0,
        decreases n,
    {
        if n > 0 {
            self.lemma_bonded_prefix_zero(a, n - 1);
        }
    }

    /// An account that owns nothing has no bond: every slot it would draw
    /// from would have to sit in its (absent or empty) list.
    pub proof fn lemma_bonded_zero_when_unowned(self, a: AccountId)
        requires
            self.wf(),
            self.held_slots(a).len() == 0,
        ensures
            self.bonded(a) == 0,
    {
        assert forall|s: int| 0 <= s < self.letters@.len()
            implies #[trigger] self.bond_share(s, a) == 0 by {
            if self.owner_holding(s) == a {
                assert(self.slot_linked(s));
                let o = self.letters@[s].owner_pos as int;
                self.lemma_owner_is(a, o);
                assert(self.owners@[o].held@.len() > 0);
            }
        }
        self.lemma_bonded_prefix_zero(a, self.letters@.len() as int);
    }

    /// Every bond prefix is a sum of non-negative shares.
    pub proof fn lemma_bonded_prefix_nonneg(self, a: AccountId, n: int)
        ensures
            self.bonded_prefix(a, n) >= 0,
        decreases n,
    {
        if n > 0 {
            self.lemma_bonded_prefix_nonneg(a, n - 1);
        }
    }

    /// A bond prefix covers each single share below it.
    pub proof fn lemma_bonded_includes(self, a: AccountId, s: int, n: int)
        requires
            0 <= s < n,
        ensures
            self.bonded_prefix(a, n) >= self.bond_share(s, a),
        decreases n,
    {
        if s == n - 1 {
            self.lemma_bonded_prefix_nonneg(a, n - 1);
        } else {
            self.lemma_bonded_includes(a, s, n - 1);
        }
    }

    /// Rewriting one arena slot without touching its id or its place in the
    /// enumerations (as a page append, a deposit rewrite, or a price change
    /// does) keeps the enumeration structure, every held list, and every
    /// other letter's state; only the rewritten slot's bond share moves.
    pub proof fn lemma_update_slot(pre: Pallet, post: Pallet, s: int)
        requires
            pre.registry_wf(),
            post.owners@ == pre.owners@,
            post.letters@.len() == pre.letters@.len(),
            0 <= s < pre.letters@.len(),
            forall|t: int| 0 <= t < pre.letters@.len() && t != s
                ==> #[trigger] post.letters@[t] == pre.letters@[t],
            post.letters@[s].letter.id == pre.letters@[s].letter.id,
            post.letters@[s].owner_pos == pre.letters@[s].owner_pos,
            post.letters@[s].owner_slot == pre.letters@[s].owner_slot,
        ensures
            post.registry_wf(),
            forall|x: LetterId| #[trigger] post.is_minted(x) == pre.is_minted(x),
            post.ids() == pre.ids(),
            forall|b: AccountId| #[trigger] post.held_slots(b) == pre.held_slots(b),
            forall|b: AccountId| #[trigger] post.held_ids(b) == pre.held_ids(b),
            post.slot_of(pre.letters@[s].letter.id) == s,
            pre.slot_of(pre.letters@[s].letter.id) == s,
            post.owner_holding(s) == pre.owner_holding(s),
            forall|x: LetterId| pre.is_minted(x) && x != pre.letters@[s].letter.id
                ==> (#[trigger] post.letter_state(x)) == pre.letter_state(x),
            forall|t: int, b: AccountId| 0 <= t < pre.letters@.len() && t != s
                ==> #[trigger] post.bond_share(t, b) == pre.bond_share(t, b),
            forall|b: AccountId| #[trigger] post.bonded(b)
                == pre.bonded(b) - pre.bond_share(s, b) + post.bond_share(s, b),
    {
        let id = pre.letters@[s].letter.id;
        assert forall|t: int| 0 <= t < post.letters@.len()
            implies #[trigger] post.slot_linked(t) by {
            assert(pre.slot_linked(t));
        }
        assert forall|o: int, k: int|
            0 <= o < post.owners@.len() && 0 <= k < post.owners@[o].held@.len()
            implies #[trigger] post.held_linked(o, k) by {
            assert(pre.held_linked(o, k));
            let st = pre.owners@[o].held@[k] as int;
            if st != s {
                assert(post.letters@[st] == pre.letters@[st]);
            }
        }
        assert forall|s1: int, s2: int| 0 <= s1 < s2 < post.letters@.len()
            implies (#[trigger] post.letters@[s1].letter.id)
                != (#[trigger] post.letters@[s2].letter.id) by {
            assert(post.letters@[s1].letter.id == pre.letters@[s1].letter.id);
            assert(post.letters@[s2].letter.id == pre.letters@[s2].letter.id);
        }
        assert forall|x: LetterId| #[trigger] post.is_minted(x) == pre.is_minted(x) by {
            if pre.is_minted(x) {
                let t = pre.slot_of(x);
                assert(post.letters@[t].letter.id == x);
            }
            if post.is_minted(x) {
                let t = post.slot_of(x);
                assert(pre.letters@[t].letter.id == x);
            }
        }
        assert(post.ids() =~= pre.ids());
        assert forall|b: AccountId| #[trigger] post.held_slots(b) == pre.held_slots(b) by {
            if pre.has_owner(b) {
                assert(post.owners@[pre.owner_at(b)].account == b);
            } else {
                assert(!post.has_owner(b));
                assert(post.held_slots(b) =~= pre.held_slots(b));
            }
        }
        pre.lemma_slot_is(id, s);
        post.lemma_slot_is(id, s);
        assert forall|b: AccountId| #[trigger] post.held_ids(b) == pre.held_ids(b) by {
            assert forall|j: int| 0 <= j < pre.held_ids(b).len()
                implies #[trigger] post.held_ids(b)[j] == pre.held_ids(b)[j] by {
                if pre.has_owner(b) {
                    let ob = pre.owner_at(b);
                    assert(pre.held_linked(ob, j));
                    let sj = pre.held_slots(b)[j] as int;
                    if sj != s {
                        assert(post.letters@[sj] == pre.letters@[sj]);
                    }
                }
            }
            assert(post.held_ids(b) =~= pre.held_ids(b));
        }
        assert forall|x: LetterId| pre.is_minted(x) && x != id
            implies (#[trigger] post.letter_state(x)) == pre.letter_state(x) by {
            let t = pre.slot_of(x);
            pre.lemma_slot_is(x, t);
            post.lemma_slot_is(x, t);
            assert(t != s);
            assert(post.letters@[t] == pre.letters@[t]);
        }
        assert forall|t: int, b: AccountId| 0 <= t < pre.letters@.len() && t != s
            implies #[trigger] post.bond_share(t, b) == pre.bond_share(t, b) by {
            assert(post.letters@[t] == pre.letters@[t]);
        }
        assert forall|b: AccountId| #[trigger] post.bonded(b)
            == pre.bonded(b) - pre.bond_share(s, b) + post.bond_share(s, b) by {
            Self::lemma_bonded_prefix_update(pre, post, b, s, pre.letters@.len() as int);
        }
    }

    // ------------------------------------------------------------------
    // Construction and genesis endowment.

    /// An empty store under the given configuration.
    pub fn new(cfg: Config) -> (p: Pallet)
        ensures
            p.wf(),
            p.cfg == cfg,
            p.nonce == 0,
            p.ids() == Seq::<LetterId>::empty(),
            p.events@ == Seq::<Event>::empty(),
            forall|id: LetterId| !(#[trigger] p.is_minted(id)),
            forall|a: AccountId| #[trigger] p.held_ids(a) == Seq::<LetterId>::empty(),
            forall|a: AccountId| #[trigger] p.free_of(a) == 0,
            forall|a: AccountId| #[trigger] p.reserved_of(a) == 0,
    {
        let p = Pallet {
            cfg,
            nonce: 0,
            letters: Vec::new(),
            owners: Vec::new(),
            balances: Ledger::new(),
            events: Vec::new(),
        };
        proof {
            assert(p.ids() =~= Seq::<LetterId>::empty());
            assert forall|a: AccountId| #[trigger] p.held_ids(a)
                == Seq::<LetterId>::empty() by {
                assert(!p.has_owner(a));
                assert(p.held_ids(a) =~= Seq::<LetterId>::empty());
            }
            assert forall|a: AccountId| #[trigger] p.reserved_of(a) == p.bonded(a) by {
                p.lemma_bonded_prefix_zero(a, 0);
            }
        }
        p
    }

    /// Overwrites `who`'s free balance: the host's genesis endowment.
    /// Nothing else changes.
    pub fn endow(&mut self, who: AccountId, amount: Balance)
        requires
            old(self).wf(),
        ensures
            final(self).wf(),
            final(self).free_of(who) == amount,
            forall|b: AccountId| b != who
                ==> #[trigger] final(self).free_of(b) == old(self).free_of(b),
            forall|b: AccountId| #[trigger] final(self).reserved_of(b) == old(self).reserved_of(b),
            final(self).cfg == old(self).cfg,
            final(self).nonce == old(self).nonce,
            final(self).letters@ == old(self).letters@,
            final(self).owners@ == old(self).owners@,
            final(self).events@ == old(self).events@,
            final(self).ids() == old(self).ids(),
            forall|id: LetterId| #[trigger] final(self).is_minted(id) == old(self).is_minted(id),
            forall|id: LetterId| old(self).is_minted(id)
                ==> (#[trigger] final(self).letter_state(id)) == old(self).letter_state(id),
            forall|b: AccountId| #[trigger] final(self).held_ids(b) == old(self).held_ids(b),
    {
        self.balances.endow(who, amount);
        proof {
            Self::lemma_same_registry(*old(self), *self);
            assert forall|a: AccountId| #[trigger] self.balances.reserved_of(a)
                == self.bonded(a) by {
                assert(old(self).balances.reserved_of(a) == old(self).bonded(a));
                assert(self.bonded(a) == old(self).bonded(a));
            }
        }
    }

    // ------------------------------------------------------------------
    // Lookup helpers.

    /// Finds the arena slot of `id`.
    pub(crate) fn find_slot(&self, id: LetterId) -> (r: Option<usize>)
        requires
            self.wf(),
        ensures
            match r {
                Some(s) => self.is_minted(id) && self.slot_of(id) == s
                    && s < self.letters@.len() && self.letters@[s as int].letter.id == id,
                None => !self.is_minted(id),
            },
    {
        let n = self.letters.len();
        let mut idx: usize = 0;
        while idx < n
            invariant
                n == self.letters@.len(),
                idx <= n,
                self.wf(),
                forall|k: int| 0 <= k < idx ==> (#[trigger] self.letters@[k].letter.id) != id,
            decreases n - idx,
        {
            if self.letters[idx].letter.id == id {
                proof {
                    self.lemma_slot_is(id, idx as int);
                }
                return Some(idx);
            }
            idx = idx + 1;
        }
        None
    }

    /// Finds the owner entry of `a`.
    pub(crate) fn find_owner(&self, a: AccountId) -> (r: Option<usize>)
        requires
            self.wf(),
        ensures
            match r {
                Some(o) => self.has_owner(a) && self.owner_at(a) == o
                    && o < self.owners@.len() && self.owners@[o as int].account == a,
                None => !self.has_owner(a),
            },
    {
        let n = self.owners.len();
        let mut idx: usize = 0;
        while idx < n
            invariant
                n == self.owners@.len(),
                idx <= n,
                self.wf(),
                forall|k: int| 0 <= k < idx ==> (#[trigger] self.owners@[k].account) != a,
            decreases n - idx,
        {
            if self.owners[idx].account == a {
                proof {
                    self.lemma_owner_is(a, idx as int);
                }
                return Some(idx);
            }
            idx = idx + 1;
        }
        None
    }

    /// Finds `a`'s owner entry, creating an empty one when there is none.
    /// No letter, list content, balance or event changes.
    pub(crate) fn owner_or_create(&mut self, a: AccountId) -> (o: usize)
        requires
            old(self).wf(),
        ensures
            final(self).wf(),
            o < final(self).owners@.len(),
            final(self).owners@[o as int].account == a,
            final(self).has_owner(a),
            final(self).owner_at(a) == o,
            final(self).cfg == old(self).cfg,
            final(self).nonce == old(self).nonce,
            final(self).letters@ == old(self).letters@,
            final(self).balances == old(self).balances,
            final(self).events@ == old(self).events@,
            final(self).owners@.len() >= old(self).owners@.len(),
            forall|k: int| 0 <= k < old(self).owners@.len()
                ==> #[trigger] final(self).owners@[k] == old(self).owners@[k],
            final(self).owners@[o as int].held@ == old(self).held_slots(a),
            forall|b: AccountId| #[trigger] final(self).held_slots(b) == old(self).held_slots(b),
            forall|b: AccountId| #[trigger] final(self).held_ids(b) == old(self).held_ids(b),
            forall|s: int, b: AccountId| 0 <= s < old(self).letters@.len()
                ==> #[trigger] final(self).bond_share(s, b) == old(self).bond_share(s, b),
    {
        let found = self.find_owner(a);
        match found {
            Some(o) => {
                proof {
                    assert(old(self).held_slots(a) == old(self).owners@[o as int].held@);
                }
                o
            },
            None => {
                let o = self.owners.len();
                self.owners.push(OwnerEntry { account: a, held: Vec::new() });
                proof {
                    let pre = *old(self);
                    let post = *self;
                    let n = pre.owners@.len() as int;
                    assert forall|p: int, q: int| 0 <= p < q < post.owners@.len()
                        implies (#[trigger] post.owners@[p].account)
                            != (#[trigger] post.owners@[q].account) by {
                        if q < n {
                        } else {
                            assert(q == n);
                            if pre.owners@[p].account == a {
                                pre.lemma_owner_is(a, p);
                            }
                        }
                    }
                    post.lemma_owner_is(a, o as int);
                    assert(post.owners@[o as int].held@ =~= pre.held_slots(a));
                    assert forall|s: int, b: AccountId| 0 <= s < pre.letters@.len()
                        implies #[trigger] post.bond_share(s, b) == pre.bond_share(s, b) by {
                        assert(pre.slot_linked(s));
                        let op = pre.letters@[s].owner_pos as int;
                        assert(post.owners@[op] == pre.owners@[op]);
                    }
                    assert forall|s: int| 0 <= s < post.letters@.len()
                        implies #[trigger] post.slot_linked(s) by {
                        assert(pre.slot_linked(s));
                        let op = pre.letters@[s].owner_pos as int;
                        assert(post.owners@[op] == pre.owners@[op]);
                    }
                    assert forall|p: int, k: int|
                        0 <= p < post.owners@.len() && 0 <= k < post.owners@[p].held@.len()
                        implies #[trigger] post.held_linked(p, k) by {
                        if p < n {
                            assert(post.owners@[p] == pre.owners@[p]);
                            assert(pre.held_linked(p, k));
                        }
                    }
                    assert forall|b: AccountId| #[trigger] post.held_slots(b)
                        == pre.held_slots(b) by {
                        Self::lemma_held_slots_after_owner_push(pre, post, a, b, o as int);
                    }
                    assert forall|b: AccountId| #[trigger] post.held_ids(b)
                        == pre.held_ids(b) by {
                        assert(post.held_slots(b) == pre.held_slots(b));
                        assert(post.held_ids(b) =~= pre.held_ids(b));
                    }
                    assert forall|b: AccountId| #[trigger] post.balances.reserved_of(b)
                        == post.bonded(b) by {
                        assert(pre.balances.reserved_of(b) == pre.bonded(b));
                        Self::lemma_bonded_prefix_pointwise(pre, post, b, post.letters@.len() as int);
                    }
                }
                o
            },
        }
    }

    /// Appending an empty owner entry leaves every account's held list
    /// unchanged.
    proof fn lemma_held_slots_after_owner_push(
        pre: Pallet,
        post: Pallet,
        a: AccountId,
        b: AccountId,
        o: int,
    )
        requires
            pre.owners_distinct(),
            post.owners_distinct(),
            !pre.has_owner(a),
            o == pre.owners@.len(),
            post.owners@.len() == pre.owners@.len() + 1,
            forall|k: int| 0 <= k < pre.owners@.len()
                ==> #[trigger] post.owners@[k] == pre.owners@[k],
            post.owners@[o].account == a,
            post.owners@[o].held@.len() == 0,
        ensures
            post.held_slots(b) == pre.held_slots(b),
    {
        if b == a {
            post.lemma_owner_is(a, o);
            assert(post.held_slots(a) =~= Seq::<usize>::empty());
            assert(pre.held_slots(a) =~= Seq::<usize>::empty());
        } else {
            if pre.has_owner(b) {
                let k = pre.owner_at(b);
                assert(post.owners@[k].account == b);
                post.lemma_owner_is(b, k);
            } else {
                if post.has_owner(b) {
                    let k = post.owner_at(b);
                    assert(k != o);
                    assert(pre.owners@[k].account == b);
                }
                assert(!post.has_owner(b));
            }
        }
    }

    // ------------------------------------------------------------------
    // Read-only views for callers and tests.

    /// The mint nonce.
    pub fn get_nonce(&self) -> (r: u64)
        ensures
            r == self.nonce,
    {
        self.nonce
    }

    /// How many letters were ever minted.
    pub fn all_letters_count(&self) -> (r: u64)
        ensures
            r == self.ids().len(),
    {
        self.letters.len() as u64
    }

    /// The id minted `idx`-th (1-based), as the global enumeration lists it.
    pub fn letter_by_index(&self, idx: u64) -> (r: Option<LetterId>)
        ensures
            r == if 1 <= idx <= self.ids().len() {
                Some(self.ids()[idx - 1])
            } else {
                Option::<LetterId>::None
            },
    {
        if idx >= 1 && idx <= self.letters.len() as u64 {
            Some(self.letters[(idx - 1) as usize].letter.id)
        } else {
            None
        }
    }

    /// The stored record of `id`.
    pub fn letter(&self, id: LetterId) -> (r: Option<&Letter>)
        requires
            self.wf(),
        ensures
            match r {
                Some(l) => self.is_minted(id) && *l == self.letter_of(id),
                None => !self.is_minted(id),
            },
    {
        match self.find_slot(id) {
            Some(s) => Some(&self.letters[s].letter),
            None => None,
        }
    }

    /// The deposit currently bonded for `id`.
    pub fn deposit_of_letter(&self, id: LetterId) -> (r: Option<Balance>)
        requires
            self.wf(),
        ensures
            match r {
                Some(d) => self.is_minted(id) && d == self.deposit_of(id),
                None => !self.is_minted(id),
            },
    {
        match self.find_slot(id) {
            Some(s) => Some(self.letters[s].deposit),
            None => None,
        }
    }

    /// The current owner of `id`.
    pub fn owner_of(&self, id: LetterId) -> (r: Option<AccountId>)
        requires
            self.wf(),
        ensures
            match r {
                Some(a) => self.is_minted(id) && a == self.owner_of_spec(id),
                None => !self.is_minted(id),
            },
    {
        match self.find_slot(id) {
            Some(s) => {
                proof {
                    assert(self.slot_linked(s as int));
                }
                Some(self.owners[self.letters[s].owner_pos].account)
            },
            None => None,
        }
    }

    /// How many letters `a` currently owns.
    pub fn owned_letter_count(&self, a: AccountId) -> (r: u64)
        requires
            self.wf(),
        ensures
            r == self.held_ids(a).len(),
    {
        match self.find_owner(a) {
            Some(o) => self.owners[o].held.len() as u64,
            None => 0,
        }
    }

    /// The id at position `idx` (1-based) of `key.0`'s enumeration.
    pub fn letter_of_owner_by_index(&self, key: (AccountId, u64)) -> (r: Option<LetterId>)
        requires
            self.wf(),
        ensures
            r == if 1 <= key.1 <= self.held_ids(key.0).len() {
                Some(self.held_ids(key.0)[key.1 - 1])
            } else {
                Option::<LetterId>::None
            },
    {
        let (a, idx) = key;
        match self.find_owner(a) {
            Some(o) => {
                if idx >= 1 && idx <= self.owners[o].held.len() as u64 {
                    let s = self.owners[o].held[(idx - 1) as usize];
                    proof {
                        assert(self.held_linked(o as int, idx - 1));
                    }
                    Some(self.letters[s].letter.id)
                } else {
                    None
                }
            },
            None => None,
        }
    }

    /// `a`'s free balance.
    pub fn free_balance(&self, a: AccountId) -> (r: Balance)
        requires
            self.wf(),
        ensures
            r == self.free_of(a),
    {
        self.balances.free_balance(a)
    }

    /// `a`'s reserved balance.
    pub fn reserved_balance(&self, a: AccountId) -> (r: Balance)
        requires
            self.wf(),
        ensures
            r == self.reserved_of(a),
    {
        self.balances.reserved_balance(a)
    }

    /// Every event emitted so far, oldest first.
    pub fn emitted(&self) -> (r: &Vec<Event>)
        ensures
            r@ == self.events@,
    {
        &self.events
    }
}

} // verus!
