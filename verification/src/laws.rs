//! The laws of the store, proved once and for all well-formed states. Every
//! operation ensures `wf()` of the state it leaves behind, so each law holds
//! after every mint, write, transfer and purchase.

use vstd::prelude::*;
use crate::letter::{AccountId, LetterId};
use crate::store::Pallet;
use crate::errors::Error;

verus! {

/// The global enumeration counts exactly the distinct ids ever minted: the
/// mint-order sequence has no duplicates, so its length — what
/// `all_letters_count` returns — equals the cardinality of the set of all
/// minted ids. (That the sequence only ever grows by one fresh id, and the
/// count never decreases, is stated by each operation's own contract:
/// `ids()` is unchanged or extended by `push`.)
pub proof fn lemma_global_enumeration(p: Pallet)
    requires
        p.wf(),
    ensures
        p.ids().no_duplicates(),
        p.ids().to_set().len() == p.ids().len(),
{
    assert forall|i: int, j: int|
        0 <= i < p.ids().len() && 0 <= j < p.ids().len() && i != j
        implies p.ids()[i] != p.ids()[j] by {
        if i < j {
            assert(p.letters@[i].letter.id != p.letters@[j].letter.id);
        } else {
            assert(p.letters@[j].letter.id != p.letters@[i].letter.id);
        }
    }
    p.ids().unique_seq_to_set();
}

/// Each owner's list enumerates exactly the letters that owner currently
/// holds, gaplessly and without duplicates: the list's entries are pairwise
/// distinct, an id appears on it precisely when it is minted and owned by
/// `a`, and so the list's length — what `owned_letter_count` returns — is
/// the cardinality of `a`'s set of letters.
pub proof fn lemma_owner_enumeration(p: Pallet, a: AccountId)
    requires
        p.wf(),
    ensures
        p.held_ids(a).no_duplicates(),
        forall|id: LetterId| #[trigger] p.held_ids(a).contains(id)
            <==> p.is_minted(id) && p.owner_of_spec(id) == a,
        p.held_ids(a).to_set().len() == p.held_ids(a).len(),
{
    if p.has_owner(a) {
        let o = p.owner_at(a);
        assert forall|j1: int, j2: int|
            0 <= j1 < p.held_ids(a).len() && 0 <= j2 < p.held_ids(a).len() && j1 != j2
            implies p.held_ids(a)[j1] != p.held_ids(a)[j2] by {
            assert(p.held_linked(o, j1));
            assert(p.held_linked(o, j2));
            let s1 = p.held_slots(a)[j1] as int;
            let s2 = p.held_slots(a)[j2] as int;
            assert(s1 != s2);
            if s1 < s2 {
                assert(p.letters@[s1].letter.id != p.letters@[s2].letter.id);
            } else {
                assert(p.letters@[s2].letter.id != p.letters@[s1].letter.id);
            }
        }
        assert forall|id: LetterId| #[trigger] p.held_ids(a).contains(id)
            implies p.is_minted(id) && p.owner_of_spec(id) == a by {
            let j = choose|j: int| 0 <= j < p.held_ids(a).len() && p.held_ids(a)[j] == id;
            assert(p.held_linked(o, j));
            let s = p.held_slots(a)[j] as int;
            p.lemma_slot_is(id, s);
        }
        assert forall|id: LetterId| p.is_minted(id) && p.owner_of_spec(id) == a
            implies #[trigger] p.held_ids(a).contains(id) by {
            let s = p.slot_of(id);
            assert(p.slot_linked(s));
            let op = p.letters@[s].owner_pos as int;
            p.lemma_owner_is(a, op);
            let k = p.letters@[s].owner_slot as int;
            assert(p.held_ids(a)[k] == id);
        }
    } else {
        assert(p.held_ids(a).len() == 0);
        assert forall|id: LetterId| p.is_minted(id) && p.owner_of_spec(id) == a
            implies #[trigger] p.held_ids(a).contains(id) by {
            let s = p.slot_of(id);
            assert(p.slot_linked(s));
            let op = p.letters@[s].owner_pos as int;
            p.lemma_owner_is(a, op);
        }
        assert forall|id: LetterId| !(#[trigger] p.held_ids(a).contains(id)) by {}
    }
    p.held_ids(a).unique_seq_to_set();
}

/// Writing a page and immediately reading the letter's last page gives that
/// page back unchanged: a successful `write_page` of `page` extends the
/// letter's pages by exactly `page`, so `read_page` at the old page count —
/// whose contract returns `pages_of(letter_id)[index]` — is owed `page`.
pub proof fn lemma_write_read_roundtrip(
    pre: Pallet,
    post: Pallet,
    letter_id: LetterId,
    page: Seq<u8>,
)
    requires
        post.is_minted(letter_id),
        post.pages_of(letter_id) == pre.pages_of(letter_id).push(page),
    ensures
        post.pages_of(letter_id).len() == pre.pages_of(letter_id).len() + 1,
        pre.pages_of(letter_id).len() < post.pages_of(letter_id).len(),
        post.pages_of(letter_id)[pre.pages_of(letter_id).len() as int] == page,
{
}

/// A `write_page` call whose page exceeds the configured maximum length is
/// refused with `PageLenOverflow` — and a refused call, by `write_page`'s
/// contract, leaves the whole store (page count and deposit included)
/// exactly as it was.
pub proof fn lemma_oversize_write_refused(
    p: Pallet,
    caller: AccountId,
    letter_id: LetterId,
    page: Seq<u8>,
)
    requires
        p.is_minted(letter_id),
        p.owner_of_spec(letter_id) == caller,
        page.len() > p.cfg.max_page_len,
    ensures
        p.write_check(caller, letter_id, page) == Some(Error::PageLenOverflow),
{
}

/// The deposit ledger stays synchronized with content and ownership: in
/// every well-formed state — so after every operation — each account's
/// reserved balance is exactly the sum of the deposits recorded for the
/// letters it currently owns, and an account that owns nothing has nothing
/// reserved.
pub proof fn lemma_reserved_matches_bond(p: Pallet, a: AccountId)
    requires
        p.wf(),
    ensures
        p.reserved_of(a) == p.bonded(a),
        p.held_ids(a).len() == 0 ==> p.reserved_of(a) == 0,
{
    assert(p.balances.reserved_of(a) == p.bonded(a));
    if p.held_ids(a).len() == 0 {
        assert(p.held_slots(a).len() == 0);
        p.lemma_bonded_zero_when_unowned(a);
    }
}

/// The deposit invariant for a first-time owner: after a mint by an account
/// that owned nothing, the amount reserved under it is exactly
/// `letter_deposit_base + letter_deposit_factor * (title len + author len)`.
/// The hypotheses are `init_letter`'s own postconditions: before the call
/// nothing was owned, and the call added the letter deposit to the caller's
/// reservation.
pub proof fn lemma_fresh_owner_deposit(
    pre: Pallet,
    post: Pallet,
    caller: AccountId,
    title: Seq<u8>,
    author: Seq<u8>,
)
    requires
        pre.wf(),
        pre.held_ids(caller).len() == 0,
        post.reserved_of(caller) == pre.reserved_of(caller)
            + pre.cfg.letter_deposit_spec(title.len() as int, author.len() as int),
    ensures
        post.reserved_of(caller)
            == pre.cfg.letter_deposit_spec(title.len() as int, author.len() as int),
{
    assert(pre.held_slots(caller).len() == 0);
    pre.lemma_bonded_zero_when_unowned(caller);
    assert(pre.balances.reserved_of(caller) == pre.bonded(caller));
}

} // verus!
