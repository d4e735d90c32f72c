//! The letter record and the events an operation emits.

use vstd::prelude::*;

verus! {

/// An account identity, as authenticated by the host.
pub type AccountId = u64;

/// A letter's identity: the value the id generator derives at mint time.
pub type LetterId = u64;

/// A currency amount.
pub type Balance = u64;

/// The core owned asset record.
///
/// Immutable after creation except `price` (through `set_price` and
/// `buy_letter`) and `pages` (append-only, through `write_page`).
pub struct Letter {
    pub id: LetterId,
    pub title: Vec<u8>,
    pub author: Vec<u8>,
    pub price: Balance,
    pub pages: Vec<Vec<u8>>,
}

impl Letter {
    /// The letter's pages as mathematical byte sequences.
    pub open spec fn pages_spec(&self) -> Seq<Seq<u8>> {
        self.pages.deep_view()
    }

    /// A fresh letter with no pages.
    pub fn new(id: LetterId, title: Vec<u8>, author: Vec<u8>, price: Balance) -> (l: Letter)
        ensures
            l.id == id,
            l.title@ == title@,
            l.author@ == author@,
            l.price == price,
            l.pages_spec() == Seq::<Seq<u8>>::empty(),
    {
        let l = Letter { id, title, author, price, pages: Vec::new() };
        proof {
            assert(l.pages_spec() =~= Seq::<Seq<u8>>::empty());
        }
        l
    }

    /// How many pages the letter holds.
    pub fn page_count(&self) -> (n: usize)
        ensures
            n == self.pages_spec().len(),
    {
        self.pages.len()
    }
}

/// What a successful operation reports to the host's event sink.
#[derive(Clone, Copy, Debug, PartialEq, Eq, Structural)]
pub enum Event {
    /// A letter was minted: (minter, id).
    LetterInit(AccountId, LetterId),
    /// A page was appended: (writer, id).
    PageWritten(AccountId, LetterId),
    /// A price was set: (owner, id, new price).
    PriceSet(AccountId, LetterId, Balance),
    /// Ownership moved: (from, to, id).
    Transferred(AccountId, AccountId, LetterId),
    /// A sale went through: (buyer, seller, id, price paid).
    Bought(AccountId, AccountId, LetterId, Balance),
}

} // verus!
