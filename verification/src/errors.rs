//! The error kinds that the registry's operations report.
//!
//! Every error is recoverable by the caller: an operation that fails leaves
//! the whole store exactly as it was before the call.

use vstd::prelude::*;

verus! {

/// Why an operation on the letter store was refused.
#[derive(Clone, Copy, Debug, PartialEq, Eq, Structural)]
pub enum Error {
    /// The letter id is not minted.
    NonExistentLetter,
    /// The page index is past the end of the letter's pages.
    NonExistentPage,
    /// The title is longer than the configured maximum.
    TitleLenOverflow,
    /// The author is longer than the configured maximum.
    AuthorLenOverflow,
    /// The page is longer than the configured maximum.
    PageLenOverflow,
    /// The letter already holds the configured maximum number of pages.
    PageCountOverflow,
    /// The mint nonce would wrap.
    NonceOverflow,
    /// An enumeration counter would wrap.
    CountOverflow,
    /// A deposit or balance amount would wrap.
    AmountOverflow,
    /// The caller does not own the letter.
    NotOwner,
    /// A currency reservation could not be made or moved.
    InsufficientDeposit,
    /// The buyer already owns the letter.
    SelfTrade,
    /// The letter's price is zero.
    NotForSale,
    /// The letter's price exceeds the buyer's limit.
    OverBudget,
    /// The id is already minted.
    AlreadyMinted,
}

} // verus!
