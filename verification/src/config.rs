//! Configuration constants injected by the host: content bounds and the
//! parameters of the deposit formula.

use vstd::prelude::*;
use vstd::arithmetic::mul::lemma_mul_is_distributive_add;
use crate::errors::Error;

verus! {

/// The bounds and deposit parameters under which a store runs.
///
/// `letter_deposit_base + letter_deposit_factor * (title len + author len)`
/// is the deposit owed for a letter's title and author bytes;
/// `page_deposit_base + page_deposit_factor * page len` is the extra deposit
/// owed for the most recently written page. `existential_deposit` is the
/// least balance a paying account must keep when a plain currency transfer
/// is asked to keep it alive.
#[derive(Clone, Copy, Debug, PartialEq, Eq, Structural)]
pub struct Config {
    pub max_title_len: u64,
    pub max_author_len: u64,
    pub max_page_len: u64,
    pub max_page_num: u64,
    pub letter_deposit_base: u64,
    pub letter_deposit_factor: u64,
    pub page_deposit_base: u64,
    pub page_deposit_factor: u64,
    pub existential_deposit: u64,
}

impl Config {
    /// The deposit owed for a letter with the given title and author lengths,
    /// as a mathematical integer.
    pub open spec fn letter_deposit_spec(self, title_len: int, author_len: int) -> int {
        self.letter_deposit_base + self.letter_deposit_factor * (title_len + author_len)
    }

    /// The extra deposit owed for a letter's most recent page, given that
    /// page's length, as a mathematical integer.
    pub open spec fn page_deposit_spec(self, page_len: int) -> int {
        self.page_deposit_base + self.page_deposit_factor * page_len
    }

    /// Computes the letter deposit, refusing lengths whose deposit would not
    /// fit in an amount.
    pub fn letter_deposit(&self, title_len: u64, author_len: u64) -> (r: Result<u64, Error>)
        ensures
            r is Ok <==> self.letter_deposit_spec(title_len as int, author_len as int) <= u64::MAX,
            r matches Ok(d) ==> d == self.letter_deposit_spec(title_len as int, author_len as int),
            r is Err ==> r == Result::<u64, Error>::Err(Error::AmountOverflow),
    {
        proof {
            lemma_mul_is_distributive_add(
                self.letter_deposit_factor as int,
                title_len as int,
                author_len as int,
            );
            lemma_mul_term_bound(self.letter_deposit_factor as int, title_len as int, author_len as int);
        }
        match self.letter_deposit_factor.checked_mul(title_len) {
            Some(scaled_title) => match self.letter_deposit_factor.checked_mul(author_len) {
                Some(scaled_author) => match scaled_title.checked_add(scaled_author) {
                    Some(scaled) => match self.letter_deposit_base.checked_add(scaled) {
                        Some(d) => Ok(d),
                        None => Err(Error::AmountOverflow),
                    },
                    None => Err(Error::AmountOverflow),
                },
                None => Err(Error::AmountOverflow),
            },
            None => Err(Error::AmountOverflow),
        }
    }

    /// Computes the page deposit for a page of the given length, refusing
    /// lengths whose deposit would not fit in an amount.
    pub fn page_deposit(&self, page_len: u64) -> (r: Result<u64, Error>)
        ensures
            r is Ok <==> self.page_deposit_spec(page_len as int) <= u64::MAX,
            r matches Ok(d) ==> d == self.page_deposit_spec(page_len as int),
            r is Err ==> r == Result::<u64, Error>::Err(Error::AmountOverflow),
    {
        match self.page_deposit_factor.checked_mul(page_len) {
            Some(scaled) => match self.page_deposit_base.checked_add(scaled) {
                Some(d) => Ok(d),
                None => Err(Error::AmountOverflow),
            },
            None => Err(Error::AmountOverflow),
        }
    }
}

/// Each term of a distributed product is bounded by the whole product when
/// the other term is non-negative.
proof fn lemma_mul_term_bound(factor: int, title_len: int, author_len: int)
    requires
        factor >= 0,
        title_len >= 0,
        author_len >= 0,
    ensures
        factor * title_len <= factor * (title_len + author_len),
        factor * author_len <= factor * (title_len + author_len),
{
    assert(factor * title_len <= factor * (title_len + author_len)
        && factor * author_len <= factor * (title_len + author_len)) by (nonlinear_arith)
        requires factor >= 0 && title_len >= 0 && author_len >= 0;
}

} // verus!
