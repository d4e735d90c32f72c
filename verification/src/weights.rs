//! Reference execution weights for the store's operations, as measured on
//! the original deployment: a base cost plus per-database-access costs,
//! combined with saturating arithmetic.

use vstd::prelude::*;

verus! {

/// The cost of one database read and one database write, as the host
/// configures them.
#[derive(Clone, Copy, Debug, PartialEq, Eq, Structural)]
pub struct DbWeight {
    pub read: u64,
    pub write: u64,
}

/// `x * y`, saturating at `u64::MAX`.
pub open spec fn sat_mul(x: u64, y: u64) -> u64 {
    if x * y > u64::MAX {
        u64::MAX
    } else {
        (x * y) as u64
    }
}

impl DbWeight {
    /// The saturated cost of `n` reads.
    pub fn reads(&self, n: u64) -> (w: u64)
        ensures
            w == sat_mul(self.read, n),
    {
        match self.read.checked_mul(n) {
            Some(v) => v,
            None => u64::MAX,
        }
    }

    /// The saturated cost of `n` writes.
    pub fn writes(&self, n: u64) -> (w: u64)
        ensures
            w == sat_mul(self.write, n),
    {
        match self.write.checked_mul(n) {
            Some(v) => v,
            None => u64::MAX,
        }
    }
}

/// The weight owed for a mint: its base cost, four reads and nine writes.
pub open spec fn init_letter_weight(db: DbWeight) -> u64 {
    68_547_000u64.saturating_add(sat_mul(db.read, 4)).saturating_add(sat_mul(db.write, 9))
}

/// The weight owed for a page write of length `p`: its base cost, a
/// per-byte cost, two reads and one write.
pub open spec fn write_page_weight(db: DbWeight, p: u32) -> u64 {
    60_317_000u64.saturating_add(sat_mul(1_000, p as u64)).saturating_add(
        sat_mul(db.read, 2),
    ).saturating_add(sat_mul(db.write, 1))
}

/// The weight owed for a price change: its base cost, two reads and one
/// write.
pub open spec fn set_price_weight(db: DbWeight) -> u64 {
    29_718_000u64.saturating_add(sat_mul(db.read, 2)).saturating_add(sat_mul(db.write, 1))
}

/// The weight owed for a transfer: its base cost, eight reads and ten
/// writes.
pub open spec fn transfer_weight(db: DbWeight) -> u64 {
    87_866_000u64.saturating_add(sat_mul(db.read, 8)).saturating_add(sat_mul(db.write, 10))
}

/// The weight owed for a purchase: its base cost, eight reads and eleven
/// writes.
pub open spec fn buy_letter_weight(db: DbWeight) -> u64 {
    114_926_000u64.saturating_add(sat_mul(db.read, 8)).saturating_add(sat_mul(db.write, 11))
}

/// What a weight table must answer for each operation, relative to the
/// database weights it was derived for.
pub trait WeightInfo {
    /// The database weights this table is stated over.
    spec fn db(&self) -> DbWeight;

    /// The weight of `init_letter` for a title of `t` and an author of `a`
    /// bytes.
    fn init_letter(&self, t: u32, a: u32) -> (w: u64)
        ensures
            w == init_letter_weight(self.db()),
    ;

    /// The weight of `write_page` for a page of `p` bytes.
    fn write_page(&self, p: u32) -> (w: u64)
        ensures
            w == write_page_weight(self.db(), p),
    ;

    /// The weight of `set_price`.
    fn set_price(&self) -> (w: u64)
        ensures
            w == set_price_weight(self.db()),
    ;

    /// The weight of `transfer`.
    fn transfer(&self) -> (w: u64)
        ensures
            w == transfer_weight(self.db()),
    ;

    /// The weight of `buy_letter`.
    fn buy_letter(&self) -> (w: u64)
        ensures
            w == buy_letter_weight(self.db()),
    ;
}

/// The measured weight table, parameterized by the host's database weights.
pub struct SubstrateWeight {
    pub db: DbWeight,
}

impl WeightInfo for SubstrateWeight {
    open spec fn db(&self) -> DbWeight {
        self.db
    }

    fn init_letter(&self, _t: u32, _a: u32) -> (w: u64)
    {
        68_547_000u64.saturating_add(self.db.reads(4)).saturating_add(self.db.writes(9))
    }

    fn write_page(&self, p: u32) -> (w: u64)
    {
        let per_byte = match 1_000u64.checked_mul(p as u64) {
            Some(v) => v,
            None => u64::MAX,
        };
        60_317_000u64.saturating_add(per_byte).saturating_add(self.db.reads(2)).saturating_add(
            self.db.writes(1),
        )
    }

    fn set_price(&self) -> (w: u64)
    {
        29_718_000u64.saturating_add(self.db.reads(2)).saturating_add(self.db.writes(1))
    }

    fn transfer(&self) -> (w: u64)
    {
        87_866_000u64.saturating_add(self.db.reads(8)).saturating_add(self.db.writes(10))
    }

    fn buy_letter(&self) -> (w: u64)
    {
        114_926_000u64.saturating_add(self.db.reads(8)).saturating_add(self.db.writes(11))
    }
}

} // verus!
