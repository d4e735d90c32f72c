//! A verified asset registry for unique, mutable records ("letters").
//!
//! Each letter has an owner, bounded title and author bytes, an append-only
//! sequence of content pages, and a sale price. A global enumeration and a
//! per-owner enumeration are kept as gapless bijections, and every owner
//! keeps a currency deposit reserved in proportion to the content they hold.

pub mod config;
pub mod content;
pub mod errors;
pub mod laws;
pub mod ledger;
pub mod letter;
pub mod mint;
pub mod store;
pub mod trade;
pub mod weights;

pub use config::Config;
pub use errors::Error;
pub use letter::{AccountId, Balance, Event, Letter, LetterId};
pub use store::Pallet;
