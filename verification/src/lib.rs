//! An ownership registry for uniquely identified digital collectibles
//! ("kitties"), with a time-bounded auction scheduler on top.
//!
//! The shared state of the module lives in [`registry::Registry`]; every
//! operation either fully succeeds or returns a typed error and leaves the
//! state unchanged. The host environment supplies the requesting account,
//! the entropy seed, and the current block number as plain values.
//!
//! Auctions are only created and filed into per-expiry buckets here;
//! bidding and expiry resolution have no settled semantics and are left
//! to a future extension.

pub mod hash256;
pub mod laws;
pub mod registry;
pub mod tables;
pub mod types;

pub use hash256::H256;
pub use registry::Registry;
pub use types::{Auction, Error, Event, Kitty};
