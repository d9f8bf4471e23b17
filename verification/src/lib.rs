//! Read-access layer of a token ledger kept in an embedded, transactional,
//! sorted key-value store.
//!
//! Domain records (balances, token metadata, action receipts, transferable
//! logs) are persisted as length-prefixed binary values under composite,
//! lexicographically ordered keys. The crate proves the two facts the whole
//! query surface rests on: the composite-key scheme turns "all records of one
//! owner" into one contiguous key range that no other owner's keys can enter,
//! and the record codec loses nothing on a round trip.

pub mod codec;
pub mod keys;
pub mod order;
pub mod reader;
pub mod records;
pub mod store;

