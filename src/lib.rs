//! An index of unspent transaction outputs, kept per address in a key-value
//! store.
//!
//! - `types`: addresses, output pointers, amounts.
//! - `codec`: the store key of an address and the bytes of a list of entries.
//! - `storage`: the store the index works on, and a store held in memory.
//! - `service`: the index itself.
//! - `laws`: what a sequence of calls of the index gives.

pub mod types;
pub mod codec;
pub mod storage;
pub mod service;
pub mod laws;
