//! Key-value state of a chain: a persistence layer that is shared between
//! states, and a cache of pending changes that each state keeps for itself.

pub mod byte_map;
pub mod bytes;
pub mod db;
pub mod error;
pub mod listing;
pub mod state;
