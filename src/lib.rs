//! Minimal perfect hashing with pilots, and the query paths over it.
//!
//! A set of `n` distinct keys is mapped one to one onto `0..n`. Every key is
//! hashed, sent to a bucket, and each bucket stores one pilot byte that moves
//! its keys to free slots. Slots past `n` are sent back to the holes below
//! `n` by a remap table.

pub mod bucket_fn;
pub mod error;
pub mod hash;
pub mod laws;
pub mod pack;
pub mod persistence;
pub mod ptr_hash;
pub mod reduce;
pub mod shard;
pub mod store;
pub mod stream;
pub mod construct;

pub use error::BuildError;
pub use ptr_hash::{DefaultPtrHash, PtrHash, PtrHashParams};
pub use shard::Sharding;
