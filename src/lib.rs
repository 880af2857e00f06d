//! Cuckoo hashing over a pair of affine-modular universal hash functions.

pub mod cuckoo_hash;
pub mod layout;
pub mod wu;

pub use cuckoo_hash::{CuckooHash, CuckooHashable, HashChoice, TableError, MAX_CAPACITY, MAX_RESIZE_ATTEMPTS};
pub use wu::{WUHash, WUHashBuilder, WUHashError, DEFAULT_PRIME};
