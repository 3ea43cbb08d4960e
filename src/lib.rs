//! Bloom filters: probabilistic set membership with no false negatives.
//!
//! `fixed` holds a filter whose size and hash count never change; `adaptive`
//! holds one that keeps a log of its items and doubles its bit array when the
//! load reaches one item per bit. `model` states what both compute.

mod bits;
mod hash;

pub mod adaptive;
pub mod error;
pub mod fixed;
pub mod model;

pub use adaptive::SeededHash;
pub use bits::MAX_BITS;
pub use error::ConstructionError;
pub use hash::{default_hash, slot, str_hash_of};
