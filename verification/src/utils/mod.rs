//! Hashing and shared constants.

pub mod bytes;
pub mod ecdsa;
pub mod hashing;
pub mod keys;

pub use hashing::double_sha256;

use vstd::prelude::*;

verus! {

/// Compact difficulty target used by the miners.
pub const DIFFICULTY: u32 = 0x1e0fffff;

} // verus!
