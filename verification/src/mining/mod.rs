//! Proof of work and mining.

pub mod proof_of_work;
pub mod target;
