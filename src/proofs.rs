//! Succinct proofs about exponentiation in a group.
pub mod poe;
pub mod poke2;
