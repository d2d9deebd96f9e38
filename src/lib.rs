//! A cryptographic accumulator over an abelian group: a single group element
//! that commits to a set of integers, with proofs of membership and of
//! non-membership, built on proofs of exponentiation (PoE), proofs of
//! knowledge of an exponent (PoKE2) and Shamir's trick.
pub mod accumulator;
pub mod bignum;
pub mod group;
pub mod hash;
pub mod proofs;
pub mod util;
