use accumulator::bignum::{BigNat, SignedBig};
use accumulator::group::{AdditiveGroup, Group};
use accumulator::hash::{hash_inputs, hash_prime, CHALLENGE_PRIME};
use accumulator::proofs::poke2::{prove_poke2, verify_poke2};

fn big(v: u64) -> BigNat {
    BigNat::from_u64(v)
}

fn signed(v: i64) -> SignedBig {
    SignedBig { neg: v < 0, mag: big(v.unsigned_abs()) }
}

#[test]
fn test_poke2() {
    let base = AdditiveGroup::base_elem();
    let exp = signed(20);
    let result = base.exp(&big(20));
    let proof = prove_poke2(&base, &exp, &result);
    assert!(verify_poke2(&base, &result, &proof));

    let exp_2 = signed(35);
    let result_2 = base.exp(&big(35));
    let proof_2 = prove_poke2(&base, &exp_2, &result_2);
    assert!(verify_poke2(&base, &result_2, &proof_2));
    // A proof for one triple is not accepted for another result.
    assert!(!verify_poke2(&base, &result_2, &proof));
}

#[test]
fn poke2_negative_exponent() {
    let base = AdditiveGroup::elem_of(12345);
    let result = base.exp_signed(&signed(-1000));
    let proof = prove_poke2(&base, &signed(-1000), &result);
    assert_eq!(proof.r, 1);
    assert_eq!(proof.z, AdditiveGroup::base_elem().exp_signed(&signed(-1000)));
    assert!(verify_poke2(&base, &result, &proof));
}

#[test]
fn poke2_proof_parts() {
    let base = AdditiveGroup::base_elem();
    let proof = prove_poke2(&base, &signed(20), &base.exp(&big(20)));
    assert_eq!(proof.z, base.exp(&big(20)));
    assert_eq!(proof.r, 7);
}

#[test]
fn hashes() {
    assert_eq!(hash_prime(&[1, 2, 3]), CHALLENGE_PRIME);
    assert_eq!(hash_inputs(&[]), 1469598103934665603);
    assert_eq!(hash_inputs(&[1, 2]), hash_inputs(&[1, 2]));
    assert_ne!(hash_inputs(&[1, 2]), hash_inputs(&[2, 1]));
}
