use accumulator::accumulator::{
    add, delete, prove_membership, prove_nonmembership, setup, shamir_trick, verify_membership,
    verify_nonmembership, AccError,
};
use accumulator::bignum::{BigNat, SignedBig};
use accumulator::group::{AdditiveGroup, Group, MODULUS};
use accumulator::proofs::poe::verify_poe;
use accumulator::util::{bezout, product};
use num_bigint::{BigInt, BigUint, Sign};

fn big(v: u64) -> BigNat {
    BigNat::from_u64(v)
}

fn bigs(vs: &[u64]) -> Vec<BigNat> {
    vs.iter().map(|v| big(*v)).collect()
}

fn from_biguint(u: &BigUint) -> BigNat {
    BigNat { limbs: u.to_u32_digits() }
}

fn to_biguint(b: &BigNat) -> BigUint {
    BigUint::from_slice(&b.limbs)
}

fn to_bigint(s: &SignedBig) -> BigInt {
    BigInt::from_slice(if s.neg { Sign::Minus } else { Sign::Plus }, &s.mag.limbs)
}

fn signed(v: i64) -> SignedBig {
    SignedBig { neg: v < 0, mag: big(v.unsigned_abs()) }
}

fn g() -> AdditiveGroup {
    AdditiveGroup::base_elem()
}

fn init_acc() -> AdditiveGroup {
    setup::<AdditiveGroup>().exp(&product(&bigs(&[41, 67, 89])))
}

#[test]
fn test_product() {
    let elems = bigs(&[2, 3, 4, 5, 6, 7]);
    assert!(to_biguint(&product(&elems)) == BigUint::from(5040u32));
}

#[test]
fn test_shamir_trick() {
    let (x, y, z) = (13u64, 17u64, 19u64);
    let xth_root = g().exp(&product(&bigs(&[y, z])));
    let yth_root = g().exp(&product(&bigs(&[x, z])));
    let xyth_root = g().exp(&big(z));
    assert!(shamir_trick(&xth_root, &yth_root, &big(x), &big(y)) == Some(xyth_root));
}

#[test]
fn test_shamir_trick_failure() {
    let (x, y, z) = (7u64, 14u64, 19u64);
    let xth_root = g().exp(&product(&bigs(&[y, z])));
    let yth_root = g().exp(&product(&bigs(&[x, z])));
    assert!(shamir_trick(&xth_root, &yth_root, &big(x), &big(y)) == None);
}

#[test]
fn test_add() {
    let acc = init_acc();
    let new_elems = bigs(&[5, 7, 11]);
    let (new_acc, poe) = add(&acc, &new_elems);
    let expected_acc = g().exp(&big(94_125_955));
    assert!(new_acc == expected_acc);
    assert!(verify_poe(&acc, &big(385), &new_acc, &poe));
}

#[test]
fn test_delete() {
    let acc = init_acc();
    let y_witness = g().exp(&big(3649));
    let z_witness = g().exp(&big(2747));
    let (new_acc, poe) =
        delete(&acc, &[(big(67), y_witness), (big(89), z_witness)]).expect("valid delete expected");
    let expected_acc = g().exp(&big(41));
    assert!(new_acc == expected_acc);
    assert!(verify_poe(&new_acc, &big(5963), &acc, &poe));
}

#[should_panic(expected = "BadWitness")]
#[test]
fn test_delete_bad_witness() {
    let acc = init_acc();
    let y_witness = g().exp(&big(3648));
    let z_witness = g().exp(&big(2746));
    delete(&acc, &[(big(67), y_witness), (big(89), z_witness)]).unwrap();
}

#[test]
fn test_prove_nonmembership() {
    let acc = init_acc();
    let acc_set = bigs(&[41, 67, 89]);
    let elems = bigs(&[5, 7, 11]);
    let (d, v, gv_inverse, poke2_proof, poe_proof) =
        prove_nonmembership(&acc, &acc_set, &elems).expect("valid proof expected");
    assert!(verify_nonmembership(&acc, &elems, &d, &v, &gv_inverse, &poke2_proof, &poe_proof));
}

#[should_panic(expected = "InputsNotCoPrime")]
#[test]
fn test_prove_nonmembership_failure() {
    let acc = init_acc();
    let acc_set = bigs(&[41, 67, 89]);
    let elems = bigs(&[41, 7, 11]);
    prove_nonmembership(&acc, &acc_set, &elems).unwrap();
}

#[test]
fn add_twice_composes() {
    let acc0 = setup::<AdditiveGroup>();
    let (acc1, _) = add(&acc0, &bigs(&[41, 67, 89]));
    let (acc2, poe) = add(&acc1, &bigs(&[5, 7, 11]));
    assert_eq!(acc2, g().exp(&big(41 * 67 * 89 * 5 * 7 * 11)));
    assert!(verify_poe(&acc1, &big(385), &acc2, &poe));
    assert!(!verify_poe(&acc1, &big(384), &acc2, &poe));
}

#[test]
fn delete_nothing_keeps_accumulator() {
    let acc = init_acc();
    let (same, poe) = delete(&acc, &[]).unwrap();
    assert_eq!(same, acc);
    // acc^0 is the identity, so the statement acc^0 = acc holds only there.
    assert!(!verify_poe(&same, &big(0), &acc, &poe));
    let identity = AdditiveGroup::elem_of(0);
    let (same_identity, poe_identity) = delete(&identity, &[]).unwrap();
    assert_eq!(same_identity, identity);
    assert!(verify_poe(&identity, &big(0), &identity, &poe_identity));
}

#[test]
fn delete_single_pair_returns_witness() {
    let acc = init_acc();
    let w = g().exp(&big(41 * 89));
    let (new_acc, poe) = delete(&acc, &[(big(67), w)]).unwrap();
    assert_eq!(new_acc, w);
    assert!(verify_poe(&new_acc, &big(67), &acc, &poe));
}

#[test]
fn delete_repeated_element_is_not_coprime() {
    let acc = init_acc();
    let w = g().exp(&big(41 * 89));
    assert_eq!(delete(&acc, &[(big(67), w), (big(67), w)]), Err(AccError::InputsNotCoPrime));
}

#[test]
fn membership_round_trip() {
    let acc = init_acc();
    let y_witness = g().exp(&big(3649));
    let z_witness = g().exp(&big(2747));
    let (rest, poe) = prove_membership(&acc, &[(big(67), y_witness), (big(89), z_witness)]).unwrap();
    assert!(verify_membership(&rest, &bigs(&[67, 89]), &acc, &poe));
    assert!(!verify_membership(&rest, &bigs(&[67, 83]), &acc, &poe));
}

#[test]
fn nonmembership_rejects_other_elements() {
    let acc = init_acc();
    let (d, v, gv_inverse, poke2_proof, poe_proof) =
        prove_nonmembership(&acc, &bigs(&[41, 67, 89]), &bigs(&[5, 7, 11])).unwrap();
    assert!(!verify_nonmembership(&acc, &bigs(&[5, 7, 13]), &d, &v, &gv_inverse, &poke2_proof, &poe_proof));
}

#[test]
fn bezout_coefficients() {
    let (a, b, gcd) = bezout(&big(240), &big(46));
    assert_eq!(to_biguint(&gcd), BigUint::from(2u32));
    assert_eq!(to_bigint(&a) * 240 + to_bigint(&b) * 46, BigInt::from(2));
    let (a, b, gcd) = bezout(&big(13), &big(17));
    assert_eq!(to_biguint(&gcd), BigUint::from(1u32));
    assert_eq!(to_bigint(&a) * 13 + to_bigint(&b) * 17, BigInt::from(1));
}

#[test]
fn signed_exponent_inverts() {
    let five = AdditiveGroup::elem_of(5);
    assert_eq!(five.exp_signed(&signed(-1)), AdditiveGroup::elem_of(MODULUS - 5));
    assert_eq!(five.exp_signed(&signed(-1)), five.inv());
    assert_eq!(five.exp_signed(&signed(-3)).op(&five.exp(&big(3))), AdditiveGroup::elem_of(0));
}

#[test]
fn product_of_large_elements() {
    let x = (BigUint::from(1u32) << 89usize) - 1u32;
    let y = (BigUint::from(1u32) << 107usize) - 1u32;
    let p = product(&[from_biguint(&x), from_biguint(&y), big(41)]);
    assert_eq!(to_biguint(&p), &x * &y * 41u32);
}

#[test]
fn large_elements_delete_and_nonmembership() {
    let x = (BigUint::from(1u32) << 89usize) - 1u32;
    let y = (BigUint::from(1u32) << 107usize) - 1u32;
    let acc = g().exp(&from_biguint(&(&x * &y * 41u32)));
    let x_witness = g().exp(&from_biguint(&(&y * 41u32)));
    let y_witness = g().exp(&from_biguint(&(&x * 41u32)));
    let (new_acc, poe) =
        delete(&acc, &[(from_biguint(&x), x_witness), (from_biguint(&y), y_witness)]).unwrap();
    assert_eq!(new_acc, g().exp(&big(41)));
    assert!(verify_poe(&new_acc, &from_biguint(&(&x * &y)), &acc, &poe));

    let acc_set = [from_biguint(&x), from_biguint(&y), big(41)];
    let others = [big(5), big(7)];
    let (d, v, gv_inverse, poke2_proof, poe_proof) =
        prove_nonmembership(&acc, &acc_set, &others).unwrap();
    assert!(verify_nonmembership(&acc, &others, &d, &v, &gv_inverse, &poke2_proof, &poe_proof));
    let members = [from_biguint(&y)];
    assert_eq!(
        prove_nonmembership(&acc, &acc_set, &members).map(|_| ()),
        Err(AccError::InputsNotCoPrime)
    );
}
