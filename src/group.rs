use vstd::arithmetic::div_mod::{
    lemma_add_mod_noop, lemma_mod_bound, lemma_mul_mod_noop_left, lemma_small_mod,
};
use vstd::arithmetic::mul::{lemma_mul_is_associative, lemma_mul_is_distributive_add};
use crate::hash::{hash_inputs, hash_inputs_spec, hash_prime, CHALLENGE_PRIME};
use crate::bignum::{big_rem_u64, signed_rem_u64, BigNat, SignedBig};
use vstd::prelude::*;

verus! {

/// An abelian group in which every element has an inverse, written
/// multiplicatively, with signed exponentiation.
///
/// The group is described by spec functions (`spec_op`, `spec_pow`, ...); the
/// executable methods compute them, and the proof methods are the group laws
/// that every implementation has to establish.
pub trait Group: Sized {
    /// Holds of the values that represent group elements.
    spec fn wf(&self) -> bool;

    /// The group operation.
    spec fn spec_op(&self, other: Self) -> Self;

    /// `self` raised to the (possibly negative) power `e`.
    spec fn spec_pow(&self, e: int) -> Self;

    /// The group's generator.
    spec fn spec_base() -> Self;

    /// The inverse of `self`.
    spec fn spec_inv(&self) -> Self;

    /// An integer that the element is hashed through.
    spec fn spec_digest(&self) -> u64;

    /// The prime challenge that the proofs derive from their public values.
    spec fn spec_hash_prime(input: Seq<u64>) -> u64;

    /// Maps the public values of a proof (as digests) to a prime challenge.
    fn hash_prime(input: &[u64]) -> (r: u64)
        ensures
            r == Self::spec_hash_prime(input@),
    ;

    /// The pseudo-random integer that the proofs derive from their public values.
    spec fn spec_hash_inputs(input: Seq<u64>) -> u64;

    /// Maps the public values of a proof (as digests) to a pseudo-random integer.
    fn hash_inputs(input: &[u64]) -> (r: u64)
        ensures
            r == Self::spec_hash_inputs(input@),
    ;

    proof fn lemma_hash_prime_positive(input: Seq<u64>)
        ensures
            Self::spec_hash_prime(input) > 0,
    ;

    fn base_elem() -> (r: Self)
        ensures
            r == Self::spec_base(),
            r.wf(),
    ;

    fn op(&self, other: &Self) -> (r: Self)
        requires
            self.wf(),
            other.wf(),
        ensures
            r == self.spec_op(*other),
            r.wf(),
    ;

    fn exp(&self, e: &BigNat) -> (r: Self)
        requires
            self.wf(),
        ensures
            r == self.spec_pow(e.value() as int),
            r.wf(),
    ;

    fn exp_signed(&self, e: &SignedBig) -> (r: Self)
        requires
            self.wf(),
        ensures
            r == self.spec_pow(e.value()),
            r.wf(),
    ;

    fn inv(&self) -> (r: Self)
        requires
            self.wf(),
        ensures
            r == self.spec_inv(),
            r.wf(),
    ;

    fn equals(&self, other: &Self) -> (r: bool)
        ensures
            r == (*self == *other),
    ;

    fn duplicate(&self) -> (r: Self)
        ensures
            r == *self,
    ;

    fn digest(&self) -> (r: u64)
        ensures
            r == self.spec_digest(),
    ;

    proof fn lemma_wf_closed(a: Self, b: Self, e: int)
        requires
            a.wf(),
            b.wf(),
        ensures
            a.spec_op(b).wf(),
            a.spec_pow(e).wf(),
            a.spec_inv().wf(),
    ;

    proof fn lemma_base_wf()
        ensures
            Self::spec_base().wf(),
    ;

    /// `a^x · a^y = a^(x + y)`
    proof fn lemma_pow_add(a: Self, x: int, y: int)
        requires
            a.wf(),
        ensures
            a.spec_pow(x).spec_op(a.spec_pow(y)) == a.spec_pow(x + y),
    ;

    /// `(a^x)^y = a^(x · y)`
    proof fn lemma_pow_mul(a: Self, x: int, y: int)
        requires
            a.wf(),
        ensures
            a.spec_pow(x).spec_pow(y) == a.spec_pow(x * y),
    ;

    /// `a^1 = a`
    proof fn lemma_pow_one(a: Self)
        requires
            a.wf(),
        ensures
            a.spec_pow(1) == a,
    ;

    /// `(a · b)^x = a^x · b^x`
    proof fn lemma_pow_op(a: Self, b: Self, x: int)
        requires
            a.wf(),
            b.wf(),
        ensures
            a.spec_op(b).spec_pow(x) == a.spec_pow(x).spec_op(b.spec_pow(x)),
    ;

    /// `a⁻¹ = a^(-1)`
    proof fn lemma_inv_pow(a: Self)
        requires
            a.wf(),
        ensures
            a.spec_inv() == a.spec_pow(-1),
    ;
}

/// The modulus of [`AdditiveGroup`]: the prime `2^61 - 1`.
pub const MODULUS: u64 = 2305843009213693951;

/// A small test group: the integers modulo [`MODULUS`] under addition, with
/// generator 1. "Raising" an element to the power `e` is multiplying it by `e`.
#[derive(Clone, Copy, Debug, PartialEq, Eq, Structural)]
pub struct AdditiveGroup {
    pub val: u64,
}

impl AdditiveGroup {
    /// The element that represents `val`, reduced modulo [`MODULUS`].
    pub fn elem_of(val: u64) -> (r: AdditiveGroup)
        ensures
            r.val == val % MODULUS,
            r.wf(),
    {
        AdditiveGroup { val: val % MODULUS }
    }

    /// `self` "raised" to `e`, given `k = e mod MODULUS`.
    fn times_reduced(&self, k: u64, e: Ghost<int>) -> (r: AdditiveGroup)
        requires
            self.wf(),
            k == e@ % (MODULUS as int),
        ensures
            r == self.spec_pow(e@),
            r.wf(),
    {
        proof {
            let (x, y) = (self.val as int, k as int);
            assert(x * y <= 0xffff_ffff_ffff_ffffint * 0xffff_ffff_ffff_ffffint) by (nonlinear_arith)
                requires
                    0 <= x <= 0xffff_ffff_ffff_ffffint,
                    0 <= y <= 0xffff_ffff_ffff_ffffint,
            ;
            vstd::arithmetic::div_mod::lemma_mul_mod_noop_right(self.val as int, e@, MODULUS as int);
            lemma_spec_of_val(self.val * e@);
        }
        let p: u128 = (self.val as u128) * (k as u128);
        AdditiveGroup { val: (p % (MODULUS as u128)) as u64 }
    }

    /// The element that represents the integer `v`.
    pub open spec fn spec_of(v: int) -> AdditiveGroup {
        AdditiveGroup { val: (v % (MODULUS as int)) as u64 }
    }
}

proof fn lemma_spec_of_val(a: int)
    ensures
        AdditiveGroup::spec_of(a).val as int == a % (MODULUS as int),
{
    lemma_mod_bound(a, MODULUS as int);
}

impl Group for AdditiveGroup {
    open spec fn wf(&self) -> bool {
        self.val < MODULUS
    }

    open spec fn spec_op(&self, other: Self) -> Self {
        AdditiveGroup::spec_of(self.val + other.val)
    }

    open spec fn spec_pow(&self, e: int) -> Self {
        AdditiveGroup::spec_of(self.val * e)
    }

    open spec fn spec_base() -> Self {
        AdditiveGroup { val: 1 }
    }

    open spec fn spec_inv(&self) -> Self {
        AdditiveGroup::spec_of(MODULUS - self.val)
    }

    open spec fn spec_digest(&self) -> u64 {
        self.val
    }

    open spec fn spec_hash_prime(input: Seq<u64>) -> u64 {
        CHALLENGE_PRIME
    }

    fn hash_prime(input: &[u64]) -> (r: u64) {
        hash_prime(input)
    }

    open spec fn spec_hash_inputs(input: Seq<u64>) -> u64 {
        hash_inputs_spec(input) as u64
    }

    fn hash_inputs(input: &[u64]) -> (r: u64) {
        hash_inputs(input)
    }

    proof fn lemma_hash_prime_positive(input: Seq<u64>) {
    }

    fn base_elem() -> (r: Self) {
        AdditiveGroup { val: 1 }
    }

    fn op(&self, other: &Self) -> (r: Self) {
        let s: u64 = self.val + other.val;
        proof {
            lemma_spec_of_val(self.val + other.val);
        }
        AdditiveGroup { val: s % MODULUS }
    }

    fn exp(&self, e: &BigNat) -> (r: Self) {
        let k = big_rem_u64(e, MODULUS);
        self.times_reduced(k, Ghost(e.value() as int))
    }

    fn exp_signed(&self, e: &SignedBig) -> (r: Self) {
        let k = signed_rem_u64(e, MODULUS);
        self.times_reduced(k, Ghost(e.value()))
    }

    fn inv(&self) -> (r: Self) {
        proof {
            lemma_spec_of_val(MODULUS - self.val);
        }
        AdditiveGroup { val: (MODULUS - self.val) % MODULUS }
    }

    fn equals(&self, other: &Self) -> (r: bool) {
        self.val == other.val
    }

    fn duplicate(&self) -> (r: Self) {
        *self
    }

    fn digest(&self) -> (r: u64) {
        self.val
    }

    proof fn lemma_wf_closed(a: Self, b: Self, e: int) {
        lemma_mod_bound(a.val + b.val, MODULUS as int);
        lemma_mod_bound(a.val * e, MODULUS as int);
        lemma_mod_bound(MODULUS - a.val, MODULUS as int);
    }

    proof fn lemma_base_wf() {
    }

    proof fn lemma_pow_add(a: Self, x: int, y: int) {
        let m = MODULUS as int;
        lemma_mod_bound(a.val * x, m);
        lemma_mod_bound(a.val * y, m);
        lemma_add_mod_noop(a.val * x, a.val * y, m);
        lemma_mul_is_distributive_add(a.val as int, x, y);
    }

    proof fn lemma_pow_mul(a: Self, x: int, y: int) {
        let m = MODULUS as int;
        lemma_mod_bound(a.val * x, m);
        lemma_mul_mod_noop_left(a.val * x, y, m);
        lemma_mul_is_associative(a.val as int, x, y);
    }

    proof fn lemma_pow_one(a: Self) {
        lemma_small_mod(a.val as nat, MODULUS as nat);
    }

    proof fn lemma_pow_op(a: Self, b: Self, x: int) {
        let m = MODULUS as int;
        lemma_mod_bound(a.val + b.val, m);
        lemma_mod_bound(a.val * x, m);
        lemma_mod_bound(b.val * x, m);
        lemma_mul_mod_noop_left(a.val + b.val, x, m);
        vstd::arithmetic::mul::lemma_mul_is_distributive_add_other_way(x, a.val as int, b.val as int);
        lemma_add_mod_noop(a.val * x, b.val * x, m);
    }

    proof fn lemma_inv_pow(a: Self) {
        let m = MODULUS as int;
        assert(m - a.val == m * 1 + a.val * -1);
        vstd::arithmetic::div_mod::lemma_mod_multiples_vanish(1, a.val * -1, m);
    }
}

} // verus!
