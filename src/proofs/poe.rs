use crate::bignum::{big_div_u64, big_rem_u64, BigNat};
use crate::group::Group;
use vstd::prelude::*;

verus! {

/// A proof of exponentiation: a certificate that `base^exp = result`, checked
/// with one exponentiation by the challenge prime.
#[derive(Debug, PartialEq, Eq)]
pub struct PoE<T> {
    pub q: T,
}

/// The challenge prime of a proof about `base` and `result`.
pub open spec fn poe_challenge<G: Group>(base: G, result: G) -> int {
    G::spec_hash_prime(seq![base.spec_digest(), result.spec_digest()]) as int
}

/// The proof that [`prove_poe`] makes for `base^exp = result`:
/// `q = base^(floor(exp / l))`.
pub open spec fn poe_of<G: Group>(base: G, exp: int, result: G) -> PoE<G> {
    PoE { q: base.spec_pow(exp / poe_challenge(base, result)) }
}

/// `proof` certifies `base^exp = result`: `q^l · base^(exp mod l) = result`.
pub open spec fn poe_holds<G: Group>(base: G, exp: int, result: G, proof: PoE<G>) -> bool {
    let l = poe_challenge(base, result);
    proof.q.spec_pow(l).spec_op(base.spec_pow(exp % l)) == result
}

/// Proves `base^exp = result`.
pub fn prove_poe<G: Group>(base: &G, exp: &BigNat, result: &G) -> (r: PoE<G>)
    requires
        base.wf(),
    ensures
        r == poe_of(*base, exp.value() as int, *result),
        r.q.wf(),
{
    let input = [base.digest(), result.digest()];
    let l = G::hash_prime(&input);
    proof {
        assert(input@ =~= seq![base.spec_digest(), result.spec_digest()]);
        G::lemma_hash_prime_positive(input@);
    }
    PoE { q: base.exp(&big_div_u64(exp, l)) }
}

/// Checks a proof that `base^exp = result`.
pub fn verify_poe<G: Group>(base: &G, exp: &BigNat, result: &G, proof: &PoE<G>) -> (r: bool)
    requires
        base.wf(),
        proof.q.wf(),
    ensures
        r == poe_holds(*base, exp.value() as int, *result, *proof),
{
    let input = [base.digest(), result.digest()];
    let l = G::hash_prime(&input);
    proof {
        assert(input@ =~= seq![base.spec_digest(), result.spec_digest()]);
        G::lemma_hash_prime_positive(input@);
    }
    let rem = big_rem_u64(exp, l);
    let lhs = proof.q.exp(&BigNat::from_u64(l)).op(&base.exp(&BigNat::from_u64(rem)));
    lhs.equals(result)
}

/// A proof that `prove_poe` makes for a true statement `base^exp = result` is
/// accepted by `verify_poe`.
pub proof fn lemma_poe_complete<G: Group>(base: G, exp: int)
    requires
        base.wf(),
    ensures
        poe_holds(base, exp, base.spec_pow(exp), poe_of(base, exp, base.spec_pow(exp))),
{
    let result = base.spec_pow(exp);
    let l = poe_challenge(base, result);
    G::lemma_hash_prime_positive(seq![base.spec_digest(), result.spec_digest()]);
    G::lemma_pow_mul(base, exp / l, l);
    G::lemma_pow_add(base, (exp / l) * l, exp % l);
    vstd::arithmetic::div_mod::lemma_fundamental_div_mod(exp, l);
    vstd::arithmetic::mul::lemma_mul_is_commutative(l, exp / l);
}

} // verus!
