use crate::bignum::{signed_div_floor_u64, signed_rem_u64, BigNat, SignedBig};
use crate::group::Group;
use vstd::prelude::*;

verus! {

/// A proof of knowledge of an exponent `e` with `base^e = result`, which does
/// not reveal `e`: `z = g^e`, `q = (base · g^alpha)^(floor(e / l))` and
/// `r = e mod l`, for the challenges `l` and `alpha`.
#[derive(Debug, PartialEq, Eq)]
pub struct PoKE2<T> {
    pub z: T,
    pub q: T,
    pub r: u64,
}

/// The challenge prime, derived from the public values.
pub open spec fn poke2_challenge<G: Group>(base: G, result: G, z: G) -> u64 {
    G::spec_hash_prime(seq![base.spec_digest(), result.spec_digest(), z.spec_digest()])
}

/// The second challenge, derived from the public values and the first one.
#[verifier::opaque]
pub open spec fn poke2_alpha<G: Group>(base: G, result: G, z: G) -> int {
    G::spec_hash_inputs(
        seq![
            base.spec_digest(),
            result.spec_digest(),
            z.spec_digest(),
            poke2_challenge(base, result, z),
        ],
    ) as int
}

/// `base · g^alpha`, the element that `q` is a power of.
pub open spec fn poke2_shifted<G: Group>(base: G, alpha: int) -> G {
    base.spec_op(G::spec_base().spec_pow(alpha))
}

/// The proof that [`prove_poke2`] makes for `base`, `e` and `result`.
pub open spec fn poke2_of<G: Group>(base: G, e: int, result: G) -> PoKE2<G> {
    let z = G::spec_base().spec_pow(e);
    let l = poke2_challenge(base, result, z) as int;
    let alpha = poke2_alpha(base, result, z);
    PoKE2 { z, q: poke2_shifted(base, alpha).spec_pow(e / l), r: (e % l) as u64 }
}

/// `proof` is accepted for `base` and `result`:
/// `q^l · (base · g^alpha)^r = result · z^alpha`.
pub open spec fn poke2_holds<G: Group>(base: G, result: G, proof: PoKE2<G>) -> bool {
    let l = poke2_challenge(base, result, proof.z) as int;
    let alpha = poke2_alpha(base, result, proof.z);
    proof.q.spec_pow(l).spec_op(poke2_shifted(base, alpha).spec_pow(proof.r as int))
        == result.spec_op(proof.z.spec_pow(alpha))
}

/// The two challenges `(l, alpha)` for `base`, `result` and `z`.
fn challenges<G: Group>(base: &G, result: &G, z: &G) -> (r: (u64, u64))
    ensures
        r.0 == poke2_challenge(*base, *result, *z),
        r.0 > 0,
        r.1 == poke2_alpha(*base, *result, *z),
{
    let public = [base.digest(), result.digest(), z.digest()];
    let l = G::hash_prime(&public);
    let input = [base.digest(), result.digest(), z.digest(), l];
    let alpha = G::hash_inputs(&input);
    proof {
        assert(public@ =~= seq![base.spec_digest(), result.spec_digest(), z.spec_digest()]);
        G::lemma_hash_prime_positive(public@);
        assert(input@ =~= seq![base.spec_digest(), result.spec_digest(), z.spec_digest(), l]);
        reveal(poke2_alpha);
    }
    (l, alpha)
}

/// Proves knowledge of `e` with `base^e = result`.
pub fn prove_poke2<G: Group>(base: &G, e: &SignedBig, result: &G) -> (r: PoKE2<G>)
    requires
        base.wf(),
    ensures
        r == poke2_of(*base, e.value(), *result),
        r.z.wf(),
        r.q.wf(),
{
    let g = G::base_elem();
    let z = g.exp_signed(e);
    let (l, alpha) = challenges(base, result, &z);
    let q = signed_div_floor_u64(e, l);
    let r = signed_rem_u64(e, l);
    let shifted = base.op(&g.exp(&BigNat::from_u64(alpha)));
    PoKE2 { z, q: shifted.exp_signed(&q), r }
}

/// Checks a proof of knowledge of an exponent relating `base` and `result`.
pub fn verify_poke2<G: Group>(base: &G, result: &G, proof: &PoKE2<G>) -> (r: bool)
    requires
        base.wf(),
        result.wf(),
        proof.z.wf(),
        proof.q.wf(),
    ensures
        r == poke2_holds(*base, *result, *proof),
{
    let g = G::base_elem();
    let (l, alpha) = challenges(base, result, &proof.z);
    let shifted = base.op(&g.exp(&BigNat::from_u64(alpha)));
    let lhs = proof.q.exp(&BigNat::from_u64(l)).op(&shifted.exp(&BigNat::from_u64(proof.r)));
    let rhs = result.op(&proof.z.exp(&BigNat::from_u64(alpha)));
    lhs.equals(&rhs)
}

/// Whatever the exponent, a proof that `prove_poke2` makes for a true statement
/// `base^e = result` is accepted by `verify_poke2`.
pub proof fn lemma_poke2_complete<G: Group>(base: G, e: int)
    requires
        base.wf(),
    ensures
        poke2_holds(base, base.spec_pow(e), poke2_of(base, e, base.spec_pow(e))),
{
    let g = G::spec_base();
    let result = base.spec_pow(e);
    let proof = poke2_of(base, e, result);
    let z = proof.z;
    let l = poke2_challenge(base, result, z) as int;
    let alpha = poke2_alpha(base, result, z);
    let ga = g.spec_pow(alpha);
    let h = poke2_shifted(base, alpha);
    G::lemma_hash_prime_positive(seq![base.spec_digest(), result.spec_digest(), z.spec_digest()]);
    let (q, r) = (e / l, e % l);
    G::lemma_base_wf();
    G::lemma_wf_closed(g, g, alpha);
    G::lemma_wf_closed(base, ga, 0);
    assert(q * l + r == e) by {
        vstd::arithmetic::div_mod::lemma_fundamental_div_mod(e, l);
        vstd::arithmetic::mul::lemma_mul_is_commutative(l, q);
    }
    assert(proof.r as int == r) by {
        vstd::arithmetic::div_mod::lemma_mod_bound(e, l);
        assert(r < l);
        assert(l <= u64::MAX);
    }
    assert(proof.q.spec_pow(l).spec_op(h.spec_pow(r)) == h.spec_pow(e)) by {
        G::lemma_pow_mul(h, q, l);
        G::lemma_pow_add(h, q * l, r);
    }
    assert(h.spec_pow(e) == result.spec_op(z.spec_pow(alpha))) by {
        G::lemma_pow_op(base, ga, e);
        G::lemma_pow_mul(g, alpha, e);
        G::lemma_pow_mul(g, e, alpha);
        vstd::arithmetic::mul::lemma_mul_is_commutative(alpha, e);
    }
}

} // verus!
