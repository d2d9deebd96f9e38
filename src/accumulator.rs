use crate::group::Group;
use crate::proofs::poe::{lemma_poe_complete, poe_holds, poe_of, prove_poe, verify_poe, PoE};
use crate::proofs::poke2::{lemma_poke2_complete, poke2_holds, poke2_of, prove_poke2, verify_poke2, PoKE2};
use crate::bignum::{big_is_one, big_mul, BigNat};
use crate::util::{bezout, combination, coprime, product, product_spec, values_of};
use vstd::prelude::*;

verus! {

/// Why an accumulator operation failed.
#[derive(Debug, Clone, Copy, PartialEq, Eq, Structural)]
pub enum AccError {
    /// A witness raised to its element is not the accumulator.
    BadWitness,
    /// Two exponents that had to be co-prime share a factor.
    InputsNotCoPrime,
}

/// `r` is a `y`-th root of `xth_root` and an `x`-th root of `yth_root`.
pub open spec fn is_joint_root<G: Group>(r: G, xth_root: G, yth_root: G, x: int, y: int) -> bool {
    r.wf() && r.spec_pow(y) == xth_root && r.spec_pow(x) == yth_root
}

/// The element that Shamir's trick yields: the one joint root (when `x` and
/// `y` are co-prime there is at most one).
pub open spec fn joint_root<G: Group>(xth_root: G, yth_root: G, x: int, y: int) -> G {
    choose|r: G| is_joint_root(r, xth_root, yth_root, x, y)
}

/// What [`shamir_trick`] returns: a joint root when both roots are roots of
/// one value and the exponents are co-prime, and nothing otherwise.
pub open spec fn shamir_result<G: Group>(xth_root: G, yth_root: G, x: int, y: int) -> Option<G> {
    if xth_root.spec_pow(x) == yth_root.spec_pow(y) && coprime(x, y) {
        Some(joint_root(xth_root, yth_root, x, y))
    } else {
        None
    }
}

/// Two elements that have the same `x`-th and the same `y`-th power, with
/// `x` and `y` co-prime, are equal.
pub proof fn lemma_root_unique<G: Group>(r1: G, r2: G, x: int, y: int)
    requires
        r1.wf(),
        r2.wf(),
        r1.spec_pow(x) == r2.spec_pow(x),
        r1.spec_pow(y) == r2.spec_pow(y),
        coprime(x, y),
    ensures
        r1 == r2,
{
    let (a, b) = choose|a: int, b: int| #[trigger] combination(a, b, x, y) == 1;
    assert forall|r: G| #![auto] r.wf() implies r == r.spec_pow(x).spec_pow(a).spec_op(
        r.spec_pow(y).spec_pow(b),
    ) by {
        G::lemma_pow_one(r);
        G::lemma_pow_add(r, x * a, y * b);
        G::lemma_pow_mul(r, x, a);
        G::lemma_pow_mul(r, y, b);
        assert(x * a + y * b == 1) by (nonlinear_arith)
            requires
                a * x + b * y == 1,
        ;
    }
}

/// Shamir's trick: from an `x`-th root and a `y`-th root of one value, with
/// `x` and `y` co-prime, the `(x·y)`-th root of that value.
pub fn shamir_trick<G: Group>(xth_root: &G, yth_root: &G, x: &BigNat, y: &BigNat) -> (r:
    Option<G>)
    requires
        xth_root.wf(),
        yth_root.wf(),
    ensures
        r == shamir_result(*xth_root, *yth_root, x.value() as int, y.value() as int),
        r matches Some(v) ==> is_joint_root(
            v,
            *xth_root,
            *yth_root,
            x.value() as int,
            y.value() as int,
        ),
{
    if !xth_root.exp(x).equals(&yth_root.exp(y)) {
        return None;
    }
    let (a, b, gcd) = bezout(x, y);
    if !big_is_one(&gcd) {
        return None;
    }
    let v = xth_root.exp_signed(&b).op(&yth_root.exp_signed(&a));
    proof {
        let (xv, yv) = (x.value() as int, y.value() as int);
        lemma_shamir_root(*xth_root, *yth_root, xv, yv, a.value(), b.value());
        lemma_root_unique(v, joint_root(*xth_root, *yth_root, xv, yv), xv, yv);
    }
    Some(v)
}

proof fn lemma_shamir_root<G: Group>(xr: G, yr: G, x: int, y: int, a: int, b: int)
    requires
        xr.wf(),
        yr.wf(),
        xr.spec_pow(x) == yr.spec_pow(y),
        a * x + b * y == 1,
    ensures
        is_joint_root(xr.spec_pow(b).spec_op(yr.spec_pow(a)), xr, yr, x, y),
{
    let v = xr.spec_pow(b).spec_op(yr.spec_pow(a));
    G::lemma_wf_closed(xr, yr, b);
    G::lemma_wf_closed(yr, xr, a);
    G::lemma_wf_closed(xr.spec_pow(b), yr.spec_pow(a), 0);
    assert(v.spec_pow(y) == xr) by {
        G::lemma_pow_op(xr.spec_pow(b), yr.spec_pow(a), y);
        G::lemma_pow_mul(xr, b, y);
        G::lemma_pow_mul(yr, a, y);
        G::lemma_pow_mul(yr, y, a);
        G::lemma_pow_mul(xr, x, a);
        G::lemma_pow_add(xr, b * y, x * a);
        G::lemma_pow_one(xr);
        assert(a * y == y * a && b * y + x * a == 1) by (nonlinear_arith)
            requires
                a * x + b * y == 1,
        ;
    }
    assert(v.spec_pow(x) == yr) by {
        G::lemma_pow_op(xr.spec_pow(b), yr.spec_pow(a), x);
        G::lemma_pow_mul(xr, b, x);
        G::lemma_pow_mul(yr, a, x);
        G::lemma_pow_mul(xr, x, b);
        G::lemma_pow_mul(yr, y, b);
        G::lemma_pow_add(yr, y * b, a * x);
        G::lemma_pow_one(yr);
        assert(b * x == x * b && y * b + a * x == 1) by (nonlinear_arith)
            requires
                a * x + b * y == 1,
        ;
    }
}

/// For co-prime `x` and `y`, Shamir's trick recovers `w` from its `y`-th and
/// `x`-th powers.
pub proof fn lemma_shamir_trick_recovers<G: Group>(w: G, x: int, y: int)
    requires
        w.wf(),
        coprime(x, y),
    ensures
        shamir_result(w.spec_pow(y), w.spec_pow(x), x, y) == Some(w),
{
    G::lemma_pow_mul(w, y, x);
    G::lemma_pow_mul(w, x, y);
    vstd::arithmetic::mul::lemma_mul_is_commutative(x, y);
    let j = joint_root(w.spec_pow(y), w.spec_pow(x), x, y);
    assert(is_joint_root(w, w.spec_pow(y), w.spec_pow(x), x, y));
    lemma_root_unique(w, j, x, y);
}

/// The elements of a list of (element, witness) pairs.
pub open spec fn elems_of<G>(ews: Seq<(BigNat, G)>) -> Seq<nat> {
    ews.map_values(|p: (BigNat, G)| p.0.value())
}

/// The running accumulator that [`delete`] reaches over the non-empty list
/// `ews`, scanned from left to right: it starts from the first witness, and
/// each later pair must hold a valid witness (else `BadWitness`) that Shamir's
/// trick combines with the running value (else `InputsNotCoPrime`).
pub open spec fn delete_scan<G: Group>(acc: G, ews: Seq<(BigNat, G)>) -> Result<G, AccError>
    decreases ews.len(),
{
    if ews.len() <= 1 {
        Ok(ews[0].1)
    } else {
        match delete_scan(acc, ews.drop_last()) {
            Err(e) => Err(e),
            Ok(r) => {
                let (e, w) = ews.last();
                if w.spec_pow(e.value() as int) != acc {
                    Err(AccError::BadWitness)
                } else {
                    match shamir_result(
                        r,
                        w,
                        product_spec(elems_of(ews.drop_last())) as int,
                        e.value() as int,
                    ) {
                        None => Err(AccError::InputsNotCoPrime),
                        Some(n) => Ok(n),
                    }
                }
            },
        }
    }
}

/// What [`delete`] returns for `acc` and `ews`.
pub open spec fn delete_result<G: Group>(acc: G, ews: Seq<(BigNat, G)>) -> Result<
    (G, PoE<G>),
    AccError,
> {
    if ews.len() == 0 {
        Ok((acc, poe_of(acc, 0, acc)))
    } else {
        match delete_scan(acc, ews) {
            Err(e) => Err(e),
            Ok(n) => Ok((n, poe_of(n, product_spec(elems_of(ews)) as int, acc))),
        }
    }
}

/// The initial accumulator, for the empty set: the group's generator.
pub fn setup<G: Group>() -> (r: G)
    ensures
        r == G::spec_base(),
        r.wf(),
{
    G::base_elem()
}

/// Adds `elems` to the accumulator `acc`: the new accumulator is `acc` raised
/// to the product of `elems`, with a proof of that exponentiation.
pub fn add<G: Group>(acc: &G, elems: &[BigNat]) -> (r: (G, PoE<G>))
    requires
        acc.wf(),
    ensures
        r.0 == acc.spec_pow(product_spec(values_of(elems@)) as int),
        r.1 == poe_of(*acc, product_spec(values_of(elems@)) as int, r.0),
        r.0.wf(),
        r.1.q.wf(),
{
    let x = product(elems);
    let new_acc = acc.exp(&x);
    let poe_proof = prove_poe(acc, &x, &new_acc);
    (new_acc, poe_proof)
}

proof fn lemma_elems_prefix<G>(ews: Seq<(BigNat, G)>, i: int)
    requires
        0 <= i < ews.len(),
    ensures
        elems_of(ews.take(i + 1)).drop_last() == elems_of(ews.take(i)),
        elems_of(ews.take(i + 1)).last() == ews[i].0.value(),
        ews.take(i + 1).drop_last() == ews.take(i),
        ews.take(i + 1).last() == ews[i],
{
    assert(elems_of(ews.take(i + 1)).drop_last() =~= elems_of(ews.take(i)));
    assert(ews.take(i + 1).drop_last() =~= ews.take(i));
}

proof fn lemma_scan_err_persists<G: Group>(acc: G, ews: Seq<(BigNat, G)>, i: int)
    requires
        1 <= i <= ews.len(),
        delete_scan(acc, ews.take(i)) is Err,
    ensures
        delete_scan(acc, ews) == delete_scan(acc, ews.take(i)),
    decreases ews.len(),
{
    if i == ews.len() {
        assert(ews.take(i) == ews);
    } else {
        assert(ews.drop_last().take(i) == ews.take(i));
        lemma_scan_err_persists(acc, ews.drop_last(), i);
    }
}

/// Removes the elements of `elem_witnesses` from the accumulator `acc`; each
/// pair holds an element and a witness for it. Returns the new accumulator and
/// a proof that raising it to the product of the removed elements gives `acc`.
pub fn delete<G: Group>(acc: &G, elem_witnesses: &[(BigNat, G)]) -> (r: Result<
    (G, PoE<G>),
    AccError,
>)
    requires
        acc.wf(),
        forall|i: int| 0 <= i < elem_witnesses@.len() ==> (#[trigger] elem_witnesses@[i]).1.wf(),
    ensures
        r == delete_result(*acc, elem_witnesses@),
        r matches Ok(p) ==> p.0.wf() && p.1.q.wf(),
{
    let ghost ews = elem_witnesses@;
    if elem_witnesses.len() == 0 {
        let poe_proof = prove_poe(acc, &BigNat::from_u64(0), acc);
        return Ok((acc.duplicate(), poe_proof));
    }
    let mut elem_aggregate = elem_witnesses[0].0.duplicate();
    let mut acc_next: G = elem_witnesses[0].1.duplicate();
    proof {
        assert(elems_of(ews.take(1)) =~= seq![ews[0].0.value()]);
        assert(seq![ews[0].0.value()].drop_last() =~= Seq::<nat>::empty());
        reveal_with_fuel(product_spec, 2);
    }
    let mut i: usize = 1;
    while i < elem_witnesses.len()
        invariant
            ews == elem_witnesses@,
            1 <= i <= ews.len(),
            acc.wf(),
            forall|k: int| 0 <= k < ews.len() ==> (#[trigger] ews[k]).1.wf(),
            acc_next.wf(),
            delete_scan(*acc, ews.take(i as int)) == Ok::<G, AccError>(acc_next),
            elem_aggregate.value() == product_spec(elems_of(ews.take(i as int))),
        decreases ews.len() - i,
    {
        let pair = &elem_witnesses[i];
        proof {
            lemma_elems_prefix(ews, i as int);
            assert(ews.take(i + 1).len() > 1);
        }
        if !pair.1.exp(&pair.0).equals(acc) {
            proof {
                lemma_scan_err_persists(*acc, ews, i + 1);
            }
            return Err(AccError::BadWitness);
        }
        match shamir_trick(&acc_next, &pair.1, &elem_aggregate, &pair.0) {
            Some(v) => acc_next = v,
            None => {
                proof {
                    lemma_scan_err_persists(*acc, ews, i + 1);
                }
                return Err(AccError::InputsNotCoPrime);
            },
        }
        elem_aggregate = big_mul(&elem_aggregate, &pair.0);
        i = i + 1;
    }
    proof {
        assert(ews.take(i as int) == ews);
    }
    let poe_proof = prove_poe(&acc_next, &elem_aggregate, acc);
    Ok((acc_next, poe_proof))
}

/// Proves that the elements of `elem_witnesses` are in the accumulator `acc`;
/// the same computation as [`delete`]. The returned accumulator is a witness
/// for the elements that remain.
pub fn prove_membership<G: Group>(acc: &G, elem_witnesses: &[(BigNat, G)]) -> (r: Result<
    (G, PoE<G>),
    AccError,
>)
    requires
        acc.wf(),
        forall|i: int| 0 <= i < elem_witnesses@.len() ==> (#[trigger] elem_witnesses@[i]).1.wf(),
    ensures
        r == delete_result(*acc, elem_witnesses@),
        r matches Ok(p) ==> p.0.wf() && p.1.q.wf(),
{
    delete(acc, elem_witnesses)
}

/// Checks the proof from [`prove_membership`] that `witness` raised to the
/// product of `elems` is `result`.
pub fn verify_membership<G: Group>(
    witness: &G,
    elems: &[BigNat],
    result: &G,
    proof: &PoE<G>,
) -> (r: bool)
    requires
        witness.wf(),
        proof.q.wf(),
    ensures
        r == poe_holds(*witness, product_spec(values_of(elems@)) as int, *result, *proof),
{
    let exp = product(elems);
    verify_poe(witness, &exp, result, proof)
}

/// The values of a non-membership proof for the accumulator `acc` and an
/// element product `x`, made from Bézout coefficients `a`, `b`:
/// `(d, v, gv_inverse, poke2_proof, poe_proof)` with `d = g^a`, `v = acc^b`
/// and `gv_inverse = g · v⁻¹`.
pub open spec fn nonmembership_of<G: Group>(acc: G, x: int, a: int, b: int) -> (
    G,
    G,
    G,
    PoKE2<G>,
    PoE<G>,
) {
    let g = G::spec_base();
    let d = g.spec_pow(a);
    let v = acc.spec_pow(b);
    let gv_inverse = g.spec_op(v.spec_inv());
    (d, v, gv_inverse, poke2_of(acc, b, v), poe_of(d, x, gv_inverse))
}

/// The checks of [`verify_nonmembership`]: the PoKE2 for `acc` and `v`, and
/// the PoE of `d^x = gv_inverse`.
pub open spec fn nonmembership_holds<G: Group>(
    acc: G,
    x: int,
    d: G,
    v: G,
    gv_inverse: G,
    poke2_proof: PoKE2<G>,
    poe_proof: PoE<G>,
) -> bool {
    poke2_holds(acc, v, poke2_proof) && poe_holds(d, x, gv_inverse, poe_proof)
}

/// Proves that none of `elems` is among `acc_set`, the elements that `acc`
/// commits to: fails with `InputsNotCoPrime` exactly when the product of
/// `elems` and the product of `acc_set` are not co-prime.
pub fn prove_nonmembership<G: Group>(acc: &G, acc_set: &[BigNat], elems: &[BigNat]) -> (r: Result<
    (G, G, G, PoKE2<G>, PoE<G>),
    AccError,
>)
    requires
        acc.wf(),
    ensures
        r is Ok <==> coprime(
            product_spec(values_of(elems@)) as int,
            product_spec(values_of(acc_set@)) as int,
        ),
        r is Err ==> r == Err::<(G, G, G, PoKE2<G>, PoE<G>), AccError>(AccError::InputsNotCoPrime),
        r matches Ok(t) ==> exists|a: int, b: int|
            #![trigger combination(
                a,
                b,
                product_spec(values_of(elems@)) as int,
                product_spec(values_of(acc_set@)) as int,
            )]
            combination(
                a,
                b,
                product_spec(values_of(elems@)) as int,
                product_spec(values_of(acc_set@)) as int,
            ) == 1 && t == nonmembership_of(*acc, product_spec(values_of(elems@)) as int, a, b),
        r matches Ok(t) ==> t.0.wf() && t.1.wf() && t.2.wf() && t.3.z.wf() && t.3.q.wf()
            && t.4.q.wf(),
{
    let x = product(elems);
    let s = product(acc_set);
    let (a, b, gcd) = bezout(&x, &s);
    if !big_is_one(&gcd) {
        return Err(AccError::InputsNotCoPrime);
    }
    let g = G::base_elem();
    let d = g.exp_signed(&a);
    let v = acc.exp_signed(&b);
    let gv_inverse = g.op(&v.inv());
    let poke2_proof = prove_poke2(acc, &b, &v);
    let poe_proof = prove_poe(&d, &x, &gv_inverse);
    proof {
        assert(combination(a.value(), b.value(), x.value() as int, s.value() as int) == 1);
    }
    Ok((d, v, gv_inverse, poke2_proof, poe_proof))
}

/// Checks the proofs returned by [`prove_nonmembership`].
pub fn verify_nonmembership<G: Group>(
    acc: &G,
    elems: &[BigNat],
    d: &G,
    v: &G,
    gv_inverse: &G,
    poke2_proof: &PoKE2<G>,
    poe_proof: &PoE<G>,
) -> (r: bool)
    requires
        acc.wf(),
        d.wf(),
        v.wf(),
        poke2_proof.z.wf(),
        poke2_proof.q.wf(),
        poe_proof.q.wf(),
    ensures
        r == nonmembership_holds(
            *acc,
            product_spec(values_of(elems@)) as int,
            *d,
            *v,
            *gv_inverse,
            *poke2_proof,
            *poe_proof,
        ),
{
    let x = product(elems);
    verify_poke2(acc, v, poke2_proof) && verify_poe(d, &x, gv_inverse, poe_proof)
}

/// The product of two lists joined is the product of their products.
pub proof fn lemma_product_concat(first: Seq<nat>, second: Seq<nat>)
    ensures
        product_spec(first + second) == product_spec(first) * product_spec(second),
    decreases second.len(),
{
    if second.len() == 0 {
        assert(first + second =~= first);
        assert(product_spec(second) == 1);
        assert(product_spec(first) * 1 == product_spec(first));
    } else {
        lemma_product_concat(first, second.drop_last());
        assert((first + second).drop_last() =~= first + second.drop_last());
        let (p, q, x) = (product_spec(first), product_spec(second.drop_last()), second.last());
        assert((first + second).last() == x);
        assert(product_spec(first + second) == product_spec(first + second.drop_last()) * x);
        assert(product_spec(second) == q * x);
        assert(product_spec(first + second.drop_last()) == p * q);
        assert(p * q * x == p * (q * x)) by (nonlinear_arith);
    }
}

/// Adding two lists in turn raises the accumulator to the product of all their
/// elements, as adding the joined list at once does, and the proof returned by
/// the second addition is accepted for the accumulator before it, the second
/// product and the accumulator after it.
pub proof fn lemma_add_twice<G: Group>(acc: G, first: Seq<nat>, second: Seq<nat>)
    requires
        acc.wf(),
    ensures
        ({
            let acc1 = acc.spec_pow(product_spec(first) as int);
            let acc2 = acc1.spec_pow(product_spec(second) as int);
            &&& acc2 == acc.spec_pow(product_spec(first + second) as int)
            &&& poe_holds(
                acc1,
                product_spec(second) as int,
                acc2,
                poe_of(acc1, product_spec(second) as int, acc2),
            )
        }),
{
    let acc1 = acc.spec_pow(product_spec(first) as int);
    G::lemma_pow_mul(acc, product_spec(first) as int, product_spec(second) as int);
    lemma_product_concat(first, second);
    G::lemma_wf_closed(acc, acc, product_spec(first) as int);
    lemma_poe_complete(acc1, product_spec(second) as int);
}

/// When the first witness given to [`delete`] is valid and the deletion
/// succeeds, the new accumulator raised to the product of the removed elements
/// is the old one, and the returned proof is accepted for that statement.
pub proof fn lemma_delete_yields_root<G: Group>(acc: G, ews: Seq<(BigNat, G)>)
    requires
        acc.wf(),
        ews.len() > 0,
        forall|i: int| 0 <= i < ews.len() ==> (#[trigger] ews[i]).1.wf(),
        ews[0].1.spec_pow(ews[0].0.value() as int) == acc,
        delete_result(acc, ews) is Ok,
    ensures
        delete_result(acc, ews) matches Ok(p) && p.0.spec_pow(product_spec(elems_of(ews)) as int)
            == acc && poe_holds(p.0, product_spec(elems_of(ews)) as int, acc, p.1),
{
    lemma_scan_root(acc, ews);
    let n = delete_scan(acc, ews)->Ok_0;
    lemma_poe_complete(n, product_spec(elems_of(ews)) as int);
}

proof fn lemma_scan_root<G: Group>(acc: G, ews: Seq<(BigNat, G)>)
    requires
        acc.wf(),
        ews.len() > 0,
        forall|i: int| 0 <= i < ews.len() ==> (#[trigger] ews[i]).1.wf(),
        ews[0].1.spec_pow(ews[0].0.value() as int) == acc,
        delete_scan(acc, ews) is Ok,
    ensures
        delete_scan(acc, ews) matches Ok(n) && n.wf() && n.spec_pow(
            product_spec(elems_of(ews)) as int,
        ) == acc,
    decreases ews.len(),
{
    if ews.len() == 1 {
        let v = ews[0].0.value();
        assert(elems_of(ews) =~= seq![v]);
        assert(seq![v].drop_last() =~= Seq::<nat>::empty());
        reveal_with_fuel(product_spec, 2);
        assert(product_spec(seq![v]) == 1 * v);
        assert(product_spec(elems_of(ews)) == v);
    } else {
        let prev = ews.drop_last();
        assert(prev[0] == ews[0]);
        assert forall|i: int| 0 <= i < prev.len() implies (#[trigger] prev[i]).1.wf() by {
            assert(prev[i] == ews[i]);
        }
        lemma_scan_root(acc, prev);
        let r = delete_scan(acc, prev)->Ok_0;
        let (e, w) = ews.last();
        let ev = e.value() as int;
        let x = product_spec(elems_of(prev)) as int;
        let n = joint_root(r, w, x, ev);
        assert(elems_of(ews).drop_last() =~= elems_of(prev));
        assert(elems_of(ews).last() == e.value());
        assert(shamir_result(r, w, x, ev) == Some(n));
        assert(is_joint_root(n, r, w, x, ev)) by {
            let (c1, c2) = choose|c1: int, c2: int| #[trigger] combination(c1, c2, x, ev) == 1;
            lemma_shamir_root(r, w, x, ev, c1, c2);
        }
        assert(product_spec(elems_of(ews)) as int == x * ev);
        G::lemma_pow_mul(n, ev, x);
        vstd::arithmetic::mul::lemma_mul_is_commutative(x, ev);
        assert(n.spec_pow(x * ev) == acc);
    }
}

/// The proof that [`delete`] returns for an empty list is accepted exactly for
/// an accumulator `acc` with `acc^0 = acc`, that is the identity.
pub proof fn lemma_delete_nothing<G: Group>(acc: G)
    requires
        acc.wf(),
        acc.spec_pow(0) == acc,
    ensures
        delete_result(acc, Seq::empty()) == Ok::<(G, PoE<G>), AccError>(
            (acc, poe_of(acc, 0, acc)),
        ),
        poe_holds(acc, 0, acc, poe_of(acc, 0, acc)),
{
    lemma_poe_complete(acc, 0);
}

/// A non-membership proof made from Bézout coefficients of the product `x` of
/// the elements and the product `s` of the committed set, for the accumulator
/// `acc = g^s` of that set, is accepted by [`verify_nonmembership`]; and the
/// Bézout identity holds in the exponent: `d^x = gv_inverse` and
/// `gv_inverse · v = g`.
pub proof fn lemma_nonmembership_complete<G: Group>(s: int, x: int, a: int, b: int)
    requires
        combination(a, b, x, s) == 1,
    ensures
        ({
            let acc = G::spec_base().spec_pow(s);
            let t = nonmembership_of(acc, x, a, b);
            &&& nonmembership_holds(acc, x, t.0, t.1, t.2, t.3, t.4)
            &&& t.0.spec_pow(x) == t.2
            &&& t.2.spec_op(t.1) == G::spec_base()
        }),
{
    let g = G::spec_base();
    let acc = g.spec_pow(s);
    G::lemma_base_wf();
    G::lemma_wf_closed(g, g, s);
    lemma_poke2_complete(acc, b);
    let d = g.spec_pow(a);
    let v = acc.spec_pow(b);
    G::lemma_wf_closed(g, g, a);
    lemma_poe_complete(d, x);
    G::lemma_pow_mul(g, s, b);
    G::lemma_wf_closed(acc, acc, b);
    G::lemma_inv_pow(v);
    G::lemma_pow_mul(g, s * b, -1);
    G::lemma_pow_one(g);
    assert(g.spec_op(v.spec_inv()) == d.spec_pow(x)) by {
        G::lemma_pow_add(g, 1, (s * b) * -1);
        G::lemma_pow_mul(g, a, x);
        assert(1 + (s * b) * -1 == a * x) by (nonlinear_arith)
            requires
                a * x + b * s == 1,
        ;
    }
    assert(g.spec_op(v.spec_inv()).spec_op(v) == g) by {
        G::lemma_pow_add(g, 1, (s * b) * -1);
        G::lemma_pow_add(g, 1 + (s * b) * -1, s * b);
        assert(1 + (s * b) * -1 + s * b == 1);
    }
}

} // verus!
