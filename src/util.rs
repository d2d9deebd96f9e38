use crate::bignum::{big_extended_gcd, big_mul, BigNat, SignedBig};
use vstd::prelude::*;

verus! {

/// The product of a sequence of integers; 1 for the empty sequence.
pub open spec fn product_spec(s: Seq<nat>) -> nat
    decreases s.len(),
{
    if s.len() == 0 {
        1
    } else {
        product_spec(s.drop_last()) * s.last()
    }
}

/// The values of a sequence of numbers.
pub open spec fn values_of(s: Seq<BigNat>) -> Seq<nat> {
    s.map_values(|b: BigNat| b.value())
}

/// The integer combination `a·x + b·y`.
pub open spec fn combination(a: int, b: int, x: int, y: int) -> int {
    a * x + b * y
}

/// `x` and `y` are co-prime: some integer combination of them is 1.
pub open spec fn coprime(x: int, y: int) -> bool {
    exists|a: int, b: int| #[trigger] combination(a, b, x, y) == 1
}

/// `d` divides `x`.
pub open spec fn divides(d: int, x: int) -> bool {
    exists|k: int| #[trigger] (d * k) == x
}

/// The product of `elems`.
pub fn product(elems: &[BigNat]) -> (r: BigNat)
    ensures
        r.value() == product_spec(values_of(elems@)),
{
    let mut acc = BigNat::from_u64(1);
    let mut i: usize = 0;
    while i < elems.len()
        invariant
            0 <= i <= elems@.len(),
            acc.value() == product_spec(values_of(elems@.take(i as int))),
        decreases elems@.len() - i,
    {
        proof {
            assert(values_of(elems@.take(i + 1)).drop_last() =~= values_of(elems@.take(i as int)));
        }
        acc = big_mul(&acc, &elems[i]);
        i = i + 1;
    }
    proof {
        assert(elems@.take(i as int) == elems@);
    }
    acc
}

/// Bézout coefficients `(a, b)` and `gcd` of `x` and `y`, with `a·x + b·y = gcd`,
/// where `gcd` divides both `x` and `y`; `gcd` is 1 exactly when `x` and `y`
/// are co-prime.
pub fn bezout(x: &BigNat, y: &BigNat) -> (r: (SignedBig, SignedBig, BigNat))
    ensures
        r.0.value() * x.value() + r.1.value() * y.value() == r.2.value(),
        divides(r.2.value() as int, x.value() as int),
        divides(r.2.value() as int, y.value() as int),
        (r.2.value() == 1) == coprime(x.value() as int, y.value() as int),
{
    let r = big_extended_gcd(x, y);
    let ghost (xv, yv, d) = (x.value() as int, y.value() as int, r.2.value() as int);
    proof {
        if d == 0 {
            assert(d * 0 == xv);
            assert(d * 0 == yv);
        } else {
            vstd::arithmetic::div_mod::lemma_fundamental_div_mod(xv, d);
            vstd::arithmetic::div_mod::lemma_fundamental_div_mod(yv, d);
            assert(d * (xv / d) == xv);
            assert(d * (yv / d) == yv);
        }
        if d == 1 {
            assert(combination(r.0.value(), r.1.value(), xv, yv) == 1);
        } else {
            assert forall|a: int, b: int| #[trigger] combination(a, b, xv, yv) != 1 by {
                if d == 0 {
                    assert(a * xv + b * yv == 0) by (nonlinear_arith)
                        requires
                            xv == 0,
                            yv == 0,
                    ;
                } else {
                    let (kx, ky) = (xv / d, yv / d);
                    assert(a * xv + b * yv == d * (a * kx + b * ky)) by (nonlinear_arith)
                        requires
                            xv == d * kx,
                            yv == d * ky,
                    ;
                    let t = a * kx + b * ky;
                    assert(d * t != 1) by (nonlinear_arith)
                        requires
                            d >= 2,
                    ;
                }
            }
        }
    }
    r
}

} // verus!
