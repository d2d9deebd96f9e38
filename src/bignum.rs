use num_bigint::{BigInt, BigUint, Sign};
use vstd::prelude::*;

verus! {

/// The number whose little-endian base-2^32 digits are `s`.
pub open spec fn limbs_value(s: Seq<u32>) -> nat
    decreases s.len(),
{
    if s.len() == 0 {
        0
    } else {
        (s[0] + 0x1_0000_0000nat * limbs_value(s.subrange(1, s.len() as int))) as nat
    }
}

/// An unbounded natural number, as little-endian base-2^32 digits.
#[derive(Debug)]
pub struct BigNat {
    pub limbs: Vec<u32>,
}

/// An unbounded integer: a sign and a magnitude.
#[derive(Debug)]
pub struct SignedBig {
    pub neg: bool,
    pub mag: BigNat,
}

impl BigNat {
    pub open spec fn value(&self) -> nat {
        limbs_value(self.limbs@)
    }

    /// The number `v`.
    pub fn from_u64(v: u64) -> (r: BigNat)
        ensures
            r.value() == v,
    {
        let lo = (v % 0x1_0000_0000) as u32;
        let hi = (v / 0x1_0000_0000) as u32;
        let limbs = vec![lo, hi];
        proof {
            let s = limbs@;
            assert(s.subrange(1, 2).subrange(1, 1) =~= Seq::<u32>::empty());
            assert(s.subrange(1, 2) =~= seq![hi]);
            reveal_with_fuel(limbs_value, 3);
            assert(limbs_value(seq![hi]) == hi as nat);
            assert(lo + 0x1_0000_0000 * hi == v);
        }
        BigNat { limbs }
    }

    /// A copy of `self`.
    pub fn duplicate(&self) -> (r: BigNat)
        ensures
            r.value() == self.value(),
    {
        BigNat { limbs: self.limbs.clone() }
    }
}

impl SignedBig {
    pub open spec fn value(&self) -> int {
        if self.neg {
            -self.mag.value()
        } else {
            self.mag.value() as int
        }
    }
}

/// Relies on num-bigint's `BigUint * BigUint`: the exact product, returned as
/// little-endian digits by `to_u32_digits`.
#[verifier::external_body]
pub(crate) fn big_mul(a: &BigNat, b: &BigNat) -> (r: BigNat)
    ensures
        r.value() == a.value() * b.value(),
{
    let p = BigUint::from_slice(&a.limbs) * BigUint::from_slice(&b.limbs);
    BigNat { limbs: p.to_u32_digits() }
}

/// Relies on num-bigint's `BigUint / u64`: the quotient rounded down.
#[verifier::external_body]
pub(crate) fn big_div_u64(a: &BigNat, m: u64) -> (r: BigNat)
    requires
        m > 0,
    ensures
        r.value() == a.value() / (m as nat),
{
    let q = BigUint::from_slice(&a.limbs) / m;
    BigNat { limbs: q.to_u32_digits() }
}

/// Relies on num-bigint's `BigUint % u64`: the remainder, below `m`, read back
/// as its lowest 64-bit digit (none for zero).
#[verifier::external_body]
pub(crate) fn big_rem_u64(a: &BigNat, m: u64) -> (r: u64)
    requires
        m > 0,
    ensures
        r == a.value() % (m as nat),
{
    let rem = BigUint::from_slice(&a.limbs) % m;
    rem.iter_u64_digits().next().unwrap_or(0)
}

/// Relies on num-integer's `Integer::mod_floor` on `BigInt`: for a positive
/// divisor the floored remainder lies in `[0, m)` and is the Euclidean one.
#[verifier::external_body]
pub(crate) fn signed_rem_u64(a: &SignedBig, m: u64) -> (r: u64)
    requires
        m > 0,
    ensures
        r == a.value() % (m as int),
{
    let sign = if a.neg { Sign::Minus } else { Sign::Plus };
    let x = BigInt::from_slice(sign, &a.mag.limbs);
    let rem = num_integer::Integer::mod_floor(&x, &BigInt::from(m));
    rem.magnitude().iter_u64_digits().next().unwrap_or(0)
}

/// Relies on num-integer's `Integer::div_floor` on `BigInt`: the quotient
/// rounded towards negative infinity, the Euclidean one for a positive divisor.
#[verifier::external_body]
pub(crate) fn signed_div_floor_u64(a: &SignedBig, m: u64) -> (r: SignedBig)
    requires
        m > 0,
    ensures
        r.value() == a.value() / (m as int),
{
    let sign = if a.neg { Sign::Minus } else { Sign::Plus };
    let x = BigInt::from_slice(sign, &a.mag.limbs);
    let (s, d) = num_integer::Integer::div_floor(&x, &BigInt::from(m)).to_u32_digits();
    SignedBig { neg: s == Sign::Minus, mag: BigNat { limbs: d } }
}

/// Relies on num-integer's `Integer::extended_gcd` on `BigInt`: the greatest
/// common divisor `gcd` (never negative) and Bézout coefficients `x`, `y` with
/// `gcd == x * a + y * b`.
#[verifier::external_body]
pub(crate) fn big_extended_gcd(a: &BigNat, b: &BigNat) -> (r: (SignedBig, SignedBig, BigNat))
    ensures
        r.0.value() * a.value() + r.1.value() * b.value() == r.2.value(),
        r.2.value() == 0 ==> a.value() == 0 && b.value() == 0,
        r.2.value() > 0 ==> a.value() % r.2.value() == 0 && b.value() % r.2.value() == 0,
{
    let x = BigInt::from_biguint(Sign::Plus, BigUint::from_slice(&a.limbs));
    let y = BigInt::from_biguint(Sign::Plus, BigUint::from_slice(&b.limbs));
    let e = num_integer::Integer::extended_gcd(&x, &y);
    let (sx, dx) = e.x.to_u32_digits();
    let (sy, dy) = e.y.to_u32_digits();
    let (_, dg) = e.gcd.to_u32_digits();
    (
        SignedBig { neg: sx == Sign::Minus, mag: BigNat { limbs: dx } },
        SignedBig { neg: sy == Sign::Minus, mag: BigNat { limbs: dy } },
        BigNat { limbs: dg },
    )
}

/// Relies on num-traits' `One::is_one` on `BigUint`: whether the number is 1.
#[verifier::external_body]
pub(crate) fn big_is_one(a: &BigNat) -> (r: bool)
    ensures
        r == (a.value() == 1),
{
    num_traits::One::is_one(&BigUint::from_slice(&a.limbs))
}

} // verus!
