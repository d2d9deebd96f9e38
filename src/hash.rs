use vstd::prelude::*;

verus! {

/// The challenge prime that [`hash_prime`] hands out.
pub const CHALLENGE_PRIME: u64 = 13;

/// Modulus of the running state of [`hash_inputs`]: the prime `2^61 - 1`.
pub const MIX_MODULUS: u64 = 2305843009213693951;

/// Multiplier of [`hash_inputs`].
pub const MIX_MULTIPLIER: u64 = 1099511628211;

/// Initial state of [`hash_inputs`].
pub const MIX_OFFSET: u64 = 1469598103934665603;

/// One step of [`hash_inputs`]: fold `x` into the state `h`.
pub open spec fn mix_step(h: int, x: int) -> int {
    (h * MIX_MULTIPLIER + x) % (MIX_MODULUS as int)
}

/// The value of [`hash_inputs`] on `s`.
pub open spec fn hash_inputs_spec(s: Seq<u64>) -> int
    decreases s.len(),
{
    if s.len() == 0 {
        MIX_OFFSET as int
    } else {
        mix_step(hash_inputs_spec(s.drop_last()), s.last() as int)
    }
}

/// Maps the public values of a proof to a prime challenge.
///
/// This is a placeholder that returns the fixed prime [`CHALLENGE_PRIME`]
/// whatever the input: a protocol that relies on it is not sound until a real
/// hash-to-prime function takes its place, through
/// [`Group::hash_prime`](crate::group::Group::hash_prime).
pub fn hash_prime(input: &[u64]) -> (r: u64)
    ensures
        r == CHALLENGE_PRIME,
{
    CHALLENGE_PRIME
}

/// Maps the public values of a proof to an integer below [`MIX_MODULUS`], by a
/// multiplicative fold over `input`. It mixes its input but is not
/// collision-resistant: a group meant for real use supplies a cryptographic
/// hash through [`Group::hash_inputs`](crate::group::Group::hash_inputs).
pub fn hash_inputs(input: &[u64]) -> (r: u64)
    ensures
        r == hash_inputs_spec(input@),
        r < MIX_MODULUS,
{
    let mut h: u64 = MIX_OFFSET;
    let mut i: usize = 0;
    while i < input.len()
        invariant
            0 <= i <= input@.len(),
            h == hash_inputs_spec(input@.take(i as int)),
            h < MIX_MODULUS,
        decreases input@.len() - i,
    {
        proof {
            assert(input@.take(i + 1).drop_last() == input@.take(i as int));
            vstd::arithmetic::div_mod::lemma_mod_bound(
                h * MIX_MULTIPLIER + input@[i as int],
                MIX_MODULUS as int,
            );
            assert(h * MIX_MULTIPLIER <= MIX_MODULUS * MIX_MULTIPLIER) by (nonlinear_arith)
                requires
                    h < MIX_MODULUS,
            ;
        }
        let t: u128 = (h as u128) * (MIX_MULTIPLIER as u128) + (input[i] as u128);
        h = (t % (MIX_MODULUS as u128)) as u64;
        i = i + 1;
    }
    proof {
        assert(input@.take(i as int) == input@);
    }
    h
}

} // verus!
