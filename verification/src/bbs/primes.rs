//! Primality tests and random numbers, which `num-prime` and `rand` supply.

use crate::bbs::natural::is_prime;
use crate::bbs::natural::Natural;
use num::bigint::RandBigInt;
use num::BigUint;
use num::Zero;
use num_prime::RandPrime;
use rand::rngs::StdRng;
use rand::rngs::ThreadRng;
use rand::SeedableRng;
use vstd::prelude::*;

verus! {

/// `rand::rngs::StdRng`, a seeded generator, carried through as it is.
#[verifier::external_type_specification]
#[verifier::external_body]
pub struct ExStdRng(StdRng);

/// `rand::rngs::ThreadRng`, the generator of a thread, carried through as
/// it is.
#[verifier::external_type_specification]
#[verifier::external_body]
pub struct ExThreadRng(ThreadRng);

/// Whether a number passes the primality test.
///
/// Trusted: `num_prime::nt_funcs::is_prime` answers `No` for composites
/// only, and decides exactly below 2^64; above, the outcome of the test
/// on a composite depends on bases drawn at random.
#[verifier::external_body]
pub(crate) fn probably_prime(x: &Natural) -> (r: bool)
    ensures
        !r ==> !is_prime(x@),
        r && x@ < 0x1_0000_0000_0000_0000 ==> is_prime(x@),
{
    num_prime::nt_funcs::is_prime(&BigUint::from_bytes_be(&x.bytes), None).probably()
}

/// A generator that is seeded with a number.
///
/// Trusted: `SeedableRng::seed_from_u64` returns a generator for every
/// seed. Nothing is claimed of what it generates.
#[verifier::external_body]
pub(crate) fn seeded_generator(seed: u64) -> StdRng {
    StdRng::seed_from_u64(seed)
}

/// The generator of this thread, seeded by the system.
///
/// Trusted: `rand::thread_rng` returns a generator. Nothing is claimed of
/// what it generates.
#[verifier::external_body]
pub(crate) fn thread_generator() -> ThreadRng {
    rand::thread_rng()
}

/// A number of at most `bits` bits that the primality test takes for a
/// prime, from a seeded generator.
///
/// Trusted: `RandPrime::gen_prime` returns for every size above zero.
/// Nothing is claimed of the number.
#[verifier::external_body]
pub(crate) fn seeded_prime(generator: &mut StdRng, bits: usize) -> Natural
    requires
        bits > 0,
{
    let prime: BigUint = generator.gen_prime(bits, None);
    Natural { bytes: prime.to_bytes_be() }
}

/// A number of at most `bits` bits that the primality test takes for a
/// prime, from the generator of the thread.
///
/// Trusted: `RandPrime::gen_prime` returns for every size above zero.
/// Nothing is claimed of the number.
#[verifier::external_body]
pub(crate) fn random_prime(generator: &mut ThreadRng, bits: usize) -> Natural
    requires
        bits > 0,
{
    let prime: BigUint = generator.gen_prime(bits, None);
    Natural { bytes: prime.to_bytes_be() }
}

/// A random number below a bound that is not zero.
///
/// Trusted: `RandBigInt::gen_biguint_range` from zero returns a number
/// below the upper bound; it panics where the bound is zero.
#[verifier::external_body]
pub(crate) fn random_below(generator: &mut ThreadRng, bound: &Natural) -> (r: Natural)
    requires
        bound@ > 0,
    ensures
        r@ < bound@,
{
    Natural {
        bytes: generator.gen_biguint_range(
            &BigUint::zero(),
            &BigUint::from_bytes_be(&bound.bytes),
        ).to_bytes_be(),
    }
}

} // verus!
