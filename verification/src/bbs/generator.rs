//! The generator, how it is set up and what it puts out.

use crate::bbs::natural::be_value;
use crate::bbs::natural::decimal_value;
use crate::bbs::natural::divides;
use crate::bbs::natural::is_gcd;
use crate::bbs::natural::is_prime;
use crate::bbs::natural::Natural;
use crate::bbs::primes;
use vstd::arithmetic::power::pow;
use vstd::arithmetic::power2::pow2;
use vstd::prelude::*;

verus! {

/// The least size of a modulus, in bits, that the generator makes for
/// itself.
pub const MIN_BITS: usize = 256;

/// The number of pairs of primes that are tried before the search for a
/// fitting pair is given up.
pub const MAX_ATTEMPTS: usize = 1000;

/// Why a generator was not set up.
#[derive(Clone, Debug, PartialEq, Eq)]
pub enum BbsError {
    /// A text that is no decimal numeral; the text.
    NotANumber(Vec<u8>),
    /// A modulus that does not leave 3 on division by 4; the modulus.
    NotThreeModFour(Natural),
    /// A modulus that failed the primality test; the modulus.
    NotPrime(Natural),
    /// A seed that shares a divisor with the product of the moduli; the
    /// seed, then the product.
    NotCoprime(Natural, Natural),
    /// A size below `MIN_BITS`; the size.
    TooFewBits(usize),
    /// `MAX_ATTEMPTS` pairs of primes were drawn and none of them fitted.
    NoPrimesFound,
}

/// A [`BbsError`] as a mathematical value.
pub enum BbsFault {
    NotANumber(Seq<u8>),
    NotThreeModFour(nat),
    NotPrime(nat),
    NotCoprime(nat, nat),
    TooFewBits(nat),
    NoPrimesFound,
}

impl View for BbsError {
    type V = BbsFault;

    open spec fn view(&self) -> BbsFault {
        match self {
            BbsError::NotANumber(text) => BbsFault::NotANumber(text@),
            BbsError::NotThreeModFour(x) => BbsFault::NotThreeModFour(x@),
            BbsError::NotPrime(x) => BbsFault::NotPrime(x@),
            BbsError::NotCoprime(seed, modulus) => BbsFault::NotCoprime(seed@, modulus@),
            BbsError::TooFewBits(bits) => BbsFault::TooFewBits(*bits as nat),
            BbsError::NoPrimesFound => BbsFault::NoPrimesFound,
        }
    }
}

/// The errors of a list as mathematical values.
pub open spec fn faults_of(errors: Seq<BbsError>) -> Seq<BbsFault> {
    Seq::new(errors.len(), |i: int| errors[i]@)
}

/// Whether two numbers have no common divisor but 1.
pub open spec fn coprime(a: nat, b: nat) -> bool {
    is_gcd(1, a, b)
}

/// Whether an outcome of the primality test is one that the test can have
/// on the number: it rejects composites only, and below 2^64 it is exact.
pub open spec fn test_outcome(x: nat, passes: bool) -> bool {
    &&& !passes ==> !is_prime(x)
    &&& passes && x < 0x1_0000_0000_0000_0000 ==> is_prime(x)
}

/// What is wrong with a modulus, given how the primality test came out:
/// it must leave 3 on division by 4, and pass the test.
pub open spec fn modulus_fault(x: nat, passes: bool) -> Option<BbsFault> {
    if x % 4 != 3 {
        Some(BbsFault::NotThreeModFour(x))
    } else if !passes {
        Some(BbsFault::NotPrime(x))
    } else {
        None
    }
}

/// What is wrong with the two moduli, first with `p`, then with `q`.
pub open spec fn moduli_faults(p: nat, q: nat, p_passes: bool, q_passes: bool) -> Seq<BbsFault> {
    let first: Seq<BbsFault> = match modulus_fault(p, p_passes) {
        Some(fault) => seq![fault],
        None => Seq::empty(),
    };
    match modulus_fault(q, q_passes) {
        Some(fault) => first.push(fault),
        None => first,
    }
}

/// What is wrong with the parameters of a generator: with the moduli, or
/// else with a seed that is not coprime with their product.
pub open spec fn parameter_faults(
    p: nat,
    q: nat,
    seed: nat,
    p_passes: bool,
    q_passes: bool,
) -> Seq<BbsFault> {
    let faults: Seq<BbsFault> = moduli_faults(p, q, p_passes, q_passes);
    if faults.len() > 0 {
        faults
    } else if !coprime(p * q, seed) {
        seq![BbsFault::NotCoprime(seed, p * q)]
    } else {
        Seq::empty()
    }
}

/// The state of the generator after `n` steps: each step squares the
/// state and reduces it by the modulus.
pub open spec fn state_after(seed: nat, modulus: nat, n: nat) -> nat
    decreases n,
{
    if n == 0 {
        seed
    } else {
        let before: nat = state_after(seed, modulus, (n - 1) as nat);
        (before * before) % modulus
    }
}

/// The first `n` bits that the generator puts out: after each step, the
/// lowest bit of the state.
pub open spec fn output_bits(seed: nat, modulus: nat, n: nat) -> Seq<bool> {
    Seq::new(n, |i: int| state_after(seed, modulus, (i + 1) as nat) % 2 == 1)
}

/// Bits written as the characters `0` and `1`.
pub open spec fn bits_text(bits: Seq<bool>) -> Seq<char> {
    Seq::new(
        bits.len(),
        |i: int|
            if bits[i] {
                '1'
            } else {
                '0'
            },
    )
}

/// The number that bits denote, the first bit the most significant.
pub open spec fn bits_value(bits: Seq<bool>) -> nat
    decreases bits.len(),
{
    if bits.len() == 0 {
        0
    } else {
        2 * bits_value(bits.drop_last()) + if bits.last() {
            1nat
        } else {
            0nat
        }
    }
}

/// A Blum-Blum-Shub generator: two moduli, their product, and the state.
pub struct BBS {
    p: Natural,
    q: Natural,
    modulus: Natural,
    seed: Natural,
}

impl BBS {
    /// The first modulus.
    pub closed spec fn p(&self) -> nat {
        self.p@
    }

    /// The second modulus.
    pub closed spec fn q(&self) -> nat {
        self.q@
    }

    /// The product of the two moduli.
    pub closed spec fn modulus(&self) -> nat {
        self.modulus@
    }

    /// The state: at first the seed, then the last square.
    pub closed spec fn seed(&self) -> nat {
        self.seed@
    }

    /// What holds of every generator: the third number is the product of
    /// the two moduli, and is not zero.
    #[verifier::type_invariant]
    spec fn well_formed(&self) -> bool {
        &&& self.modulus@ == self.p@ * self.q@
        &&& self.modulus@ != 0
    }

    /// Judges one modulus, given how the primality test came out on it.
    pub fn check_validity(x: &Natural, passes: bool) -> (r: Result<bool, BbsError>)
        ensures
            match modulus_fault(x@, passes) {
                Some(fault) => r matches Err(e) && e@ == fault,
                None => r == Ok::<bool, BbsError>(true),
            },
    {
        let four = Natural::from_be_bytes(vec![4u8]);
        assert(four@ == 4) by {
            reveal_with_fuel(be_value, 2);
        }
        if !x.modulo(&four).is_u8(3) {
            return Err(BbsError::NotThreeModFour(x.clone()));
        }
        if !passes {
            return Err(BbsError::NotPrime(x.clone()));
        }
        Ok(true)
    }

    /// Judges the two moduli, given how the primality test came out on
    /// each: the list of what is wrong with them.
    pub fn check_primes_validity(p: &Natural, q: &Natural, p_passes: bool, q_passes: bool) -> (r:
        Vec<BbsError>)
        ensures
            faults_of(r@) == moduli_faults(p@, q@, p_passes, q_passes),
    {
        let mut errors: Vec<BbsError> = Vec::new();
        match Self::check_validity(p, p_passes) {
            Err(msg) => errors.push(msg),
            _ => (),
        }
        match Self::check_validity(q, q_passes) {
            Err(msg) => errors.push(msg),
            _ => (),
        }
        assert(faults_of(errors@) =~= moduli_faults(p@, q@, p_passes, q_passes));
        errors
    }

    /// Whether the generator holds sound parameters: each modulus leaves 3
    /// on division by 4, the third number is their product, and the state
    /// is coprime with it.
    pub open spec fn sound(&self) -> bool {
        &&& self.p() % 4 == 3
        &&& self.q() % 4 == 3
        &&& self.modulus() == self.p() * self.q()
        &&& coprime(self.modulus(), self.seed())
    }

    /// Whether the moduli are primes as far as the primality test can
    /// tell for certain: a modulus below 2^64 is prime.
    pub open spec fn tested(&self) -> bool {
        &&& self.p() < 0x1_0000_0000_0000_0000 ==> is_prime(self.p())
        &&& self.q() < 0x1_0000_0000_0000_0000 ==> is_prime(self.q())
    }

    /// Whether `r` is what setting up a generator from these numbers
    /// gives, the primality test having come out as stated: the generator
    /// with these parameters, or the list of what is wrong with them.
    pub open spec fn set_up(
        r: Result<BBS, Vec<BbsError>>,
        p: nat,
        q: nat,
        seed: nat,
        p_passes: bool,
        q_passes: bool,
    ) -> bool {
        match r {
            Ok(b) => {
                &&& parameter_faults(p, q, seed, p_passes, q_passes).len() == 0
                &&& b.p() == p
                &&& b.q() == q
                &&& b.seed() == seed
                &&& b.sound()
            },
            Err(errors) => {
                &&& errors@.len() > 0
                &&& faults_of(errors@) == parameter_faults(p, q, seed, p_passes, q_passes)
            },
        }
    }

    /// Sets up a generator from two moduli and a seed, given how the
    /// primality test came out on each modulus.
    pub fn from_parts(p: Natural, q: Natural, seed: Natural, p_passes: bool, q_passes: bool) -> (r:
        Result<BBS, Vec<BbsError>>)
        ensures
            Self::set_up(r, p@, q@, seed@, p_passes, q_passes),
    {
        let mut errors = Self::check_primes_validity(&p, &q, p_passes, q_passes);
        if !errors.is_empty() {
            return Err(errors);
        }
        let modulus = p.times(&q);
        let divisor = modulus.gcd(&seed);
        if !divisor.is_u8(1) {
            proof {
                if coprime(modulus@, seed@) {
                    assert(divides(divisor@, modulus@) && divides(divisor@, seed@));
                    assert(divides(divisor@, 1));
                    if divisor@ > 1 {
                        vstd::arithmetic::div_mod::lemma_small_mod(1, divisor@);
                    }
                }
                assert(errors@.len() == 0);
                assert(moduli_faults(p@, q@, p_passes, q_passes).len() == faults_of(errors@).len());
            }
            errors.push(BbsError::NotCoprime(seed, modulus));
            assert(faults_of(errors@) =~= parameter_faults(p@, q@, seed@, p_passes, q_passes));
            return Err(errors);
        }
        assert(p@ * q@ != 0) by (nonlinear_arith)
            requires
                p@ != 0,
                q@ != 0,
        ;
        Ok(BBS { p, q, modulus, seed })
    }

    /// Sets up a generator from two moduli and a seed, each written as a
    /// decimal numeral.
    ///
    /// The moduli must leave 3 on division by 4 and pass the primality
    /// test, and the seed must be coprime with their product. What the
    /// test says of a composite above 2^64 depends on chance, so the
    /// result is stated for some outcome that the test can have.
    pub fn new(p_string: &[u8], q_string: &[u8], seed_string: &[u8]) -> (r: Result<
        BBS,
        Vec<BbsError>,
    >)
        ensures
            decimal_value(p_string@).is_none() ==> (r matches Err(errors) && faults_of(errors@)
                == seq![BbsFault::NotANumber(p_string@)]),
            decimal_value(p_string@).is_some() && decimal_value(q_string@).is_none() ==> (r matches Err(
                errors,
            ) && faults_of(errors@) == seq![BbsFault::NotANumber(q_string@)]),
            decimal_value(p_string@).is_some() && decimal_value(q_string@).is_some()
                && decimal_value(seed_string@).is_none() ==> (r matches Err(errors) && faults_of(
                errors@,
            ) == seq![BbsFault::NotANumber(seed_string@)]),
            decimal_value(p_string@).is_some() && decimal_value(q_string@).is_some()
                && decimal_value(seed_string@).is_some() ==> exists|p_passes: bool, q_passes: bool|
                test_outcome(decimal_value(p_string@).unwrap(), p_passes) && test_outcome(
                    decimal_value(q_string@).unwrap(),
                    q_passes,
                ) && #[trigger] Self::set_up(
                    r,
                    decimal_value(p_string@).unwrap(),
                    decimal_value(q_string@).unwrap(),
                    decimal_value(seed_string@).unwrap(),
                    p_passes,
                    q_passes,
                ),
    {
        let p = match Natural::parse_decimal(p_string) {
            Some(p) => p,
            None => {
                return Err(Self::not_a_number(p_string));
            },
        };
        let q = match Natural::parse_decimal(q_string) {
            Some(q) => q,
            None => {
                return Err(Self::not_a_number(q_string));
            },
        };
        let seed = match Natural::parse_decimal(seed_string) {
            Some(seed) => seed,
            None => {
                return Err(Self::not_a_number(seed_string));
            },
        };
        let p_passes = primes::probably_prime(&p);
        let q_passes = primes::probably_prime(&q);
        let r = Self::from_parts(p, q, seed, p_passes, q_passes);
        assert(Self::set_up(
            r,
            decimal_value(p_string@).unwrap(),
            decimal_value(q_string@).unwrap(),
            decimal_value(seed_string@).unwrap(),
            p_passes,
            q_passes,
        ));
        r
    }

    /// The error list for a text that is no numeral.
    fn not_a_number(text: &[u8]) -> (errors: Vec<BbsError>)
        ensures
            faults_of(errors@) == seq![BbsFault::NotANumber(text@)],
    {
        let mut errors: Vec<BbsError> = Vec::new();
        errors.push(BbsError::NotANumber(vstd::slice::slice_to_vec(text)));
        assert(faults_of(errors@) =~= seq![BbsFault::NotANumber(text@)]);
        errors
    }

    /// Sets up a generator with two primes of `num_bits` bits drawn from a
    /// generator that the seed seeds; the seed is also the first state.
    ///
    /// Pairs of primes are drawn until one fits, `MAX_ATTEMPTS` times at
    /// most.
    pub fn with_random_primes(num_bits: usize, seed_string: u64) -> (r: Result<BBS, BbsError>)
        ensures
            num_bits < MIN_BITS ==> (r matches Err(e) && e@ == BbsFault::TooFewBits(
                num_bits as nat,
            )),
            num_bits >= MIN_BITS ==> match r {
                Ok(b) => b.sound() && b.tested() && b.seed() == seed_string,
                Err(e) => e@ == BbsFault::NoPrimesFound,
            },
    {
        if num_bits < MIN_BITS {
            return Err(BbsError::TooFewBits(num_bits));
        }
        let mut rng = primes::seeded_generator(seed_string);
        let seed = match Natural::from_u64(seed_string) {
            Some(seed) => seed,
            None => vstd::pervasive::unreached(),
        };
        let mut attempts: usize = 0;
        while attempts < MAX_ATTEMPTS
            invariant
                num_bits >= MIN_BITS,
                seed@ == seed_string,
            decreases MAX_ATTEMPTS - attempts,
        {
            let p = primes::seeded_prime(&mut rng, num_bits);
            let q = primes::seeded_prime(&mut rng, num_bits);
            let p_passes = primes::probably_prime(&p);
            let q_passes = primes::probably_prime(&q);
            match Self::from_parts(p, q, seed.clone(), p_passes, q_passes) {
                Ok(b) => {
                    return Ok(b);
                },
                Err(_) => {},
            }
            attempts += 1;
        }
        Err(BbsError::NoPrimesFound)
    }

    /// Sets up a generator with two random primes of `num_bits` bits and a
    /// random seed below their product.
    ///
    /// Primes and seeds are drawn until they fit, `MAX_ATTEMPTS` times at
    /// most.
    pub fn with_full_random(num_bits: usize) -> (r: Result<BBS, BbsError>)
        ensures
            num_bits < MIN_BITS ==> (r matches Err(e) && e@ == BbsFault::TooFewBits(
                num_bits as nat,
            )),
            num_bits >= MIN_BITS ==> match r {
                Ok(b) => b.sound() && b.tested() && b.seed() < b.modulus(),
                Err(e) => e@ == BbsFault::NoPrimesFound,
            },
    {
        if num_bits < MIN_BITS {
            return Err(BbsError::TooFewBits(num_bits));
        }
        let mut rng = primes::thread_generator();
        let mut attempts: usize = 0;
        while attempts < MAX_ATTEMPTS
            invariant
                num_bits >= MIN_BITS,
            decreases MAX_ATTEMPTS - attempts,
        {
            let p = primes::random_prime(&mut rng, num_bits);
            let q = primes::random_prime(&mut rng, num_bits);
            let p_passes = primes::probably_prime(&p);
            let q_passes = primes::probably_prime(&q);
            let errors = Self::check_primes_validity(&p, &q, p_passes, q_passes);
            if errors.is_empty() {
                assert(moduli_faults(p@, q@, p_passes, q_passes).len() == faults_of(errors@).len());
                let modulus = p.times(&q);
                assert(p@ * q@ != 0) by (nonlinear_arith)
                    requires
                        p@ != 0,
                        q@ != 0,
                ;
                let seed = primes::random_below(&mut rng, &modulus);
                match Self::from_parts(p, q, seed, p_passes, q_passes) {
                    Ok(b) => {
                        return Ok(b);
                    },
                    Err(_) => {},
                }
            }
            attempts += 1;
        }
        Err(BbsError::NoPrimesFound)
    }

    /// Takes one step, which squares the state and reduces it by the
    /// modulus, and returns the lowest bit of the new state.
    pub fn next(&mut self) -> (bit: bool)
        ensures
            final(self).seed() == state_after(old(self).seed(), old(self).modulus(), 1),
            bit == (final(self).seed() % 2 == 1),
            final(self).p() == old(self).p(),
            final(self).q() == old(self).q(),
            final(self).modulus() == old(self).modulus(),
    {
        proof {
            use_type_invariant(&*self);
        }
        let two = Natural::from_be_bytes(vec![2u8]);
        proof {
            reveal_with_fuel(be_value, 2);
            reveal_with_fuel(pow, 3);
            reveal_with_fuel(state_after, 2);
            vstd::arithmetic::power2::lemma2_to64();
            assert(two@ == 2);
            assert(pow(self.seed@ as int, 2) == self.seed@ * self.seed@) by (nonlinear_arith)
                requires
                    pow(self.seed@ as int, 2) == self.seed@ * (self.seed@ * 1),
            ;
        }
        self.seed = self.seed.modpow(&two, &self.modulus);
        self.seed.bit(0)
    }

    /// Takes `n` steps and returns their bits as a text of `0` and `1`.
    pub fn get_n_bits(&mut self, n: usize) -> (r: String)
        ensures
            r@ == bits_text(output_bits(old(self).seed(), old(self).modulus(), n as nat)),
            final(self).seed() == state_after(old(self).seed(), old(self).modulus(), n as nat),
            final(self).p() == old(self).p(),
            final(self).q() == old(self).q(),
            final(self).modulus() == old(self).modulus(),
    {
        let mut result = String::new();
        let mut i: usize = 0;
        while i < n
            invariant
                i <= n,
                result@ == bits_text(output_bits(old(self).seed(), old(self).modulus(), i as nat)),
                self.seed() == state_after(old(self).seed(), old(self).modulus(), i as nat),
                self.p() == old(self).p(),
                self.q() == old(self).q(),
                self.modulus() == old(self).modulus(),
            decreases n - i,
        {
            proof {
                reveal_with_fuel(state_after, 2);
            }
            let bit = if self.next() {
                '1'
            } else {
                '0'
            };
            result.push(bit);
            i += 1;
            assert(result@ =~= bits_text(
                output_bits(old(self).seed(), old(self).modulus(), i as nat),
            ));
        }
        result
    }

    /// The first modulus.
    pub fn get_p(&self) -> (p: &Natural)
        ensures
            p@ == self.p(),
    {
        &self.p
    }

    /// The second modulus.
    pub fn get_q(&self) -> (q: &Natural)
        ensures
            q@ == self.q(),
    {
        &self.q
    }

    /// Takes `bits` steps and returns the number that their bits denote,
    /// the first bit the most significant.
    fn generate(&mut self, bits: usize) -> (r: u128)
        requires
            bits <= 128,
        ensures
            r == bits_value(output_bits(old(self).seed(), old(self).modulus(), bits as nat)),
            r < pow2(bits as nat),
            final(self).seed() == state_after(old(self).seed(), old(self).modulus(), bits as nat),
            final(self).p() == old(self).p(),
            final(self).q() == old(self).q(),
            final(self).modulus() == old(self).modulus(),
    {
        let mut value: u128 = 0;
        let mut i: usize = 0;
        proof {
            vstd::arithmetic::power2::lemma2_to64();
            assert(output_bits(old(self).seed(), old(self).modulus(), 0).len() == 0);
        }
        while i < bits
            invariant
                i <= bits <= 128,
                value == bits_value(output_bits(old(self).seed(), old(self).modulus(), i as nat)),
                value < pow2(i as nat),
                self.seed() == state_after(old(self).seed(), old(self).modulus(), i as nat),
                self.p() == old(self).p(),
                self.q() == old(self).q(),
                self.modulus() == old(self).modulus(),
            decreases bits - i,
        {
            proof {
                reveal_with_fuel(state_after, 2);
                vstd::arithmetic::power2::lemma_pow2_unfold((i + 1) as nat);
                vstd::arithmetic::power2::lemma2_to64();
                vstd::arithmetic::power2::lemma_pow2_adds(64, 64);
                if i + 1 < 128 {
                    vstd::arithmetic::power2::lemma_pow2_strictly_increases((i + 1) as nat, 128);
                }
                assert(pow2(128) == 0x1_0000_0000_0000_0000_0000_0000_0000_0000) by {
                    assert(pow2(64) == 0x1_0000_0000_0000_0000);
                    assert(pow2(128) == pow2(64) * pow2(64));
                }
            }
            let bit: u128 = if self.next() {
                1
            } else {
                0
            };
            value = value * 2 + bit;
            i += 1;
            proof {
                let longer = output_bits(old(self).seed(), old(self).modulus(), i as nat);
                let shorter = output_bits(old(self).seed(), old(self).modulus(), (i - 1) as nat);
                assert(longer.drop_last() =~= shorter);
            }
        }
        value
    }

    /// The next 8 bits as a number.
    pub fn generate_u8(&mut self) -> (r: u8)
        ensures
            r == bits_value(output_bits(old(self).seed(), old(self).modulus(), 8)),
            final(self).seed() == state_after(old(self).seed(), old(self).modulus(), 8),
            final(self).p() == old(self).p(),
            final(self).q() == old(self).q(),
            final(self).modulus() == old(self).modulus(),
    {
        proof {
            vstd::arithmetic::power2::lemma2_to64();
        }
        self.generate(8) as u8
    }

    /// The next 16 bits as a number.
    pub fn generate_u16(&mut self) -> (r: u16)
        ensures
            r == bits_value(output_bits(old(self).seed(), old(self).modulus(), 16)),
            final(self).seed() == state_after(old(self).seed(), old(self).modulus(), 16),
            final(self).p() == old(self).p(),
            final(self).q() == old(self).q(),
            final(self).modulus() == old(self).modulus(),
    {
        proof {
            vstd::arithmetic::power2::lemma2_to64();
        }
        self.generate(16) as u16
    }

    /// The next 32 bits as a number.
    pub fn generate_u32(&mut self) -> (r: u32)
        ensures
            r == bits_value(output_bits(old(self).seed(), old(self).modulus(), 32)),
            final(self).seed() == state_after(old(self).seed(), old(self).modulus(), 32),
            final(self).p() == old(self).p(),
            final(self).q() == old(self).q(),
            final(self).modulus() == old(self).modulus(),
    {
        proof {
            vstd::arithmetic::power2::lemma2_to64();
        }
        self.generate(32) as u32
    }

    /// The next 64 bits as a number.
    pub fn generate_u64(&mut self) -> (r: u64)
        ensures
            r == bits_value(output_bits(old(self).seed(), old(self).modulus(), 64)),
            final(self).seed() == state_after(old(self).seed(), old(self).modulus(), 64),
            final(self).p() == old(self).p(),
            final(self).q() == old(self).q(),
            final(self).modulus() == old(self).modulus(),
    {
        proof {
            vstd::arithmetic::power2::lemma2_to64();
            vstd::arithmetic::power2::lemma2_to64_rest();
        }
        self.generate(64) as u64
    }

    /// The next 128 bits as a number.
    pub fn generate_u128(&mut self) -> (r: u128)
        ensures
            r == bits_value(output_bits(old(self).seed(), old(self).modulus(), 128)),
            final(self).seed() == state_after(old(self).seed(), old(self).modulus(), 128),
            final(self).p() == old(self).p(),
            final(self).q() == old(self).q(),
            final(self).modulus() == old(self).modulus(),
    {
        self.generate(128)
    }
}

/// The first modulus of the default generator.
pub open spec fn default_p() -> nat {
    81282214694636016670763621761800109247752388157581129517313895767689154087487nat
}

/// The second modulus of the default generator.
pub open spec fn default_q() -> nat {
    65810608086241557256723687330212888597389852144534660261023144057762936489759nat
}

impl Default for BBS {
    /// The generator with two fixed moduli of 256 bits and the seed 42.
    fn default() -> (b: BBS)
        ensures
            b.p() == default_p(),
            b.q() == default_q(),
            b.modulus() == default_p() * default_q(),
            b.seed() == 42,
    {
        let p = Natural::from_be_bytes(
            vec![
                179u8, 180, 26, 106, 222, 79, 20, 174, 146, 42, 8, 149, 128, 53, 247, 184, 152, 203,
                107, 134, 24, 92, 123, 151, 220, 74, 180, 131, 204, 177, 74, 63,
            ],
        );
        let q = Natural::from_be_bytes(
            vec![
                145u8, 127, 123, 242, 240, 141, 232, 95, 36, 10, 40, 41, 129, 54, 152, 133, 109, 25,
                210, 120, 66, 179, 45, 185, 87, 3, 209, 48, 178, 19, 135, 31,
            ],
        );
        let seed = Natural::from_be_bytes(vec![42u8]);
        proof {
            reveal_with_fuel(be_value, 33);
            assert(p@ == default_p());
            assert(q@ == default_q());
            assert(seed@ == 42);
            assert(p@ * q@ != 0) by (nonlinear_arith)
                requires
                    p@ != 0,
                    q@ != 0,
            ;
        }
        let modulus = p.times(&q);
        BBS { p, q, modulus, seed }
    }
}

} // verus!
