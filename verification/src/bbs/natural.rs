//! Natural numbers of any size. The library holds them as bytes and leaves
//! the arithmetic to `num`.

use num::bigint::ToBigUint;
use num::BigUint;
use num::Integer;
use vstd::arithmetic::power::pow;
use vstd::arithmetic::power2::pow2;
use vstd::prelude::*;

verus! {

/// The number that bytes denote, most significant byte first. Leading
/// zero bytes change nothing, and no bytes denote zero.
pub open spec fn be_value(bytes: Seq<u8>) -> nat
    decreases bytes.len(),
{
    if bytes.len() == 0 {
        0
    } else {
        be_value(bytes.drop_last()) * 256 + bytes.last() as nat
    }
}

/// Whether the byte is an ASCII digit.
pub open spec fn is_digit(b: u8) -> bool {
    48 <= b <= 57
}

/// The number that decimal digits denote; an underscore among them is
/// passed over.
pub open spec fn digits_value(digits: Seq<u8>) -> nat
    decreases digits.len(),
{
    if digits.len() == 0 {
        0
    } else if digits.last() == 95 {
        digits_value(digits.drop_last())
    } else {
        digits_value(digits.drop_last()) * 10 + (digits.last() - 48) as nat
    }
}

/// Whether the bytes are a digit followed by digits and underscores.
pub open spec fn is_digit_run(body: Seq<u8>) -> bool {
    &&& body.len() > 0
    &&& is_digit(body[0])
    &&& forall|i: int| 0 <= i < body.len() ==> is_digit(#[trigger] body[i]) || body[i] == 95
}

/// A text without the `+` that it may begin with.
pub open spec fn unsigned_part(text: Seq<u8>) -> Seq<u8> {
    if text.len() > 0 && text[0] == 43 {
        text.skip(1)
    } else {
        text
    }
}

/// The number that a decimal numeral denotes, if the text is one: an
/// optional `+`, then a digit, then digits and underscores.
pub open spec fn decimal_value(text: Seq<u8>) -> Option<nat> {
    if is_digit_run(unsigned_part(text)) {
        Some(digits_value(unsigned_part(text)))
    } else {
        None
    }
}

/// Whether `d` divides `n`. Zero divides zero alone.
pub open spec fn divides(d: nat, n: nat) -> bool {
    if d == 0 {
        n == 0
    } else {
        n % d == 0
    }
}

/// Whether `g` is the greatest common divisor of `a` and `b`: it divides
/// both, and whatever divides both divides it. Of zero and zero that is
/// zero.
pub open spec fn is_gcd(g: nat, a: nat, b: nat) -> bool {
    &&& divides(g, a)
    &&& divides(g, b)
    &&& forall|d: nat| (#[trigger] divides(d, a)) && divides(d, b) ==> divides(d, g)
}

/// Whether `n` is a prime number.
pub open spec fn is_prime(n: nat) -> bool {
    &&& n >= 2
    &&& forall|d: nat| 1 < d < n ==> !#[trigger] divides(d, n)
}

/// A natural number, held as its bytes, most significant byte first.
#[derive(Debug, PartialEq, Eq)]
pub struct Natural {
    pub bytes: Vec<u8>,
}

impl Clone for Natural {
    fn clone(&self) -> (r: Self)
        ensures
            r@ == self@,
            r.bytes@ == self.bytes@,
    {
        Natural { bytes: self.bytes.clone() }
    }
}

impl View for Natural {
    type V = nat;

    open spec fn view(&self) -> nat {
        be_value(self.bytes@)
    }
}

/// Bytes denote zero just when all of them are zero.
pub proof fn lemma_be_value_zero(bytes: Seq<u8>)
    ensures
        be_value(bytes) == 0 <==> forall|i: int| 0 <= i < bytes.len() ==> (#[trigger] bytes[i]) == 0,
    decreases bytes.len(),
{
    if bytes.len() > 0 {
        let front = bytes.drop_last();
        lemma_be_value_zero(front);
        if be_value(bytes) == 0 {
            assert(be_value(front) == 0 && bytes.last() == 0);
            assert forall|i: int| 0 <= i < bytes.len() implies (#[trigger] bytes[i]) == 0 by {
                if i < front.len() {
                    assert(front[i] == bytes[i]);
                }
            }
        }
        if forall|i: int| 0 <= i < bytes.len() ==> (#[trigger] bytes[i]) == 0 {
            assert forall|i: int| 0 <= i < front.len() implies (#[trigger] front[i]) == 0 by {
                assert(front[i] == bytes[i]);
            }
            assert(bytes.last() == bytes[bytes.len() - 1]);
        }
    }
}

impl Natural {
    /// The number that the bytes denote, most significant byte first.
    pub fn from_be_bytes(bytes: Vec<u8>) -> (r: Natural)
        ensures
            r@ == be_value(bytes@),
            r.bytes@ == bytes@,
    {
        Natural { bytes }
    }

    /// Whether the number is the given small number.
    pub fn is_u8(&self, n: u8) -> (b: bool)
        ensures
            b == (self@ == n),
    {
        let len = self.bytes.len();
        if len == 0 {
            return n == 0;
        }
        let mut i: usize = 0;
        while i < len - 1
            invariant
                len == self.bytes.len(),
                len > 0,
                i <= len - 1,
                forall|j: int| 0 <= j < i ==> (#[trigger] self.bytes@[j]) == 0,
            decreases len - 1 - i,
        {
            if self.bytes[i] != 0 {
                proof {
                    lemma_be_value_zero(self.bytes@.drop_last());
                }
                assert(self.bytes@.drop_last()[i as int] != 0);
                assert(be_value(self.bytes@.drop_last()) >= 1);
                assert(self@ >= 256);
                return false;
            }
            i += 1;
        }
        proof {
            lemma_be_value_zero(self.bytes@.drop_last());
        }
        assert forall|j: int| 0 <= j < self.bytes@.drop_last().len() implies (#[trigger] self.bytes@.drop_last()[j])
            == 0 by {
            assert(self.bytes@.drop_last()[j] == self.bytes@[j]);
        }
        self.bytes[len - 1] == n
    }

    /// Reads a decimal numeral.
    ///
    /// Trusted: `BigUint::parse_bytes` with radix 10 takes an optional `+`,
    /// then a digit, then digits and underscores, and gives the number
    /// that the digits denote; `BigUint::to_bytes_be` gives its bytes.
    #[verifier::external_body]
    pub(crate) fn parse_decimal(text: &[u8]) -> (r: Option<Natural>)
        ensures
            r.is_some() == decimal_value(text@).is_some(),
            r matches Some(x) ==> decimal_value(text@) == Some(x@),
    {
        match BigUint::parse_bytes(text, 10) {
            Some(number) => Some(Natural { bytes: number.to_bytes_be() }),
            None => None,
        }
    }

    /// The number as a `Natural`.
    ///
    /// Trusted: `ToBigUint::to_biguint` of a `u64` is that number, always.
    #[verifier::external_body]
    pub(crate) fn from_u64(n: u64) -> (r: Option<Natural>)
        ensures
            r.is_some(),
            r matches Some(x) ==> x@ == n,
    {
        match n.to_biguint() {
            Some(number) => Some(Natural { bytes: number.to_bytes_be() }),
            None => None,
        }
    }

    /// The product of two numbers.
    ///
    /// Trusted: `*` on `BigUint` multiplies, `BigUint::from_bytes_be` reads
    /// the number that bytes denote.
    #[verifier::external_body]
    pub(crate) fn times(&self, other: &Natural) -> (r: Natural)
        ensures
            r@ == self@ * other@,
    {
        Natural {
            bytes: (BigUint::from_bytes_be(&self.bytes) * BigUint::from_bytes_be(
                &other.bytes,
            )).to_bytes_be(),
        }
    }

    /// The remainder of the number on division by another that is not
    /// zero.
    ///
    /// Trusted: `%` on `BigUint` is the remainder; it panics on a zero
    /// divisor.
    #[verifier::external_body]
    pub(crate) fn modulo(&self, divisor: &Natural) -> (r: Natural)
        requires
            divisor@ != 0,
        ensures
            r@ == self@ % divisor@,
    {
        Natural {
            bytes: (BigUint::from_bytes_be(&self.bytes) % BigUint::from_bytes_be(
                &divisor.bytes,
            )).to_bytes_be(),
        }
    }

    /// The greatest common divisor of two numbers.
    ///
    /// Trusted: `Integer::gcd` on `BigUint` is the greatest common divisor.
    #[verifier::external_body]
    pub(crate) fn gcd(&self, other: &Natural) -> (r: Natural)
        ensures
            is_gcd(r@, self@, other@),
    {
        Natural {
            bytes: BigUint::from_bytes_be(&self.bytes).gcd(
                &BigUint::from_bytes_be(&other.bytes),
            ).to_bytes_be(),
        }
    }

    /// The number to a power, reduced by a modulus that is not zero.
    ///
    /// Trusted: `BigUint::modpow` returns `(self ^ exponent) % modulus`; it
    /// panics on a zero modulus.
    #[verifier::external_body]
    pub(crate) fn modpow(&self, exponent: &Natural, modulus: &Natural) -> (r: Natural)
        requires
            modulus@ != 0,
        ensures
            r@ == pow(self@ as int, exponent@) % (modulus@ as int),
    {
        Natural {
            bytes: BigUint::from_bytes_be(&self.bytes).modpow(
                &BigUint::from_bytes_be(&exponent.bytes),
                &BigUint::from_bytes_be(&modulus.bytes),
            ).to_bytes_be(),
        }
    }

    /// Whether the bit at a position is set, the lowest bit at 0.
    ///
    /// Trusted: `BigUint::bit` returns whether the bit in the given
    /// position is set.
    #[verifier::external_body]
    pub(crate) fn bit(&self, position: u64) -> (r: bool)
        ensures
            r == ((self@ / pow2(position as nat)) % 2 == 1),
    {
        BigUint::from_bytes_be(&self.bytes).bit(position)
    }
}

} // verus!
