//! Big unsigned integers: the outside type, the bytes and the number it
//! holds, and one wrapper for each operation of `num-bigint-dig` that the
//! library calls.
//!
//! The contracts in this file are not proved: Verus takes them on trust.
//! Each states, over the numbers that its arguments hold, what the
//! documentation of the wrapped function promises, and leaves out by
//! `requires` the arguments on which that function panics.

use num_bigint_dig::prime::probably_prime;
use num_bigint_dig::traits::ModInverse;
use num_bigint_dig::BigUint;
use num_bigint_dig::RandBigInt;
use num_traits::One;
use rand::CryptoRng;
use rand::RngCore;
use vstd::arithmetic::power::pow;
use vstd::arithmetic::power2::pow2;
use vstd::prelude::*;

use crate::bits::bit_length;
use crate::bytes::be_nat;
use crate::modular::has_inverse;
use crate::modular::is_inverse;
use crate::modular::is_prime;

verus! {

/// `num_bigint_dig::BigUint`, an unsigned integer of any size.
#[verifier::external_type_specification]
#[verifier::external_body]
pub struct ExBigUint(BigUint);

/// The bytes that a `BigUint` holds, as `BigUint::to_bytes_be` hands them
/// out: the digits of the number in base 256, most significant first.
pub uninterp spec fn digits(n: BigUint) -> Seq<u8>;

/// The natural number that a `BigUint` holds.
pub open spec fn val(n: BigUint) -> nat {
    be_nat(digits(n))
}

/// What `num_bigint_dig::prime::probably_prime` answers for the number `x`
/// with `rounds` extra Miller-Rabin bases: the bases are derived from `x`, so
/// the answer depends on the two arguments alone.
pub uninterp spec fn passes_prime_test(x: nat, rounds: nat) -> bool;

/// `BigUint::from_bytes_be`: the number that the bytes denote, most
/// significant byte first.
#[verifier::external_body]
pub(crate) fn from_be_bytes(bytes: &[u8]) -> (n: BigUint)
    ensures
        val(n) == be_nat(bytes@),
{
    BigUint::from_bytes_be(bytes)
}

/// `BigUint::to_bytes_be`: the bytes of the number, which are the shortest
/// big-endian byte string for it, and for zero the single byte zero.
#[verifier::external_body]
pub(crate) fn to_be_bytes(n: &BigUint) -> (bytes: Vec<u8>)
    ensures
        bytes@ == digits(*n),
        bytes@.len() >= 1,
        bytes@.len() > 1 ==> bytes@[0] != 0,
{
    n.to_bytes_be()
}

/// `BigUint::bits`: the fewest bits necessary to express the number.
#[verifier::external_body]
pub(crate) fn bits(n: &BigUint) -> (count: usize)
    ensures
        count == bit_length(val(*n)),
{
    n.bits()
}

/// `One::one` for `BigUint`: the number one.
#[verifier::external_body]
pub(crate) fn one() -> (n: BigUint)
    ensures
        val(n) == 1,
{
    BigUint::one()
}

/// `Clone::clone` for `BigUint`: a second integer with the same value.
pub assume_specification[ <BigUint as Clone>::clone ](n: &BigUint) -> (copy: BigUint)
    ensures
        val(copy) == val(*n),
;

/// `<` on `BigUint`: the order of the natural numbers.
#[verifier::external_body]
pub(crate) fn less_than(a: &BigUint, b: &BigUint) -> (r: bool)
    ensures
        r == (val(*a) < val(*b)),
{
    a < b
}

/// `==` on `BigUint`: equality of the numbers held.
#[verifier::external_body]
pub(crate) fn equal(a: &BigUint, b: &BigUint) -> (r: bool)
    ensures
        r == (val(*a) == val(*b)),
{
    a == b
}

/// `+` on `&BigUint`: the sum of the two numbers.
#[verifier::external_body]
pub(crate) fn sum(a: &BigUint, b: &BigUint) -> (n: BigUint)
    ensures
        val(n) == val(*a) + val(*b),
{
    a + b
}

/// `-` on `&BigUint`: the difference of the two numbers. The outside
/// function panics where the result would be negative.
#[verifier::external_body]
pub(crate) fn difference(a: &BigUint, b: &BigUint) -> (n: BigUint)
    requires
        val(*a) >= val(*b),
    ensures
        val(n) == val(*a) - val(*b),
{
    a - b
}

/// `*` on `&BigUint`: the product of the two numbers.
#[verifier::external_body]
pub(crate) fn product(a: &BigUint, b: &BigUint) -> (n: BigUint)
    ensures
        val(n) == val(*a) * val(*b),
{
    a * b
}

/// `/` on `&BigUint`: the quotient rounded down. The outside function
/// panics on a zero divisor.
#[verifier::external_body]
pub(crate) fn quotient(a: &BigUint, b: &BigUint) -> (n: BigUint)
    requires
        val(*b) > 0,
    ensures
        val(n) == val(*a) / val(*b),
{
    a / b
}

/// `%` on `&BigUint`: the remainder of the division. The outside function
/// panics on a zero divisor.
#[verifier::external_body]
pub(crate) fn remainder(a: &BigUint, b: &BigUint) -> (n: BigUint)
    requires
        val(*b) > 0,
    ensures
        val(n) == val(*a) % val(*b),
{
    a % b
}

/// `BigUint::modpow`: `base` to the power `exponent`, reduced modulo
/// `modulus`. The outside function panics on a zero modulus; the library
/// never needs a modulus below two.
#[verifier::external_body]
pub(crate) fn modpow(base: &BigUint, exponent: &BigUint, modulus: &BigUint) -> (n: BigUint)
    requires
        val(*modulus) > 1,
    ensures
        val(n) == pow(val(*base) as int, val(*exponent)) % (val(*modulus) as int),
{
    base.modpow(exponent, modulus)
}

/// `ModInverse::mod_inverse` on `&BigUint`: a multiplicative inverse of `a`
/// modulo `m`, or `None` where `a` has none, which is where the two have a
/// common divisor. The outside function hands out a signed integer, which is
/// not negative; the wrapper turns it into an unsigned one.
#[verifier::external_body]
pub(crate) fn inverse_mod(a: &BigUint, m: &BigUint) -> (r: Option<BigUint>)
    requires
        0 < val(*a) < val(*m),
    ensures
        r matches Some(w) ==> is_inverse(val(*a), val(w), val(*m)),
        r is None ==> !has_inverse(val(*a), val(*m)),
{
    match a.mod_inverse(m) {
        Some(w) => w.to_biguint(),
        None => None,
    }
}

/// `probably_prime`: a Baillie-PSW test together with `rounds` further
/// Miller-Rabin bases, which the outside function derives from `x`. The
/// contract gives the answer its name, and says of it what the
/// documentation of the outside function does: every prime passes, and below
/// `2^64` only primes pass.
#[verifier::external_body]
pub(crate) fn is_probable_prime(x: &BigUint, rounds: usize) -> (r: bool)
    requires
        rounds < usize::MAX,
    ensures
        r == passes_prime_test(val(*x), rounds as nat),
        is_prime(val(*x)) ==> r,
        val(*x) < 0x1_0000_0000_0000_0000 ==> r == is_prime(val(*x)),
{
    probably_prime(x, rounds)
}

/// `RandBigInt::gen_biguint_range`: a number drawn from `low..high`. The
/// outside function panics on an empty range, and draws until a number falls
/// below the width of the range.
#[verifier::external_body]
pub(crate) fn random_in_range<R>(rng: &mut R, low: &BigUint, high: &BigUint) -> (n: BigUint)
    where R: CryptoRng + RngCore + ?Sized
    requires
        val(*low) < val(*high),
    ensures
        val(*low) <= val(n) < val(*high),
{
    rng.gen_biguint_range(low, high)
}

/// `RandBigInt::gen_biguint`: a number of at most `bit_size` bits, drawn
/// from the generator.
#[verifier::external_body]
pub(crate) fn random_bits<R>(rng: &mut R, bit_size: usize) -> (n: BigUint)
    where R: CryptoRng + RngCore + ?Sized
    ensures
        val(n) < pow2(bit_size as nat),
{
    rng.gen_biguint(bit_size)
}

} // verus!
