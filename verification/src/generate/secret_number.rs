//! The secret number of one signature, and its inverse.

use num_bigint_dig::BigUint;
use rand::CryptoRng;
use rand::RngCore;
use vstd::prelude::*;

use crate::bignum::bits;
use crate::bignum::difference;
use crate::bignum::inverse_mod;
use crate::bignum::less_than;
use crate::bignum::one;
use crate::bignum::random_bits;
use crate::bignum::random_in_range;
use crate::bignum::remainder;
use crate::bignum::sum;
use crate::bignum::val;
use crate::components::Components;
use crate::modular::has_inverse;
use crate::modular::inverse;
use crate::modular::lemma_inverse_is;
use crate::modular::lemma_inverse_of_residue;
use crate::modular::lemma_inverse_reduced;
use crate::modular::lemma_zero_has_no_inverse;

verus! {

/// The inverse of `a` modulo `m` that lies below `m`, or `None` where `a`
/// has no inverse.
pub fn inverse_below(a: &BigUint, m: &BigUint) -> (r: Option<BigUint>)
    requires
        val(*m) > 1,
    ensures
        r is Some <==> has_inverse(val(*a), val(*m)),
        r matches Some(w) ==> val(w) == inverse(val(*a), val(*m)) && val(w) < val(*m),
{
    let unit = one();
    let residue = remainder(a, m);
    proof {
        lemma_inverse_of_residue(val(*a), val(*m));
    }
    if less_than(&residue, &unit) {
        proof {
            lemma_zero_has_no_inverse(val(*m));
        }
        return None;
    }
    match inverse_mod(&residue, m) {
        Some(w) => {
            let reduced = remainder(&w, m);
            proof {
                lemma_inverse_reduced(val(residue), val(w), val(*m));
                lemma_inverse_is(val(*a), val(reduced), val(*m));
            }
            Some(reduced)
        },
        None => None,
    }
}

/// The secret number that a drawn number stands for: the draw reduced
/// modulo `q - 1`, plus one.
pub open spec fn secret_from(drawn: nat, q: nat) -> nat {
    (drawn % ((q - 1) as nat) + 1) as nat
}

/// Turns a drawn number into a secret number, which lies in `1..q`.
pub fn secret_number_from_draw(drawn: &BigUint, q: &BigUint) -> (k: BigUint)
    requires
        val(*q) > 1,
    ensures
        val(k) == secret_from(val(*drawn), val(*q)),
        0 < val(k) < val(*q),
{
    let unit = one();
    let q_minus_one = difference(q, &unit);
    let residue = remainder(drawn, &q_minus_one);
    sum(&residue, &unit)
}

/// Draws a secret number from `1..q`: a number of 64 bits more than `q` has
/// is drawn and turned into a secret number, as FIPS 186-4 has it in
/// appendix B.2.1. The 64 further bits make every secret number all but
/// equally likely.
///
/// Where the bit length of `q` and 64 more do not fit the machine's word,
/// the secret number is drawn from the range itself.
pub fn secret_number<R>(rng: &mut R, components: &Components) -> (k: BigUint)
    where R: CryptoRng + RngCore + ?Sized
    ensures
        0 < val(k) < components@.q,
{
    let q = components.q();
    let n = bits(q);
    if n > usize::MAX - 64 {
        let unit = one();
        return random_in_range(rng, &unit, q);
    }
    let drawn = random_bits(rng, n + 64);
    secret_number_from_draw(&drawn, q)
}

} // verus!
