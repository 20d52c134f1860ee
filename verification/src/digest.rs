//! The number that a message digest stands for in signing and verification.

use num_bigint_dig::BigUint;
use vstd::arithmetic::div_mod::*;
use vstd::arithmetic::power2::*;
use vstd::prelude::*;
use vstd::slice::slice_subrange;

use crate::bignum::from_be_bytes;
use crate::bignum::quotient;
use crate::bignum::val;
use crate::bits::bit_length;
use crate::bits::power_of_two;
use crate::bytes::be_nat;
use crate::bytes::lemma_be_nat_prefix;
use crate::components::Domain;

verus! {

/// The digest read as a big-endian number and cut down to its leftmost
/// `n_bits` bits. A digest of `n_bits` bits or fewer is taken whole.
pub open spec fn truncated(hash: Seq<u8>, n_bits: nat) -> nat {
    if 8 * hash.len() <= n_bits {
        be_nat(hash)
    } else {
        be_nat(hash) / pow2((8 * hash.len() - n_bits) as nat)
    }
}

/// The number that the digest stands for under the given domain
/// parameters: the digest cut down to the bit length of `q`.
pub open spec fn digest_number(domain: Domain, hash: Seq<u8>) -> nat {
    truncated(hash, bit_length(domain.q))
}

/// The number that the digest stands for under a subgroup order of `n_bits`
/// bits.
pub fn truncate(hash: &[u8], n_bits: usize) -> (z: BigUint)
    ensures
        val(z) == truncated(hash@, n_bits as nat),
{
    let len = hash.len();
    let whole = n_bits / 8;
    let extra = n_bits % 8;
    if len <= whole {
        return from_be_bytes(hash);
    }
    if extra == 0 {
        let kept = slice_subrange(hash, 0, whole);
        proof {
            lemma_be_nat_prefix(hash@, whole as int);
        }
        return from_be_bytes(kept);
    }
    let kept = slice_subrange(hash, 0, whole + 1);
    let head = from_be_bytes(kept);
    let spare: u32 = (8 - extra) as u32;
    let divisor = power_of_two(spare);
    proof {
        let dropped = (8 * (len - whole - 1)) as nat;
        lemma_be_nat_prefix(hash@, whole + 1);
        lemma_pow2_pos(dropped);
        lemma_pow2_pos(spare as nat);
        lemma_div_denominator(be_nat(hash@) as int, pow2(dropped) as int, pow2(spare as nat) as int);
        lemma_pow2_adds(dropped, spare as nat);
    }
    quotient(&head, &divisor)
}

} // verus!
