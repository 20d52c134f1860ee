//! Bit lengths and powers of two.

use num_bigint_dig::BigUint;
use vstd::arithmetic::power2::*;
use vstd::prelude::*;

use crate::bignum::one;
use crate::bignum::sum;
use crate::bignum::val;

verus! {

/// The least number of bits that can express `v`; zero takes none.
pub open spec fn bit_length(v: nat) -> nat
    decreases v,
{
    if v == 0 {
        0
    } else {
        1 + bit_length(v / 2)
    }
}

/// A positive number lies between the two powers of two that its bit length
/// names.
pub proof fn lemma_bit_length_bounds(v: nat)
    requires
        v > 0,
    ensures
        bit_length(v) >= 1,
        pow2((bit_length(v) - 1) as nat) <= v < pow2(bit_length(v)),
    decreases v,
{
    if v == 1 {
        assert(bit_length(0) == 0);
        assert(bit_length(1) == 1 + bit_length(0));
        lemma2_to64();
    } else {
        let half = v / 2;
        lemma_bit_length_bounds(half);
        let k = bit_length(half);
        assert(bit_length(v) == 1 + k);
        lemma_pow2_unfold(k);
        lemma_pow2_unfold(1 + k);
    }
}

/// Two to the power `e`.
pub fn power_of_two(e: u32) -> (n: BigUint)
    ensures
        val(n) == pow2(e as nat),
{
    let mut n = one();
    let mut i: u32 = 0;
    proof {
        lemma2_to64();
    }
    while i < e
        invariant
            i <= e,
            val(n) == pow2(i as nat),
        decreases e - i,
    {
        proof {
            lemma_pow2_unfold((i + 1) as nat);
        }
        n = sum(&n, &n);
        i = i + 1;
    }
    n
}

} // verus!
