//! Signing and verification agree: what a key pair signs, its public key
//! accepts.

use vstd::arithmetic::div_mod::*;
use vstd::arithmetic::mul::*;
use vstd::prelude::*;

use crate::modular::has_inverse;
use crate::modular::inverse;
use crate::modular::is_inverse;
use crate::modular::is_prime;
use crate::modular::lemma_inverse_properties;
use crate::modular::lemma_pow_mod_exponents_congruent;
use crate::modular::lemma_pow_mod_of_pow_mod;
use crate::modular::lemma_pow_mod_product;
use crate::modular::lemma_prime_has_inverses;
use crate::modular::pow_mod;
use crate::signature::Scalars;
use crate::signing_key::signature_with;
use crate::signing_key::signed;
use crate::signing_key::usable_nonce;
use crate::signing_key::KeyPair;
use crate::verifying_key::verdict;
use crate::verifying_key::verification_value;
use crate::verifying_key::verifies;
use crate::verifying_key::Verification;

verus! {

/// With `k_inv` inverse to `k` and `w` inverse to `s`, and
/// `s == k_inv * t % q`, the product `w * t` is `k` modulo `q`.
proof fn lemma_exponent_is_nonce(k: nat, k_inv: nat, t: nat, s: nat, w: nat, q: nat)
    requires
        q > 1,
        k < q,
        is_inverse(k, k_inv, q),
        is_inverse(s, w, q),
        s == (k_inv * t) % q,
    ensures
        (w * t) % q == k,
{
    let (ki, vi, ti, si, wi, qi) = (k as int, k_inv as int, t as int, s as int, w as int, q as int);
    // k * s == t modulo q
    assert((ki * si) % qi == ti % qi) by {
        lemma_mul_mod_noop_right(ki, vi * ti, qi);
        lemma_mul_is_associative(ki, vi, ti);
        lemma_mul_mod_noop_left(ki * vi, ti, qi);
        assert(1 * ti == ti);
    }
    // w * t == w * (k * s) == k * (s * w) == k modulo q
    assert((wi * ti) % qi == (wi * (ki * si)) % qi) by {
        lemma_mul_mod_noop_right(wi, ti, qi);
        lemma_mul_mod_noop_right(wi, ki * si, qi);
    }
    assert(wi * (ki * si) == ki * (si * wi)) by (nonlinear_arith);
    assert((ki * (si * wi)) % qi == ki) by {
        lemma_mul_mod_noop_right(ki, si * wi, qi);
        assert(ki * 1 == ki);
        lemma_small_mod(k, q);
    }
}

/// The exponent that verification puts on `g`, once `y` is written as a
/// power of `g`, is `w * (z + x * r)` modulo `q`.
proof fn lemma_exponents_combine(z: nat, x: nat, r: nat, w: nat, q: nat)
    requires
        q > 0,
    ensures
        ((z * w) % q + x * ((r * w) % q)) % q == (w * (z + x * r)) % q,
{
    let (zi, xi, ri, wi, qi) = (z as int, x as int, r as int, w as int, q as int);
    let u1 = (zi * wi) % qi;
    let u2 = (ri * wi) % qi;
    lemma_mul_mod_noop_right(xi, ri * wi, qi);
    lemma_add_mod_noop(u1, xi * u2, qi);
    lemma_mod_twice(zi * wi, qi);
    lemma_add_mod_noop(zi * wi, xi * (ri * wi), qi);
    assert(zi * wi + xi * (ri * wi) == wi * (zi + xi * ri)) by (nonlinear_arith);
}

/// A signature of `z` that `key` gives with a usable secret number verifies
/// under the public half of `key`, provided `s` has an inverse modulo `q`.
/// For a prime `q` every `s` of a signature has one.
///
/// The key need not be valid in full: `g` must have its `q`-th power equal
/// to one modulo `p`, and the two halves of the key must belong together.
pub proof fn lemma_signed_verifies(key: KeyPair, z: nat, sig: Scalars)
    requires
        key.public.domain.consistent(),
        key.bound(),
        signed(key, z, sig),
        has_inverse(sig.s, key.public.domain.q),
    ensures
        verifies(key.public, z, sig),
        verdict(key.public, z, sig) == Verification::Valid,
{
    let d = key.public.domain;
    let (p, q, g, x) = (d.p, d.q, d.g, key.x);
    let k = choose|k: nat| #[trigger] usable_nonce(key, z, k) && sig == signature_with(key, z, k);
    let k_inv = inverse(k, q);
    let (r, s) = (sig.r, sig.s);
    let t = z + x * r;
    lemma_inverse_properties(k, q);
    assert(r < q && s < q) by {
        lemma_mod_bound(pow_mod(g, k, p) as int, q as int);
        lemma_mod_bound((k_inv * t) as int, q as int);
    }
    let w = inverse(s, q);
    lemma_inverse_properties(s, q);
    let u1 = (z * w) % q;
    let u2 = (r * w) % q;

    // y^u2 is g^(x * u2), and the product of the two powers is g^(u1 + x * u2)
    lemma_pow_mod_of_pow_mod(g, x, u2, p);
    lemma_pow_mod_product(g, u1, x * u2, p);
    // the exponent is k modulo q
    lemma_exponents_combine(z, x, r, w, q);
    lemma_exponent_is_nonce(k, k_inv, t, s, w, q);
    lemma_small_mod(k, q);
    lemma_pow_mod_exponents_congruent(g, u1 + x * u2, k, q, p);
    assert(verification_value(key.public, z, sig) == r);
}

/// Under a prime `q`, every signature of `z` that `key` gives with a usable
/// secret number verifies under the public half of `key`.
pub proof fn lemma_signed_verifies_for_prime(key: KeyPair, z: nat, sig: Scalars)
    requires
        key.public.domain.consistent(),
        key.bound(),
        signed(key, z, sig),
        is_prime(key.public.domain.q),
    ensures
        verifies(key.public, z, sig),
        verdict(key.public, z, sig) == Verification::Valid,
{
    let q = key.public.domain.q;
    let k = choose|k: nat| #[trigger] usable_nonce(key, z, k) && sig == signature_with(key, z, k);
    assert(sig.s < q) by {
        lemma_mod_bound(
            (inverse(k, q) * (z + key.x * sig.r)) as int,
            q as int,
        );
    }
    lemma_prime_has_inverses(sig.s, q);
    lemma_signed_verifies(key, z, sig);
}

} // verus!
