//! Generation of a key pair.

use num_bigint_dig::BigUint;
use rand::CryptoRng;
use rand::RngCore;
use vstd::prelude::*;

use crate::bignum::one;
use crate::bignum::random_in_range;
use crate::bignum::val;
use crate::components::Components;
use crate::generate::components::public;
use crate::modular::lemma_pow_mod_nonzero;
use crate::signing_key::SigningKey;
use crate::verifying_key::VerifyingKey;

verus! {

/// The key pair that the private scalar `x` determines under the given
/// domain parameters, or `None` where `x` does not lie strictly between zero
/// and `q`.
pub fn keypair_from_scalar(components: Components, x: BigUint) -> (r: Option<SigningKey>)
    ensures
        r is Some <==> 0 < val(x) < components@.q,
        r matches Some(key) ==> {
            &&& key@.valid()
            &&& key@.public.domain == components@
            &&& key@.x == val(x)
        },
{
    let y = public(&components, &x);
    let ghost domain = components@;
    proof {
        use_type_invariant(&components);
        if 0 < val(x) < domain.q {
            lemma_pow_mod_nonzero(domain.g, val(x), domain.q, domain.p);
        }
    }
    match VerifyingKey::from_components(components, y) {
        Ok(verifying_key) => match SigningKey::from_components(verifying_key, x) {
            Ok(key) => Some(key),
            Err(_) => None,
        },
        Err(_) => None,
    }
}

/// A new key pair under the given domain parameters: the private scalar is
/// drawn from `1..q`, and the public value is computed from it.
pub fn keypair<R>(rng: &mut R, components: Components) -> (key: SigningKey)
    where R: CryptoRng + RngCore + ?Sized
    ensures
        key@.valid(),
        key@.public.domain == components@,
{
    let unit = one();
    let x = {
        let q = components.q();
        random_in_range(rng, &unit, q)
    };
    keypair_from_scalar(components, x).unwrap()
}

} // verus!
