//! The public half of a key pair.

use num_bigint_dig::BigUint;
use vstd::prelude::*;

use crate::bignum::bits;
use crate::bignum::equal;
use crate::bignum::less_than;
use crate::bignum::modpow;
use crate::bignum::one;
use crate::bignum::product;
use crate::bignum::remainder;
use crate::bignum::val;
use crate::components::Components;
use crate::components::Domain;
use crate::digest::digest_number;
use crate::digest::truncate;
use crate::error::Error;
use crate::generate::secret_number::inverse_below;
use crate::modular::has_inverse;
use crate::modular::inverse;
use crate::modular::pow_mod;
use crate::signature::Scalars;
use crate::signature::Signature;

verus! {

/// The numbers that a public key holds.
pub struct PublicKey {
    /// The domain parameters that the key lives in.
    pub domain: Domain,
    /// The public value.
    pub y: nat,
}

impl PublicKey {
    /// The domain parameters are valid and `y` lies strictly between zero
    /// and `p`.
    pub open spec fn valid(self) -> bool {
        &&& self.domain.valid()
        &&& 0 < self.y < self.domain.p
    }
}

/// What verification found.
#[derive(Clone, Copy, Debug, PartialEq, Eq, Structural)]
pub enum Verification {
    /// The signature belongs to the digest and the key.
    Valid,
    /// The signature is well formed and does not belong to the digest and
    /// the key.
    Invalid,
    /// An integer of the signature is not below the subgroup order of the
    /// key: no digest has this signature.
    Malformed,
}

/// The value that verification compares with `r`: with `w` the inverse of
/// `s` modulo `q`, it is `g` to the power `z * w` times `y` to the power
/// `r * w`, the exponents reduced modulo `q`, the product modulo `p`, the
/// result modulo `q`.
pub open spec fn verification_value(key: PublicKey, z: nat, sig: Scalars) -> nat {
    let d = key.domain;
    let w = inverse(sig.s, d.q);
    let u1 = (z * w) % d.q;
    let u2 = (sig.r * w) % d.q;
    ((pow_mod(d.g, u1, d.p) * pow_mod(key.y, u2, d.p)) % d.p) % d.q
}

/// The signature is in range, `s` has an inverse and the verification value
/// is `r`.
pub open spec fn verifies(key: PublicKey, z: nat, sig: Scalars) -> bool {
    &&& sig.in_range(key.domain.q)
    &&& has_inverse(sig.s, key.domain.q)
    &&& verification_value(key, z, sig) == sig.r
}

/// What verification finds for a signature of positive integers.
pub open spec fn verdict(key: PublicKey, z: nat, sig: Scalars) -> Verification {
    if !sig.in_range(key.domain.q) {
        Verification::Malformed
    } else if verifies(key, z, sig) {
        Verification::Valid
    } else {
        Verification::Invalid
    }
}

impl Verification {
    /// Whether the signature was found valid.
    pub fn is_valid(&self) -> (b: bool)
        ensures
            b == (*self == Verification::Valid),
    {
        match self {
            Verification::Valid => true,
            _ => false,
        }
    }
}

/// A public key that has been checked: every value of this type is valid.
#[derive(Debug, PartialEq, Eq)]
pub struct VerifyingKey {
    components: Components,
    y: BigUint,
}

impl View for VerifyingKey {
    type V = PublicKey;

    closed spec fn view(&self) -> PublicKey {
        PublicKey { domain: self.components@, y: val(self.y) }
    }
}

impl Clone for VerifyingKey {
    fn clone(&self) -> (copy: Self)
        ensures
            copy@ == self@,
    {
        proof {
            use_type_invariant(self);
        }
        VerifyingKey { components: self.components.clone(), y: self.y.clone() }
    }
}

impl VerifyingKey {
    #[verifier::type_invariant]
    pub open spec fn inv(self) -> bool {
        self@.valid()
    }

    /// A public key from domain parameters and a public value. Without the
    /// private scalar only the range of `y` can be checked: the key is
    /// accepted if and only if `0 < y < p`.
    pub fn from_components(components: Components, y: BigUint) -> (r: Result<VerifyingKey, Error>)
        ensures
            r is Ok <==> 0 < val(y) < components@.p,
            r matches Ok(key) ==> key@ == (PublicKey { domain: components@, y: val(y) }),
            r matches Err(e) ==> e == Error::InvalidParameters,
    {
        let unit = one();
        if less_than(&y, &unit) || !less_than(&y, components.p()) {
            return Err(Error::InvalidParameters);
        }
        Ok(VerifyingKey { components, y })
    }

    /// Verifies a signature over a digest. A signature with an integer that
    /// is not below `q` is `Malformed`; any other signature is `Valid` if the
    /// verification value computed from it, the digest and the key is its
    /// `r`, and `Invalid` if not.
    pub fn verify_prehash(&self, hash: &[u8], signature: &Signature) -> (v: Verification)
        ensures
            v == verdict(self@, digest_number(self@.domain, hash@), signature@),
    {
        let components = self.components();
        let (p, q, g) = (components.p(), components.q(), components.g());
        let (r, s) = (signature.r(), signature.s());
        if !less_than(r, q) || !less_than(s, q) {
            return Verification::Malformed;
        }
        let w = match inverse_below(s, q) {
            Some(w) => w,
            None => {
                return Verification::Invalid;
            },
        };
        let z = truncate(hash, bits(q));
        let u1 = remainder(&product(&z, &w), q);
        let u2 = remainder(&product(r, &w), q);
        let g_part = modpow(g, &u1, p);
        let y_part = modpow(self.y(), &u2, p);
        let v = remainder(&remainder(&product(&g_part, &y_part), p), q);
        if equal(&v, r) {
            Verification::Valid
        } else {
            Verification::Invalid
        }
    }

    /// The domain parameters of the key.
    pub fn components(&self) -> (c: &Components)
        ensures
            c@ == self@.domain,
            self@.valid(),
    {
        proof {
            use_type_invariant(self);
        }
        &self.components
    }

    /// The public value `y`.
    pub fn y(&self) -> (y: &BigUint)
        ensures
            val(*y) == self@.y,
            self@.valid(),
    {
        proof {
            use_type_invariant(self);
        }
        &self.y
    }
}

} // verus!
