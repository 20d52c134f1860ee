//! The private half of a key pair, together with its public half.

use num_bigint_dig::BigUint;
use rand::CryptoRng;
use rand::RngCore;
use vstd::prelude::*;

use crate::bignum::bits;
use crate::bignum::equal;
use crate::bignum::less_than;
use crate::bignum::modpow;
use crate::bignum::one;
use crate::bignum::product;
use crate::bignum::remainder;
use crate::bignum::sum;
use crate::bignum::val;
use crate::components::Components;
use crate::correctness::lemma_signed_verifies;
use crate::correctness::lemma_signed_verifies_for_prime;
use crate::digest::digest_number;
use crate::digest::truncate;
use crate::error::Error;
use crate::generate::components::public;
use crate::generate::keypair::keypair;
use crate::generate::secret_number::inverse_below;
use crate::generate::secret_number::secret_number;
use crate::modular::has_inverse;
use crate::modular::inverse;
use crate::modular::is_prime;
use crate::modular::pow_mod;
use crate::signature::Scalars;
use crate::signature::Signature;
use crate::verifying_key::verdict;
use crate::verifying_key::PublicKey;
use crate::verifying_key::Verification;
use crate::verifying_key::VerifyingKey;

verus! {

/// The numbers that a key pair holds.
pub struct KeyPair {
    /// The public half.
    pub public: PublicKey,
    /// The private scalar.
    pub x: nat,
}

impl KeyPair {
    /// `x` lies strictly between zero and `q`, and the public value is `g`
    /// to the power `x` modulo `p`.
    pub open spec fn bound(self) -> bool {
        &&& 0 < self.x < self.public.domain.q
        &&& self.public.y == pow_mod(self.public.domain.g, self.x, self.public.domain.p)
    }

    /// The public half is valid and the two halves belong together.
    pub open spec fn valid(self) -> bool {
        &&& self.public.valid()
        &&& self.bound()
    }
}

/// How many secret numbers one signing may draw before it gives up.
pub const MAX_NONCES: usize = 4096;

/// The signature over the digest number `z` that the secret number `k`
/// gives: `r` is `g` to the power `k` modulo `p`, reduced modulo `q`, and `s`
/// is the inverse of `k` times `z + x * r`, modulo `q`.
pub open spec fn signature_with(key: KeyPair, z: nat, k: nat) -> Scalars {
    let d = key.public.domain;
    let r = pow_mod(d.g, k, d.p) % d.q;
    let s = (inverse(k, d.q) * (z + key.x * r)) % d.q;
    Scalars { r, s }
}

/// The secret number `k` can sign `z`: it lies strictly between zero and
/// `q`, has an inverse modulo `q`, and gives neither `r == 0` nor `s == 0`.
pub open spec fn usable_nonce(key: KeyPair, z: nat, k: nat) -> bool {
    &&& 0 < k < key.public.domain.q
    &&& has_inverse(k, key.public.domain.q)
    &&& signature_with(key, z, k).positive()
}

/// `sig` is a signature of `z` under `key`: some usable secret number gives
/// it.
pub open spec fn signed(key: KeyPair, z: nat, sig: Scalars) -> bool {
    exists|k: nat| #[trigger] usable_nonce(key, z, k) && sig == signature_with(key, z, k)
}

/// What the secret number `k` gives when it signs `z`: the signature, where
/// `k` is usable.
pub open spec fn signature_of(key: KeyPair, z: nat, k: nat) -> Option<Scalars> {
    if usable_nonce(key, z, k) {
        Some(signature_with(key, z, k))
    } else {
        None
    }
}

/// The numbers of the signature that signing made, where it made one.
pub open spec fn made(r: Result<Signature, Error>) -> Option<Scalars> {
    match r {
        Ok(sig) => Some(sig@),
        Err(_) => None,
    }
}

/// A run of signing that ends with `found`: the secret numbers in `draws`
/// are drawn one after the other, each strictly between zero and `q`. Every
/// draw but the last is not usable, and `found` is what the last one gives.
/// A run that makes no signature has drawn `MAX_NONCES` secret numbers.
pub open spec fn signing_run(draws: Seq<nat>, key: KeyPair, z: nat, found: Option<Scalars>) -> bool {
    &&& 0 < draws.len() <= MAX_NONCES
    &&& forall|i: int| 0 <= i < draws.len() ==> 0 < #[trigger] draws[i] < key.public.domain.q
    &&& forall|i: int| 0 <= i < draws.len() - 1 ==> signature_of(key, z, #[trigger] draws[i]) is None
    &&& found == signature_of(key, z, draws.last())
    &&& found is None ==> draws.len() == MAX_NONCES
}

/// A key pair that has been checked: every value of this type is valid.
///
/// The type has no `Debug`: the private scalar is not to be printed.
#[derive(PartialEq, Eq)]
pub struct SigningKey {
    verifying_key: VerifyingKey,
    x: BigUint,
}

impl View for SigningKey {
    type V = KeyPair;

    closed spec fn view(&self) -> KeyPair {
        KeyPair { public: self.verifying_key@, x: val(self.x) }
    }
}

impl Clone for SigningKey {
    fn clone(&self) -> (copy: Self)
        ensures
            copy@ == self@,
    {
        proof {
            use_type_invariant(self);
        }
        SigningKey { verifying_key: self.verifying_key.clone(), x: self.x.clone() }
    }
}

impl SigningKey {
    #[verifier::type_invariant]
    pub open spec fn inv(self) -> bool {
        self@.valid()
    }

    /// A key pair from a public key and a private scalar. The scalar must
    /// lie strictly between zero and `q`, else the result is
    /// `InvalidParameters`; the public value is then computed anew from it,
    /// and must be the one supplied, else the result is `KeyInconsistency`.
    pub fn from_components(verifying_key: VerifyingKey, x: BigUint) -> (r: Result<SigningKey, Error>)
        ensures
            r is Ok <==> (KeyPair { public: verifying_key@, x: val(x) }).bound(),
            r matches Ok(key) ==> key@ == (KeyPair { public: verifying_key@, x: val(x) }),
            r matches Err(e) ==> {
                if 0 < val(x) < verifying_key@.domain.q {
                    e == Error::KeyInconsistency
                } else {
                    e == Error::InvalidParameters
                }
            },
    {
        let unit = one();
        if less_than(&x, &unit) || !less_than(&x, verifying_key.components().q()) {
            return Err(Error::InvalidParameters);
        }
        let y = public(verifying_key.components(), &x);
        if !equal(&y, verifying_key.y()) {
            return Err(Error::KeyInconsistency);
        }
        Ok(SigningKey { verifying_key, x })
    }

    /// A new key pair under the given domain parameters, its private scalar
    /// drawn from `rng`.
    pub fn generate<R>(rng: &mut R, components: Components) -> (key: SigningKey)
        where R: CryptoRng + RngCore + ?Sized
        ensures
            key@.valid(),
            key@.public.domain == components@,
    {
        keypair(rng, components)
    }

    /// Signs a digest with the secret number `k`. The result is `None` if
    /// and only if `k` is not usable for this digest; a caller then takes
    /// another `k`. Under a prime `q`, and wherever `s` has an inverse modulo
    /// `q`, the signature is one that the public half of the key finds valid.
    ///
    /// Whoever learns `k` learns the private scalar, and so does whoever sees
    /// two signatures made with one `k`.
    pub fn sign_prehash_with_nonce(&self, hash: &[u8], k: &BigUint) -> (r: Option<Signature>)
        ensures
            r is Some <==> usable_nonce(self@, digest_number(self@.public.domain, hash@), val(*k)),
            r matches Some(sig) ==> {
                &&& sig@ == signature_with(self@, digest_number(self@.public.domain, hash@), val(*k))
                &&& sig@.in_range(self@.public.domain.q)
            },
            r matches Some(sig) ==> (is_prime(self@.public.domain.q) || has_inverse(
                sig@.s,
                self@.public.domain.q,
            ) ==> verdict(self@.public, digest_number(self@.public.domain, hash@), sig@)
                == Verification::Valid),
    {
        let components = self.verifying_key().components();
        let (p, q, g) = (components.p(), components.q(), components.g());
        let unit = one();
        if less_than(k, &unit) || !less_than(k, q) {
            return None;
        }
        let k_inv = match inverse_below(k, q) {
            Some(w) => w,
            None => {
                return None;
            },
        };
        let g_to_k = modpow(g, k, p);
        let r = remainder(&g_to_k, q);
        let z = truncate(hash, bits(q));
        let x_r = product(self.x(), &r);
        let s = remainder(&product(&k_inv, &sum(&z, &x_r)), q);
        let made = Signature::from_components(r, s);
        proof {
            let z = digest_number(self@.public.domain, hash@);
            if made is Some {
                assert(usable_nonce(self@, z, val(*k)));
                if is_prime(self@.public.domain.q) {
                    lemma_signed_verifies_for_prime(self@, z, made->Some_0@);
                } else if has_inverse(made->Some_0@.s, self@.public.domain.q) {
                    lemma_signed_verifies(self@, z, made->Some_0@);
                }
            }
        }
        made
    }

    /// Signs a digest with secret numbers drawn from `rng`, one after the
    /// other until one is usable. After `MAX_NONCES` of them the result is
    /// `NonceExhausted`.
    ///
    /// Which secret numbers are drawn is not known to the contract. It
    /// states the result over them, whichever they were; where every secret
    /// number is usable a signature is owed, and where none is, the error.
    pub fn sign_prehash_with_rng<R>(&self, rng: &mut R, hash: &[u8]) -> (r: Result<Signature, Error>)
        where R: CryptoRng + RngCore + ?Sized
        ensures
            r matches Ok(sig) ==> {
                &&& signed(self@, digest_number(self@.public.domain, hash@), sig@)
                &&& sig@.in_range(self@.public.domain.q)
            },
            r matches Ok(sig) ==> (is_prime(self@.public.domain.q) || has_inverse(
                sig@.s,
                self@.public.domain.q,
            ) ==> verdict(self@.public, digest_number(self@.public.domain, hash@), sig@)
                == Verification::Valid),
            r matches Err(e) ==> e == Error::NonceExhausted,
            exists|draws: Seq<nat>|
                signing_run(draws, self@, digest_number(self@.public.domain, hash@), made(r)),
            (forall|k: nat|
                0 < k < self@.public.domain.q ==> #[trigger] usable_nonce(
                    self@,
                    digest_number(self@.public.domain, hash@),
                    k,
                )) ==> r is Ok,
            (forall|k: nat|
                0 < k < self@.public.domain.q ==> !#[trigger] usable_nonce(
                    self@,
                    digest_number(self@.public.domain, hash@),
                    k,
                )) ==> r is Err,
    {
        let ghost z = digest_number(self@.public.domain, hash@);
        let ghost mut draws: Seq<nat> = Seq::empty();
        let mut attempt: usize = 0;
        while attempt < MAX_NONCES
            invariant
                z == digest_number(self@.public.domain, hash@),
                attempt <= MAX_NONCES,
                draws.len() == attempt,
                forall|i: int| 0 <= i < draws.len() ==> 0 < #[trigger] draws[i] < self@.public.domain.q,
                forall|i: int|
                    0 <= i < draws.len() ==> signature_of(self@, z, #[trigger] draws[i]) is None,
            decreases MAX_NONCES - attempt,
        {
            let k = secret_number(rng, self.verifying_key().components());
            proof {
                draws = draws.push(val(k));
            }
            if let Some(sig) = self.sign_prehash_with_nonce(hash, &k) {
                proof {
                    assert(signing_run(draws, self@, z, Some(sig@)));
                }
                return Ok(sig);
            }
            attempt = attempt + 1;
        }
        proof {
            assert(signing_run(draws, self@, z, None));
            // the last draw is a secret number that is not usable
            assert(!usable_nonce(self@, z, draws.last()));
        }
        Err(Error::NonceExhausted)
    }

    /// The public half of the pair.
    pub fn verifying_key(&self) -> (key: &VerifyingKey)
        ensures
            key@ == self@.public,
            self@.valid(),
    {
        proof {
            use_type_invariant(self);
        }
        &self.verifying_key
    }

    /// The private scalar `x`.
    pub fn x(&self) -> (x: &BigUint)
        ensures
            val(*x) == self@.x,
            self@.valid(),
    {
        proof {
            use_type_invariant(self);
        }
        &self.x
    }
}

} // verus!
