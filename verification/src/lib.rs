//! The Digital Signature Algorithm of FIPS 186-4: domain parameters, key
//! pairs, signing and verification over a message digest, and the two-integer
//! encoding of a signature.
//!
//! The types [`Components`], [`VerifyingKey`], [`SigningKey`] and
//! [`Signature`] hold only values that have been checked, and each has a
//! view that gives the numbers it holds. The contracts speak of those
//! numbers: [`signing_key::signature_with`] is the signing equation,
//! [`verifying_key::verdict`] what verification finds, and
//! [`signature::encoded_signature`] the bytes of a signature. That signing
//! and verification agree is proved in [`correctness`], that decoding undoes
//! encoding in [`signature`].
//!
//! Arithmetic on big integers is done by `num-bigint-dig`; every call into it
//! goes through the wrappers of [`bignum`], whose contracts are stated over
//! the natural number that a `BigUint` holds. Randomness comes from a
//! generator of the caller's; what is done with each number drawn is a
//! function of its own with an exact contract.

pub mod bignum;
pub mod bits;
pub mod bytes;
pub mod components;
pub mod correctness;
pub mod der;
pub mod digest;
pub mod error;
pub mod generate;
pub mod modular;
pub mod signature;
pub mod signing_key;
pub mod size;
pub mod verifying_key;

pub use crate::components::Components;
pub use crate::error::Error;
pub use crate::signature::Signature;
pub use crate::signing_key::SigningKey;
pub use crate::size::KeySize;
pub use crate::verifying_key::Verification;
pub use crate::verifying_key::VerifyingKey;
