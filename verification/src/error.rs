//! The failures that the library reports.

use vstd::prelude::*;

verus! {

/// Why an operation of the library failed.
#[derive(Clone, Copy, Debug, PartialEq, Eq, Structural)]
pub enum Error {
    /// Domain parameters, or a key scalar measured against them, break the
    /// relations that their type requires.
    InvalidParameters,
    /// The requested pair of bit lengths is not an approved one.
    UnsupportedSize,
    /// The search for domain parameters used up its attempts.
    GenerationExhausted,
    /// The bytes are not the encoding of two positive integers.
    MalformedSignatureEncoding,
    /// A public value does not belong to the private scalar it came with.
    KeyInconsistency,
    /// No nonce among those drawn gave a usable signature.
    NonceExhausted,
}

} // verus!
