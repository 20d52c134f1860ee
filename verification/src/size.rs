//! The approved pairs of bit lengths for the primes `p` and `q`.

use vstd::prelude::*;

use crate::error::Error;

verus! {

/// An approved pair `(L, N)`: the bit length of `p` and that of `q`.
#[allow(non_camel_case_types)]
#[derive(Clone, Copy, Debug, PartialEq, Eq, Structural)]
pub enum KeySize {
    /// 1024-bit `p`, 160-bit `q`. Kept for compatibility; too small for new keys.
    DSA_1024_160,
    /// 2048-bit `p`, 224-bit `q`.
    DSA_2048_224,
    /// 2048-bit `p`, 256-bit `q`.
    DSA_2048_256,
    /// 3072-bit `p`, 256-bit `q`.
    DSA_3072_256,
}

/// `(l, n)` is one of the approved pairs.
pub open spec fn approved(l: u32, n: u32) -> bool {
    ||| (l == 1024 && n == 160)
    ||| (l == 2048 && n == 224)
    ||| (l == 2048 && n == 256)
    ||| (l == 3072 && n == 256)
}

impl KeySize {
    /// The bit length of `p`.
    pub open spec fn spec_l(self) -> u32 {
        match self {
            KeySize::DSA_1024_160 => 1024,
            KeySize::DSA_2048_224 => 2048,
            KeySize::DSA_2048_256 => 2048,
            KeySize::DSA_3072_256 => 3072,
        }
    }

    /// The bit length of `q`.
    pub open spec fn spec_n(self) -> u32 {
        match self {
            KeySize::DSA_1024_160 => 160,
            KeySize::DSA_2048_224 => 224,
            KeySize::DSA_2048_256 => 256,
            KeySize::DSA_3072_256 => 256,
        }
    }

    /// The key size with the given bit lengths, or `UnsupportedSize` where
    /// the pair is not approved.
    pub fn new(l: u32, n: u32) -> (r: Result<KeySize, Error>)
        ensures
            approved(l, n) <==> r is Ok,
            r matches Ok(size) ==> size.spec_l() == l && size.spec_n() == n,
            r matches Err(e) ==> e == Error::UnsupportedSize,
    {
        if l == 1024 && n == 160 {
            Ok(KeySize::DSA_1024_160)
        } else if l == 2048 && n == 224 {
            Ok(KeySize::DSA_2048_224)
        } else if l == 2048 && n == 256 {
            Ok(KeySize::DSA_2048_256)
        } else if l == 3072 && n == 256 {
            Ok(KeySize::DSA_3072_256)
        } else {
            Err(Error::UnsupportedSize)
        }
    }

    /// The bit length of `p`.
    #[verifier::when_used_as_spec(spec_l)]
    pub fn l(self) -> (bits: u32)
        ensures
            bits == self.spec_l(),
            approved(bits, self.spec_n()),
    {
        match self {
            KeySize::DSA_1024_160 => 1024,
            KeySize::DSA_2048_224 => 2048,
            KeySize::DSA_2048_256 => 2048,
            KeySize::DSA_3072_256 => 3072,
        }
    }

    /// The bit length of `q`.
    #[verifier::when_used_as_spec(spec_n)]
    pub fn n(self) -> (bits: u32)
        ensures
            bits == self.spec_n(),
            approved(self.spec_l(), bits),
    {
        match self {
            KeySize::DSA_1024_160 => 160,
            KeySize::DSA_2048_224 => 224,
            KeySize::DSA_2048_256 => 256,
            KeySize::DSA_3072_256 => 256,
        }
    }
}

} // verus!
