//! A signature: the pair of positive integers `r` and `s`.

use num_bigint_dig::BigUint;
use vstd::arithmetic::power2::*;
use vstd::prelude::*;
use vstd::slice::slice_subrange;

use crate::bignum::less_than;
use crate::bignum::one;
use crate::bignum::val;
use crate::bytes::lemma_be_bytes_len;
use crate::der::encoded_integer;
use crate::der::encoded_length;
use crate::der::integer_content;
use crate::der::lemma_parse_encoded_integer;
use crate::der::lemma_parse_encoded_length;
use crate::der::lemma_parsed_integer_is_encoded;
use crate::der::lemma_parsed_length_is_encoded;
use crate::der::length_encodable;
use crate::der::parse_header;
use crate::der::parse_integer;
use crate::der::parse_length;
use crate::der::read_header;
use crate::der::read_integer;
use crate::der::write_integer;
use crate::der::write_length;
use crate::der::TAG_SEQUENCE;
use crate::error::Error;

verus! {

/// The numbers that a signature holds.
pub struct Scalars {
    /// The first integer.
    pub r: nat,
    /// The second integer.
    pub s: nat,
}

impl Scalars {
    /// Both integers are positive.
    pub open spec fn positive(self) -> bool {
        self.r > 0 && self.s > 0
    }

    /// Both integers lie strictly between zero and `q`.
    pub open spec fn in_range(self, q: nat) -> bool {
        0 < self.r < q && 0 < self.s < q
    }
}

/// The longest encoding that is written or read, in bytes.
pub const MAX_LENGTH: usize = 0x0fff_ffff;

/// The content of the sequence: the encoding of `r`, then that of `s`.
pub open spec fn encoded_body(sig: Scalars) -> Seq<u8> {
    encoded_integer(sig.r) + encoded_integer(sig.s)
}

/// The encoding of a signature: a sequence of the two integers `r` and `s`.
pub open spec fn encoded_signature(sig: Scalars) -> Seq<u8> {
    seq![TAG_SEQUENCE] + encoded_length(encoded_body(sig).len()) + encoded_body(sig)
}

/// The signature has an encoding: its integers are positive and the
/// encoding is not longer than `MAX_LENGTH`.
pub open spec fn encodable(sig: Scalars) -> bool {
    sig.positive() && encoded_signature(sig).len() <= MAX_LENGTH
}

/// `bytes` is the encoding of `sig`.
pub open spec fn is_encoding(bytes: Seq<u8>, sig: Scalars) -> bool {
    encodable(sig) && bytes == encoded_signature(sig)
}

/// Reads a signature: a sequence that takes up all of `b` and holds two
/// positive integers and nothing else.
pub open spec fn parse_signature(b: Seq<u8>) -> Option<Scalars> {
    if b.len() > MAX_LENGTH {
        None
    } else {
        match parse_header(b, TAG_SEQUENCE) {
            None => None,
            Some((start, end)) => if end != b.len() {
                None
            } else {
                let body = b.subrange(start, end);
                match parse_integer(body) {
                    None => None,
                    Some((r, mid)) => match parse_integer(body.skip(mid)) {
                        None => None,
                        Some((s, used)) => if mid + used != body.len() || r == 0 || s == 0 {
                            None
                        } else {
                            Some(Scalars { r, s })
                        },
                    },
                }
            },
        }
    }
}

/// A length of at most `MAX_LENGTH` has length octets.
proof fn lemma_short_length_encodable(n: nat)
    requires
        n <= MAX_LENGTH,
    ensures
        length_encodable(n),
{
    lemma2_to64();
    lemma_be_bytes_len(n, 4);
}

/// Decoding undoes encoding: the encoding of a signature is read back as
/// that signature.
pub proof fn lemma_decode_encode(sig: Scalars)
    requires
        encodable(sig),
    ensures
        parse_signature(encoded_signature(sig)) == Some(sig),
{
    let body = encoded_body(sig);
    let b = encoded_signature(sig);
    let len_octets = encoded_length(body.len());
    lemma_short_length_encodable(body.len());
    lemma_short_length_encodable(integer_content(sig.r).len());
    lemma_short_length_encodable(integer_content(sig.s).len());
    // the header
    assert(b.skip(1) =~= len_octets + body);
    lemma_parse_encoded_length(body.len(), body);
    let start = 1 + len_octets.len();
    assert(parse_header(b, TAG_SEQUENCE) == Some((start as int, b.len() as int)));
    assert(b.subrange(start as int, b.len() as int) =~= body);
    // the two integers
    lemma_parse_encoded_integer(sig.r, encoded_integer(sig.s));
    let mid = encoded_integer(sig.r).len();
    assert(body.skip(mid as int) =~= encoded_integer(sig.s) + Seq::<u8>::empty());
    lemma_parse_encoded_integer(sig.s, Seq::<u8>::empty());
}

/// Encoding undoes decoding: bytes that are read as a signature are the
/// encoding of that signature, so that encoding it again gives the same
/// bytes.
pub proof fn lemma_encode_decode(b: Seq<u8>)
    requires
        parse_signature(b) is Some,
    ensures
        is_encoding(b, parse_signature(b)->Some_0),
{
    let sig = parse_signature(b)->Some_0;
    let (start, end) = parse_header(b, TAG_SEQUENCE)->Some_0;
    let body = b.subrange(start, end);
    let (r, mid) = parse_integer(body)->Some_0;
    let (s, used) = parse_integer(body.skip(mid))->Some_0;
    lemma_parsed_integer_is_encoded(body);
    lemma_parsed_integer_is_encoded(body.skip(mid));
    assert(body.skip(mid).subrange(0, used) =~= body.subrange(mid, mid + used));
    assert(body =~= body.subrange(0, mid) + body.subrange(mid, mid + used));
    assert(body == encoded_body(sig));
    lemma_parsed_length_is_encoded(b.skip(1));
    let (n, len_used) = parse_length(b.skip(1))->Some_0;
    assert(b.skip(1).subrange(0, len_used) =~= b.subrange(1, 1 + len_used));
    assert(b =~= seq![TAG_SEQUENCE] + b.subrange(1, 1 + len_used) + body);
}

/// No two signatures have the same encoding.
pub proof fn lemma_encoding_injective(a: Scalars, b: Scalars)
    requires
        encodable(a),
        encodable(b),
        encoded_signature(a) == encoded_signature(b),
    ensures
        a == b,
{
    lemma_decode_encode(a);
    lemma_decode_encode(b);
}

/// A signature whose two integers are positive. That they are below the
/// subgroup order is checked when the signature is verified, against the
/// key at hand.
#[derive(Debug, PartialEq, Eq)]
pub struct Signature {
    r: BigUint,
    s: BigUint,
}

impl View for Signature {
    type V = Scalars;

    closed spec fn view(&self) -> Scalars {
        Scalars { r: val(self.r), s: val(self.s) }
    }
}

impl Clone for Signature {
    fn clone(&self) -> (copy: Self)
        ensures
            copy@ == self@,
    {
        proof {
            use_type_invariant(self);
        }
        Signature { r: self.r.clone(), s: self.s.clone() }
    }
}

impl Signature {
    #[verifier::type_invariant]
    pub open spec fn inv(self) -> bool {
        self@.positive()
    }

    /// The signature with the given integers, or `None` where one of them
    /// is zero.
    pub fn from_components(r: BigUint, s: BigUint) -> (sig: Option<Signature>)
        ensures
            sig is Some <==> val(r) > 0 && val(s) > 0,
            sig matches Some(signature) ==> signature@ == (Scalars { r: val(r), s: val(s) }),
    {
        let unit = one();
        if less_than(&r, &unit) || less_than(&s, &unit) {
            return None;
        }
        Some(Signature { r, s })
    }

    /// Decodes a signature. The bytes are accepted if and only if they are
    /// the encoding of a signature: anything else in them, be it a third
    /// field, bytes after the sequence, a negative or zero integer, or a
    /// length or an integer that is not in its shortest form, gives
    /// `MalformedSignatureEncoding`.
    pub fn from_der(bytes: &[u8]) -> (r: Result<Signature, Error>)
        ensures
            r matches Ok(sig) ==> is_encoding(bytes@, sig@) && parse_signature(bytes@) == Some(sig@),
            r matches Err(e) ==> {
                &&& e == Error::MalformedSignatureEncoding
                &&& parse_signature(bytes@) is None
                &&& forall|sig: Scalars| !is_encoding(bytes@, sig)
            },
    {
        proof {
            if parse_signature(bytes@) is Some {
                lemma_encode_decode(bytes@);
            }
            assert forall|sig: Scalars| is_encoding(bytes@, sig) implies parse_signature(bytes@)
                == Some(sig) by {
                lemma_decode_encode(sig);
            }
        }
        if bytes.len() > MAX_LENGTH {
            return Err(Error::MalformedSignatureEncoding);
        }
        let (start, end) = match read_header(bytes, TAG_SEQUENCE) {
            Some(range) => range,
            None => {
                return Err(Error::MalformedSignatureEncoding);
            },
        };
        if end != bytes.len() {
            return Err(Error::MalformedSignatureEncoding);
        }
        let body = slice_subrange(bytes, start, end);
        let (r, mid) = match read_integer(body) {
            Some(read) => read,
            None => {
                return Err(Error::MalformedSignatureEncoding);
            },
        };
        proof {
            lemma_parsed_integer_is_encoded(body@);
        }
        let rest = slice_subrange(body, mid, body.len());
        let (s, used) = match read_integer(rest) {
            Some(read) => read,
            None => {
                return Err(Error::MalformedSignatureEncoding);
            },
        };
        proof {
            lemma_parsed_integer_is_encoded(rest@);
        }
        if used != rest.len() {
            return Err(Error::MalformedSignatureEncoding);
        }
        match Signature::from_components(r, s) {
            Some(sig) => Ok(sig),
            None => Err(Error::MalformedSignatureEncoding),
        }
    }

    /// Encodes the signature, or gives `None` where the encoding would be
    /// longer than `MAX_LENGTH`.
    pub fn to_vec(&self) -> (r: Option<Vec<u8>>)
        ensures
            r is Some <==> encodable(self@),
            r matches Some(bytes) ==> bytes@ == encoded_signature(self@),
    {
        proof {
            use_type_invariant(self);
        }
        let mut body: Vec<u8> = Vec::new();
        write_integer(&mut body, &self.r);
        write_integer(&mut body, &self.s);
        assert(body@ =~= encoded_body(self@));
        let mut out: Vec<u8> = Vec::new();
        out.push(TAG_SEQUENCE);
        write_length(&mut out, body.len());
        out.append(&mut body);
        assert(out@ =~= encoded_signature(self@));
        if out.len() > MAX_LENGTH {
            None
        } else {
            Some(out)
        }
    }

    /// The first integer of the signature.
    pub fn r(&self) -> (r: &BigUint)
        ensures
            val(*r) == self@.r,
            self@.positive(),
    {
        proof {
            use_type_invariant(self);
        }
        &self.r
    }

    /// The second integer of the signature.
    pub fn s(&self) -> (s: &BigUint)
        ensures
            val(*s) == self@.s,
            self@.positive(),
    {
        proof {
            use_type_invariant(self);
        }
        &self.s
    }
}

} // verus!
