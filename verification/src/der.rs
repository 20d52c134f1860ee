//! The tag, length and value layout of the distinguished encoding rules, as
//! far as a signature needs it: definite lengths, and non-negative integers
//! in their shortest form.

use num_bigint_dig::BigUint;
use vstd::arithmetic::power2::*;
use vstd::prelude::*;
use vstd::slice::slice_subrange;

use crate::bignum::from_be_bytes;
use crate::bignum::to_be_bytes;
use crate::bignum::val;
use crate::bytes::be_bytes;
use crate::bytes::be_nat;
use crate::bytes::lemma_be_bytes_len;
use crate::bytes::lemma_be_bytes_minimal;
use crate::bytes::lemma_be_bytes_of_be_nat;
use crate::bytes::lemma_be_bytes_value;
use crate::bytes::lemma_be_nat_bound;
use crate::bytes::lemma_be_nat_leading_zero;
use crate::bytes::lemma_be_nat_lower_bound;
use crate::bytes::lemma_be_nat_single;
use crate::bytes::lemma_shortest_form;

verus! {

/// The tag of an integer.
pub const TAG_INTEGER: u8 = 0x02;

/// The tag of a sequence.
pub const TAG_SEQUENCE: u8 = 0x30;

/// The length octets for a content of `n` bytes: one octet below 128, else
/// the count of the octets that follow, with the top bit set, and then the
/// length in its shortest big-endian form.
pub open spec fn encoded_length(n: nat) -> Seq<u8> {
    if n < 128 {
        seq![n as u8]
    } else {
        seq![(128 + be_bytes(n).len()) as u8] + be_bytes(n)
    }
}

/// A length has length octets if its shortest form takes at most 126
/// bytes.
pub open spec fn length_encodable(n: nat) -> bool {
    be_bytes(n).len() < 127
}

/// The content octets of the integer `v`: its shortest big-endian form,
/// after a zero byte where that form would begin with the top bit set; for
/// zero a single zero byte.
pub open spec fn integer_content(v: nat) -> Seq<u8> {
    if v == 0 {
        seq![0u8]
    } else if be_bytes(v)[0] >= 128 {
        seq![0u8] + be_bytes(v)
    } else {
        be_bytes(v)
    }
}

/// The encoding of the integer `v`: tag, length octets, content octets.
pub open spec fn encoded_integer(v: nat) -> Seq<u8> {
    seq![TAG_INTEGER] + encoded_length(integer_content(v).len()) + integer_content(v)
}

/// Reads length octets at the start of `b`: the length, and how many
/// octets state it. Only the shortest form is read.
pub open spec fn parse_length(b: Seq<u8>) -> Option<(nat, int)> {
    if b.len() == 0 {
        None
    } else if b[0] < 128 {
        Some((b[0] as nat, 1))
    } else {
        let k = b[0] - 128;
        if k == 0 || k == 127 || b.len() < 1 + k {
            None
        } else {
            let digits = b.subrange(1, 1 + k);
            if digits[0] == 0 || be_nat(digits) < 128 {
                None
            } else {
                Some((be_nat(digits), 1 + k))
            }
        }
    }
}

/// Reads a tag and length octets at the start of `b`, where the content
/// that they announce lies within `b`: the offsets at which the content
/// begins and ends.
pub open spec fn parse_header(b: Seq<u8>, tag: u8) -> Option<(int, int)> {
    if b.len() == 0 || b[0] != tag {
        None
    } else {
        match parse_length(b.skip(1)) {
            None => None,
            Some((n, used)) => if 1 + used + n > b.len() {
                None
            } else {
                Some((1 + used, 1 + used + n))
            },
        }
    }
}

/// Reads an integer at the start of `b`: its value, and the offset at which
/// its encoding ends. Negative integers and integers with a needless
/// leading zero byte are not read.
pub open spec fn parse_integer(b: Seq<u8>) -> Option<(nat, int)> {
    match parse_header(b, TAG_INTEGER) {
        None => None,
        Some((start, end)) => {
            let content = b.subrange(start, end);
            if content.len() == 0 {
                None
            } else if content[0] >= 128 {
                None
            } else if content[0] == 0 && content.len() > 1 && content[1] < 128 {
                None
            } else {
                Some((be_nat(content), end))
            }
        },
    }
}

/// Length octets, whatever follows them, are read back as the length they
/// were made from.
pub proof fn lemma_parse_encoded_length(n: nat, rest: Seq<u8>)
    requires
        length_encodable(n),
    ensures
        parse_length(encoded_length(n) + rest) == Some((n, encoded_length(n).len() as int)),
{
    let b = encoded_length(n) + rest;
    if n >= 128 {
        let digits = be_bytes(n);
        lemma_be_bytes_minimal(n);
        lemma_be_bytes_value(n);
        assert(b[0] == 128 + digits.len());
        assert(b.subrange(1, 1 + digits.len() as int) =~= digits);
    } else {
        assert(b[0] == n);
    }
}

/// What is read as length octets is the length octets of the length read.
pub proof fn lemma_parsed_length_is_encoded(b: Seq<u8>)
    requires
        parse_length(b) is Some,
    ensures
        ({
            let (n, used) = parse_length(b)->Some_0;
            &&& 0 < used <= b.len()
            &&& length_encodable(n)
            &&& b.subrange(0, used) == encoded_length(n)
        }),
{
    let (n, used) = parse_length(b)->Some_0;
    if b[0] < 128 {
        assert(b.subrange(0, 1) =~= seq![b[0]]);
        if n > 0 {
            assert(be_bytes(n / 256) =~= Seq::<u8>::empty());
        }
    } else {
        let k = b[0] - 128;
        let digits = b.subrange(1, 1 + k);
        lemma_be_bytes_of_be_nat(digits);
        assert(b.subrange(0, used) =~= seq![b[0]] + digits);
    }
}

/// The content octets of an integer denote it, are not empty, do not have
/// the top bit set in the first byte, and have no needless zero byte in
/// front.
pub proof fn lemma_integer_content(v: nat)
    ensures
        be_nat(integer_content(v)) == v,
        integer_content(v).len() > 0,
        integer_content(v)[0] < 128,
        integer_content(v)[0] == 0 && integer_content(v).len() > 1 ==> integer_content(v)[1] >= 128,
{
    let content = integer_content(v);
    if v == 0 {
        lemma_be_nat_single(content);
    } else {
        lemma_be_bytes_minimal(v);
        lemma_be_bytes_value(v);
        if be_bytes(v)[0] >= 128 {
            lemma_be_nat_leading_zero(be_bytes(v));
        }
    }
}

/// The encoding of an integer, whatever follows it, is read back as the
/// integer.
pub proof fn lemma_parse_encoded_integer(v: nat, rest: Seq<u8>)
    requires
        length_encodable(integer_content(v).len()),
    ensures
        parse_integer(encoded_integer(v) + rest) == Some((v, encoded_integer(v).len() as int)),
{
    let content = integer_content(v);
    let len_octets = encoded_length(content.len());
    let b = encoded_integer(v) + rest;
    lemma_integer_content(v);
    assert(b.skip(1) =~= len_octets + (content + rest));
    lemma_parse_encoded_length(content.len(), content + rest);
    let start = 1 + len_octets.len();
    let end = start + content.len();
    assert(parse_header(b, TAG_INTEGER) == Some((start as int, end as int)));
    assert(b.subrange(start as int, end as int) =~= content);
}

/// What is read as an integer is the encoding of the integer read.
pub proof fn lemma_parsed_integer_is_encoded(b: Seq<u8>)
    requires
        parse_integer(b) is Some,
    ensures
        ({
            let (v, end) = parse_integer(b)->Some_0;
            &&& 0 < end <= b.len()
            &&& length_encodable(integer_content(v).len())
            &&& b.subrange(0, end) == encoded_integer(v)
        }),
{
    let (v, end) = parse_integer(b)->Some_0;
    let (start, stop) = parse_header(b, TAG_INTEGER)->Some_0;
    let content = b.subrange(start, end);
    // the content octets are those of `v`
    if content[0] == 0 {
        if content.len() > 1 {
            let tail = content.skip(1);
            assert(content =~= seq![0u8] + tail);
            lemma_be_nat_leading_zero(tail);
            lemma_be_bytes_of_be_nat(tail);
            lemma_be_nat_lower_bound(tail);
        } else {
            assert(content =~= seq![0u8]);
            lemma_integer_content(0);
        }
    } else {
        lemma_be_bytes_of_be_nat(content);
        lemma_be_nat_lower_bound(content);
    }
    assert(integer_content(v) == content);
    // the length octets are those of the content's length
    lemma_parsed_length_is_encoded(b.skip(1));
    let (n, used) = parse_length(b.skip(1))->Some_0;
    assert(b.skip(1).subrange(0, used) =~= b.subrange(1, 1 + used));
    assert(b.subrange(0, end) =~= seq![TAG_INTEGER] + b.subrange(1, 1 + used) + content);
}

/// The shortest big-endian form of a length.
fn shortest_bytes(n: usize) -> (digits: Vec<u8>)
    ensures
        digits@ == be_bytes(n as nat),
        digits@.len() <= 8,
{
    let mut digits: Vec<u8> = Vec::new();
    let mut rest: usize = n;
    while rest > 0
        invariant
            be_bytes(n as nat) =~= be_bytes(rest as nat) + digits@,
        decreases rest,
    {
        let low: u8 = (rest % 256) as u8;
        proof {
            let front = be_bytes((rest / 256) as nat);
            assert(be_bytes(rest as nat) == front.push(low));
            assert(front.push(low) + digits@ =~= front + digits@.insert(0, low));
        }
        digits.insert(0, low);
        rest = rest / 256;
    }
    proof {
        lemma2_to64_rest();
        lemma_be_bytes_len(n as nat, 8);
    }
    digits
}

/// Appends the length octets for a content of `n` bytes.
pub fn write_length(out: &mut Vec<u8>, n: usize)
    ensures
        final(out)@ == old(out)@ + encoded_length(n as nat),
{
    if n < 128 {
        out.push(n as u8);
        assert(out@ =~= old(out)@ + encoded_length(n as nat));
    } else {
        let mut digits = shortest_bytes(n);
        let count: u8 = (128 + digits.len()) as u8;
        out.push(count);
        out.append(&mut digits);
        assert(out@ =~= old(out)@ + encoded_length(n as nat));
    }
}

/// Appends the encoding of an integer.
pub fn write_integer(out: &mut Vec<u8>, v: &BigUint)
    ensures
        final(out)@ == old(out)@ + encoded_integer(val(*v)),
{
    let mut magnitude = to_be_bytes(v);
    let mut content: Vec<u8> = Vec::new();
    if magnitude[0] >= 128 {
        content.push(0);
    }
    proof {
        lemma_shortest_form(magnitude@);
    }
    content.append(&mut magnitude);
    assert(content@ =~= integer_content(val(*v)));
    out.push(TAG_INTEGER);
    write_length(out, content.len());
    out.append(&mut content);
    assert(out@ =~= old(out)@ + encoded_integer(val(*v)));
}

/// Reads a tag and length octets at the start of `b` and checks that the
/// content they announce lies within `b`: the offsets at which the content
/// begins and ends.
pub fn read_header(b: &[u8], tag: u8) -> (r: Option<(usize, usize)>)
    ensures
        r matches Some((start, end)) ==> parse_header(b@, tag) == Some((start as int, end as int)),
        r is None ==> parse_header(b@, tag) is None,
{
    if b.len() == 0 || b[0] != tag {
        return None;
    }
    let ghost tail = b@.skip(1);
    if b.len() == 1 {
        return None;
    }
    let first = b[1];
    assert(tail[0] == first);
    if first < 128 {
        let n = first as usize;
        if n > b.len() - 2 {
            return None;
        }
        return Some((2, 2 + n));
    }
    let k = (first - 128) as usize;
    if k == 0 || k == 127 || b.len() - 1 < 1 + k {
        return None;
    }
    let ghost digits = tail.subrange(1, 1 + k);
    assert(digits =~= b@.subrange(2, 2 + k));
    if b[2] == 0 {
        return None;
    }
    if k > 8 {
        proof {
            lemma_be_nat_lower_bound(digits);
            lemma2_to64_rest();
            if k > 9 {
                lemma_pow2_strictly_increases(64, 8 * (k - 1) as nat);
            }
        }
        return None;
    }
    let mut n: u64 = 0;
    let mut i: usize = 0;
    proof {
        lemma2_to64();
        assert(b@.subrange(2, 2) =~= Seq::<u8>::empty());
    }
    while i < k
        invariant
            i <= k <= 8,
            2 + k <= b.len(),
            n == be_nat(b@.subrange(2, 2 + i)),
            n < pow2(8 * i as nat),
        decreases k - i,
    {
        proof {
            let next = b@.subrange(2, 2 + i + 1);
            assert(next.drop_last() =~= b@.subrange(2, 2 + i));
            assert(next.last() == b@[2 + i]);
            lemma_be_nat_bound(next);
            lemma2_to64_rest();
            if i + 1 < 8 {
                lemma_pow2_strictly_increases(8 * (i + 1) as nat, 64);
            }
            lemma_pow2_adds(8 * i as nat, 8);
            lemma2_to64();
        }
        n = n * 256 + b[2 + i] as u64;
        i = i + 1;
    }
    if n < 128 {
        return None;
    }
    let start = 2 + k;
    if n > (b.len() - start) as u64 {
        return None;
    }
    Some((start, start + n as usize))
}

/// Reads an integer at the start of `b`: its value, and the offset at which
/// its encoding ends.
pub fn read_integer(b: &[u8]) -> (r: Option<(BigUint, usize)>)
    ensures
        r matches Some((v, end)) ==> parse_integer(b@) == Some((val(v), end as int)),
        r is None ==> parse_integer(b@) is None,
{
    let (start, end) = match read_header(b, TAG_INTEGER) {
        Some(range) => range,
        None => {
            return None;
        },
    };
    if start == end {
        return None;
    }
    let ghost content = b@.subrange(start as int, end as int);
    assert(content[0] == b@[start as int]);
    let first = b[start];
    if first >= 128 {
        return None;
    }
    if first == 0 && end - start > 1 {
        assert(content[1] == b@[start + 1]);
        if b[start + 1] < 128 {
            return None;
        }
    }
    let v = from_be_bytes(slice_subrange(b, start, end));
    Some((v, end))
}

} // verus!
