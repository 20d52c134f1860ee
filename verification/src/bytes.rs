//! Big-endian byte strings as numbers.

use vstd::arithmetic::div_mod::*;
use vstd::arithmetic::power2::*;
use vstd::prelude::*;

verus! {

/// The number that a big-endian byte string denotes; the empty string
/// denotes zero.
pub open spec fn be_nat(bytes: Seq<u8>) -> nat
    decreases bytes.len(),
{
    if bytes.len() == 0 {
        0
    } else {
        be_nat(bytes.drop_last()) * 256 + bytes.last() as nat
    }
}

/// The shortest big-endian byte string for `v`; for zero it is empty.
pub open spec fn be_bytes(v: nat) -> Seq<u8>
    decreases v,
{
    if v == 0 {
        Seq::empty()
    } else {
        be_bytes(v / 256).push((v % 256) as u8)
    }
}

/// Dropping the last byte of a string divides its number by 256.
pub proof fn lemma_be_nat_drop_last(bytes: Seq<u8>)
    requires
        bytes.len() > 0,
    ensures
        be_nat(bytes.drop_last()) == be_nat(bytes) / 256,
        bytes.last() as nat == be_nat(bytes) % 256,
{
    let high = be_nat(bytes.drop_last()) as int;
    let low = bytes.last() as int;
    lemma_fundamental_div_mod_converse(high * 256 + low, 256, high, low);
}

/// A string of `n` bytes denotes a number below `2^(8n)`.
pub proof fn lemma_be_nat_bound(bytes: Seq<u8>)
    ensures
        be_nat(bytes) < pow2(8 * bytes.len()),
    decreases bytes.len(),
{
    if bytes.len() == 0 {
        lemma2_to64();
    } else {
        lemma_be_nat_bound(bytes.drop_last());
        lemma_pow2_adds(8 * (bytes.len() - 1) as nat, 8);
        lemma2_to64();
    }
}

/// A string that does not start with a zero byte denotes a number of at
/// least `2^(8(n-1))`.
pub proof fn lemma_be_nat_lower_bound(bytes: Seq<u8>)
    requires
        bytes.len() > 0,
        bytes[0] != 0,
    ensures
        be_nat(bytes) >= pow2(8 * (bytes.len() - 1) as nat) * bytes[0] as nat,
        be_nat(bytes) >= pow2(8 * (bytes.len() - 1) as nat),
        be_nat(bytes) > 0,
    decreases bytes.len(),
{
    lemma_pow2_pos(8 * (bytes.len() - 1) as nat);
    if bytes.len() == 1 {
        assert(bytes.drop_last().len() == 0);
        assert(be_nat(bytes.drop_last()) == 0);
        lemma2_to64();
    } else {
        let front = bytes.drop_last();
        assert(front[0] == bytes[0]);
        lemma_be_nat_lower_bound(front);
        lemma_pow2_adds(8 * (front.len() - 1) as nat, 8);
        lemma2_to64();
        let low = pow2(8 * (front.len() - 1) as nat) as int;
        let first = bytes[0] as int;
        assert((low * first) * 256 == (low * 256) * first) by (nonlinear_arith);
        assert(low * 256 * first >= low * 256) by (nonlinear_arith)
            requires
                first >= 1,
                low >= 0,
        ;
    }
}

/// Keeping the first `k` bytes of a string divides its number by
/// `2^(8j)`, where `j` is the number of bytes left out.
pub proof fn lemma_be_nat_prefix(bytes: Seq<u8>, k: int)
    requires
        0 <= k <= bytes.len(),
    ensures
        be_nat(bytes.subrange(0, k)) == be_nat(bytes) / pow2(8 * (bytes.len() - k) as nat),
    decreases bytes.len() - k,
{
    if k == bytes.len() {
        assert(bytes.subrange(0, k) =~= bytes);
        lemma2_to64();
        assert(be_nat(bytes) / 1 == be_nat(bytes));
    } else {
        let front = bytes.drop_last();
        let j = (bytes.len() - 1 - k) as nat;
        assert(bytes.subrange(0, k) =~= front.subrange(0, k));
        lemma_be_nat_prefix(front, k);
        lemma_be_nat_drop_last(bytes);
        // dividing by 256 and then by 2^(8j) is dividing by 2^(8 + 8j)
        lemma_pow2_pos(8 * j);
        lemma_div_denominator(be_nat(bytes) as int, 256, pow2(8 * j) as int);
        lemma_pow2_adds(8, 8 * j);
        lemma2_to64();
        assert(pow2(8 + 8 * j) == 256 * pow2(8 * j));
    }
}

/// A leading zero byte does not change the number.
pub proof fn lemma_be_nat_leading_zero(bytes: Seq<u8>)
    ensures
        be_nat(seq![0u8] + bytes) == be_nat(bytes),
    decreases bytes.len(),
{
    let padded = seq![0u8] + bytes;
    if bytes.len() == 0 {
        assert(padded.drop_last().len() == 0);
        assert(be_nat(padded) == be_nat(padded.drop_last()) * 256 + padded.last() as nat);
    } else {
        assert(padded.drop_last() =~= seq![0u8] + bytes.drop_last());
        assert(padded.last() == bytes.last());
        lemma_be_nat_leading_zero(bytes.drop_last());
    }
}

/// The shortest form of `v` denotes `v`.
pub proof fn lemma_be_bytes_value(v: nat)
    ensures
        be_nat(be_bytes(v)) == v,
    decreases v,
{
    if v > 0 {
        let front = be_bytes(v / 256);
        lemma_be_bytes_value(v / 256);
        assert(be_bytes(v).drop_last() =~= front);
    }
}

/// The shortest form of a positive number is not empty and does not begin
/// with a zero byte.
pub proof fn lemma_be_bytes_minimal(v: nat)
    requires
        v > 0,
    ensures
        be_bytes(v).len() > 0,
        be_bytes(v)[0] != 0,
    decreases v,
{
    if v >= 256 {
        lemma_be_bytes_minimal(v / 256);
    } else {
        assert(be_bytes(v / 256) =~= Seq::<u8>::empty());
    }
}

/// A byte string that does not begin with a zero byte is the shortest form
/// of its number.
pub proof fn lemma_be_bytes_of_be_nat(bytes: Seq<u8>)
    requires
        bytes.len() == 0 || bytes[0] != 0,
    ensures
        be_bytes(be_nat(bytes)) == bytes,
    decreases bytes.len(),
{
    if bytes.len() == 0 {
        assert(be_bytes(0) =~= bytes);
    } else {
        let front = bytes.drop_last();
        lemma_be_nat_lower_bound(bytes);
        lemma_be_nat_drop_last(bytes);
        if front.len() > 0 {
            assert(front[0] == bytes[0]);
        }
        lemma_be_bytes_of_be_nat(front);
        assert(front.push(bytes.last()) =~= bytes);
    }
}

/// A number below `2^(8n)` has a shortest form of at most `n` bytes.
pub proof fn lemma_be_bytes_len(v: nat, n: nat)
    requires
        v < pow2(8 * n),
    ensures
        be_bytes(v).len() <= n,
{
    if v > 0 {
        let m = be_bytes(v);
        lemma_be_bytes_minimal(v);
        lemma_be_bytes_value(v);
        lemma_be_nat_lower_bound(m);
        if m.len() > n {
            if m.len() - 1 > n {
                lemma_pow2_strictly_increases(8 * n, 8 * (m.len() - 1) as nat);
            }
        }
    }
}

/// A single byte denotes itself.
pub proof fn lemma_be_nat_single(bytes: Seq<u8>)
    requires
        bytes.len() == 1,
    ensures
        be_nat(bytes) == bytes[0],
{
    assert(bytes.drop_last().len() == 0);
    assert(be_nat(bytes) == be_nat(bytes.drop_last()) * 256 + bytes.last() as nat);
}

/// A byte string that has no zero byte in front, unless it is a single
/// byte, is the shortest form of its number, or the single zero byte where
/// the number is zero.
pub proof fn lemma_shortest_form(bytes: Seq<u8>)
    requires
        bytes.len() >= 1,
        bytes.len() > 1 ==> bytes[0] != 0,
    ensures
        be_nat(bytes) == 0 ==> bytes == seq![0u8],
        be_nat(bytes) > 0 ==> bytes == be_bytes(be_nat(bytes)),
{
    if bytes.len() == 1 {
        lemma_be_nat_single(bytes);
    }
    if bytes[0] != 0 {
        lemma_be_nat_lower_bound(bytes);
        lemma_be_bytes_of_be_nat(bytes);
    } else {
        assert(bytes =~= seq![0u8]);
    }
}

} // verus!
