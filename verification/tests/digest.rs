use dsa::bits::power_of_two;
use dsa::digest::truncate;
use num_bigint_dig::BigUint;

fn big(v: u64) -> BigUint {
    BigUint::from(v)
}

#[test]
fn short_digest_is_taken_whole() {
    assert_eq!(truncate(&[], 160), big(0));
    assert_eq!(truncate(&[0xab], 160), big(0xab));
    assert_eq!(truncate(&[0x01, 0x02, 0x03], 24), big(0x010203));
    assert_eq!(truncate(&[0x01, 0x02, 0x03], 25), big(0x010203));
    assert_eq!(truncate(&[0xff, 0xff], 16), big(0xffff));
}

#[test]
fn long_digest_keeps_its_leftmost_bits() {
    assert_eq!(truncate(&[0xab, 0xcd, 0xef], 16), big(0xabcd));
    assert_eq!(truncate(&[0xab, 0xcd, 0xef], 8), big(0xab));
    assert_eq!(truncate(&[0xab, 0xcd, 0xef], 12), big(0xabc));
    assert_eq!(truncate(&[0xab, 0xcd, 0xef], 4), big(0xa));
    assert_eq!(truncate(&[0xab, 0xcd, 0xef], 1), big(1));
    assert_eq!(truncate(&[0xab, 0xcd, 0xef], 23), big(0xabcdef >> 1));
    assert_eq!(truncate(&[0xab, 0xcd, 0xef], 0), big(0));
    assert_eq!(truncate(&[0x90], 4), big(9));
}

#[test]
fn sha256_digest_under_a_160_bit_order_keeps_twenty_bytes() {
    let digest: Vec<u8> = (1..=32).collect();
    assert_eq!(truncate(&digest, 160), BigUint::from_bytes_be(&digest[..20]));
    assert_eq!(truncate(&digest, 256), BigUint::from_bytes_be(&digest));
    assert_eq!(truncate(&digest, 224), BigUint::from_bytes_be(&digest[..28]));
}

#[test]
fn powers_of_two() {
    assert_eq!(power_of_two(0), big(1));
    assert_eq!(power_of_two(1), big(2));
    assert_eq!(power_of_two(10), big(1024));
    assert_eq!(power_of_two(63), big(1 << 63));
    assert_eq!(power_of_two(200), BigUint::from(1u32) << 200);
}
