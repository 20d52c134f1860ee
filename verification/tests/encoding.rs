use der::asn1::UintRef;
use der::Decode;
use der::Encode;
use dsa::der::read_header;
use dsa::der::read_integer;
use dsa::der::write_integer;
use dsa::der::write_length;
use dsa::Error;
use dsa::Signature;
use num_bigint_dig::BigUint;

fn big(v: u64) -> BigUint {
    BigUint::from(v)
}

fn signature(r: u64, s: u64) -> Signature {
    Signature::from_components(big(r), big(s)).expect("positive integers")
}

fn malformed(bytes: &[u8]) -> bool {
    Signature::from_der(bytes) == Err(Error::MalformedSignatureEncoding)
}

#[test]
fn small_signature_has_the_expected_bytes() {
    let encoded = signature(1, 2).to_vec().expect("short enough");
    assert_eq!(encoded, vec![0x30, 0x06, 0x02, 0x01, 0x01, 0x02, 0x01, 0x02]);
    assert_eq!(Signature::from_der(&encoded), Ok(signature(1, 2)));
}

#[test]
fn integer_with_top_bit_gets_a_zero_byte() {
    let encoded = signature(0x80, 0x7f).to_vec().expect("short enough");
    assert_eq!(encoded, vec![0x30, 0x07, 0x02, 0x02, 0x00, 0x80, 0x02, 0x01, 0x7f]);
    let encoded = signature(0x1234, 0xff00).to_vec().expect("short enough");
    assert_eq!(
        encoded,
        vec![0x30, 0x09, 0x02, 0x02, 0x12, 0x34, 0x02, 0x03, 0x00, 0xff, 0x00]
    );
    assert_eq!(Signature::from_der(&encoded), Ok(signature(0x1234, 0xff00)));
}

#[test]
fn zero_components_are_no_signature() {
    assert_eq!(Signature::from_components(big(0), big(1)), None);
    assert_eq!(Signature::from_components(big(1), big(0)), None);
    assert_eq!(Signature::from_components(big(0), big(0)), None);
    let made = Signature::from_components(big(5), big(9)).expect("positive integers");
    assert_eq!(made.r(), &big(5));
    assert_eq!(made.s(), &big(9));
}

#[test]
fn decode_rejects_three_fields() {
    assert!(malformed(&[0x30, 0x09, 0x02, 0x01, 0x01, 0x02, 0x01, 0x02, 0x02, 0x01, 0x03]));
}

#[test]
fn decode_rejects_a_single_field() {
    assert!(malformed(&[0x30, 0x03, 0x02, 0x01, 0x01]));
    assert!(malformed(&[0x30, 0x00]));
}

#[test]
fn decode_rejects_zero_integers() {
    assert!(malformed(&[0x30, 0x06, 0x02, 0x01, 0x00, 0x02, 0x01, 0x02]));
    assert!(malformed(&[0x30, 0x06, 0x02, 0x01, 0x01, 0x02, 0x01, 0x00]));
    assert!(malformed(&[0x30, 0x04, 0x02, 0x00, 0x02, 0x00]));
}

#[test]
fn decode_rejects_trailing_bytes() {
    assert!(malformed(&[0x30, 0x06, 0x02, 0x01, 0x01, 0x02, 0x01, 0x02, 0x00]));
    assert!(malformed(&[0x30, 0x07, 0x02, 0x01, 0x01, 0x02, 0x01, 0x02, 0x00]));
}

#[test]
fn decode_rejects_negative_integers() {
    assert!(malformed(&[0x30, 0x06, 0x02, 0x01, 0x80, 0x02, 0x01, 0x02]));
    assert!(malformed(&[0x30, 0x07, 0x02, 0x01, 0x01, 0x02, 0x02, 0xff, 0x00]));
}

#[test]
fn decode_rejects_needless_zero_bytes() {
    assert!(malformed(&[0x30, 0x07, 0x02, 0x02, 0x00, 0x01, 0x02, 0x01, 0x02]));
    assert!(malformed(&[0x30, 0x08, 0x02, 0x01, 0x01, 0x02, 0x03, 0x00, 0x00, 0x80]));
}

#[test]
fn decode_rejects_lengths_not_in_shortest_form() {
    // the sequence's length in the long form
    assert!(malformed(&[0x30, 0x81, 0x06, 0x02, 0x01, 0x01, 0x02, 0x01, 0x02]));
    // an integer's length in the long form
    assert!(malformed(&[0x30, 0x07, 0x02, 0x81, 0x01, 0x01, 0x02, 0x01, 0x02]));
    // a long form with a leading zero
    assert!(malformed(&[0x30, 0x82, 0x00, 0x06, 0x02, 0x01, 0x01, 0x02, 0x01, 0x02]));
    // the indefinite form
    assert!(malformed(&[0x30, 0x80, 0x02, 0x01, 0x01, 0x02, 0x01, 0x02, 0x00, 0x00]));
}

#[test]
fn decode_rejects_other_tags_and_short_input() {
    assert!(malformed(&[]));
    assert!(malformed(&[0x30]));
    assert!(malformed(&[0x31, 0x06, 0x02, 0x01, 0x01, 0x02, 0x01, 0x02]));
    assert!(malformed(&[0x30, 0x06, 0x04, 0x01, 0x01, 0x02, 0x01, 0x02]));
    assert!(malformed(&[0x30, 0x06, 0x02, 0x01, 0x01, 0x02, 0x01]));
    assert!(malformed(&[0x30, 0x06, 0x02, 0x01, 0x01, 0x02, 0x02, 0x02]));
}

#[test]
fn long_signatures_use_the_long_form_of_the_length() {
    // 70 bytes each: the sequence holds 144 bytes
    let r = BigUint::from_bytes_be(&[0x11; 70]);
    let s = BigUint::from_bytes_be(&[0x22; 70]);
    let made = Signature::from_components(r, s).expect("positive integers");
    let encoded = made.to_vec().expect("short enough");
    assert_eq!(encoded.len(), 3 + 144);
    assert_eq!(&encoded[..5], &[0x30, 0x81, 0x90, 0x02, 0x46]);
    assert_eq!(Signature::from_der(&encoded), Ok(made));

    // 300 bytes: the integer's length takes two bytes
    let r = BigUint::from_bytes_be(&[0x7f; 300]);
    let s = BigUint::from_bytes_be(&[0x80; 300]);
    let made = Signature::from_components(r, s).expect("positive integers");
    let encoded = made.to_vec().expect("short enough");
    assert_eq!(encoded.len(), 4 + (4 + 300) + (4 + 301));
    assert_eq!(&encoded[..9], &[0x30, 0x82, 0x02, 0x61, 0x02, 0x82, 0x01, 0x2c, 0x7f]);
    assert_eq!(&encoded[308..313], &[0x02, 0x82, 0x01, 0x2d, 0x00]);
    assert_eq!(Signature::from_der(&encoded), Ok(made));
}

#[test]
fn decoding_then_encoding_gives_the_bytes_back() {
    let cases: [&[u8]; 3] = [
        &[0x30, 0x06, 0x02, 0x01, 0x7f, 0x02, 0x01, 0x01],
        &[0x30, 0x08, 0x02, 0x02, 0x00, 0xff, 0x02, 0x02, 0x01, 0x00],
        &[0x30, 0x0a, 0x02, 0x03, 0x01, 0x00, 0x00, 0x02, 0x03, 0x00, 0x80, 0x00],
    ];
    for bytes in cases {
        let decoded = Signature::from_der(bytes).expect("Failed to decode signature");
        assert_eq!(decoded.to_vec().expect("Failed to encode signature"), bytes);
    }
}

#[test]
fn encoding_then_decoding_gives_the_signature_back() {
    for (r, s) in [(1, 1), (127, 128), (255, 256), (65535, 65536), (u64::MAX, 1)] {
        let made = signature(r, s);
        let encoded = made.to_vec().expect("Failed to encode signature");
        assert_eq!(Signature::from_der(&encoded), Ok(made));
    }
}

#[test]
fn encoding_agrees_with_the_der_crate() {
    for (r, s) in [(1u64, 2u64), (0x80, 0xff00), (0x0123_4567_89ab_cdef, u64::MAX)] {
        let encoded = signature(r, s).to_vec().expect("Failed to encode signature");
        let mut expected = vec![0x30];
        let r_bytes = big(r).to_bytes_be();
        let s_bytes = big(s).to_bytes_be();
        let (mut r_buffer, mut s_buffer) = ([0u8; 16], [0u8; 16]);
        let r_field = UintRef::new(&r_bytes).unwrap().encode_to_slice(&mut r_buffer).unwrap();
        let s_field = UintRef::new(&s_bytes).unwrap().encode_to_slice(&mut s_buffer).unwrap();
        expected.push((r_field.len() + s_field.len()) as u8);
        expected.extend_from_slice(r_field);
        expected.extend_from_slice(s_field);
        assert_eq!(encoded, expected);

        let read = UintRef::from_der(&encoded[2..2 + r_field.len()]).unwrap();
        assert_eq!(BigUint::from_bytes_be(read.as_bytes()), big(r));
    }
}

#[test]
fn header_reader_finds_the_content() {
    assert_eq!(read_header(&[0x30, 0x02, 0xaa, 0xbb], 0x30), Some((2, 4)));
    assert_eq!(read_header(&[0x30, 0x02, 0xaa, 0xbb, 0xcc], 0x30), Some((2, 4)));
    assert_eq!(read_header(&[0x30, 0x00], 0x30), Some((2, 2)));
    assert_eq!(read_header(&[0x30, 0x02, 0xaa], 0x30), None);
    assert_eq!(read_header(&[0x30, 0x02, 0xaa, 0xbb], 0x02), None);
    assert_eq!(read_header(&[0x30], 0x30), None);
    assert_eq!(read_header(&[0x30, 0xff, 0x01], 0x30), None);
    assert_eq!(read_header(&[0x30, 0x89, 1, 0, 0, 0, 0, 0, 0, 0, 0], 0x30), None);

    let mut long = vec![0x04, 0x81, 0x80];
    long.resize(3 + 128, 0x55);
    assert_eq!(read_header(&long, 0x04), Some((3, 131)));
    long.pop();
    assert_eq!(read_header(&long, 0x04), None);

    let mut longer = vec![0x04, 0x82, 0x01, 0x00];
    longer.resize(4 + 256, 0x55);
    assert_eq!(read_header(&longer, 0x04), Some((4, 260)));
    assert_eq!(read_header(&[0x04, 0x81, 0x7f], 0x04), None);
}

#[test]
fn length_writer_takes_the_shortest_form() {
    let cases: [(usize, &[u8]); 7] = [
        (0, &[0x00]),
        (127, &[0x7f]),
        (128, &[0x81, 0x80]),
        (255, &[0x81, 0xff]),
        (256, &[0x82, 0x01, 0x00]),
        (65535, &[0x82, 0xff, 0xff]),
        (65536, &[0x83, 0x01, 0x00, 0x00]),
    ];
    for (n, expected) in cases {
        let mut out = vec![0xee];
        write_length(&mut out, n);
        assert_eq!(&out[..1], &[0xee]);
        assert_eq!(&out[1..], expected);
    }
}

#[test]
fn integer_writer_and_reader_agree() {
    let cases: [(u64, &[u8]); 6] = [
        (0, &[0x02, 0x01, 0x00]),
        (1, &[0x02, 0x01, 0x01]),
        (127, &[0x02, 0x01, 0x7f]),
        (128, &[0x02, 0x02, 0x00, 0x80]),
        (256, &[0x02, 0x02, 0x01, 0x00]),
        (0xffff_ffff, &[0x02, 0x05, 0x00, 0xff, 0xff, 0xff, 0xff]),
    ];
    for (v, expected) in cases {
        let mut out = Vec::new();
        write_integer(&mut out, &big(v));
        assert_eq!(out, expected);
        out.push(0x99);
        assert_eq!(read_integer(&out), Some((big(v), expected.len())));
    }
    assert_eq!(read_integer(&[0x02, 0x00]), None);
    assert_eq!(read_integer(&[0x02, 0x01, 0x80]), None);
    assert_eq!(read_integer(&[0x02, 0x02, 0x00, 0x7f]), None);
    assert_eq!(read_integer(&[0x02, 0x02, 0x00]), None);
}
