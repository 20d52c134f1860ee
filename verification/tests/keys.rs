use dsa::generate::keypair::keypair;
use dsa::generate::keypair::keypair_from_scalar;
use dsa::generate::secret_number::secret_number;
use dsa::generate::secret_number::secret_number_from_draw;
use dsa::Components;
use dsa::Error;
use dsa::Signature;
use dsa::SigningKey;
use dsa::Verification;
use dsa::VerifyingKey;
use num_bigint_dig::BigUint;
use num_traits::One;
use num_traits::Zero;
use rand::SeedableRng;
use rand_chacha::ChaCha8Rng;

fn big(v: u64) -> BigUint {
    BigUint::from(v)
}

/// p = 23, q = 11, g = 2: 2^11 = 2048 = 89 * 23 + 1
fn small_components() -> Components {
    Components::from_components(big(23), big(11), big(2)).expect("valid parameters")
}

/// x = 7, y = 2^7 mod 23 = 13
fn small_key() -> SigningKey {
    keypair_from_scalar(small_components(), big(7)).expect("scalar in range")
}

fn invalid(p: u64, q: u64, g: u64) -> bool {
    Components::from_components(big(p), big(q), big(g)) == Err(Error::InvalidParameters)
}

#[test]
fn valid_parameters_are_accepted() {
    let components = small_components();
    assert_eq!(components.p(), &big(23));
    assert_eq!(components.q(), &big(11));
    assert_eq!(components.g(), &big(2));
    assert!(Components::from_components(big(23), big(11), big(4)).is_ok());
    assert!(Components::from_components(big(13), big(3), big(3)).is_ok());
    assert!(Components::from_components(big(3), big(2), big(2)).is_ok());
}

#[test]
fn parameters_out_of_range_are_rejected() {
    // q is not above one
    assert!(invalid(23, 1, 2));
    assert!(invalid(23, 0, 2));
    // q is not below p
    assert!(invalid(11, 11, 2));
    assert!(invalid(11, 23, 2));
    // g is not above one
    assert!(invalid(23, 11, 1));
    assert!(invalid(23, 11, 0));
    // g is not below p
    assert!(invalid(23, 11, 23));
    assert!(invalid(23, 11, 25));
}

#[test]
fn parameters_that_do_not_fit_together_are_rejected() {
    // q does not divide p - 1
    assert!(invalid(23, 7, 2));
    assert!(invalid(23, 5, 2));
    // the q-th power of g is not one
    assert!(invalid(23, 11, 5));
    assert!(invalid(23, 11, 22));
}

#[test]
fn composite_numbers_are_rejected() {
    // 341 = 11 * 31, 340 = 5 * 68, 256^5 = 2^40 = 1 modulo 341
    assert_eq!(big(256).modpow(&big(5), &big(341)), big(1));
    assert!(invalid(341, 5, 256));
    // 13 is prime, 4 divides 12, 5^4 = 625 = 48 * 13 + 1
    assert!(invalid(13, 4, 5));
}

#[test]
fn public_value_must_lie_between_zero_and_p() {
    let key = VerifyingKey::from_components(small_components(), big(13)).expect("in range");
    assert_eq!(key.y(), &big(13));
    assert_eq!(key.components(), &small_components());
    assert!(VerifyingKey::from_components(small_components(), big(1)).is_ok());
    assert!(VerifyingKey::from_components(small_components(), big(22)).is_ok());
    assert_eq!(
        VerifyingKey::from_components(small_components(), big(0)),
        Err(Error::InvalidParameters)
    );
    assert_eq!(
        VerifyingKey::from_components(small_components(), big(23)),
        Err(Error::InvalidParameters)
    );
    assert_eq!(
        VerifyingKey::from_components(small_components(), big(100)),
        Err(Error::InvalidParameters)
    );
}

#[test]
fn private_scalar_must_lie_between_zero_and_q() {
    let public = VerifyingKey::from_components(small_components(), big(13)).unwrap();
    let key = match SigningKey::from_components(public.clone(), big(7)) {
        Ok(key) => key,
        Err(error) => panic!("consistent halves were rejected: {:?}", error),
    };
    assert_eq!(key.x(), &big(7));
    assert_eq!(key.verifying_key(), &public);
    assert_eq!(
        SigningKey::from_components(public.clone(), big(0)).err(),
        Some(Error::InvalidParameters)
    );
    assert_eq!(
        SigningKey::from_components(public.clone(), big(11)).err(),
        Some(Error::InvalidParameters)
    );
    // 2^18 = 2^7 modulo 23, and still 18 is no scalar
    assert_eq!(
        SigningKey::from_components(public, big(18)).err(),
        Some(Error::InvalidParameters)
    );
}

#[test]
fn halves_that_do_not_belong_together_are_rejected() {
    let public = VerifyingKey::from_components(small_components(), big(13)).unwrap();
    assert_eq!(
        SigningKey::from_components(public.clone(), big(6)).err(),
        Some(Error::KeyInconsistency)
    );
    assert_eq!(
        SigningKey::from_components(public, big(8)).err(),
        Some(Error::KeyInconsistency)
    );
}

#[test]
fn key_pair_from_a_scalar() {
    let key = small_key();
    assert_eq!(key.x(), &big(7));
    assert_eq!(key.verifying_key().y(), &big(13));
    assert_eq!(key.verifying_key().components(), &small_components());
    assert!(keypair_from_scalar(small_components(), big(0)).is_none());
    assert!(keypair_from_scalar(small_components(), big(11)).is_none());
    assert!(keypair_from_scalar(small_components(), big(12)).is_none());
    assert!(key.clone() == key);
}

#[test]
fn generated_key_pairs_are_consistent() {
    for seed in 0..20 {
        let mut rng = ChaCha8Rng::seed_from_u64(seed);
        let key = keypair(&mut rng, small_components());
        let x = key.x();
        assert!(!x.is_zero() && x < &big(11));
        assert_eq!(key.verifying_key().y(), &big(2).modpow(x, &big(23)));
        assert_eq!(key.verifying_key().components(), &small_components());

        let mut rng = ChaCha8Rng::seed_from_u64(seed);
        assert!(SigningKey::generate(&mut rng, small_components()) == key);
    }
}

#[test]
fn secret_number_from_a_drawn_number() {
    // 25 mod 10 + 1
    assert_eq!(secret_number_from_draw(&big(25), &big(11)), big(6));
    assert_eq!(secret_number_from_draw(&big(0), &big(11)), big(1));
    assert_eq!(secret_number_from_draw(&big(9), &big(11)), big(10));
    assert_eq!(secret_number_from_draw(&big(10), &big(11)), big(1));
    assert_eq!(secret_number_from_draw(&big(u64::MAX), &big(2)), big(1));
    assert_eq!(secret_number_from_draw(&big(1_000_003), &big(1001)), big(4));
}

#[test]
fn secret_numbers_lie_between_zero_and_q() {
    let mut rng = ChaCha8Rng::seed_from_u64(1);
    let mut seen = [false; 11];
    for _ in 0..200 {
        let k = secret_number(&mut rng, &small_components());
        assert!(k >= BigUint::one() && k < big(11));
        seen[k.to_bytes_be()[0] as usize] = true;
    }
    assert_eq!(seen, [false, true, true, true, true, true, true, true, true, true, true]);
}

#[test]
fn signature_with_a_given_secret_number() {
    // N = 4, z = 9; k = 3, r = (2^3 mod 23) mod 11 = 8;
    // 3 * 4 = 12 = 1 modulo 11, s = 4 * (9 + 7 * 8) mod 11 = 260 mod 11 = 7
    let made = small_key().sign_prehash_with_nonce(&[0x90], &big(3)).expect("usable");
    assert_eq!(made, Signature::from_components(big(8), big(7)).unwrap());
    // z = 0xa; k = 5, r = (32 mod 23) mod 11 = 9;
    // 5 * 9 = 45 = 1 modulo 11, s = 9 * (10 + 7 * 9) mod 11 = 657 mod 11 = 8
    let made = small_key().sign_prehash_with_nonce(&[0xa5, 0xff], &big(5)).expect("usable");
    assert_eq!(made, Signature::from_components(big(9), big(8)).unwrap());
}

#[test]
fn secret_numbers_that_cannot_sign() {
    let key = small_key();
    // out of range
    assert_eq!(key.sign_prehash_with_nonce(&[0x90], &big(0)), None);
    assert_eq!(key.sign_prehash_with_nonce(&[0x90], &big(11)), None);
    assert_eq!(key.sign_prehash_with_nonce(&[0x90], &big(14)), None);
    // k = 4 gives r = 16 mod 11 = 5, and z = 9 then gives s = 3 * (9 + 35) mod 11 = 0
    assert_eq!(key.sign_prehash_with_nonce(&[0x90], &big(4)), None);
    assert!(key.sign_prehash_with_nonce(&[0x80], &big(4)).is_some());
}

#[test]
fn verification_of_small_signatures() {
    let key = small_key();
    let public = key.verifying_key();
    let made = Signature::from_components(big(8), big(7)).unwrap();
    assert_eq!(public.verify_prehash(&[0x90], &made), Verification::Valid);
    assert_eq!(public.verify_prehash(&[0x9f, 0x00], &made), Verification::Valid);
    assert_eq!(public.verify_prehash(&[0x80], &made), Verification::Invalid);
    assert_eq!(public.verify_prehash(&[], &made), Verification::Invalid);
    let other = Signature::from_components(big(8), big(6)).unwrap();
    assert_eq!(public.verify_prehash(&[0x90], &other), Verification::Invalid);
    assert!(public.verify_prehash(&[0x90], &made).is_valid());
    assert!(!public.verify_prehash(&[0x90], &other).is_valid());
}

#[test]
fn signatures_out_of_range_are_malformed() {
    let key = small_key();
    let public = key.verifying_key();
    for (r, s) in [(11, 7), (8, 11), (19, 7), (8, 18), (100, 100)] {
        let made = Signature::from_components(big(r), big(s)).unwrap();
        assert_eq!(public.verify_prehash(&[0x90], &made), Verification::Malformed);
        assert!(!public.verify_prehash(&[0x90], &made).is_valid());
    }
}

#[test]
fn every_usable_secret_number_gives_a_valid_signature() {
    let key = small_key();
    let public = key.verifying_key();
    let mut made_any = false;
    for digest in 0..=255u8 {
        for k in 1..11 {
            if let Some(made) = key.sign_prehash_with_nonce(&[digest], &big(k)) {
                assert_eq!(public.verify_prehash(&[digest], &made), Verification::Valid);
                made_any = true;
            }
        }
    }
    assert!(made_any);
}

#[test]
fn signing_with_a_generator_gives_a_valid_signature() {
    let key = small_key();
    for seed in 0..20 {
        let mut rng = ChaCha8Rng::seed_from_u64(seed);
        let made = key.sign_prehash_with_rng(&mut rng, &[seed as u8, 0x33]).expect("a signature");
        assert!(key.verifying_key().verify_prehash(&[seed as u8, 0x33], &made).is_valid());
    }
}

#[test]
fn signing_gives_up_when_no_secret_number_is_usable() {
    // p = 3, q = 2, g = 2: the only secret number is 1, and r = (2 mod 3) mod 2 = 0
    let components = Components::from_components(big(3), big(2), big(2)).unwrap();
    let key = keypair_from_scalar(components, big(1)).unwrap();
    let mut rng = ChaCha8Rng::seed_from_u64(0);
    assert_eq!(key.sign_prehash_with_rng(&mut rng, &[0x55]), Err(Error::NonceExhausted));
}
