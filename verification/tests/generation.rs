use dsa::Components;
use dsa::Error;
use dsa::KeySize;
use dsa::SigningKey;
use dsa::Verification;
use num_bigint_dig::prime::probably_prime;
use num_bigint_dig::BigUint;
use num_traits::One;
use num_traits::Zero;
use rand::CryptoRng;
use rand::RngCore;
use rand::SeedableRng;
use rand_chacha::ChaCha8Rng;
use sha2::Digest;
use sha2::Sha256;

/// A generator that only ever yields zero bits
struct Stuck;

impl RngCore for Stuck {
    fn next_u32(&mut self) -> u32 {
        0
    }

    fn next_u64(&mut self) -> u64 {
        0
    }

    fn fill_bytes(&mut self, dest: &mut [u8]) {
        dest.fill(0);
    }

    fn try_fill_bytes(&mut self, dest: &mut [u8]) -> Result<(), rand::Error> {
        dest.fill(0);
        Ok(())
    }
}

impl CryptoRng for Stuck {}

#[test]
fn generated_parameters_are_valid_and_sign() {
    let mut rng = ChaCha8Rng::seed_from_u64(12);
    let components =
        Components::generate(&mut rng, KeySize::DSA_1024_160).expect("parameters are found");
    let (p, q, g) = (components.p().clone(), components.q().clone(), components.g().clone());
    let one = BigUint::one();

    assert_eq!(p.bits(), 1024);
    assert_eq!(q.bits(), 160);
    assert!(probably_prime(&p, 1));
    assert!(probably_prime(&q, 1));
    assert!(((&p - &one) % &q).is_zero());
    assert!(one < g && g < p);
    assert_eq!(g.modpow(&q, &p), one);

    let key = SigningKey::generate(&mut rng, components);
    assert!(!key.x().is_zero() && key.x() < &q);
    assert_eq!(key.verifying_key().y(), &g.modpow(key.x(), &p));

    let digest = Sha256::digest(b"test");
    let made = key.sign_prehash_with_rng(&mut rng, &digest).expect("a signature");
    assert!(!made.r().is_zero() && made.r() < &q);
    assert!(!made.s().is_zero() && made.s() < &q);
    let public = key.verifying_key();
    assert_eq!(public.verify_prehash(&digest, &made), Verification::Valid);
    assert_eq!(public.verify_prehash(&Sha256::digest(b"Test"), &made), Verification::Invalid);
}

#[test]
fn generation_gives_up_when_no_prime_is_drawn() {
    // every draw is the lower end of its range: 2^159, so that the candidate is
    // 2^159 + 1, a multiple of three
    assert_eq!(
        Components::generate(&mut Stuck, KeySize::DSA_1024_160),
        Err(Error::GenerationExhausted)
    );
}
