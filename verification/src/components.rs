//! Domain parameters: the primes `p` and `q` and the generator `g` that a
//! group of keys shares.

use num_bigint_dig::BigUint;
use rand::CryptoRng;
use rand::RngCore;
use vstd::arithmetic::power::pow;
use vstd::prelude::*;

use crate::bignum::difference;
use crate::bignum::equal;
use crate::bignum::is_probable_prime;
use crate::bignum::less_than;
use crate::bignum::modpow;
use crate::bignum::one;
use crate::bignum::passes_prime_test;
use crate::bignum::remainder;
use crate::bignum::val;
use crate::bits::bit_length;
use crate::error::Error;
use crate::generate::components::common;
use crate::generate::components::common_run;
use crate::generate::components::Round;
use crate::modular::is_prime;
use crate::size::KeySize;

verus! {

/// How many Miller-Rabin bases, beyond the Baillie-PSW test, a number must
/// pass to count as prime. FIPS 186-4 asks for 40 to 64 rounds at the
/// approved sizes; 64 covers them all.
pub const PRIME_TEST_ROUNDS: usize = 64;

/// The numbers that domain parameters hold.
pub struct Domain {
    /// The prime modulus.
    pub p: nat,
    /// The prime order of the subgroup, a divisor of `p - 1`.
    pub q: nat,
    /// The generator of the subgroup of order `q`.
    pub g: nat,
}

impl Domain {
    /// The relations between `p`, `q` and `g`, primality aside: `q` divides
    /// `p - 1`, and `g` is an element other than one whose `q`-th power is
    /// one.
    pub open spec fn consistent(self) -> bool {
        &&& 1 < self.q < self.p
        &&& (self.p - 1) % (self.q as int) == 0
        &&& 1 < self.g < self.p
        &&& pow(self.g as int, self.q) % (self.p as int) == 1
    }

    /// The relations hold, and `p` and `q` pass the primality test.
    pub open spec fn valid(self) -> bool {
        &&& self.consistent()
        &&& passes_prime_test(self.q, PRIME_TEST_ROUNDS as nat)
        &&& passes_prime_test(self.p, PRIME_TEST_ROUNDS as nat)
    }
}

/// The three numbers `(p, q, g)` that generated domain parameters hold,
/// where there are any.
pub open spec fn generated(r: Result<Components, Error>) -> Option<(nat, nat, nat)> {
    match r {
        Ok(c) => Some((c@.p, c@.q, c@.g)),
        Err(_) => None,
    }
}

/// Domain parameters that have been checked: every value of this type is
/// valid.
#[derive(Debug, PartialEq, Eq)]
pub struct Components {
    p: BigUint,
    q: BigUint,
    g: BigUint,
}

impl View for Components {
    type V = Domain;

    closed spec fn view(&self) -> Domain {
        Domain { p: val(self.p), q: val(self.q), g: val(self.g) }
    }
}

impl Clone for Components {
    fn clone(&self) -> (copy: Self)
        ensures
            copy@ == self@,
    {
        proof {
            use_type_invariant(self);
        }
        Components { p: self.p.clone(), q: self.q.clone(), g: self.g.clone() }
    }
}

impl Components {
    #[verifier::type_invariant]
    pub open spec fn inv(self) -> bool {
        self@.valid()
    }

    /// Domain parameters from their three numbers, which are accepted if and
    /// only if they are valid. Consistent numbers with prime `p` and `q` are
    /// valid, and below `2^64` no others are.
    pub fn from_components(p: BigUint, q: BigUint, g: BigUint) -> (r: Result<Components, Error>)
        ensures
            r is Ok <==> (Domain { p: val(p), q: val(q), g: val(g) }).valid(),
            r matches Ok(c) ==> c@ == (Domain { p: val(p), q: val(q), g: val(g) }),
            r matches Err(e) ==> e == Error::InvalidParameters,
            (Domain { p: val(p), q: val(q), g: val(g) }).consistent() && is_prime(val(p))
                && is_prime(val(q)) ==> r is Ok,
            r is Ok && val(p) < 0x1_0000_0000_0000_0000 ==> is_prime(val(p)) && is_prime(val(q)),
    {
        let unit = one();
        if !less_than(&unit, &q) || !less_than(&q, &p) {
            return Err(Error::InvalidParameters);
        }
        let p_minus_one = difference(&p, &unit);
        let rest = remainder(&p_minus_one, &q);
        if !less_than(&rest, &unit) {
            return Err(Error::InvalidParameters);
        }
        if !less_than(&unit, &g) || !less_than(&g, &p) {
            return Err(Error::InvalidParameters);
        }
        let g_to_q = modpow(&g, &q, &p);
        if !equal(&g_to_q, &unit) {
            return Err(Error::InvalidParameters);
        }
        if !is_probable_prime(&q, PRIME_TEST_ROUNDS) || !is_probable_prime(&p, PRIME_TEST_ROUNDS) {
            return Err(Error::InvalidParameters);
        }
        Ok(Components { p, q, g })
    }

    /// Fresh domain parameters of the given size, drawn from `rng`.
    ///
    /// The result is `GenerationExhausted` where the search used up its
    /// attempts without finding parameters.
    pub fn generate<R>(rng: &mut R, key_size: KeySize) -> (r: Result<Components, Error>)
        where R: CryptoRng + RngCore + ?Sized
        ensures
            r matches Ok(c) ==> {
                &&& c@.valid()
                &&& bit_length(c@.p) == key_size.l()
                &&& bit_length(c@.q) == key_size.n()
            },
            r matches Err(e) ==> e == Error::GenerationExhausted,
            exists|rounds: Seq<Round>|
                common_run(rounds, key_size.l(), key_size.n(), generated(r)),
    {
        match common(rng, key_size) {
            Some((p, q, g)) => Ok(Components { p, q, g }),
            None => Err(Error::GenerationExhausted),
        }
    }

    /// The prime modulus `p`.
    pub fn p(&self) -> (p: &BigUint)
        ensures
            val(*p) == self@.p,
            self@.valid(),
    {
        proof {
            use_type_invariant(self);
        }
        &self.p
    }

    /// The subgroup order `q`.
    pub fn q(&self) -> (q: &BigUint)
        ensures
            val(*q) == self@.q,
            self@.valid(),
    {
        proof {
            use_type_invariant(self);
        }
        &self.q
    }

    /// The generator `g`.
    pub fn g(&self) -> (g: &BigUint)
        ensures
            val(*g) == self@.g,
            self@.valid(),
    {
        proof {
            use_type_invariant(self);
        }
        &self.g
    }
}

} // verus!
