//! The search for domain parameters: a prime `q` of `N` bits, a prime `p` of
//! `L` bits with `q` dividing `p - 1`, and a generator `g` of the subgroup
//! of order `q`.
//!
//! Every search is bounded. Each draw of the random source is handed to a
//! function that says, for every number that could be drawn, whether it
//! gives a result and which. A draw that gives none costs one attempt, and
//! when the attempts are used up the search reports that it found nothing.
//!
//! What the random source yields is not known to the contracts. A search
//! therefore states its result over the numbers that it drew, whichever they
//! were: there is a run of draws, each from the range of the search, of which
//! the last gives the result and no earlier one gives any.

use num_bigint_dig::BigUint;
use rand::CryptoRng;
use rand::RngCore;
use vstd::arithmetic::div_mod::*;
use vstd::arithmetic::mul::*;
use vstd::arithmetic::power::pow;
use vstd::arithmetic::power2::*;
use vstd::prelude::*;

use crate::bignum::bits;
use crate::bignum::difference;
use crate::bignum::equal;
use crate::bignum::is_probable_prime;
use crate::bignum::less_than;
use crate::bignum::modpow;
use crate::bignum::one;
use crate::bignum::passes_prime_test;
use crate::bignum::quotient;
use crate::bignum::random_in_range;
use crate::bignum::remainder;
use crate::bignum::sum;
use crate::bignum::val;
use crate::bits::bit_length;
use crate::bits::lemma_bit_length_bounds;
use crate::bits::power_of_two;
use crate::components::Components;
use crate::components::Domain;
use crate::components::PRIME_TEST_ROUNDS;
use crate::modular::pow_mod;
use crate::size::approved;
use crate::size::KeySize;

verus! {

/// How many numbers one search may draw before it gives up.
pub const MAX_CANDIDATES: usize = 4096;

/// How many times the generator may start over with a new `q`.
pub const MAX_ROUNDS: usize = 64;

/// `v` has exactly `bits` bits and passes the primality test.
pub open spec fn prime_of_bits(v: nat, bits: u32) -> bool {
    &&& bit_length(v) == bits
    &&& passes_prime_test(v, PRIME_TEST_ROUNDS as nat)
}

/// The odd number that a drawn number stands for: itself, or the next one
/// up where it is even.
pub open spec fn odd_from(c: nat) -> nat {
    if c % 2 == 0 {
        c + 1
    } else {
        c
    }
}

/// The candidate for `p` that a drawn number `m` stands for: the largest
/// multiple of `2q` that is not above `m`, plus one.
pub open spec fn candidate_from(m: nat, q: nat) -> nat {
    (m - m % (2 * q) + 1) as nat
}

/// The candidate for `g` that a drawn number `h` stands for: `h` to the
/// power `(p - 1) / q`, modulo `p`.
pub open spec fn generator_from(h: nat, p: nat, q: nat) -> nat {
    pow_mod(h, ((p - 1) / (q as int)) as nat, p)
}

/// `g` lies strictly between one and `p`, and its `q`-th power is one modulo
/// `p`.
pub open spec fn is_generator(g: nat, p: nat, q: nat) -> bool {
    &&& 1 < g < p
    &&& pow(g as int, q) % (p as int) == 1
}

/// The number that an optional big integer holds, where there is one.
pub open spec fn held(r: Option<BigUint>) -> Option<nat> {
    match r {
        Some(n) => Some(val(n)),
        None => None,
    }
}

/// What a drawn number gives in the search for `q`: the odd number that it
/// stands for, where that is a prime of `n_bits` bits.
pub open spec fn order_of(drawn: nat, n_bits: u32) -> Option<nat> {
    if prime_of_bits(odd_from(drawn), n_bits) {
        Some(odd_from(drawn))
    } else {
        None
    }
}

/// What a drawn number gives in the search for `p`: the candidate that it
/// stands for, where that is a prime of `l_bits` bits.
pub open spec fn modulus_of(drawn: nat, q: nat, l_bits: u32) -> Option<nat> {
    if q > 0 && prime_of_bits(candidate_from(drawn, q), l_bits) {
        Some(candidate_from(drawn, q))
    } else {
        None
    }
}

/// What a drawn number gives in the search for `g`: the candidate that it
/// stands for, where that is a generator.
pub open spec fn generator_of(h: nat, p: nat, q: nat) -> Option<nat> {
    if p > 1 && q > 0 && is_generator(generator_from(h, p, q), p, q) {
        Some(generator_from(h, p, q))
    } else {
        None
    }
}

/// A run of the search for `q` that ends with `found`: the numbers in
/// `draws` are drawn one after the other, each of `n_bits` bits. Every draw
/// but the last gives nothing, and `found` is what the last one gives. A run
/// that finds nothing has drawn `MAX_CANDIDATES` numbers.
pub open spec fn q_search_run(draws: Seq<nat>, n_bits: u32, found: Option<nat>) -> bool {
    &&& 0 < draws.len() <= MAX_CANDIDATES
    &&& forall|i: int|
        0 <= i < draws.len() ==> pow2((n_bits - 1) as nat) <= #[trigger] draws[i] < pow2(
            n_bits as nat,
        )
    &&& forall|i: int| 0 <= i < draws.len() - 1 ==> order_of(#[trigger] draws[i], n_bits) is None
    &&& found == order_of(draws.last(), n_bits)
    &&& found is None ==> draws.len() == MAX_CANDIDATES
}

/// A run of the search for `p` under the order `q` that ends with `found`:
/// as for `q`, with draws of `l_bits` bits.
pub open spec fn p_search_run(draws: Seq<nat>, q: nat, l_bits: u32, found: Option<nat>) -> bool {
    &&& 0 < draws.len() <= MAX_CANDIDATES
    &&& forall|i: int|
        0 <= i < draws.len() ==> pow2((l_bits - 1) as nat) <= #[trigger] draws[i] < pow2(
            l_bits as nat,
        )
    &&& forall|i: int|
        0 <= i < draws.len() - 1 ==> modulus_of(#[trigger] draws[i], q, l_bits) is None
    &&& found == modulus_of(draws.last(), q, l_bits)
    &&& found is None ==> draws.len() == MAX_CANDIDATES
}

/// A run of the search for `g` under `p` and `q` that ends with `found`: as
/// for `q`, with draws from `2..=p - 2`.
pub open spec fn g_search_run(draws: Seq<nat>, p: nat, q: nat, found: Option<nat>) -> bool {
    &&& 0 < draws.len() <= MAX_CANDIDATES
    &&& forall|i: int| 0 <= i < draws.len() ==> 2 <= #[trigger] draws[i] <= p - 2
    &&& forall|i: int| 0 <= i < draws.len() - 1 ==> generator_of(#[trigger] draws[i], p, q) is None
    &&& found == generator_of(draws.last(), p, q)
    &&& found is None ==> draws.len() == MAX_CANDIDATES
}

/// What one round of the whole search found: the result of the search for
/// `q`, of the search for `p` where there was a `q`, and of the search for
/// `g` where there was a `p`.
pub struct Round {
    /// What the search for `q` found.
    pub q: Option<nat>,
    /// What the search for `p` found.
    pub p: Option<nat>,
    /// What the search for `g` found.
    pub g: Option<nat>,
}

impl Round {
    /// The round is one that the searches can go through: `q` ends a run of
    /// the search for `q`; where that found nothing the round is over, and
    /// else `p` ends a run of the search for `p` under that `q`; where that
    /// found nothing the round is over, and else `g` ends a run of the search
    /// for `g`.
    pub open spec fn run(self, l_bits: u32, n_bits: u32) -> bool {
        &&& exists|draws: Seq<nat>| q_search_run(draws, n_bits, self.q)
        &&& self.q is None ==> self.p is None
        &&& self.p is None ==> self.g is None
        &&& self.q matches Some(q) ==> exists|draws: Seq<nat>|
            p_search_run(draws, q, l_bits, self.p)
        &&& self.q matches Some(q) ==> (self.p matches Some(p) ==> exists|draws: Seq<nat>|
            g_search_run(draws, p, q, self.g))
    }

    /// The three numbers `(p, q, g)` of a round that found them all.
    pub open spec fn found(self) -> Option<(nat, nat, nat)> {
        match (self.p, self.q, self.g) {
            (Some(p), Some(q), Some(g)) => Some((p, q, g)),
            _ => None,
        }
    }
}

/// A round whose results each end a run of their search is a round that the
/// searches can go through.
proof fn lemma_round_run(
    this: Round,
    l_bits: u32,
    n_bits: u32,
    q_draws: Seq<nat>,
    p_draws: Seq<nat>,
    g_draws: Seq<nat>,
)
    requires
        q_search_run(q_draws, n_bits, this.q),
        this.q is None ==> this.p is None,
        this.p is None ==> this.g is None,
        this.q matches Some(q) ==> p_search_run(p_draws, q, l_bits, this.p),
        this.q matches Some(q) ==> (this.p matches Some(p) ==> g_search_run(
            g_draws,
            p,
            q,
            this.g,
        )),
    ensures
        this.run(l_bits, n_bits),
{
}

/// A run of the whole search that ends with `found`: every round but the
/// last finds no three numbers, and `found` is what the last one finds. A
/// run that finds nothing has gone through `MAX_ROUNDS` rounds.
pub open spec fn common_run(
    rounds: Seq<Round>,
    l_bits: u32,
    n_bits: u32,
    found: Option<(nat, nat, nat)>,
) -> bool {
    &&& 0 < rounds.len() <= MAX_ROUNDS
    &&& forall|i: int| 0 <= i < rounds.len() ==> (#[trigger] rounds[i]).run(l_bits, n_bits)
    &&& forall|i: int| 0 <= i < rounds.len() - 1 ==> (#[trigger] rounds[i]).found() is None
    &&& found == rounds.last().found()
    &&& found is None ==> rounds.len() == MAX_ROUNDS
}

/// The numbers that three optional big integers hold, where there are three.
pub open spec fn held_three(r: Option<(BigUint, BigUint, BigUint)>) -> Option<(nat, nat, nat)> {
    match r {
        Some((p, q, g)) => Some((val(p), val(q), val(g))),
        None => None,
    }
}

/// Makes a drawn number odd: an even one is raised by one.
pub fn odd_candidate(c: BigUint) -> (q: BigUint)
    ensures
        val(q) == odd_from(val(c)),
{
    let unit = one();
    let two = sum(&unit, &unit);
    let rest = remainder(&c, &two);
    if less_than(&rest, &unit) {
        sum(&c, &unit)
    } else {
        c
    }
}

/// Turns a drawn number `m` into a candidate for `p`, which is one more
/// than a multiple of `2q`.
pub fn prime_candidate(m: &BigUint, q: &BigUint) -> (p: BigUint)
    requires
        val(*q) > 0,
    ensures
        val(p) == candidate_from(val(*m), val(*q)),
        (val(p) - 1) % (val(*q) as int) == 0,
{
    let two_q = sum(q, q);
    let rest = remainder(m, &two_q);
    proof {
        lemma_mod_decreases(val(*m), val(two_q));
    }
    let base = difference(m, &rest);
    proof {
        let (mi, qi) = (val(*m) as int, val(*q) as int);
        let k = mi / (2 * qi);
        lemma_fundamental_div_mod(mi, 2 * qi);
        assert(val(base) == (2 * qi) * k);
        assert((2 * qi) * k == (2 * k) * qi) by {
            lemma_mul_is_associative(2, qi, k);
            lemma_mul_is_commutative(qi, k);
            lemma_mul_is_associative(2, k, qi);
        }
        lemma_mod_multiples_basic(2 * k, qi);
    }
    let unit = one();
    sum(&base, &unit)
}

/// Turns a drawn number `h` into a candidate for `g`.
pub fn generator_candidate(h: &BigUint, p: &BigUint, q: &BigUint) -> (g: BigUint)
    requires
        val(*p) > 1,
        val(*q) > 0,
    ensures
        val(g) == generator_from(val(*h), val(*p), val(*q)),
        val(g) < val(*p),
{
    let unit = one();
    let p_minus_one = difference(p, &unit);
    let e = quotient(&p_minus_one, q);
    proof {
        lemma_div_pos_is_pos(val(*p) - 1, val(*q) as int);
        lemma_mod_bound(pow(val(*h) as int, val(e)), val(*p) as int);
    }
    modpow(h, &e, p)
}

/// The public value that belongs to the private scalar `x`: `g` to the
/// power `x` modulo `p`.
pub fn public(components: &Components, x: &BigUint) -> (y: BigUint)
    ensures
        val(y) == pow_mod(components@.g, val(*x), components@.p),
{
    modpow(components.g(), x, components.p())
}

/// Whether a number has exactly `bits` bits and passes the primality test.
pub fn is_prime_of_bits(v: &BigUint, bits_wanted: u32) -> (b: bool)
    ensures
        b == prime_of_bits(val(*v), bits_wanted),
{
    bits(v) == bits_wanted as usize && is_probable_prime(v, PRIME_TEST_ROUNDS)
}

/// What a draw gives in the search for `q`: the odd number that it stands
/// for, if and only if that number is a prime of `n_bits` bits.
pub fn order_from_draw(drawn: BigUint, n_bits: u32) -> (r: Option<BigUint>)
    ensures
        r is Some <==> prime_of_bits(odd_from(val(drawn)), n_bits),
        r matches Some(q) ==> val(q) == odd_from(val(drawn)),
        held(r) == order_of(val(drawn), n_bits),
{
    let q = odd_candidate(drawn);
    if is_prime_of_bits(&q, n_bits) {
        Some(q)
    } else {
        None
    }
}

/// What a draw gives in the search for `p`: the candidate that it stands
/// for, if and only if that candidate is a prime of `l_bits` bits. Under
/// `q == 0` there is no candidate.
pub fn modulus_from_draw(drawn: &BigUint, q: &BigUint, l_bits: u32) -> (r: Option<BigUint>)
    ensures
        r is Some <==> val(*q) > 0 && prime_of_bits(candidate_from(val(*drawn), val(*q)), l_bits),
        r matches Some(p) ==> {
            &&& val(p) == candidate_from(val(*drawn), val(*q))
            &&& (val(p) - 1) % (val(*q) as int) == 0
        },
        held(r) == modulus_of(val(*drawn), val(*q), l_bits),
{
    let unit = one();
    if less_than(q, &unit) {
        return None;
    }
    let p = prime_candidate(drawn, q);
    if is_prime_of_bits(&p, l_bits) {
        Some(p)
    } else {
        None
    }
}

/// What a draw gives in the search for `g`: the candidate that it stands
/// for, if and only if that candidate is a generator. Under `p <= 1` or
/// `q == 0` there is no candidate.
pub fn generator_from_draw(h: &BigUint, p: &BigUint, q: &BigUint) -> (r: Option<BigUint>)
    ensures
        r is Some <==> {
            &&& val(*p) > 1
            &&& val(*q) > 0
            &&& is_generator(generator_from(val(*h), val(*p), val(*q)), val(*p), val(*q))
        },
        r matches Some(g) ==> val(g) == generator_from(val(*h), val(*p), val(*q)),
        held(r) == generator_of(val(*h), val(*p), val(*q)),
{
    let unit = one();
    if !less_than(&unit, p) || less_than(q, &unit) {
        return None;
    }
    let g = generator_candidate(h, p, q);
    if !less_than(&unit, &g) {
        return None;
    }
    let g_to_q = modpow(&g, q, p);
    if equal(&g_to_q, &unit) {
        Some(g)
    } else {
        None
    }
}

/// Draws numbers of `n_bits` bits until one gives a prime `q`, and gives up
/// after `MAX_CANDIDATES` draws that gave none.
fn search_q<R>(rng: &mut R, n_bits: u32) -> (r: Option<BigUint>)
    where R: CryptoRng + RngCore + ?Sized
    requires
        n_bits >= 1,
    ensures
        r matches Some(q) ==> prime_of_bits(val(q), n_bits),
        exists|draws: Seq<nat>| q_search_run(draws, n_bits, held(r)),
{
    let low = power_of_two(n_bits - 1);
    let high = power_of_two(n_bits);
    proof {
        lemma_pow2_strictly_increases((n_bits - 1) as nat, n_bits as nat);
    }
    let ghost mut draws: Seq<nat> = Seq::empty();
    let mut attempt: usize = 0;
    while attempt < MAX_CANDIDATES
        invariant
            n_bits >= 1,
            val(low) == pow2((n_bits - 1) as nat),
            val(high) == pow2(n_bits as nat),
            val(low) < val(high),
            attempt <= MAX_CANDIDATES,
            draws.len() == attempt,
            forall|i: int| 0 <= i < draws.len() ==> val(low) <= #[trigger] draws[i] < val(high),
            forall|i: int| 0 <= i < draws.len() ==> order_of(#[trigger] draws[i], n_bits) is None,
        decreases MAX_CANDIDATES - attempt,
    {
        let drawn = random_in_range(rng, &low, &high);
        proof {
            draws = draws.push(val(drawn));
        }
        let found = order_from_draw(drawn, n_bits);
        if found.is_some() {
            proof {
                assert(q_search_run(draws, n_bits, held(found)));
            }
            return found;
        }
        attempt = attempt + 1;
    }
    proof {
        assert(q_search_run(draws, n_bits, None));
    }
    None
}

/// Draws numbers of `l_bits` bits until one gives a prime `p` with `q`
/// dividing `p - 1`, and gives up after `MAX_CANDIDATES` draws that gave
/// none.
fn search_p<R>(rng: &mut R, q: &BigUint, l_bits: u32) -> (r: Option<BigUint>)
    where R: CryptoRng + RngCore + ?Sized
    requires
        l_bits >= 1,
    ensures
        r matches Some(p) ==> prime_of_bits(val(p), l_bits) && (val(p) - 1) % (val(*q) as int) == 0,
        exists|draws: Seq<nat>| p_search_run(draws, val(*q), l_bits, held(r)),
{
    let low = power_of_two(l_bits - 1);
    let high = power_of_two(l_bits);
    proof {
        lemma_pow2_strictly_increases((l_bits - 1) as nat, l_bits as nat);
    }
    let ghost mut draws: Seq<nat> = Seq::empty();
    let mut attempt: usize = 0;
    while attempt < MAX_CANDIDATES
        invariant
            l_bits >= 1,
            val(low) == pow2((l_bits - 1) as nat),
            val(high) == pow2(l_bits as nat),
            val(low) < val(high),
            attempt <= MAX_CANDIDATES,
            draws.len() == attempt,
            forall|i: int| 0 <= i < draws.len() ==> val(low) <= #[trigger] draws[i] < val(high),
            forall|i: int|
                0 <= i < draws.len() ==> modulus_of(#[trigger] draws[i], val(*q), l_bits) is None,
        decreases MAX_CANDIDATES - attempt,
    {
        let drawn = random_in_range(rng, &low, &high);
        proof {
            draws = draws.push(val(drawn));
        }
        let found = modulus_from_draw(&drawn, q, l_bits);
        if found.is_some() {
            proof {
                assert(p_search_run(draws, val(*q), l_bits, held(found)));
            }
            return found;
        }
        attempt = attempt + 1;
    }
    proof {
        assert(p_search_run(draws, val(*q), l_bits, None));
    }
    None
}

/// Draws numbers `h` from `2..=p - 2` until one gives a generator, and gives
/// up after `MAX_CANDIDATES` draws that gave none.
fn search_g<R>(rng: &mut R, p: &BigUint, q: &BigUint) -> (r: Option<BigUint>)
    where R: CryptoRng + RngCore + ?Sized
    requires
        val(*p) > 3,
    ensures
        r matches Some(g) ==> is_generator(val(g), val(*p), val(*q)),
        exists|draws: Seq<nat>| g_search_run(draws, val(*p), val(*q), held(r)),
{
    let unit = one();
    let two = sum(&unit, &unit);
    let p_minus_one = difference(p, &unit);
    let ghost mut draws: Seq<nat> = Seq::empty();
    let mut attempt: usize = 0;
    while attempt < MAX_CANDIDATES
        invariant
            val(two) == 2,
            val(p_minus_one) == val(*p) - 1,
            val(*p) > 3,
            attempt <= MAX_CANDIDATES,
            draws.len() == attempt,
            forall|i: int| 0 <= i < draws.len() ==> 2 <= #[trigger] draws[i] <= val(*p) - 2,
            forall|i: int|
                0 <= i < draws.len() ==> generator_of(#[trigger] draws[i], val(*p), val(*q)) is None,
        decreases MAX_CANDIDATES - attempt,
    {
        let h = random_in_range(rng, &two, &p_minus_one);
        proof {
            draws = draws.push(val(h));
        }
        let found = generator_from_draw(&h, p, q);
        if found.is_some() {
            proof {
                assert(g_search_run(draws, val(*p), val(*q), held(found)));
            }
            return found;
        }
        attempt = attempt + 1;
    }
    proof {
        assert(g_search_run(draws, val(*p), val(*q), None));
    }
    None
}

/// Searches for the three numbers of domain parameters of the given size:
/// a prime `q` first, then a prime `p` with `q` dividing `p - 1`, then a
/// generator `g`. When one of the searches finds nothing the whole search
/// starts over with a new `q`, and it gives up after `MAX_ROUNDS` rounds that
/// found no three numbers.
pub fn common<R>(rng: &mut R, key_size: KeySize) -> (r: Option<(BigUint, BigUint, BigUint)>)
    where R: CryptoRng + RngCore + ?Sized
    ensures
        r matches Some((p, q, g)) ==> {
            &&& (Domain { p: val(p), q: val(q), g: val(g) }).valid()
            &&& bit_length(val(p)) == key_size.l()
            &&& bit_length(val(q)) == key_size.n()
        },
        exists|rounds: Seq<Round>| common_run(rounds, key_size.l(), key_size.n(), held_three(r)),
{
    let l_bits = key_size.l();
    let n_bits = key_size.n();
    let ghost mut rounds: Seq<Round> = Seq::empty();
    let mut round: usize = 0;
    while round < MAX_ROUNDS
        invariant
            l_bits == key_size.l(),
            n_bits == key_size.n(),
            approved(l_bits, n_bits),
            round <= MAX_ROUNDS,
            rounds.len() == round,
            forall|i: int| 0 <= i < rounds.len() ==> (#[trigger] rounds[i]).run(l_bits, n_bits),
            forall|i: int| 0 <= i < rounds.len() ==> (#[trigger] rounds[i]).found() is None,
        decreases MAX_ROUNDS - round,
    {
        let found_q = search_q(rng, n_bits);
        let ghost q_draws = choose|draws: Seq<nat>| q_search_run(draws, n_bits, held(found_q));
        let ghost mut p_draws: Seq<nat> = Seq::empty();
        let ghost mut g_draws: Seq<nat> = Seq::empty();
        let ghost mut this = Round { q: held(found_q), p: None, g: None };
        if let Some(q) = found_q {
            let found_p = search_p(rng, &q, l_bits);
            proof {
                p_draws = choose|draws: Seq<nat>| p_search_run(draws, val(q), l_bits, held(found_p));
                this = Round { q: Some(val(q)), p: held(found_p), g: None };
            }
            if let Some(p) = found_p {
                proof {
                    // q has fewer bits than p, and both have more than two
                    lemma_bit_length_bounds(val(q));
                    lemma_bit_length_bounds(val(p));
                    lemma2_to64();
                    lemma_pow2_strictly_increases(1, (n_bits - 1) as nat);
                    lemma_pow2_strictly_increases(2, (l_bits - 1) as nat);
                    if n_bits < l_bits - 1 {
                        lemma_pow2_strictly_increases(n_bits as nat, (l_bits - 1) as nat);
                    }
                }
                let found_g = search_g(rng, &p, &q);
                proof {
                    g_draws = choose|draws: Seq<nat>|
                        g_search_run(draws, val(p), val(q), held(found_g));
                    this = Round { q: Some(val(q)), p: Some(val(p)), g: held(found_g) };
                }
                if let Some(g) = found_g {
                    proof {
                        lemma_round_run(this, l_bits, n_bits, q_draws, p_draws, g_draws);
                        rounds = rounds.push(this);
                        assert(common_run(rounds, l_bits, n_bits, Some((val(p), val(q), val(g)))));
                    }
                    return Some((p, q, g));
                }
            }
        }
        proof {
            lemma_round_run(this, l_bits, n_bits, q_draws, p_draws, g_draws);
            rounds = rounds.push(this);
        }
        round = round + 1;
    }
    proof {
        assert(common_run(rounds, l_bits, n_bits, None));
    }
    None
}

} // verus!
