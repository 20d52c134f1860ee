//! Arithmetic modulo a number: inverses, and powers whose exponents are
//! taken modulo the order of the base.

use vstd::arithmetic::div_mod::*;
use vstd::arithmetic::mul::*;
use vstd::arithmetic::power::*;
use vstd::prelude::*;

verus! {

/// `w` is a multiplicative inverse of `a` modulo `m`.
pub open spec fn is_inverse(a: nat, w: nat, m: nat) -> bool {
    (a * w) % m == 1
}

/// `a` has a multiplicative inverse modulo `m`.
pub open spec fn has_inverse(a: nat, m: nat) -> bool {
    exists|w: nat| is_inverse(a, w, m)
}

/// The inverse of `a` modulo `m` that lies below `m`, where `a` has one.
pub open spec fn inverse(a: nat, m: nat) -> nat {
    choose|w: nat| w < m && is_inverse(a, w, m)
}

/// `n` is a prime number.
pub open spec fn is_prime(n: nat) -> bool {
    &&& n >= 2
    &&& forall|d: nat| 1 < d < n ==> #[trigger] (n % d) != 0
}

/// `b` to the power `e`, reduced modulo `m`.
pub open spec fn pow_mod(b: nat, e: nat, m: nat) -> nat {
    (pow(b as int, e) % (m as int)) as nat
}

/// An inverse stays one when it is reduced modulo `m`.
pub proof fn lemma_inverse_reduced(a: nat, w: nat, m: nat)
    requires
        m > 0,
        is_inverse(a, w, m),
    ensures
        is_inverse(a, w % m, m),
        w % m < m,
{
    lemma_mul_mod_noop_right(a as int, w as int, m as int);
}

/// A number and its residue modulo `m` have the same inverses.
pub proof fn lemma_inverse_of_residue(a: nat, m: nat)
    requires
        m > 0,
    ensures
        forall|w: nat| #[trigger] is_inverse(a, w, m) == is_inverse(a % m, w, m),
        has_inverse(a, m) == has_inverse(a % m, m),
{
    let residue = a % m;
    assert forall|w: nat| is_inverse(a, w, m) == is_inverse(residue, w, m) by {
        lemma_mul_mod_noop_left(a as int, w as int, m as int);
    }
    if has_inverse(a, m) {
        let w = choose|w: nat| is_inverse(a, w, m);
        assert(is_inverse(residue, w, m));
    }
    if has_inverse(residue, m) {
        let w = choose|w: nat| is_inverse(residue, w, m);
        assert(is_inverse(a, w, m));
    }
}

/// Zero has no inverse modulo a number above one.
pub proof fn lemma_zero_has_no_inverse(m: nat)
    requires
        m > 1,
    ensures
        !has_inverse(0, m),
{
    assert forall|w: nat| !is_inverse(0, w, m) by {
        assert(0 * w == 0);
        lemma_small_mod(0, m);
    }
}

/// Below `m` there is at most one inverse of `a`.
pub proof fn lemma_inverse_unique(a: nat, w1: nat, w2: nat, m: nat)
    requires
        m > 0,
        w1 < m,
        w2 < m,
        is_inverse(a, w1, m),
        is_inverse(a, w2, m),
    ensures
        w1 == w2,
{
    let (a_int, x, y, mi) = (a as int, w1 as int, w2 as int, m as int);
    // x == x * (a * y) == (x * a) * y == y, all modulo m.
    assert((x * (a * y)) % mi == x) by {
        lemma_mul_mod_noop_right(x, a_int * y, mi);
        lemma_small_mod(w1, m);
    }
    assert(((x * a_int) * y) % mi == y) by {
        lemma_mul_is_commutative(x, a_int);
        lemma_mul_mod_noop_left(a_int * x, y, mi);
        lemma_small_mod(w2, m);
    }
    lemma_mul_is_associative(x, a_int, y);
}

/// A reduced inverse is the inverse that `inverse` names.
pub proof fn lemma_inverse_is(a: nat, w: nat, m: nat)
    requires
        m > 0,
        w < m,
        is_inverse(a, w, m),
    ensures
        has_inverse(a, m),
        inverse(a, m) == w,
{
    let chosen = inverse(a, m);
    lemma_inverse_unique(a, w, chosen, m);
}

/// The inverse that `inverse` names is one, and lies below `m`.
pub proof fn lemma_inverse_properties(a: nat, m: nat)
    requires
        m > 0,
        has_inverse(a, m),
    ensures
        inverse(a, m) < m,
        is_inverse(a, inverse(a, m), m),
{
    let w = choose|w: nat| is_inverse(a, w, m);
    lemma_inverse_reduced(a, w, m);
    assert((w % m) < m && is_inverse(a, w % m, m));
}

/// Where the `q`-th power of `g` is one modulo `p`, no power of `g` up to
/// the `q`-th is a multiple of `p`.
pub proof fn lemma_pow_mod_nonzero(g: nat, x: nat, q: nat, p: nat)
    requires
        p > 1,
        x <= q,
        pow(g as int, q) % (p as int) == 1,
    ensures
        pow_mod(g, x, p) != 0,
        pow_mod(g, x, p) < p,
{
    let a = pow(g as int, x);
    let b = pow(g as int, (q - x) as nat);
    lemma_pow_adds(g as int, x, (q - x) as nat);
    assert(a * b == pow(g as int, q));
    lemma_mul_mod_noop_left(a, b, p as int);
    if a % (p as int) == 0 {
        assert(0 * b == 0);
        lemma_small_mod(0, p);
    }
    lemma_mod_bound(a, p as int);
}

/// Where the `q`-th power of `g` is one modulo `p`, the power of `g` depends
/// only on the exponent modulo `q`.
pub proof fn lemma_pow_mod_exponent_reduced(g: nat, e: nat, q: nat, p: nat)
    requires
        p > 1,
        q > 0,
        pow(g as int, q) % (p as int) == 1,
    ensures
        pow_mod(g, e, p) == pow_mod(g, e % q, p),
{
    let (gi, pi) = (g as int, p as int);
    let turns = e / q;
    let rest = e % q;
    lemma_fundamental_div_mod(e as int, q as int);
    assert(e == q * turns + rest);
    // g^e == (g^q)^turns * g^rest
    lemma_pow_adds(gi, q * turns, rest);
    lemma_pow_multiplies(gi, q, turns);
    let wheel = pow(pow(gi, q), turns);
    let tail = pow(gi, rest);
    assert(pow(gi, e) == wheel * tail);
    // (g^q)^turns is one modulo p
    lemma_pow_mod_noop(pow(gi, q), turns, pi);
    lemma1_pow(turns);
    lemma_small_mod(1, p);
    assert(wheel % pi == 1);
    lemma_mul_mod_noop_left(wheel, tail, pi);
    assert(1 * tail == tail);
}

/// Where the `q`-th power of `g` is one modulo `p`, exponents that agree
/// modulo `q` give the same power.
pub proof fn lemma_pow_mod_exponents_congruent(g: nat, a: nat, b: nat, q: nat, p: nat)
    requires
        p > 1,
        q > 0,
        pow(g as int, q) % (p as int) == 1,
        a % q == b % q,
    ensures
        pow_mod(g, a, p) == pow_mod(g, b, p),
{
    lemma_pow_mod_exponent_reduced(g, a, q, p);
    lemma_pow_mod_exponent_reduced(g, b, q, p);
}

/// A power of a power modulo `p`: the exponents multiply.
pub proof fn lemma_pow_mod_of_pow_mod(g: nat, x: nat, u: nat, p: nat)
    requires
        p > 1,
    ensures
        pow_mod(pow_mod(g, x, p), u, p) == pow_mod(g, x * u, p),
{
    let (gi, pi) = (g as int, p as int);
    lemma_mod_bound(pow(gi, x), pi);
    lemma_pow_mod_noop(pow(gi, x), u, pi);
    lemma_pow_multiplies(gi, x, u);
}

/// The product of two powers modulo `p`: the exponents add.
pub proof fn lemma_pow_mod_product(g: nat, a: nat, b: nat, p: nat)
    requires
        p > 1,
    ensures
        (pow_mod(g, a, p) * pow_mod(g, b, p)) % p == pow_mod(g, a + b, p),
{
    let (gi, pi) = (g as int, p as int);
    lemma_mod_bound(pow(gi, a), pi);
    lemma_mod_bound(pow(gi, b), pi);
    lemma_mul_mod_noop_general(pow(gi, a), pow(gi, b), pi);
    lemma_pow_adds(gi, a, b);
    lemma_mod_bound(pow(gi, a + b), pi);
}

/// A number is a multiple of `d` where it is a multiple of `b` plus `r`, and
/// both `b` and `r` are multiples of `d`.
proof fn lemma_divides_combination(b: nat, k: nat, r: nat, d: nat)
    requires
        d > 0,
        b % d == 0,
        r % d == 0,
    ensures
        (b * k + r) % d == 0,
{
    let (bi, ki, ri, di) = (b as int, k as int, r as int, d as int);
    lemma_fundamental_div_mod(bi, di);
    lemma_fundamental_div_mod(ri, di);
    let (bq, rq) = (bi / di, ri / di);
    assert(bi * ki + ri == (bq * ki + rq) * di) by (nonlinear_arith)
        requires
            bi == di * bq,
            ri == di * rq,
    ;
    lemma_mod_multiples_basic(bq * ki + rq, di);
}

/// Bezout's identity: two numbers, not both zero, have a common divisor that
/// is a combination of them. The result holds the divisor and the two
/// coefficients.
pub proof fn lemma_bezout(a: nat, b: nat) -> (r: (nat, int, int))
    requires
        a > 0 || b > 0,
    ensures
        r.0 > 0,
        a % r.0 == 0,
        b % r.0 == 0,
        a * r.1 + b * r.2 == r.0,
    decreases b,
{
    if b == 0 {
        lemma_mod_self_0(a as int);
        lemma_small_mod(0, a);
        (a, 1, 0)
    } else {
        let rest = a % b;
        let turns = a / b;
        let (d, u, v) = lemma_bezout(b, rest);
        lemma_fundamental_div_mod(a as int, b as int);
        lemma_divides_combination(b, turns, rest, d);
        let (a_int, bi, ti, ri) = (a as int, b as int, turns as int, rest as int);
        assert(a_int * v + bi * (u - ti * v) == bi * u + ri * v) by (nonlinear_arith)
            requires
                a_int == bi * ti + ri,
        ;
        (d, v, u - turns * v)
    }
}

/// Modulo a prime, every number strictly between zero and the prime has an
/// inverse.
pub proof fn lemma_prime_has_inverses(a: nat, q: nat)
    requires
        is_prime(q),
        0 < a < q,
    ensures
        has_inverse(a, q),
{
    let (d, u, v) = lemma_bezout(a, q);
    let (a_int, qi) = (a as int, q as int);
    // the common divisor is one
    if d != 1 {
        if d > a {
            lemma_small_mod(a, d);
        }
        assert(1 < d < q);
        assert(q % d != 0);
    }
    // a * u == 1 - q * v, and u may be taken modulo q
    assert((a_int * u) % qi == 1) by {
        assert(qi * v + a_int * u == 1);
        lemma_mod_multiples_vanish(v, a_int * u, qi);
        lemma_small_mod(1, q);
    }
    let w = (u % qi) as nat;
    lemma_mul_mod_noop_right(a_int, u, qi);
    assert(is_inverse(a, w, q));
}

} // verus!
