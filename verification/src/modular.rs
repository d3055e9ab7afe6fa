//! Congruences, greatest common divisors and primes: the number theory on
//! which the field and the curve rest.

use vstd::arithmetic::div_mod::{
    lemma_add_mod_noop, lemma_fundamental_div_mod, lemma_mod_multiples_vanish,
    lemma_mod_self_0, lemma_mul_mod_noop, lemma_mul_mod_noop_general, lemma_small_mod,
    lemma_sub_mod_noop,
};
use vstd::prelude::*;

verus! {

/// `p` is at least 2 and no integer strictly between 1 and `p` divides it.
pub open spec fn is_prime(p: int) -> bool {
    &&& p >= 2
    &&& forall|d: int| 1 < d < p ==> #[trigger] (p % d) != 0
}

/// `p` is a prime other than 2.
pub open spec fn is_odd_prime(p: int) -> bool {
    is_prime(p) && p > 2
}

/// `a` and `b` leave the same remainder on division by `m`.
pub open spec fn congruent(a: int, b: int, m: int) -> bool {
    a % m == b % m
}

/// Congruences may be added.
pub proof fn lemma_congruent_add(a: int, b: int, c: int, d: int, m: int)
    requires
        m > 0,
        congruent(a, b, m),
        congruent(c, d, m),
    ensures
        congruent(a + c, b + d, m),
{
    lemma_add_mod_noop(a, c, m);
    lemma_add_mod_noop(b, d, m);
}

/// Congruences may be subtracted.
pub proof fn lemma_congruent_sub(a: int, b: int, c: int, d: int, m: int)
    requires
        m > 0,
        congruent(a, b, m),
        congruent(c, d, m),
    ensures
        congruent(a - c, b - d, m),
{
    lemma_sub_mod_noop(a, c, m);
    lemma_sub_mod_noop(b, d, m);
}

/// Congruences may be multiplied.
pub proof fn lemma_congruent_mul(a: int, b: int, c: int, d: int, m: int)
    requires
        m > 0,
        congruent(a, b, m),
        congruent(c, d, m),
    ensures
        congruent(a * c, b * d, m),
{
    lemma_mul_mod_noop(a, c, m);
    lemma_mul_mod_noop(b, d, m);
}

/// A remainder is congruent to the number it was taken from.
pub proof fn lemma_congruent_reduce(a: int, m: int)
    requires
        m > 0,
    ensures
        congruent(a % m, a, m),
        0 <= a % m < m,
{
    vstd::arithmetic::div_mod::lemma_mod_twice(a, m);
    vstd::arithmetic::div_mod::lemma_mod_bound(a, m);
}

/// Two congruent numbers that both lie in `[0, m)` are equal.
pub proof fn lemma_congruent_small(a: int, b: int, m: int)
    requires
        0 <= a < m,
        0 <= b < m,
        congruent(a, b, m),
    ensures
        a == b,
{
    lemma_small_mod(a as nat, m as nat);
    lemma_small_mod(b as nat, m as nat);
}

/// A multiple of `m` is congruent to zero.
pub proof fn lemma_multiple_vanishes(k: int, m: int)
    requires
        m > 0,
    ensures
        (k * m) % m == 0,
        (m * k) % m == 0,
{
    vstd::arithmetic::div_mod::lemma_mod_multiples_basic(k, m);
    assert(k * m == m * k) by (nonlinear_arith);
}

/// The greatest common divisor, by Euclid's recursion.
pub open spec fn gcd(a: nat, b: nat) -> nat
    decreases b,
{
    if b == 0 {
        a
    } else {
        gcd(b, a % b)
    }
}

/// The greatest common divisor of two numbers, not both zero, is positive and
/// divides both.
pub proof fn lemma_gcd_divides(a: nat, b: nat)
    requires
        a > 0 || b > 0,
    ensures
        gcd(a, b) > 0,
        a % gcd(a, b) == 0,
        b % gcd(a, b) == 0,
    decreases b,
{
    if b == 0 {
        lemma_mod_self_0(a as int);
        lemma_small_mod(0, a);
    } else {
        let r = a % b;
        let g = gcd(b, r);
        lemma_gcd_divides(b, r);
        let q = (a / b) as int;
        lemma_fundamental_div_mod(a as int, b as int);
        lemma_mul_mod_noop_general(b as int, q, g as int);
        lemma_add_mod_noop(b * q, r as int, g as int);
        assert((0 * q) % (g as int) == 0) by {
            lemma_small_mod(0, g);
        }
        lemma_small_mod(0, g);
    }
}

/// A prime shares no divisor but 1 with a positive number below it.
pub proof fn lemma_gcd_prime(p: nat, x: nat)
    requires
        is_prime(p as int),
        0 < x < p,
    ensures
        gcd(p, x) == 1,
{
    let g = gcd(p, x);
    lemma_gcd_divides(p, x);
    if g > x {
        lemma_small_mod(x, g);
    }
    if g > 1 {
        assert((p as int) % (g as int) == 0);
    }
}

/// Bezout's identity: the greatest common divisor is an integer combination of
/// the two numbers. The coefficients come back as the result.
pub proof fn lemma_bezout(a: nat, b: nat) -> (c: (int, int))
    ensures
        c.0 * a + c.1 * b == gcd(a, b),
    decreases b,
{
    if b == 0 {
        (1, 0)
    } else {
        let r = a % b;
        let q = (a / b) as int;
        let (s, t) = lemma_bezout(b, r);
        lemma_fundamental_div_mod(a as int, b as int);
        assert(t * a + (s - t * q) * b == s * b + t * r) by (nonlinear_arith)
            requires
                a == b * q + r,
        ;
        (t, s - t * q)
    }
}

/// `y` is the inverse of `x` modulo `p`: it lies in `[0, p)` and `x * y` leaves
/// the remainder 1.
pub open spec fn is_inverse(x: int, y: int, p: int) -> bool {
    0 <= y < p && (x * y) % p == 1
}

/// The inverse of `x` modulo `p`, where there is one.
pub open spec fn mod_inverse(x: int, p: int) -> int {
    choose|y: int| is_inverse(x, y, p)
}

/// There is at most one inverse.
pub proof fn lemma_inverse_unique(x: int, y: int, z: int, p: int)
    requires
        p > 1,
        is_inverse(x, y, p),
        is_inverse(x, z, p),
    ensures
        y == z,
{
    // y = y * (x * z) = (y * x) * z = z, all modulo p
    lemma_mul_mod_noop_general(y, x * z, p);
    lemma_mul_mod_noop_general(x * y, z, p);
    assert(y * (x * z) == (x * y) * z) by (nonlinear_arith);
    assert((y * 1) % p == (1 * z) % p);
    lemma_small_mod(y as nat, p as nat);
    lemma_small_mod(z as nat, p as nat);
}

/// Modulo a prime every number that the prime does not divide has an inverse,
/// and `mod_inverse` names it.
pub proof fn lemma_inverse_exists(x: int, p: int)
    requires
        is_prime(p),
        x % p != 0,
    ensures
        is_inverse(x, mod_inverse(x, p), p),
{
    let r = x % p;
    lemma_congruent_reduce(x, p);
    lemma_gcd_prime(p as nat, r as nat);
    let (s, t) = lemma_bezout(p as nat, r as nat);
    // s * p + t * r == 1
    lemma_mod_multiples_vanish(s, t * r, p);
    assert(p * s + t * r == s * p + t * r) by (nonlinear_arith);
    lemma_small_mod(1, p as nat);
    assert((t * r) % p == 1);
    let y = t % p;
    lemma_congruent_reduce(t, p);
    lemma_mul_mod_noop_general(t, r, p);
    lemma_mul_mod_noop_general(x, y, p);
    assert((r * y) % p == 1) by {
        assert(t * r == r * t) by (nonlinear_arith);
        lemma_mul_mod_noop_general(r, t, p);
    }
    assert(is_inverse(x, y, p));
}

/// Whatever satisfies `is_inverse` is the value of `mod_inverse`.
pub proof fn lemma_inverse_is(x: int, y: int, p: int)
    requires
        p > 1,
        is_inverse(x, y, p),
    ensures
        mod_inverse(x, p) == y,
{
    lemma_inverse_unique(x, y, mod_inverse(x, p), p);
}

/// Euclid's lemma: a prime that divides a product divides one of the factors.
pub proof fn lemma_prime_divides_product(a: int, b: int, p: int)
    requires
        is_prime(p),
        (a * b) % p == 0,
    ensures
        a % p == 0 || b % p == 0,
{
    if a % p != 0 {
        lemma_inverse_exists(a, p);
        let y = mod_inverse(a, p);
        // b = (a * y) * b = (a * b) * y = 0, all modulo p
        lemma_mul_mod_noop_general(a * y, b, p);
        lemma_mul_mod_noop_general(a * b, y, p);
        assert((a * y) * b == (a * b) * y) by (nonlinear_arith);
        assert((1 * b) % p == (0 * y) % p);
        lemma_small_mod(0, p as nat);
    }
}

/// A multiple of a number that `m` divides is divisible by `m`.
pub proof fn lemma_divisible_mul(a: int, k: int, m: int)
    requires
        m > 0,
        a % m == 0,
    ensures
        (a * k) % m == 0,
        (k * a) % m == 0,
{
    lemma_mul_mod_noop_general(a, k, m);
    lemma_small_mod(0, m as nat);
    assert(0 * k == 0) by (nonlinear_arith);
    assert(a * k == k * a) by (nonlinear_arith);
}

/// Sums and differences of numbers that `m` divides are divisible by `m`.
pub proof fn lemma_divisible_add(a: int, b: int, m: int)
    requires
        m > 0,
        a % m == 0,
        b % m == 0,
    ensures
        (a + b) % m == 0,
        (a - b) % m == 0,
{
    lemma_add_mod_noop(a, b, m);
    lemma_sub_mod_noop(a, b, m);
    lemma_small_mod(0, m as nat);
}

/// Two numbers are congruent exactly when `m` divides their difference.
pub proof fn lemma_congruent_difference(a: int, b: int, m: int)
    requires
        m > 0,
    ensures
        congruent(a, b, m) <==> (a - b) % m == 0,
{
    vstd::arithmetic::div_mod::lemma_mod_equivalence(a, b, m);
}

/// Modulo a prime a factor that the prime does not divide may be cancelled.
pub proof fn lemma_cancel(d: int, a: int, b: int, p: int)
    requires
        is_prime(p),
        d % p != 0,
        congruent(d * a, d * b, p),
    ensures
        congruent(a, b, p),
{
    lemma_congruent_difference(d * a, d * b, p);
    assert(d * a - d * b == d * (a - b)) by (nonlinear_arith);
    lemma_prime_divides_product(d, a - b, p);
    lemma_congruent_difference(a, b, p);
}

/// `r` is a square root of `x` modulo `p`, held in `[0, p)`.
pub open spec fn is_square_root(r: int, x: int, p: int) -> bool {
    0 <= r < p && (r * r) % p == x
}

/// `x` has a square root modulo `p`.
pub open spec fn is_quadratic_residue(x: int, p: int) -> bool {
    exists|r: int| is_square_root(r, x, p)
}

/// Negating twice gives the element back.
pub proof fn lemma_neg_neg(y: int, p: int)
    requires
        p > 0,
        0 <= y < p,
    ensures
        (-((-y) % p)) % p == y,
{
    lemma_congruent_reduce(-y, p);
    lemma_congruent_sub(0, 0, (-y) % p, -y, p);
    lemma_small_mod(y as nat, p as nat);
}

/// Modulo a prime two numbers with congruent squares are congruent up to sign.
pub proof fn lemma_equal_squares(y: int, z: int, p: int)
    requires
        is_prime(p),
        congruent(y * y, z * z, p),
    ensures
        congruent(y, z, p) || congruent(y, -z, p),
{
    lemma_congruent_difference(y * y, z * z, p);
    assert(y * y - z * z == (y - z) * (y + z)) by (nonlinear_arith);
    lemma_prime_divides_product(y - z, y + z, p);
    lemma_congruent_difference(y, z, p);
    lemma_congruent_difference(y, -z, p);
}

/// `r1` and `r2` are the two square roots of `x` modulo `p`: each is the
/// negative of the other, and the smaller comes first.
pub open spec fn is_root_pair(r1: int, r2: int, x: int, p: int) -> bool {
    &&& is_square_root(r1, x, p)
    &&& is_square_root(r2, x, p)
    &&& r2 == (-r1) % p
    &&& r1 <= r2
}

/// The negative of a square root is a square root.
pub proof fn lemma_negated_root(r: int, x: int, p: int)
    requires
        p > 0,
        is_square_root(r, x, p),
    ensures
        is_square_root((-r) % p, x, p),
{
    let n = (-r) % p;
    lemma_congruent_reduce(-r, p);
    lemma_congruent_mul(n, -r, n, -r, p);
    assert((-r) * (-r) == r * r) by (nonlinear_arith);
}

/// A prime other than 2 is odd.
pub proof fn lemma_odd_prime_is_odd(p: int)
    requires
        is_odd_prime(p),
    ensures
        p % 2 == 1,
{
    assert(p % 2 != 0);
}

/// Every nonzero element of a prime field times its inverse is one.
pub proof fn law_inverse(x: int, p: int)
    requires
        is_prime(p),
        0 < x < p,
    ensures
        (x * mod_inverse(x, p)) % p == 1int % p,
        0 <= mod_inverse(x, p) < p,
{
    lemma_small_mod(x as nat, p as nat);
    lemma_inverse_exists(x, p);
    lemma_small_mod(1, p as nat);
}

/// Each of the two square roots that belong together squares to the number
/// they are roots of, and their sum is zero.
pub proof fn law_square_roots(r1: int, r2: int, x: int, p: int)
    requires
        p > 0,
        is_root_pair(r1, r2, x, p),
    ensures
        (r1 * r1) % p == x,
        (r2 * r2) % p == x,
        (r1 + r2) % p == 0int % p,
{
    lemma_congruent_reduce(-r1, p);
    lemma_congruent_add(r1, r1, r2, -r1, p);
}

/// A number has at most one pair of square roots modulo a prime: what
/// `is_root_pair` says of a pair determines it.
pub proof fn law_square_roots_unique(a1: int, a2: int, b1: int, b2: int, x: int, p: int)
    requires
        is_prime(p),
        is_root_pair(a1, a2, x, p),
        is_root_pair(b1, b2, x, p),
    ensures
        a1 == b1,
        a2 == b2,
{
    lemma_small_mod(x as nat, p as nat);
    lemma_equal_squares(b1, a1, p);
    lemma_congruent_reduce(-a1, p);
    lemma_neg_neg(a1, p);
    lemma_neg_neg(b1, p);
    if congruent(b1, a1, p) {
        lemma_congruent_small(b1, a1, p);
    } else {
        lemma_congruent_small(b1, a2, p);
    }
}

} // verus!
