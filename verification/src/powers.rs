//! Powers modulo a number: what square-and-multiply and the search for square
//! roots rest on.

use crate::modular::{congruent, is_odd_prime, lemma_congruent_small, lemma_equal_squares};
use vstd::arithmetic::div_mod::lemma_small_mod;
use vstd::arithmetic::power::{
    lemma_pow1, lemma_pow_adds, lemma_pow_distributes, lemma_pow_mod_noop, lemma_pow_multiplies,
    lemma_square_is_pow2, pow,
};
use vstd::arithmetic::power2::{lemma_pow2_unfold, pow2};
use vstd::prelude::*;

verus! {

/// The residue of the power `b^e` modulo `p`.
pub open spec fn pow_mod(b: int, e: nat, p: int) -> int {
    pow(b, e) % p
}

/// Halving the exponent squares the base; an odd exponent leaves one factor
/// over.
pub proof fn lemma_pow_halve(b: int, e: nat)
    ensures
        pow(b, e) == pow(b * b, e / 2) * (if e % 2 == 1 {
            b
        } else {
            1
        }),
{
    let h = e / 2;
    lemma_square_is_pow2(b);
    lemma_pow_multiplies(b, 2, h);
    if e % 2 == 1 {
        lemma_pow_adds(b, 2 * h, 1);
        lemma_pow1(b);
    } else {
        assert(pow(b, e) * 1 == pow(b, e));
    }
}

/// The residue of a power depends on the base only through its residue.
pub proof fn lemma_pow_mod_base(a: int, b: int, e: nat, p: int)
    requires
        p > 0,
        congruent(a, b, p),
    ensures
        pow_mod(a, e, p) == pow_mod(b, e, p),
{
    lemma_pow_mod_noop(a, e, p);
    lemma_pow_mod_noop(b, e, p);
}

/// A power of a power: the exponents multiply, also through a reduction of
/// the inner power.
pub proof fn lemma_pow_mod_nested(a: int, e1: nat, e2: nat, p: int)
    requires
        p > 0,
    ensures
        pow_mod(pow_mod(a, e1, p), e2, p) == pow_mod(a, e1 * e2, p),
{
    lemma_pow_mod_noop(pow(a, e1), e2, p);
    lemma_pow_multiplies(a, e1, e2);
}

/// The power of a product is the product of the powers.
pub proof fn lemma_pow_mod_product(a: int, b: int, e: nat, p: int)
    requires
        p > 0,
    ensures
        pow_mod(a * b, e, p) == (pow_mod(a, e, p) * pow_mod(b, e, p)) % p,
{
    lemma_pow_distributes(a, b, e);
    vstd::arithmetic::div_mod::lemma_mul_mod_noop(pow(a, e), pow(b, e), p);
}

/// Squaring a power doubles the exponent: `(b^(2^i))² = b^(2^(i+1))`.
pub proof fn lemma_pow_mod_square(b: int, i: nat, p: int)
    requires
        p > 0,
    ensures
        (pow_mod(b, pow2(i), p) * pow_mod(b, pow2(i), p)) % p == pow_mod(b, pow2(i + 1), p),
{
    lemma_pow2_unfold(i + 1);
    lemma_pow_adds(b, pow2(i), pow2(i));
    vstd::arithmetic::div_mod::lemma_mul_mod_noop(pow(b, pow2(i)), pow(b, pow2(i)), p);
}

/// Modulo an odd prime the only square roots of 1 are 1 and `p - 1`.
pub proof fn lemma_roots_of_one(e: int, p: int)
    requires
        is_odd_prime(p),
        0 <= e < p,
        (e * e) % p == 1,
        e != 1,
    ensures
        e == p - 1,
{
    lemma_small_mod(1, p as nat);
    assert(1 * 1 == 1);
    lemma_equal_squares(e, 1, p);
    if congruent(e, 1, p) {
        lemma_congruent_small(e, 1, p);
    } else {
        vstd::arithmetic::div_mod::lemma_mod_add_multiples_vanish(-1, p);
        lemma_congruent_small(e, p - 1, p);
    }
}

/// The product of two residues that are both `p - 1` is 1.
pub proof fn lemma_minus_one_squared(p: int)
    requires
        p > 1,
    ensures
        ((p - 1) * (p - 1)) % p == 1,
{
    assert((p - 1) * (p - 1) == p * (p - 2) + 1) by (nonlinear_arith);
    vstd::arithmetic::div_mod::lemma_mod_multiples_vanish(p - 2, 1, p);
    lemma_small_mod(1, p as nat);
}

} // verus!
