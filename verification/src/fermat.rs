//! Fermat's little theorem and Euler's criterion, by the classical argument
//! that multiplying by a unit permutes the nonzero residues.

use crate::modular::{
    congruent, is_odd_prime, is_prime, is_quadratic_residue, is_square_root, lemma_cancel,
    lemma_congruent_difference, lemma_congruent_mul, lemma_congruent_reduce,
    lemma_congruent_small, lemma_odd_prime_is_odd, lemma_prime_divides_product,
};
use crate::polynomial::{eval, lemma_power_minus_one_value, lemma_root_bound, power_minus_one};
use crate::powers::{lemma_roots_of_one, pow_mod};
use vstd::arithmetic::div_mod::lemma_small_mod;
use vstd::arithmetic::power::{
    lemma_pow_adds, lemma_pow_mod_noop, lemma_pow_multiplies, lemma_square_is_pow2, pow,
};
use vstd::prelude::*;
use vstd::set_lib::{lemma_int_range, lemma_len_subset, set_int_range};

verus! {

/// The product `1 · 2 · … · n`.
pub open spec fn factorial(n: nat) -> nat
    decreases n,
{
    if n == 0 {
        1
    } else {
        n * factorial((n - 1) as nat)
    }
}

/// The product of the members of a sequence.
pub open spec fn product(s: Seq<int>) -> int
    decreases s.len(),
{
    if s.len() == 0 {
        1
    } else {
        product(s.drop_last()) * s.last()
    }
}

/// The residues of `a·1, a·2, …, a·n` modulo `p`.
pub open spec fn multiples(a: int, p: int, n: nat) -> Seq<int> {
    Seq::new(n, |i: int| (a * (i + 1)) % p)
}

/// Any member of a sequence may be taken out of its product as a factor.
proof fn lemma_product_remove(s: Seq<int>, j: int)
    requires
        0 <= j < s.len(),
    ensures
        product(s) == s[j] * product(s.remove(j)),
    decreases s.len(),
{
    let front = s.drop_last();
    let rest = s.remove(j);
    if j == s.len() - 1 {
        assert(rest =~= front);
        assert(product(front) * s.last() == s.last() * product(front)) by (nonlinear_arith);
    } else {
        lemma_product_remove(front, j);
        assert(rest.drop_last() =~= front.remove(j));
        assert(rest.last() == s.last());
        let inner = product(front.remove(j));
        assert((s[j] * inner) * s.last() == s[j] * (inner * s.last())) by (nonlinear_arith);
    }
}

/// A sequence of `n` different numbers from 1 to `n` holds `n` somewhere.
proof fn lemma_pigeonhole(s: Seq<int>, n: nat) -> (j: int)
    requires
        n > 0,
        s.len() == n,
        s.no_duplicates(),
        forall|i: int| 0 <= i < n ==> 1 <= #[trigger] s[i] <= n,
    ensures
        0 <= j < n,
        s[j] == n,
{
    if !exists|j: int| 0 <= j < n && s[j] == n {
        let below = set_int_range(1, n as int);
        lemma_int_range(1, n as int);
        assert(s.to_set().subset_of(below)) by {
            assert forall|v: int| s.to_set().contains(v) implies below.contains(v) by {
                let i = choose|i: int| 0 <= i < s.len() && s[i] == v;
                assert(1 <= s[i] <= n);
            }
        }
        lemma_len_subset(s.to_set(), below);
        s.unique_seq_to_set();
    }
    choose|j: int| 0 <= j < n && s[j] == n
}

/// The product of `n` different numbers from 1 to `n` is `n!`, in whatever
/// order they stand.
proof fn lemma_permutation_product(s: Seq<int>, n: nat)
    requires
        s.len() == n,
        s.no_duplicates(),
        forall|i: int| 0 <= i < n ==> 1 <= #[trigger] s[i] <= n,
    ensures
        product(s) == factorial(n),
    decreases n,
{
    if n > 0 {
        let j = lemma_pigeonhole(s, n);
        let rest = s.remove(j);
        assert forall|i: int| 0 <= i < rest.len() implies 1 <= #[trigger] rest[i] <= n - 1 by {
            let k = if i < j {
                i
            } else {
                i + 1
            };
            assert(rest[i] == s[k]);
            assert(1 <= s[k] <= n);
            assert(s[k] != s[j]);
        }
        assert(rest.no_duplicates()) by {
            assert forall|i1: int, i2: int|
                0 <= i1 < rest.len() && 0 <= i2 < rest.len() && i1 != i2 implies rest[i1]
                != rest[i2] by {
                let k1 = if i1 < j {
                    i1
                } else {
                    i1 + 1
                };
                let k2 = if i2 < j {
                    i2
                } else {
                    i2 + 1
                };
                assert(rest[i1] == s[k1]);
                assert(rest[i2] == s[k2]);
            }
        }
        lemma_permutation_product(rest, (n - 1) as nat);
        lemma_product_remove(s, j);
    }
}

/// The product of the residues of `a·1, …, a·n` is congruent to `aⁿ · n!`.
proof fn lemma_multiples_product(a: int, p: int, n: nat)
    requires
        p > 0,
    ensures
        congruent(product(multiples(a, p, n)), pow(a, n) * factorial(n), p),
    decreases n,
{
    reveal(pow);
    if n > 0 {
        let m = (n - 1) as nat;
        let s = multiples(a, p, n);
        lemma_multiples_product(a, p, m);
        assert(s.drop_last() =~= multiples(a, p, m));
        assert(s.last() == (a * n) % p);
        lemma_congruent_reduce(a * n, p);
        let f = factorial(m) as int;
        let q = pow(a, m);
        lemma_congruent_mul(product(multiples(a, p, m)), q * f, s.last(), a * n, p);
        assert((q * f) * (a * n) == (a * q) * (n * f)) by (nonlinear_arith);
    }
}

/// Modulo a prime the multiples of a unit by `1, …, p - 1` are `p - 1`
/// different nonzero residues.
proof fn lemma_multiples_permute(a: int, p: int)
    requires
        is_prime(p),
        a % p != 0,
    ensures
        multiples(a, p, (p - 1) as nat).no_duplicates(),
        forall|i: int|
            0 <= i < p - 1 ==> 1 <= #[trigger] multiples(a, p, (p - 1) as nat)[i] <= p - 1,
{
    let s = multiples(a, p, (p - 1) as nat);
    assert forall|i: int| 0 <= i < p - 1 implies 1 <= #[trigger] s[i] <= p - 1 by {
        lemma_congruent_reduce(a * (i + 1), p);
        if s[i] == 0 {
            lemma_prime_divides_product(a, i + 1, p);
            lemma_small_mod((i + 1) as nat, p as nat);
        }
    }
    assert forall|i: int, j: int| 0 <= i < s.len() && 0 <= j < s.len() && i != j implies s[i]
        != s[j] by {
        if s[i] == s[j] {
            lemma_cancel(a, i + 1, j + 1, p);
            lemma_congruent_small(i + 1, j + 1, p);
        }
    }
}

/// A prime does not divide the factorial of a smaller number.
proof fn lemma_factorial_unit(n: nat, p: int)
    requires
        is_prime(p),
        n < p,
    ensures
        factorial(n) % (p as nat) != 0,
    decreases n,
{
    if n == 0 {
        lemma_small_mod(1, p as nat);
    } else {
        lemma_factorial_unit((n - 1) as nat, p);
        let f = factorial((n - 1) as nat) as int;
        if (n * f) % p == 0 {
            lemma_prime_divides_product(n as int, f, p);
            lemma_small_mod(n, p as nat);
        }
    }
}

/// Fermat's little theorem: modulo a prime `p` the power `a^(p-1)` of a number
/// that `p` does not divide is 1.
pub proof fn lemma_fermat(a: int, p: int)
    requires
        is_prime(p),
        a % p != 0,
    ensures
        pow(a, (p - 1) as nat) % p == 1,
{
    let n = (p - 1) as nat;
    let s = multiples(a, p, n);
    let f = factorial(n) as int;
    lemma_multiples_permute(a, p);
    lemma_permutation_product(s, n);
    lemma_multiples_product(a, p, n);
    lemma_factorial_unit(n, p);
    assert(f * 1 == f);
    assert(pow(a, n) * f == f * pow(a, n)) by (nonlinear_arith);
    lemma_cancel(f, 1, pow(a, n), p);
    lemma_small_mod(1, p as nat);
}

/// Euler's criterion, in the direction that refutes: modulo an odd prime `p`
/// a nonzero square has the power `(p-1)/2` equal to 1.
pub proof fn lemma_euler_criterion(x: int, p: int)
    requires
        is_odd_prime(p),
        0 < x < p,
        is_quadratic_residue(x, p),
    ensures
        pow(x, ((p - 1) / 2) as nat) % p == 1,
{
    let r = choose|r: int| is_square_root(r, x, p);
    let h = ((p - 1) / 2) as nat;
    lemma_odd_prime_is_odd(p);
    if r % p == 0 {
        lemma_small_mod(r as nat, p as nat);
        assert(r * r == 0) by (nonlinear_arith)
            requires
                r == 0,
        ;
        lemma_small_mod(0, p as nat);
    }
    lemma_fermat(r, p);
    lemma_pow_mod_noop(r * r, h, p);
    lemma_square_is_pow2(r);
    lemma_pow_multiplies(r, 2, h);
    assert(2 * h == p - 1);
}

/// Modulo an odd prime some number from 1 to `p - 1` has the power
/// `(p-1)/2` equal to `p - 1`: not every number is a square.
pub proof fn lemma_non_residue_exists(p: int)
    requires
        is_odd_prime(p),
    ensures
        exists|z: int| 1 <= z < p && #[trigger] pow_mod(z, ((p - 1) / 2) as nat, p) == p - 1,
{
    let h = ((p - 1) / 2) as nat;
    lemma_odd_prime_is_odd(p);
    if forall|z: int| 1 <= z < p ==> #[trigger] pow_mod(z, h, p) != p - 1 {
        // then every number from 1 to p - 1 is a root of X^h - 1, which has
        // room for h roots only
        let c = power_minus_one(h);
        let roots = Seq::new((p - 1) as nat, |i: int| i + 1);
        lemma_power_minus_one_value(h, 0);
        assert forall|i: int| 0 <= i < roots.len() implies eval(c, #[trigger] roots[i]) % p
            == 0 by {
            let z = i + 1;
            let e = pow_mod(z, h, p);
            lemma_power_minus_one_value(h, z);
            lemma_small_mod(z as nat, p as nat);
            lemma_fermat(z, p);
            lemma_pow_adds(z, h, h);
            vstd::arithmetic::div_mod::lemma_mul_mod_noop(pow(z, h), pow(z, h), p);
            vstd::arithmetic::div_mod::lemma_mod_bound(pow(z, h), p);
            if e != 1 {
                lemma_roots_of_one(e, p);
            }
            lemma_small_mod(1, p as nat);
            lemma_congruent_difference(pow(z, h), 1, p);
        }
        lemma_small_mod(1, p as nat);
        lemma_root_bound(c, roots, p);
    }
}

} // verus!
