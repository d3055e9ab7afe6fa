//! Polynomials with integer coefficients and the bound on the number of their
//! roots modulo a prime.

use crate::modular::{is_prime, lemma_congruent_difference, lemma_prime_divides_product};
use vstd::arithmetic::div_mod::lemma_small_mod;
use vstd::arithmetic::power::pow;
use vstd::prelude::*;

verus! {

/// The value at `x` of the polynomial whose coefficients, from the constant
/// term up, are the members of `c`.
pub open spec fn eval(c: Seq<int>, x: int) -> int
    decreases c.len(),
{
    if c.len() == 0 {
        0
    } else {
        c[0] + x * eval(c.skip(1), x)
    }
}

/// The quotient of the polynomial `c` on division by `X - a`.
pub open spec fn quotient_by_root(c: Seq<int>, a: int) -> Seq<int>
    decreases c.len(),
{
    if c.len() <= 1 {
        Seq::empty()
    } else {
        seq![eval(c.skip(1), a)] + quotient_by_root(c.skip(1), a)
    }
}

/// The coefficients of `X^k`.
pub open spec fn monomial(k: nat) -> Seq<int> {
    Seq::new(
        k + 1,
        |i: int|
            if i == k {
                1int
            } else {
                0int
            },
    )
}

/// The coefficients of `X^k - 1`, for `k` at least 1.
pub open spec fn power_minus_one(k: nat) -> Seq<int> {
    seq![-1int] + monomial((k - 1) as nat)
}

/// The factor theorem: `f(x) - f(a) = (x - a) · g(x)` with `g` the quotient,
/// which is one shorter than `f` and has the same leading coefficient.
pub proof fn lemma_factor(c: Seq<int>, a: int, x: int)
    requires
        c.len() >= 1,
    ensures
        eval(c, x) - eval(c, a) == (x - a) * eval(quotient_by_root(c, a), x),
        quotient_by_root(c, a).len() == c.len() - 1,
        c.len() >= 2 ==> quotient_by_root(c, a).last() == c.last(),
    decreases c.len(),
{
    let rest = c.skip(1);
    let g = quotient_by_root(c, a);
    if c.len() == 1 {
        assert(eval(rest, x) == 0);
        assert(eval(rest, a) == 0);
        assert(eval(g, x) == 0);
        assert(x * 0 == 0 && a * 0 == 0 && (x - a) * 0 == 0) by (nonlinear_arith);
    } else {
        lemma_factor(rest, a, x);
        let g1 = quotient_by_root(rest, a);
        let fa = eval(rest, a);
        let fx = eval(rest, x);
        assert(g.skip(1) =~= g1);
        assert(g[0] == fa);
        assert(eval(g, x) == fa + x * eval(g1, x));
        assert(x * fx - a * fa == (x - a) * (fa + x * eval(g1, x))) by (nonlinear_arith)
            requires
                fx - fa == (x - a) * eval(g1, x),
        ;
        if c.len() >= 3 {
            assert(g.last() == g1.last());
            assert(rest.last() == c.last());
        } else {
            assert(rest.len() == 1);
            assert(rest.skip(1).len() == 0);
            assert(eval(rest.skip(1), a) == 0);
            assert(a * 0 == 0);
            assert(fa == rest[0]);
        }
    }
}

/// `roots` holds different residues modulo `p` at each of which the
/// polynomial `c` vanishes modulo `p`.
pub open spec fn distinct_roots(c: Seq<int>, roots: Seq<int>, p: int) -> bool {
    &&& forall|i: int| 0 <= i < roots.len() ==> 0 <= #[trigger] roots[i] < p
    &&& forall|i: int| 0 <= i < roots.len() ==> eval(c, #[trigger] roots[i]) % p == 0
    &&& forall|i: int, j: int|
        0 <= i < j < roots.len() ==> #[trigger] roots[i] != #[trigger] roots[j]
}

/// Lagrange's theorem: modulo a prime a polynomial whose leading coefficient
/// the prime does not divide has no more roots than its degree.
pub proof fn lemma_root_bound(c: Seq<int>, roots: Seq<int>, p: int)
    requires
        is_prime(p),
        c.len() >= 1,
        c.last() % p != 0,
        distinct_roots(c, roots, p),
    ensures
        roots.len() <= c.len() - 1,
    decreases c.len(),
{
    if roots.len() > 0 {
        let a = roots.last();
        let fewer = roots.drop_last();
        let g = quotient_by_root(c, a);
        assert(eval(c, a) % p == 0) by {
            assert(a == roots[roots.len() - 1]);
        }
        if c.len() == 1 {
            assert(eval(c.skip(1), a) == 0);
            assert(a * 0 == 0);
            assert(eval(c, a) == c[0]);
            assert(false);
        } else {
            lemma_factor(c, a, a);
            assert forall|i: int| 0 <= i < fewer.len() implies eval(g, #[trigger] fewer[i]) % p
                == 0 by {
                let r = fewer[i];
                assert(r == roots[i]);
                assert(eval(c, r) % p == 0);
                lemma_factor(c, a, r);
                lemma_congruent_difference(eval(c, r), eval(c, a), p);
                lemma_prime_divides_product(r - a, eval(g, r), p);
                if (r - a) % p == 0 {
                    lemma_congruent_difference(r, a, p);
                    lemma_small_mod(r as nat, p as nat);
                    lemma_small_mod(a as nat, p as nat);
                    assert(roots[i] != roots[roots.len() - 1]);
                }
            }
            assert(distinct_roots(g, fewer, p)) by {
                assert forall|i: int| 0 <= i < fewer.len() implies 0 <= #[trigger] fewer[i]
                    < p by {
                    assert(fewer[i] == roots[i]);
                }
                assert forall|i: int, j: int| 0 <= i < j < fewer.len() implies #[trigger] fewer[i]
                    != #[trigger] fewer[j] by {
                    assert(fewer[i] == roots[i]);
                    assert(fewer[j] == roots[j]);
                }
            }
            lemma_root_bound(g, fewer, p);
        }
    }
}

/// The polynomial `X^k` takes the value `x^k`.
pub proof fn lemma_monomial_value(k: nat, x: int)
    ensures
        eval(monomial(k), x) == pow(x, k),
    decreases k,
{
    reveal(pow);
    let c = monomial(k);
    if k == 0 {
        assert(c.skip(1).len() == 0);
        assert(eval(c.skip(1), x) == 0);
        assert(x * 0 == 0);
    } else {
        assert(c.skip(1) =~= monomial((k - 1) as nat));
        lemma_monomial_value((k - 1) as nat, x);
    }
}

/// The polynomial `X^k - 1` takes the value `x^k - 1`.
pub proof fn lemma_power_minus_one_value(k: nat, x: int)
    requires
        k >= 1,
    ensures
        eval(power_minus_one(k), x) == pow(x, k) - 1,
        power_minus_one(k).len() == k + 1,
        power_minus_one(k).last() == 1,
{
    reveal(pow);
    let c = power_minus_one(k);
    assert(c.skip(1) =~= monomial((k - 1) as nat));
    lemma_monomial_value((k - 1) as nat, x);
}

} // verus!
