//! Arithmetic in the field of integers modulo an odd prime.

use crate::fermat::{lemma_euler_criterion, lemma_non_residue_exists};
use crate::floored::{mod_floor_i128, mod_floor_u128};
use crate::modular::{
    congruent, gcd, is_inverse, is_odd_prime, is_quadratic_residue, is_root_pair, is_square_root,
    lemma_congruent_mul, lemma_congruent_reduce, lemma_congruent_sub, lemma_gcd_prime,
    lemma_inverse_is, lemma_multiple_vanishes, lemma_neg_neg, lemma_negated_root,
    lemma_odd_prime_is_odd, mod_inverse,
};
use crate::powers::{
    lemma_minus_one_squared, lemma_pow_halve, lemma_pow_mod_base, lemma_pow_mod_nested,
    lemma_pow_mod_product, lemma_pow_mod_square, lemma_roots_of_one, pow_mod,
};
use vstd::arithmetic::div_mod::{lemma_fundamental_div_mod, lemma_mod_bound, lemma_small_mod};
use vstd::arithmetic::power::{lemma1_pow, lemma_pow0, lemma_pow1, lemma_pow_adds, pow};
use vstd::arithmetic::power2::{lemma2_to64, lemma_pow2_adds, lemma_pow2_unfold, pow2};
use vstd::prelude::*;

verus! {

/// An input that lies outside the domain of an operation.
#[derive(Debug, Clone, Copy, PartialEq, Eq, Structural)]
pub enum DomainError {
    /// A value offered as a field element is not below the modulus.
    OutOfRange,
    /// Zero has no multiplicative inverse.
    ZeroInverse,
    /// Coordinates offered as a curve point do not satisfy the curve equation.
    NotOnCurve,
}

/// A residue class modulo the prime of the field that made it, held as its
/// least nonnegative member.
#[derive(Debug, Clone, Copy, PartialEq, Eq, Structural)]
pub struct FieldElement {
    value: u64,
}

impl View for FieldElement {
    type V = int;

    closed spec fn view(&self) -> int {
        self.value as int
    }
}

impl FieldElement {
    /// The least nonnegative member of the class.
    pub fn value(&self) -> (v: u64)
        ensures
            v == self@,
    {
        self.value
    }

    /// Elements with the same value are the same element.
    pub proof fn lemma_value_determines(self, other: Self)
        requires
            self@ == other@,
        ensures
            self == other,
    {
    }
}

/// The field of integers modulo an odd prime. Its view is the modulus.
#[derive(Debug, Clone, Copy, PartialEq, Eq, Structural)]
pub struct PrimeField {
    p: u64,
}

impl View for PrimeField {
    type V = int;

    closed spec fn view(&self) -> int {
        self.p as int
    }
}

impl PrimeField {
    /// The modulus is an odd prime.
    pub open spec fn wf(&self) -> bool {
        is_odd_prime(self@)
    }

    /// `x` is an element of this field: its value is below the modulus.
    pub open spec fn contains(&self, x: FieldElement) -> bool {
        0 <= x@ < self@
    }

    /// The field of integers modulo `p`.
    pub fn new(p: u64) -> (f: Self)
        requires
            is_odd_prime(p as int),
        ensures
            f@ == p,
            f.wf(),
    {
        PrimeField { p }
    }

    /// The modulus.
    pub fn modulus(&self) -> (p: u64)
        ensures
            p == self@,
    {
        self.p
    }

    /// The class of `n`: the residue of `n` in `[0, p)`, also for negative `n`.
    pub fn reduce(&self, n: i128) -> (r: FieldElement)
        requires
            self.wf(),
        ensures
            r@ == (n as int) % self@,
            self.contains(r),
    {
        proof {
            lemma_mod_bound(n as int, self.p as int);
        }
        let r = mod_floor_i128(n, self.p as i128);
        FieldElement { value: r as u64 }
    }

    /// The element with value `v`, which must already lie in `[0, p)`.
    pub fn element(&self, v: u64) -> (r: Result<FieldElement, DomainError>)
        ensures
            v < self@ ==> r.is_ok() && r.unwrap()@ == v && self.contains(r.unwrap()),
            v >= self@ ==> r == Err::<FieldElement, DomainError>(DomainError::OutOfRange),
    {
        if v < self.p {
            Ok(FieldElement { value: v })
        } else {
            Err(DomainError::OutOfRange)
        }
    }

    /// The sum of two elements.
    pub fn add(&self, x: FieldElement, y: FieldElement) -> (r: FieldElement)
        requires
            self.wf(),
            self.contains(x),
            self.contains(y),
        ensures
            r@ == (x@ + y@) % self@,
            self.contains(r),
    {
        proof {
            lemma_mod_bound(x@ + y@, self@);
        }
        let s = mod_floor_u128(x.value as u128 + y.value as u128, self.p as u128);
        FieldElement { value: s as u64 }
    }

    /// The difference of two elements.
    pub fn sub(&self, x: FieldElement, y: FieldElement) -> (r: FieldElement)
        requires
            self.wf(),
            self.contains(x),
            self.contains(y),
        ensures
            r@ == (x@ - y@) % self@,
            self.contains(r),
    {
        proof {
            lemma_mod_bound(x@ - y@, self@);
        }
        let d = mod_floor_i128(x.value as i128 - y.value as i128, self.p as i128);
        FieldElement { value: d as u64 }
    }

    /// The additive inverse of an element.
    pub fn neg(&self, x: FieldElement) -> (r: FieldElement)
        requires
            self.wf(),
            self.contains(x),
        ensures
            r@ == (-x@) % self@,
            self.contains(r),
    {
        proof {
            lemma_mod_bound(-x@, self@);
            vstd::arithmetic::div_mod::lemma_mod_add_multiples_vanish(-x@, self@);
        }
        let d = mod_floor_i128(self.p as i128 - x.value as i128, self.p as i128);
        FieldElement { value: d as u64 }
    }

    /// The product of two elements, computed at twice the width so that it
    /// cannot overflow.
    pub fn mul(&self, x: FieldElement, y: FieldElement) -> (r: FieldElement)
        requires
            self.wf(),
            self.contains(x),
            self.contains(y),
        ensures
            r@ == (x@ * y@) % self@,
            self.contains(r),
    {
        proof {
            lemma_mod_bound(x@ * y@, self@);
            assert(x@ * y@ <= 0xffff_ffff_ffff_ffff * 0xffff_ffff_ffff_ffff) by (nonlinear_arith)
                requires
                    0 <= x@ <= 0xffff_ffff_ffff_ffff,
                    0 <= y@ <= 0xffff_ffff_ffff_ffff,
            ;
        }
        let m = mod_floor_u128((x.value as u128) * (y.value as u128), self.p as u128);
        FieldElement { value: m as u64 }
    }

    /// The multiplicative inverse of a nonzero element, by the extended
    /// Euclidean algorithm; zero is refused.
    pub fn inverse(&self, x: FieldElement) -> (r: Result<FieldElement, DomainError>)
        requires
            self.wf(),
            self.contains(x),
        ensures
            x@ == 0 ==> r == Err::<FieldElement, DomainError>(DomainError::ZeroInverse),
            x@ != 0 ==> ({
                &&& r.is_ok()
                &&& self.contains(r.unwrap())
                &&& is_inverse(x@, r.unwrap()@, self@)
                &&& r.unwrap()@ == mod_inverse(x@, self@)
            }),
    {
        if x.value == 0 {
            return Err(DomainError::ZeroInverse);
        }
        let p = self.p;
        // Each remainder is the matching coefficient times x, modulo p.
        let mut r0: u64 = p;
        let mut r1: u64 = x.value;
        let mut s0 = FieldElement { value: 0 };
        let mut s1 = FieldElement { value: 1 };
        proof {
            lemma_multiple_vanishes(1, p as int);
            lemma_small_mod(0, p as nat);
            assert(0 * x@ == 0) by (nonlinear_arith);
            assert(1 * x@ == x@) by (nonlinear_arith);
            assert(1 * (p as int) == p) by (nonlinear_arith);
        }
        while r1 != 0
            invariant
                self.wf(),
                p == self@,
                0 < x@ < p,
                self.contains(s0),
                self.contains(s1),
                gcd(r0 as nat, r1 as nat) == gcd(p as nat, x@ as nat),
                congruent(s0@ * x@, r0 as int, p as int),
                congruent(s1@ * x@, r1 as int, p as int),
            decreases r1,
        {
            let q = r0 / r1;
            let r2 = r0 % r1;
            let qf = FieldElement { value: q % p };
            let s2 = self.sub(s0, self.mul(qf, s1));
            proof {
                let pi = p as int;
                lemma_fundamental_div_mod(r0 as int, r1 as int);
                // s2 * x = (s0 - q * s1) * x = s0 * x - q * (s1 * x) = r0 - q * r1 = r2
                lemma_congruent_reduce(q as int, pi);
                lemma_congruent_reduce(qf@ * s1@, pi);
                lemma_congruent_reduce(s0@ - (qf@ * s1@) % pi, pi);
                lemma_congruent_mul(qf@, q as int, s1@, s1@, pi);
                lemma_congruent_sub(s0@, s0@, (qf@ * s1@) % pi, q * s1@, pi);
                lemma_congruent_mul(s2@, s0@ - q * s1@, x@, x@, pi);
                lemma_congruent_mul(q as int, q as int, s1@ * x@, r1 as int, pi);
                lemma_congruent_sub(s0@ * x@, r0 as int, q * (s1@ * x@), q * r1, pi);
                assert((s0@ - q * s1@) * x@ == s0@ * x@ - q * (s1@ * x@)) by (nonlinear_arith);
                assert(r0 - q * r1 == r2) by (nonlinear_arith)
                    requires
                        r0 == r1 * q + r2,
                ;
            }
            r0 = r1;
            r1 = r2;
            s0 = s1;
            s1 = s2;
        }
        proof {
            lemma_gcd_prime(p as nat, x@ as nat);
            lemma_small_mod(1, p as nat);
            assert(s0@ * x@ == x@ * s0@) by (nonlinear_arith);
            lemma_inverse_is(x@, s0@, p as int);
        }
        Ok(s0)
    }

    /// The power `x^e`, by squaring and multiplying along the binary digits of
    /// the exponent.
    pub fn pow(&self, x: FieldElement, e: u64) -> (r: FieldElement)
        requires
            self.wf(),
            self.contains(x),
        ensures
            r@ == pow_mod(x@, e as nat, self@),
            self.contains(r),
    {
        let mut result = FieldElement { value: 1 };
        let mut base = x;
        let mut rest = e;
        proof {
            assert(1 * pow(x@, e as nat) == pow(x@, e as nat));
        }
        while rest > 0
            invariant
                self.wf(),
                self.contains(result),
                self.contains(base),
                congruent(result@ * pow(base@, rest as nat), pow(x@, e as nat), self@),
            decreases rest,
        {
            let ghost p = self@;
            let ghost b0 = base@;
            let ghost r0 = result@;
            let ghost e0 = rest as nat;
            if rest % 2 == 1 {
                result = self.mul(result, base);
            }
            base = self.mul(base, base);
            rest = rest / 2;
            proof {
                let e1 = rest as nat;
                let f = if e0 % 2 == 1 {
                    b0
                } else {
                    1
                };
                lemma_pow_halve(b0, e0);
                lemma_congruent_reduce(r0 * b0, p);
                assert(r0 * 1 == r0);
                lemma_congruent_reduce(b0 * b0, p);
                lemma_pow_mod_base(base@, b0 * b0, e1, p);
                lemma_congruent_mul(result@, r0 * f, pow(base@, e1), pow(b0 * b0, e1), p);
                assert((r0 * f) * pow(b0 * b0, e1) == r0 * (pow(b0 * b0, e1) * f))
                    by (nonlinear_arith);
            }
        }
        proof {
            lemma_pow0(base@);
            assert(result@ * 1 == result@);
            lemma_small_mod(result@ as nat, self@ as nat);
        }
        result
    }

    /// The least number from 2 up that is no square: its power `(p-1)/2` is
    /// `p - 1`. There is one below `p`, so the search ends.
    fn find_non_residue(&self) -> (z: FieldElement)
        requires
            self.wf(),
        ensures
            self.contains(z),
            pow_mod(z@, ((self@ - 1) / 2) as nat, self@) == self@ - 1,
    {
        let p = self.p;
        let half = (p - 1) / 2;
        let mut z: u64 = 2;
        proof {
            lemma1_pow(half as nat);
            lemma_small_mod(1, p as nat);
        }
        loop
            invariant
                self.wf(),
                p == self@,
                half == (p - 1) / 2,
                2 <= z < p,
                forall|w: int| 1 <= w < z ==> #[trigger] pow_mod(w, half as nat, p as int) != p - 1,
            decreases p - z,
        {
            let candidate = FieldElement { value: z };
            if self.pow(candidate, half).value == p - 1 {
                return candidate;
            }
            proof {
                if z + 1 == p {
                    lemma_non_residue_exists(p as int);
                }
            }
            z = z + 1;
        }
    }

    /// A square root of `x` by the algorithm of Tonelli and Shanks, from a
    /// number `z` that is no square.
    fn tonelli_shanks(&self, x: FieldElement, z: FieldElement) -> (r: FieldElement)
        requires
            self.wf(),
            self.contains(x),
            self.contains(z),
            pow_mod(x@, ((self@ - 1) / 2) as nat, self@) == 1,
            pow_mod(z@, ((self@ - 1) / 2) as nat, self@) == self@ - 1,
        ensures
            self.contains(r),
            is_square_root(r@, x@, self@),
    {
        let p = self.p;
        let ghost pi = p as int;
        let ghost half = ((p - 1) / 2) as nat;
        // p - 1 = q * 2^s with q odd
        let mut q: u64 = p - 1;
        let mut s: u64 = 0;
        proof {
            lemma2_to64();
            lemma_odd_prime_is_odd(pi);
        }
        while q % 2 == 0
            invariant
                p == self@,
                q >= 1,
                q * pow2(s as nat) == p - 1,
                q + s <= p - 1,
            decreases q,
        {
            proof {
                lemma_pow2_unfold((s + 1) as nat);
                assert((q / 2) * (2 * pow2(s as nat)) == q * pow2(s as nat)) by (nonlinear_arith)
                    requires
                        q % 2 == 0,
                ;
            }
            q = q / 2;
            s = s + 1;
        }
        proof {
            if s == 0 {
                assert(q * 1 == q);
            }
            lemma_pow2_unfold(s as nat);
            assert(q * pow2((s - 1) as nat) == half) by (nonlinear_arith)
                requires
                    q * (2 * pow2((s - 1) as nat)) == p - 1,
                    half == (p - 1) / 2,
            ;
        }
        let mut m: u64 = s;
        let mut c = self.pow(z, q);
        let mut t = self.pow(x, q);
        let mut r = self.pow(x, (q + 1) / 2);
        proof {
            let top = pow2((s - 1) as nat);
            lemma_pow_mod_nested(z@, q as nat, top, pi);
            lemma_pow_mod_nested(x@, q as nat, top, pi);
            // r * r = x^(q+1) = x^q * x = t * x
            let e = ((q + 1) / 2) as nat;
            lemma_pow_adds(x@, e, e);
            lemma_pow_adds(x@, q as nat, 1);
            lemma_pow1(x@);
            lemma_congruent_reduce(pow(x@, e), pi);
            lemma_congruent_mul(r@, pow(x@, e), r@, pow(x@, e), pi);
            lemma_congruent_reduce(pow(x@, q as nat), pi);
            lemma_congruent_mul(t@, pow(x@, q as nat), x@, x@, pi);
        }
        while t.value != 1
            invariant
                self.wf(),
                self.contains(x),
                self.contains(c),
                self.contains(t),
                self.contains(r),
                p == self@,
                pi == p,
                1 <= m <= s,
                pow_mod(c@, pow2((m - 1) as nat), pi) == pi - 1,
                pow_mod(t@, pow2((m - 1) as nat), pi) == 1,
                congruent(r@ * r@, t@ * x@, pi),
            decreases m,
        {
            // the least i with t^(2^i) = 1
            let mut i: u64 = 0;
            let mut power = t;
            proof {
                lemma2_to64();
                lemma_pow1(t@);
                lemma_small_mod(t@ as nat, pi as nat);
            }
            while power.value != 1
                invariant
                    self.wf(),
                    self.contains(power),
                    self.contains(t),
                    pi == self@,
                    1 <= m,
                    i <= m - 1,
                    power@ == pow_mod(t@, pow2(i as nat), pi),
                    pow_mod(t@, pow2((m - 1) as nat), pi) == 1,
                    i > 0 ==> pow_mod(t@, pow2((i - 1) as nat), pi) != 1,
                decreases m - 1 - i,
            {
                proof {
                    lemma_pow_mod_square(t@, i as nat, pi);
                }
                power = self.mul(power, power);
                i = i + 1;
            }
            let ghost low = pow2((i - 1) as nat);
            proof {
                // the power below the first 1 is p - 1
                let e = pow_mod(t@, low, pi);
                lemma_pow_mod_square(t@, (i - 1) as nat, pi);
                vstd::arithmetic::div_mod::lemma_mod_bound(pow(t@, low), pi);
                lemma_roots_of_one(e, pi);
            }
            // b = c^(2^(m-i-1))
            let mut b = c;
            let mut j: u64 = 0;
            proof {
                lemma_pow1(c@);
                lemma_small_mod(c@ as nat, pi as nat);
            }
            while j < m - i - 1
                invariant
                    self.wf(),
                    self.contains(b),
                    self.contains(c),
                    pi == self@,
                    1 <= i < m,
                    j <= m - i - 1,
                    b@ == pow_mod(c@, pow2(j as nat), pi),
                decreases m - i - 1 - j,
            {
                proof {
                    lemma_pow_mod_square(c@, j as nat, pi);
                }
                b = self.mul(b, b);
                j = j + 1;
            }
            let ghost c0 = c@;
            let ghost t0 = t@;
            let ghost r0 = r@;
            let ghost m0 = m;
            let square = self.mul(b, b);
            t = self.mul(t, square);
            r = self.mul(r, b);
            c = square;
            m = i;
            proof {
                lemma_pow_mod_square(c0, (m0 - i - 1) as nat, pi);
                // c' ^ (2^(i-1)) = c ^ (2^(m-i) * 2^(i-1)) = c ^ (2^(m-1)) = p - 1
                lemma_pow_mod_nested(c0, pow2((m0 - i) as nat), low, pi);
                lemma_pow2_adds((m0 - i) as nat, (i - 1) as nat);
                // t' ^ (2^(i-1)) = t ^ (2^(i-1)) * c' ^ (2^(i-1)) = (p - 1) * (p - 1) = 1
                lemma_congruent_reduce(t0 * square@, pi);
                lemma_pow_mod_base(t@, t0 * square@, low, pi);
                lemma_pow_mod_product(t0, square@, low, pi);
                lemma_minus_one_squared(pi);
                // r' * r' = (r * r) * (b * b) = (t * x) * c' = t' * x
                lemma_congruent_reduce(r0 * b@, pi);
                lemma_congruent_mul(r@, r0 * b@, r@, r0 * b@, pi);
                lemma_congruent_reduce(b@ * b@, pi);
                lemma_congruent_mul(r0 * r0, t0 * x@, b@ * b@, square@, pi);
                lemma_congruent_mul(t@, t0 * square@, x@, x@, pi);
                assert((r0 * b@) * (r0 * b@) == (r0 * r0) * (b@ * b@)) by (nonlinear_arith);
                assert((t0 * x@) * square@ == (t0 * square@) * x@) by (nonlinear_arith);
            }
        }
        proof {
            assert(1 * x@ == x@);
            lemma_small_mod(x@ as nat, pi as nat);
        }
        r
    }

    /// The pair of a square root and its negative, the smaller first.
    fn root_pair(&self, x: FieldElement, root: FieldElement) -> (r: (FieldElement, FieldElement))
        requires
            self.wf(),
            self.contains(root),
            is_square_root(root@, x@, self@),
        ensures
            self.contains(r.0),
            self.contains(r.1),
            is_root_pair(r.0@, r.1@, x@, self@),
    {
        let other = self.neg(root);
        proof {
            lemma_negated_root(root@, x@, self@);
            lemma_neg_neg(root@, self@);
        }
        if root.value <= other.value {
            (root, other)
        } else {
            (other, root)
        }
    }

    /// The two square roots of `x`, the smaller first, or nothing where `x` has
    /// none. Zero is its own square root twice over.
    ///
    /// Euler's criterion decides whether there is a root. Where `p` leaves the
    /// remainder 3 on division by 4 the root is the power `(p+1)/4` of `x`;
    /// otherwise it comes from the algorithm of Tonelli and Shanks.
    pub fn sqrt(&self, x: FieldElement) -> (r: Option<(FieldElement, FieldElement)>)
        requires
            self.wf(),
            self.contains(x),
        ensures
            match r {
                Some((r1, r2)) => {
                    &&& self.contains(r1)
                    &&& self.contains(r2)
                    &&& is_root_pair(r1@, r2@, x@, self@)
                },
                None => !is_quadratic_residue(x@, self@),
            },
    {
        let p = self.p;
        let ghost pi = p as int;
        if x.value == 0 {
            proof {
                lemma_small_mod(0, pi as nat);
                assert(0 * 0 == 0);
            }
            return Some((x, x));
        }
        let half = (p - 1) / 2;
        if self.pow(x, half).value != 1 {
            proof {
                if is_quadratic_residue(x@, pi) {
                    lemma_euler_criterion(x@, pi);
                }
            }
            return None;
        }
        if p % 4 == 3 {
            let k = p / 4;
            let root = self.pow(x, k + 1);
            proof {
                // root * root = x^(2k+2) = x^((p-1)/2) * x = x
                let e = (k + 1) as nat;
                lemma_pow_adds(x@, e, e);
                lemma_pow_adds(x@, half as nat, 1);
                lemma_pow1(x@);
                lemma_congruent_reduce(pow(x@, e), pi);
                lemma_congruent_mul(root@, pow(x@, e), root@, pow(x@, e), pi);
                lemma_small_mod(1, pi as nat);
                lemma_congruent_mul(pow(x@, half as nat), 1, x@, x@, pi);
                assert(1 * x@ == x@);
                lemma_small_mod(x@ as nat, pi as nat);
            }
            Some(self.root_pair(x, root))
        } else {
            let z = self.find_non_residue();
            let root = self.tonelli_shanks(x, z);
            Some(self.root_pair(x, root))
        }
    }
}

} // verus!
