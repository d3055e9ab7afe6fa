//! Short Weierstrass curves over a prime field: points, the group law and
//! scalar multiplication.

use crate::bits::{bit_at, highest_set_bit, lemma_clear_high_bits, lemma_shift_step};
use crate::field::{DomainError, FieldElement, PrimeField};
use crate::group_law::{
    add_points, chord_slope, cubic, lemma_add_closed, lemma_distinct_not_congruent,
    lemma_negate_closed, lemma_same_abscissa, lemma_scalar_multiple_step,
    lemma_tangent_denominator, negate_point, on_curve, scalar_multiple, tangent_slope,
    third_point, CurveModel, Point,
};
use crate::modular::{
    is_odd_prime, is_quadratic_residue, is_root_pair, lemma_congruent_add, lemma_congruent_mul,
    lemma_congruent_reduce, lemma_congruent_sub,
};
use vstd::arithmetic::div_mod::lemma_small_mod;
use vstd::arithmetic::power2::{lemma2_to64, lemma2_to64_rest, lemma_pow2_pos, pow2};
use vstd::prelude::*;

verus! {

/// A point of a curve group: the identity, or a pair of field elements. Its
/// view is the point of the model with the same coordinates.
#[derive(Debug, Clone, Copy, PartialEq, Eq, Structural)]
pub enum CurvePoint {
    Infinity,
    Affine { x: FieldElement, y: FieldElement },
}

impl View for CurvePoint {
    type V = Point;

    open spec fn view(&self) -> Point {
        match self {
            CurvePoint::Infinity => Point::Infinity,
            CurvePoint::Affine { x, y } => Point::Affine { x: x@, y: y@ },
        }
    }
}

/// The curve `y² = x³ + a·x + b` over a prime field, with a base point on it.
/// Its view is the curve of the model with the same modulus and coefficients.
#[derive(Debug, Clone, Copy, PartialEq, Eq, Structural)]
pub struct WeierstrassCurve {
    field: PrimeField,
    a: FieldElement,
    b: FieldElement,
    generator: CurvePoint,
}

impl View for WeierstrassCurve {
    type V = CurveModel;

    closed spec fn view(&self) -> CurveModel {
        CurveModel { p: self.field@, a: self.a@, b: self.b@ }
    }
}

impl WeierstrassCurve {
    /// The base point, as a point of the model.
    pub closed spec fn base(&self) -> Point {
        self.generator@
    }

    /// The parameters are those of a curve over an odd prime, and the base
    /// point lies on it.
    pub open spec fn wf(&self) -> bool {
        self@.wf() && on_curve(self@, self.base())
    }

    /// `x` is an element of the coordinate field.
    pub open spec fn holds(&self, x: FieldElement) -> bool {
        0 <= x@ < self@.p
    }

    /// `pt` is the identity or satisfies the curve equation.
    pub open spec fn has(&self, pt: CurvePoint) -> bool {
        on_curve(self@, pt@)
    }

    /// The right-hand side of the curve equation at `x`.
    fn rhs(&self, x: FieldElement) -> (r: FieldElement)
        requires
            self.wf(),
            self.holds(x),
        ensures
            r@ == cubic(self@, x@) % self@.p,
            self.holds(r),
    {
        let f = &self.field;
        let x2 = f.mul(x, x);
        let x3 = f.mul(x2, x);
        let ax = f.mul(self.a, x);
        let r = f.add(f.add(x3, ax), self.b);
        proof {
            let p = self@.p;
            lemma_congruent_reduce(x@ * x@, p);
            lemma_congruent_mul(x2@, x@ * x@, x@, x@, p);
            lemma_congruent_reduce(x2@ * x@, p);
            lemma_congruent_reduce(self.a@ * x@, p);
            lemma_congruent_add(x3@, x@ * x@ * x@, ax@, self.a@ * x@, p);
            lemma_congruent_reduce(x3@ + ax@, p);
            lemma_congruent_add((x3@ + ax@) % p, x@ * x@ * x@ + self.a@ * x@, self.b@, self.b@, p);
        }
        r
    }

    /// The curve with modulus `p`, coefficients `a` and `b` and base point
    /// `(gx, gy)`. Every number must be reduced, and the base point must
    /// satisfy the curve equation.
    pub fn new(p: u64, a: u64, b: u64, gx: u64, gy: u64) -> (r: Result<Self, DomainError>)
        requires
            is_odd_prime(p as int),
        ensures
            ({
                let m = CurveModel { p: p as int, a: a as int, b: b as int };
                let g = Point::Affine { x: gx as int, y: gy as int };
                let reduced = a < p && b < p && gx < p && gy < p;
                &&& !reduced ==> r == Err::<Self, DomainError>(DomainError::OutOfRange)
                &&& reduced && !on_curve(m, g) ==> r == Err::<Self, DomainError>(
                    DomainError::NotOnCurve,
                )
                &&& reduced && on_curve(m, g) ==> r.is_ok() && r.unwrap().wf() && r.unwrap()@ == m
                    && r.unwrap().base() == g
            }),
    {
        if a >= p || b >= p || gx >= p || gy >= p {
            return Err(DomainError::OutOfRange);
        }
        let field = PrimeField::new(p);
        let ea = field.reduce(a as i128);
        let eb = field.reduce(b as i128);
        let x = field.reduce(gx as i128);
        let y = field.reduce(gy as i128);
        proof {
            lemma_small_mod(a as nat, p as nat);
            lemma_small_mod(b as nat, p as nat);
            lemma_small_mod(gx as nat, p as nat);
            lemma_small_mod(gy as nat, p as nat);
        }
        let curve = WeierstrassCurve { field, a: ea, b: eb, generator: CurvePoint::Infinity };
        let lhs = field.mul(y, y);
        let rhs = curve.rhs(x);
        proof {
            if lhs@ == rhs@ {
                lhs.lemma_value_determines(rhs);
            }
        }
        if lhs == rhs {
            Ok(WeierstrassCurve { field, a: ea, b: eb, generator: CurvePoint::Affine { x, y } })
        } else {
            Err(DomainError::NotOnCurve)
        }
    }

    /// The coordinate field.
    pub fn field(&self) -> (f: PrimeField)
        ensures
            f@ == self@.p,
            self.wf() ==> f.wf(),
    {
        self.field
    }

    /// The coefficient of `x` in the curve equation.
    pub fn a(&self) -> (a: FieldElement)
        ensures
            a@ == self@.a,
    {
        self.a
    }

    /// The constant term of the curve equation.
    pub fn b(&self) -> (b: FieldElement)
        ensures
            b@ == self@.b,
    {
        self.b
    }

    /// The base point.
    pub fn generator(&self) -> (g: CurvePoint)
        ensures
            g@ == self.base(),
            self.wf() ==> self.has(g),
    {
        self.generator
    }

    /// Whether `pt` is the identity or has reduced coordinates that satisfy the
    /// curve equation.
    pub fn contains(&self, pt: CurvePoint) -> (b: bool)
        requires
            self.wf(),
        ensures
            b == self.has(pt),
    {
        match pt {
            CurvePoint::Infinity => true,
            CurvePoint::Affine { x, y } => {
                let p = self.field.modulus();
                if x.value() >= p || y.value() >= p {
                    false
                } else {
                    let lhs = self.field.mul(y, y);
                    let rhs = self.rhs(x);
                    proof {
                        if lhs@ == rhs@ {
                            lhs.lemma_value_determines(rhs);
                        }
                    }
                    lhs == rhs
                }
            },
        }
    }

    /// The point with coordinates `(x, y)`, which must be reduced and satisfy
    /// the curve equation.
    pub fn point(&self, x: u64, y: u64) -> (r: Result<CurvePoint, DomainError>)
        requires
            self.wf(),
        ensures
            ({
                let pt = Point::Affine { x: x as int, y: y as int };
                let reduced = x < self@.p && y < self@.p;
                &&& !reduced ==> r == Err::<CurvePoint, DomainError>(DomainError::OutOfRange)
                &&& reduced && !on_curve(self@, pt) ==> r == Err::<CurvePoint, DomainError>(
                    DomainError::NotOnCurve,
                )
                &&& on_curve(self@, pt) ==> r.is_ok() && r.unwrap()@ == pt
            }),
    {
        let ex = self.field.element(x);
        let ey = self.field.element(y);
        match (ex, ey) {
            (Ok(x), Ok(y)) => {
                let pt = CurvePoint::Affine { x, y };
                if self.contains(pt) {
                    Ok(pt)
                } else {
                    Err(DomainError::NotOnCurve)
                }
            },
            _ => Err(DomainError::OutOfRange),
        }
    }

    /// The two ordinates of the curve at the abscissa `x`, the smaller first, or
    /// nothing where no point of the curve has that abscissa.
    pub fn evaluate_x(&self, x: FieldElement) -> (r: Option<(FieldElement, FieldElement)>)
        requires
            self.wf(),
            self.holds(x),
        ensures
            match r {
                Some((y1, y2)) => {
                    &&& is_root_pair(y1@, y2@, cubic(self@, x@) % self@.p, self@.p)
                    &&& self.has(CurvePoint::Affine { x, y: y1 })
                    &&& self.has(CurvePoint::Affine { x, y: y2 })
                },
                None => !is_quadratic_residue(cubic(self@, x@) % self@.p, self@.p),
            },
    {
        let y_squared = self.rhs(x);
        self.field.sqrt(y_squared)
    }

    /// The inverse of a point in the group: its mirror image in the x-axis.
    pub fn negate(&self, pt: CurvePoint) -> (r: CurvePoint)
        requires
            self.wf(),
            self.has(pt),
        ensures
            r@ == negate_point(self@, pt@),
            self.has(r),
    {
        proof {
            lemma_negate_closed(self@, pt@);
        }
        match pt {
            CurvePoint::Infinity => CurvePoint::Infinity,
            CurvePoint::Affine { x, y } => CurvePoint::Affine { x, y: self.field.neg(y) },
        }
    }

    /// The point in which the line of slope `s` through `(x1, y1)` and a point
    /// of abscissa `x2` meets the curve again, reflected in the x-axis.
    fn third(&self, s: FieldElement, x1: FieldElement, y1: FieldElement, x2: FieldElement) -> (r:
        CurvePoint)
        requires
            self.wf(),
            self.holds(s),
            self.holds(x1),
            self.holds(y1),
            self.holds(x2),
        ensures
            r@ == third_point(self@, s@, x1@, y1@, x2@),
    {
        let f = &self.field;
        let ss = f.mul(s, s);
        let w = f.sub(ss, x1);
        let x3 = f.sub(w, x2);
        let t = f.sub(x1, x3);
        let m = f.mul(s, t);
        let y3 = f.sub(m, y1);
        proof {
            let p = self@.p;
            lemma_congruent_reduce(s@ * s@, p);
            lemma_congruent_sub(ss@, s@ * s@, x1@, x1@, p);
            lemma_congruent_reduce(ss@ - x1@, p);
            lemma_congruent_sub(w@, s@ * s@ - x1@, x2@, x2@, p);
            lemma_congruent_reduce(x1@ - x3@, p);
            lemma_congruent_mul(s@, s@, t@, x1@ - x3@, p);
            lemma_congruent_reduce(s@ * t@, p);
            lemma_congruent_sub(m@, s@ * (x1@ - x3@), y1@, y1@, p);
        }
        CurvePoint::Affine { x: x3, y: y3 }
    }

    /// The sum of two points in the group. The identity is neutral, opposite
    /// points cancel, equal points are added along the tangent and all others
    /// along the chord.
    pub fn add(&self, p: CurvePoint, q: CurvePoint) -> (r: CurvePoint)
        requires
            self.wf(),
            self.has(p),
            self.has(q),
        ensures
            r@ == add_points(self@, p@, q@),
            self.has(r),
    {
        proof {
            lemma_add_closed(self@, p@, q@);
        }
        let f = &self.field;
        match (p, q) {
            (CurvePoint::Infinity, _) => q,
            (_, CurvePoint::Infinity) => p,
            (CurvePoint::Affine { x: x1, y: y1 }, CurvePoint::Affine { x: x2, y: y2 }) => {
                let ghost m = self@.p;
                let opposite = f.neg(y2);
                proof {
                    if y1@ == opposite@ {
                        y1.lemma_value_determines(opposite);
                    }
                    if x1@ == x2@ {
                        x1.lemma_value_determines(x2);
                    }
                    if y1@ == y2@ {
                        y1.lemma_value_determines(y2);
                    }
                }
                if x1 == x2 && y1 == opposite {
                    CurvePoint::Infinity
                } else if x1 == x2 && y1 == y2 {
                    let three = f.reduce(3);
                    let two = f.reduce(2);
                    let xx = f.mul(x1, x1);
                    let txx = f.mul(three, xx);
                    let num = f.add(txx, self.a);
                    let den = f.mul(two, y1);
                    proof {
                        lemma_tangent_denominator(y1@, m);
                        lemma_congruent_reduce(3, m);
                        lemma_congruent_reduce(2, m);
                        lemma_congruent_mul(two@, 2, y1@, y1@, m);
                        lemma_congruent_reduce(x1@ * x1@, m);
                        lemma_congruent_mul(three@, 3, xx@, x1@ * x1@, m);
                        lemma_congruent_reduce(three@ * xx@, m);
                        lemma_congruent_add(txx@, 3 * (x1@ * x1@), self.a@, self.a@, m);
                        lemma_congruent_reduce(txx@ + self.a@, m);
                        assert(3 * (x1@ * x1@) == 3 * x1@ * x1@) by (nonlinear_arith);
                    }
                    let inv = f.inverse(den).unwrap();
                    let s = f.mul(num, inv);
                    proof {
                        lemma_congruent_mul(num@, 3 * x1@ * x1@ + self.a@, inv@, inv@, m);
                        assert(s@ == tangent_slope(self@, x1@, y1@));
                    }
                    self.third(s, x1, y1, x2)
                } else {
                    let num = f.sub(y2, y1);
                    let den = f.sub(x2, x1);
                    proof {
                        if x1@ == x2@ {
                            lemma_same_abscissa(self@, x1@, y1@, y2@);
                        }
                        lemma_distinct_not_congruent(x1@, x2@, m);
                    }
                    let inv = f.inverse(den).unwrap();
                    let s = f.mul(num, inv);
                    proof {
                        lemma_congruent_reduce(y2@ - y1@, m);
                        lemma_congruent_mul(num@, y2@ - y1@, inv@, inv@, m);
                        assert(s@ == chord_slope(self@, x1@, y1@, x2@, y2@));
                    }
                    self.third(s, x1, y1, x2)
                }
            },
        }
    }

    /// Twice a point: the point added to itself.
    pub fn double(&self, p: CurvePoint) -> (r: CurvePoint)
        requires
            self.wf(),
            self.has(p),
        ensures
            r@ == add_points(self@, p@, p@),
            self.has(r),
    {
        self.add(p, p)
    }

    /// The multiple `scalar · point`, by doubling and adding along the binary
    /// digits of the scalar from the highest set digit down. The scalar is a
    /// plain number, not an element of the coordinate field.
    pub fn scalar_multiply(&self, point: CurvePoint, scalar: u64) -> (r: CurvePoint)
        requires
            self.wf(),
            self.has(point),
        ensures
            r@ == scalar_multiple(self@, point@, scalar as nat),
            self.has(r),
    {
        let top = match highest_set_bit(scalar) {
            Some(t) => t,
            None => {
                return CurvePoint::Infinity;
            },
        };
        let ghost k = scalar as nat;
        proof {
            lemma2_to64();
            lemma2_to64_rest();
            lemma_clear_high_bits(k, (top + 1) as nat, 64);
            lemma_pow2_pos((top + 1) as nat);
            lemma_small_div(k, pow2((top + 1) as nat));
        }
        let mut acc = CurvePoint::Infinity;
        let mut i: usize = top + 1;
        while i > 0
            invariant
                self.wf(),
                self.has(point),
                self.has(acc),
                i <= 64,
                k == scalar,
                acc@ == scalar_multiple(self@, point@, k / pow2(i as nat)),
            decreases i,
        {
            i = i - 1;
            let ghost rest = k / pow2(i as nat);
            proof {
                lemma_shift_step(k, i as nat);
                assert(acc@ == scalar_multiple(self@, point@, rest / 2));
            }
            acc = self.add(acc, acc);
            if bit_at(scalar, i) {
                acc = self.add(acc, point);
            }
            proof {
                lemma_scalar_multiple_step(self@, point@, rest);
            }
            assert(acc@ == scalar_multiple(self@, point@, rest));
        }
        proof {
            lemma2_to64();
            assert(k / 1 == k);
        }
        acc
    }
}

/// A number below the divisor has the quotient zero.
proof fn lemma_small_div(k: nat, d: nat)
    requires
        k < d,
    ensures
        k / d == 0,
{
    vstd::arithmetic::div_mod::lemma_basic_div(k as int, d as int);
}

} // verus!
