//! The curve `y² = x³ + 9·x + 1` over the field of integers modulo 61.

use crate::curve::{CurvePoint, WeierstrassCurve};
use crate::ff61::{lemma_61_is_prime, FiniteField61Point};
use crate::group_law::{add_points, cubic, on_curve, scalar_multiple, CurveModel, Point};
use crate::modular::{
    is_quadratic_residue, is_root_pair, lemma_congruent_add, lemma_congruent_mul,
    lemma_congruent_reduce,
};
use vstd::prelude::*;

verus! {

/// The parameters of the curve: modulus 61, `a = 9`, `b = 1`.
pub open spec fn curve61() -> CurveModel {
    CurveModel { p: 61, a: 9, b: 1 }
}

/// The point of the model with the coordinates of a pair of field elements.
pub open spec fn affine(pt: (FiniteField61Point, FiniteField61Point)) -> Point {
    Point::Affine { x: pt.0@, y: pt.1@ }
}

/// The point of the model that an optional pair stands for: nothing is the
/// point at infinity.
pub open spec fn point_of(pt: Option<(FiniteField61Point, FiniteField61Point)>) -> Point {
    match pt {
        Some(pair) => affine(pair),
        None => Point::Infinity,
    }
}

/// The curve `y² = x³ + 9·x + 1` modulo 61, with a base point chosen by
/// whoever builds it.
pub struct Curve61 {
    pub base_point: (FiniteField61Point, FiniteField61Point),
}

/// The curve as an instance of the general one. Its own base point is `(5, 7)`.
fn general() -> (c: WeierstrassCurve)
    ensures
        c.wf(),
        c@ == curve61(),
{
    proof {
        lemma_61_is_prime();
    }
    WeierstrassCurve::new(61, 9, 1, 5, 7).unwrap()
}

/// A pair of field elements as a point of the general curve.
fn lift(c: &WeierstrassCurve, pt: &(FiniteField61Point, FiniteField61Point)) -> (r: CurvePoint)
    requires
        c@ == curve61(),
    ensures
        r@ == affine(*pt),
{
    let x = c.field().element(pt.0.value() as u64).unwrap();
    let y = c.field().element(pt.1.value() as u64).unwrap();
    CurvePoint::Affine { x, y }
}

/// A point of the general curve as an optional pair of field elements.
fn lower(c: &WeierstrassCurve, pt: CurvePoint) -> (r: Option<
    (FiniteField61Point, FiniteField61Point),
>)
    requires
        c@ == curve61(),
        c.has(pt),
    ensures
        point_of(r) == pt@,
{
    match pt {
        CurvePoint::Infinity => None,
        CurvePoint::Affine { x, y } => Some(
            (
                FiniteField61Point::new(x.value() as u8),
                FiniteField61Point::new(y.value() as u8),
            ),
        ),
    }
}

impl Curve61 {
    /// The base point.
    pub fn base_point(&self) -> (r: (FiniteField61Point, FiniteField61Point))
        ensures
            r == self.base_point,
    {
        self.base_point
    }

    /// The two ordinates of the curve at the abscissa `x`, the smaller first, or
    /// nothing where no point of the curve has that abscissa.
    pub fn eval_at(&self, x: FiniteField61Point) -> (r: Option<
        (FiniteField61Point, FiniteField61Point),
    >)
        ensures
            match r {
                Some((y1, y2)) => {
                    &&& is_root_pair(y1@, y2@, cubic(curve61(), x@) % 61, 61)
                    &&& on_curve(curve61(), affine((x, y1)))
                    &&& on_curve(curve61(), affine((x, y2)))
                },
                None => !is_quadratic_residue(cubic(curve61(), x@) % 61, 61),
            },
    {
        let _ = x.value();
        let x_pow_2 = x * x;
        let x_pow_3 = x_pow_2 * x;
        let x_mul_9 = x * FiniteField61Point::new(9);
        let y_pow_2 = x_pow_3 + x_mul_9 + FiniteField61Point::new(1);
        proof {
            lemma_congruent_reduce(x@ * x@, 61);
            lemma_congruent_mul(x_pow_2@, x@ * x@, x@, x@, 61);
            lemma_congruent_reduce(x_pow_2@ * x@, 61);
            lemma_congruent_reduce(x@ * 9, 61);
            lemma_congruent_add(x_pow_3@, x@ * x@ * x@, x_mul_9@, 9 * x@, 61);
            lemma_congruent_reduce(x_pow_3@ + x_mul_9@, 61);
            lemma_congruent_add(
                (x_pow_3@ + x_mul_9@) % 61,
                x@ * x@ * x@ + 9 * x@,
                1,
                1,
                61,
            );
        }
        y_pow_2.square_root()
    }

    /// The sum of two points of the curve, or nothing where they cancel to the
    /// point at infinity.
    pub fn point_add(
        &self,
        p: &(FiniteField61Point, FiniteField61Point),
        q: &(FiniteField61Point, FiniteField61Point),
    ) -> (r: Option<(FiniteField61Point, FiniteField61Point)>)
        requires
            on_curve(curve61(), affine(*p)),
            on_curve(curve61(), affine(*q)),
        ensures
            point_of(r) == add_points(curve61(), affine(*p), affine(*q)),
            on_curve(curve61(), point_of(r)),
    {
        let c = general();
        let sum = c.add(lift(&c, p), lift(&c, q));
        lower(&c, sum)
    }

    /// The multiple of a point of the curve by the value of `s`, or nothing
    /// where it is the point at infinity.
    pub fn point_mul(
        &self,
        p: (FiniteField61Point, FiniteField61Point),
        s: FiniteField61Point,
    ) -> (r: Option<(FiniteField61Point, FiniteField61Point)>)
        requires
            on_curve(curve61(), affine(p)),
        ensures
            point_of(r) == scalar_multiple(curve61(), affine(p), s@ as nat),
            on_curve(curve61(), point_of(r)),
    {
        let c = general();
        let multiple = c.scalar_multiply(lift(&c, &p), s.value() as u64);
        lower(&c, multiple)
    }
}

} // verus!
