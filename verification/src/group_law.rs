//! The group law of a short Weierstrass curve, stated over the integers, and
//! what holds of it.

use crate::modular::{
    congruent, is_odd_prime, lemma_cancel, lemma_congruent_difference, lemma_congruent_mul,
    lemma_congruent_reduce, lemma_congruent_small, lemma_congruent_sub, lemma_divisible_add,
    lemma_divisible_mul, lemma_equal_squares, lemma_inverse_exists, lemma_neg_neg, mod_inverse,
};
use vstd::arithmetic::div_mod::lemma_small_mod;
use vstd::prelude::*;

verus! {

/// The curve `y² = x³ + a·x + b` over the integers modulo `p`.
pub struct CurveModel {
    pub p: int,
    pub a: int,
    pub b: int,
}

/// A point of the curve group: the identity, or a pair of coordinates.
pub enum Point {
    Infinity,
    Affine { x: int, y: int },
}

impl CurveModel {
    /// The modulus is an odd prime and both coefficients are reduced.
    pub open spec fn wf(self) -> bool {
        &&& is_odd_prime(self.p)
        &&& 0 <= self.a < self.p
        &&& 0 <= self.b < self.p
    }
}

/// The right-hand side of the curve equation, before reduction.
pub open spec fn cubic(c: CurveModel, x: int) -> int {
    x * x * x + c.a * x + c.b
}

/// The point belongs to the group: it is the identity, or its coordinates are
/// reduced and satisfy the curve equation.
pub open spec fn on_curve(c: CurveModel, pt: Point) -> bool {
    match pt {
        Point::Infinity => true,
        Point::Affine { x, y } => {
            &&& 0 <= x < c.p
            &&& 0 <= y < c.p
            &&& congruent(y * y, cubic(c, x), c.p)
        },
    }
}

/// The quotient `n / d` in the field.
pub open spec fn quotient(n: int, d: int, p: int) -> int {
    (n * mod_inverse(d % p, p)) % p
}

/// The slope of the line through two points with different abscissas.
pub open spec fn chord_slope(c: CurveModel, x1: int, y1: int, x2: int, y2: int) -> int {
    quotient(y2 - y1, x2 - x1, c.p)
}

/// The slope of the tangent at a point whose ordinate is not zero.
pub open spec fn tangent_slope(c: CurveModel, x: int, y: int) -> int {
    quotient(3 * x * x + c.a, 2 * y, c.p)
}

/// The point in which the line of slope `s` through `(x1, y1)` and a point of
/// abscissa `x2` meets the curve again, reflected in the x-axis.
pub open spec fn third_point(c: CurveModel, s: int, x1: int, y1: int, x2: int) -> Point {
    let x3 = (s * s - x1 - x2) % c.p;
    let y3 = (s * (x1 - x3) - y1) % c.p;
    Point::Affine { x: x3, y: y3 }
}

/// The mirror image of a point in the x-axis, which is its inverse in the group.
pub open spec fn negate_point(c: CurveModel, pt: Point) -> Point {
    match pt {
        Point::Infinity => Point::Infinity,
        Point::Affine { x, y } => Point::Affine { x, y: (-y) % c.p },
    }
}

/// The sum of two points: the identity is neutral, opposite points cancel, a
/// point is added to itself along its tangent and to another along the chord.
pub open spec fn add_points(c: CurveModel, left: Point, right: Point) -> Point {
    match left {
        Point::Infinity => right,
        Point::Affine { x: x1, y: y1 } => match right {
            Point::Infinity => left,
            Point::Affine { x: x2, y: y2 } => {
                if x1 == x2 && y1 == (-y2) % c.p {
                    Point::Infinity
                } else if x1 == x2 && y1 == y2 {
                    third_point(c, tangent_slope(c, x1, y1), x1, y1, x2)
                } else {
                    third_point(c, chord_slope(c, x1, y1, x2, y2), x1, y1, x2)
                }
            },
        },
    }
}

/// The multiple `k·P`, by doubling and adding along the binary digits of `k`
/// from the highest down.
pub open spec fn scalar_multiple(c: CurveModel, pt: Point, k: nat) -> Point
    decreases k,
{
    if k == 0 {
        Point::Infinity
    } else {
        let half = scalar_multiple(c, pt, k / 2);
        let doubled = add_points(c, half, half);
        if k % 2 == 1 {
            add_points(c, doubled, pt)
        } else {
            doubled
        }
    }
}

/// The quotient is reduced and gives the numerator back when multiplied by the
/// denominator.
pub proof fn lemma_quotient(n: int, d: int, p: int)
    requires
        is_odd_prime(p),
        d % p != 0,
    ensures
        0 <= quotient(n, d, p) < p,
        congruent(quotient(n, d, p) * d, n, p),
{
    let dr = d % p;
    let inv = mod_inverse(dr, p);
    let s = quotient(n, d, p);
    lemma_congruent_reduce(d, p);
    lemma_inverse_exists(dr, p);
    lemma_congruent_reduce(n * inv, p);
    lemma_small_mod(1, p as nat);
    // s * d = (n * inv) * d = n * (d * inv) = n * (dr * inv) = n * 1
    lemma_congruent_mul(s, n * inv, d, d, p);
    lemma_congruent_mul(d, dr, inv, inv, p);
    lemma_congruent_mul(n, n, d * inv, 1, p);
    assert((n * inv) * d == n * (d * inv)) by (nonlinear_arith);
    assert(n * 1 == n);
}

/// The cubic along a line, as a polynomial in the step `u` from `x1`. With
/// `m = y1 + s·u` the ordinate on the line, `q = 3·x1 - s²` and
/// `c1 = 3·x1² + a - 2·s·y1`:
/// `cubic(x1 + u) - m² = cubic(x1) - y1² + u·(u² + q·u + c1)`.
proof fn lemma_line_polynomial(c: CurveModel, s: int, x1: int, y1: int, u: int)
    ensures
        cubic(c, x1 + u) - (y1 + s * u) * (y1 + s * u) == cubic(c, x1) - y1 * y1 + u * (u * u + (3
            * x1 - s * s) * u + (3 * x1 * x1 + c.a - 2 * s * y1)),
{
    let a = c.a;
    let x = x1 + u;
    let m = y1 + s * u;
    let ga = u * u + 3 * (x1 * u) + 3 * (x1 * x1) + a;
    let gb = (s * s) * u + 2 * (s * y1);
    let q = 3 * x1 - s * s;
    let c1 = 3 * x1 * x1 + a - 2 * s * y1;
    assert(x * x * x - x1 * x1 * x1 == u * (u * u + 3 * (x1 * u) + 3 * (x1 * x1)))
        by (nonlinear_arith)
        requires
            x == x1 + u,
    ;
    assert(a * x - a * x1 == u * a) by (nonlinear_arith)
        requires
            x == x1 + u,
    ;
    assert(u * (u * u + 3 * (x1 * u) + 3 * (x1 * x1)) + u * a == u * ga) by (nonlinear_arith)
        requires
            ga == u * u + 3 * (x1 * u) + 3 * (x1 * x1) + a,
    ;
    assert(cubic(c, x) - cubic(c, x1) == u * ga);
    assert(m * m - y1 * y1 == u * gb) by (nonlinear_arith)
        requires
            m == y1 + s * u,
            gb == (s * s) * u + 2 * (s * y1),
    ;
    assert(q * u == 3 * (x1 * u) - (s * s) * u) by (nonlinear_arith)
        requires
            q == 3 * x1 - s * s,
    ;
    assert(3 * x1 * x1 == 3 * (x1 * x1)) by (nonlinear_arith);
    assert(2 * s * y1 == 2 * (s * y1)) by (nonlinear_arith);
    assert(ga - gb == u * u + q * u + c1);
    assert(u * ga - u * gb == u * (ga - gb)) by (nonlinear_arith);
}

/// Where the linear coefficient left in the line's polynomial vanishes modulo
/// `p`, the third point lies on the curve.
proof fn lemma_third_point_on_curve(c: CurveModel, s: int, x1: int, y1: int, x2: int)
    requires
        c.wf(),
        congruent(y1 * y1, cubic(c, x1), c.p),
        ((x2 - x1) * (x2 - x1) + (3 * x1 - s * s) * (x2 - x1) + (3 * x1 * x1 + c.a - 2 * s * y1))
            % c.p == 0,
    ensures
        on_curve(c, third_point(c, s, x1, y1, x2)),
{
    let p = c.p;
    let x3 = (s * s - x1 - x2) % p;
    let y3 = (s * (x1 - x3) - y1) % p;
    lemma_congruent_reduce(s * s - x1 - x2, p);
    lemma_congruent_reduce(s * (x1 - x3) - y1, p);
    let u = x3 - x1;
    let d = x2 - x1;
    let q = 3 * x1 - s * s;
    let c1 = 3 * x1 * x1 + c.a - 2 * s * y1;
    let m = y1 + s * u;
    let w = x3 - (s * s - x1 - x2);
    let k = d * d + q * d + c1;
    let z = y3 - (s * (x1 - x3) - y1);
    let e1 = y1 * y1 - cubic(c, x1);
    lemma_congruent_difference(x3, s * s - x1 - x2, p);
    lemma_congruent_difference(y3, s * (x1 - x3) - y1, p);
    lemma_congruent_difference(y1 * y1, cubic(c, x1), p);
    // the three terms that p divides
    let t1 = z * (z - 2 * m);
    let t2 = u * (w * (u - d));
    let t3 = u * k;
    lemma_divisible_mul(z, z - 2 * m, p);
    lemma_divisible_mul(w, u - d, p);
    lemma_divisible_mul(w * (u - d), u, p);
    lemma_divisible_mul(k, u, p);
    lemma_divisible_add(t1, t2, p);
    lemma_divisible_add(t1 - t2, t3, p);
    lemma_divisible_add(t1 - t2 - t3, e1, p);
    // and the identity that ties them to the curve equation at the third point
    assert(s * (x1 - x3) == -(s * u)) by (nonlinear_arith)
        requires
            u == x3 - x1,
    ;
    assert(t1 == y3 * y3 - m * m) by (nonlinear_arith)
        requires
            z == y3 + m,
            t1 == z * (z - 2 * m),
    ;
    lemma_line_polynomial(c, s, x1, y1, u);
    assert(u * u + q * u + c1 == w * (u - d) + k) by (nonlinear_arith)
        requires
            w == u + q + d,
            k == d * d + q * d + c1,
    ;
    assert(u * (w * (u - d) + k) == t2 + t3) by (nonlinear_arith)
        requires
            t2 == u * (w * (u - d)),
            t3 == u * k,
    ;
    assert(y3 * y3 - cubic(c, x3) == t1 - t2 - t3 + e1);
    lemma_congruent_difference(y3 * y3, cubic(c, x3), p);
}

/// Two reduced numbers with different values are not congruent.
pub proof fn lemma_distinct_not_congruent(x1: int, x2: int, p: int)
    requires
        0 <= x1 < p,
        0 <= x2 < p,
        x1 != x2,
    ensures
        (x2 - x1) % p != 0,
{
    lemma_congruent_difference(x2, x1, p);
    if congruent(x2, x1, p) {
        lemma_congruent_small(x2, x1, p);
    }
}

/// An ordinate that differs from its own negative is not annihilated by 2.
pub proof fn lemma_tangent_denominator(y: int, p: int)
    requires
        p > 0,
        0 <= y < p,
        y != (-y) % p,
    ensures
        (2 * y) % p != 0,
{
    lemma_congruent_reduce(-y, p);
    lemma_congruent_difference(y, -y, p);
    if (2 * y) % p == 0 {
        lemma_congruent_small(y, (-y) % p, p);
    }
}

/// Two points of the curve with the same abscissa are equal or opposite.
pub proof fn lemma_same_abscissa(c: CurveModel, x: int, y1: int, y2: int)
    requires
        c.wf(),
        on_curve(c, Point::Affine { x, y: y1 }),
        on_curve(c, Point::Affine { x, y: y2 }),
    ensures
        y1 == y2 || y1 == (-y2) % c.p,
{
    let p = c.p;
    lemma_equal_squares(y1, y2, p);
    lemma_congruent_reduce(-y2, p);
    if congruent(y1, y2, p) {
        lemma_congruent_small(y1, y2, p);
    } else {
        lemma_congruent_small(y1, (-y2) % p, p);
    }
}

/// The slope of the chord makes the linear coefficient of the line's polynomial
/// vanish modulo `p`.
proof fn lemma_chord_coefficient(c: CurveModel, x1: int, y1: int, x2: int, y2: int)
    requires
        c.wf(),
        on_curve(c, Point::Affine { x: x1, y: y1 }),
        on_curve(c, Point::Affine { x: x2, y: y2 }),
        x1 != x2,
    ensures
        ({
            let s = chord_slope(c, x1, y1, x2, y2);
            ((x2 - x1) * (x2 - x1) + (3 * x1 - s * s) * (x2 - x1) + (3 * x1 * x1 + c.a - 2 * s
                * y1)) % c.p == 0
        }),
{
    let p = c.p;
    let s = chord_slope(c, x1, y1, x2, y2);
    let d = x2 - x1;
    let k = d * d + (3 * x1 - s * s) * d + (3 * x1 * x1 + c.a - 2 * s * y1);
    lemma_distinct_not_congruent(x1, x2, p);
    lemma_quotient(y2 - y1, d, p);
    let m = y1 + s * d;
    let v = m - y2;
    let e1 = y1 * y1 - cubic(c, x1);
    let e2 = y2 * y2 - cubic(c, x2);
    lemma_congruent_difference(s * d, y2 - y1, p);
    lemma_congruent_difference(y1 * y1, cubic(c, x1), p);
    lemma_congruent_difference(y2 * y2, cubic(c, x2), p);
    lemma_line_polynomial(c, s, x1, y1, d);
    assert(m * m == v * (v + 2 * y2) + y2 * y2) by (nonlinear_arith)
        requires
            m == v + y2,
    ;
    let t = v * (v + 2 * y2);
    assert(d * k == e1 - e2 - t);
    lemma_divisible_mul(v, v + 2 * y2, p);
    lemma_divisible_add(e1, e2, p);
    lemma_divisible_add(e1 - e2, t, p);
    crate::modular::lemma_prime_divides_product(d, k, p);
}

/// The slope of the tangent makes the linear coefficient of the line's
/// polynomial vanish modulo `p`.
proof fn lemma_tangent_coefficient(c: CurveModel, x: int, y: int)
    requires
        c.wf(),
        0 <= y < c.p,
        y != (-y) % c.p,
    ensures
        ({
            let s = tangent_slope(c, x, y);
            ((x - x) * (x - x) + (3 * x - s * s) * (x - x) + (3 * x * x + c.a - 2 * s * y)) % c.p
                == 0
        }),
{
    let p = c.p;
    let s = tangent_slope(c, x, y);
    lemma_tangent_denominator(y, p);
    lemma_quotient(3 * x * x + c.a, 2 * y, p);
    lemma_congruent_difference(s * (2 * y), 3 * x * x + c.a, p);
    let e = s * (2 * y) - (3 * x * x + c.a);
    lemma_divisible_mul(e, -1, p);
    assert(e * (-1) == 3 * x * x + c.a - 2 * s * y) by (nonlinear_arith)
        requires
            e == s * (2 * y) - (3 * x * x + c.a),
    ;
    assert((3 * x - s * s) * (x - x) == 0) by (nonlinear_arith);
}

/// The group law is closed: the sum of two points of the curve is a point of
/// the curve.
pub proof fn lemma_add_closed(c: CurveModel, left: Point, right: Point)
    requires
        c.wf(),
        on_curve(c, left),
        on_curve(c, right),
    ensures
        on_curve(c, add_points(c, left, right)),
{
    match (left, right) {
        (Point::Affine { x: x1, y: y1 }, Point::Affine { x: x2, y: y2 }) => {
            if x1 == x2 && y1 == (-y2) % c.p {
            } else if x1 == x2 && y1 == y2 {
                lemma_tangent_coefficient(c, x1, y1);
                lemma_third_point_on_curve(c, tangent_slope(c, x1, y1), x1, y1, x2);
            } else {
                if x1 == x2 {
                    lemma_same_abscissa(c, x1, y1, y2);
                }
                lemma_chord_coefficient(c, x1, y1, x2, y2);
                lemma_third_point_on_curve(c, chord_slope(c, x1, y1, x2, y2), x1, y1, x2);
            }
        },
        _ => {},
    }
}

/// The negative of a point of the curve is a point of the curve.
pub proof fn lemma_negate_closed(c: CurveModel, pt: Point)
    requires
        c.wf(),
        on_curve(c, pt),
    ensures
        on_curve(c, negate_point(c, pt)),
{
    match pt {
        Point::Infinity => {},
        Point::Affine { x, y } => {
            let p = c.p;
            let n = (-y) % p;
            lemma_congruent_reduce(-y, p);
            lemma_congruent_mul(n, -y, n, -y, p);
            assert((-y) * (-y) == y * y) by (nonlinear_arith);
        },
    }
}

/// Every multiple of a point of the curve is a point of the curve.
pub proof fn lemma_scalar_multiple_closed(c: CurveModel, pt: Point, k: nat)
    requires
        c.wf(),
        on_curve(c, pt),
    ensures
        on_curve(c, scalar_multiple(c, pt, k)),
    decreases k,
{
    if k != 0 {
        let half = scalar_multiple(c, pt, k / 2);
        lemma_scalar_multiple_closed(c, pt, k / 2);
        lemma_add_closed(c, half, half);
        lemma_add_closed(c, add_points(c, half, half), pt);
    }
}

/// The identity is neutral on both sides: `P + O = P` and `O + P = P`.
pub proof fn law_add_identity(c: CurveModel, pt: Point)
    ensures
        add_points(c, pt, Point::Infinity) == pt,
        add_points(c, Point::Infinity, pt) == pt,
{
}

/// A point and its negative cancel: `P + (-P) = O`.
pub proof fn law_add_negate(c: CurveModel, pt: Point)
    requires
        c.wf(),
        on_curve(c, pt),
    ensures
        add_points(c, pt, negate_point(c, pt)) == Point::Infinity,
{
    match pt {
        Point::Infinity => {},
        Point::Affine { x, y } => {
            lemma_neg_neg(y, c.p);
        },
    }
}

/// Addition is commutative: `P + Q = Q + P`.
pub proof fn law_add_commutative(c: CurveModel, left: Point, right: Point)
    requires
        c.wf(),
        on_curve(c, left),
        on_curve(c, right),
    ensures
        add_points(c, left, right) == add_points(c, right, left),
{
    match (left, right) {
        (Point::Affine { x: x1, y: y1 }, Point::Affine { x: x2, y: y2 }) => {
            let p = c.p;
            lemma_neg_neg(y1, p);
            lemma_neg_neg(y2, p);
            if x1 == x2 && y1 == (-y2) % p {
            } else if x1 == x2 && y1 == y2 {
            } else {
                if x1 == x2 {
                    lemma_same_abscissa(c, x1, y1, y2);
                }
                let d = x2 - x1;
                let n = y2 - y1;
                let s = chord_slope(c, x1, y1, x2, y2);
                let t = chord_slope(c, x2, y2, x1, y1);
                lemma_distinct_not_congruent(x1, x2, p);
                lemma_distinct_not_congruent(x2, x1, p);
                lemma_quotient(n, d, p);
                lemma_quotient(-n, -d, p);
                // the two slopes agree: t * d = -(t * -d) = -(-n) = n = s * d
                lemma_congruent_sub(0, 0, t * (-d), -n, p);
                assert(0 - t * (-d) == d * t) by (nonlinear_arith);
                assert(s * d == d * s) by (nonlinear_arith);
                lemma_cancel(d, t, s, p);
                lemma_congruent_small(t, s, p);
                // and so do the abscissas and the ordinates
                let x3 = (s * s - x1 - x2) % p;
                assert(s * s - x1 - x2 == s * s - x2 - x1);
                let y3 = (s * (x1 - x3) - y1) % p;
                let y4 = (s * (x2 - x3) - y2) % p;
                lemma_congruent_difference(s * d, n, p);
                assert((s * (x2 - x3) - y2) - (s * (x1 - x3) - y1) == s * d - n)
                    by (nonlinear_arith)
                    requires
                        d == x2 - x1,
                        n == y2 - y1,
                ;
                lemma_congruent_difference(s * (x2 - x3) - y2, s * (x1 - x3) - y1, p);
                assert(y3 == y4);
            }
        },
        _ => {},
    }
}

/// Twice a point is the point added to itself, and three times a point is
/// twice the point plus the point.
pub proof fn law_scalar_small(c: CurveModel, pt: Point)
    ensures
        scalar_multiple(c, pt, 2) == add_points(c, pt, pt),
        scalar_multiple(c, pt, 3) == add_points(c, scalar_multiple(c, pt, 2), pt),
{
    reveal_with_fuel(scalar_multiple, 3);
}

/// One step of doubling and adding: the multiple by `k` from the multiple by
/// `k / 2`.
pub proof fn lemma_scalar_multiple_step(c: CurveModel, pt: Point, k: nat)
    ensures
        scalar_multiple(c, pt, k) == ({
            let half = scalar_multiple(c, pt, k / 2);
            let doubled = add_points(c, half, half);
            if k % 2 == 1 {
                add_points(c, doubled, pt)
            } else {
                doubled
            }
        }),
{
    reveal_with_fuel(scalar_multiple, 2);
}

/// Addition on the curve is associative: `(U + V) + W = U + (V + W)` for all
/// points of the curve. This file states the property and draws conclusions
/// from it; it does not prove it. For the curve `y² = x³ + 9·x + 1` modulo 61
/// it is proved where the multiples of that curve's points are listed.
pub open spec fn is_associative(c: CurveModel) -> bool {
    forall|u: Point, v: Point, w: Point|
        on_curve(c, u) && on_curve(c, v) && on_curve(c, w) ==> #[trigger] add_points(
            c,
            add_points(c, u, v),
            w,
        ) == add_points(c, u, add_points(c, v, w))
}

/// On a curve with associative addition the next multiple is the multiple plus
/// the point: `(k+1)·P = k·P + P`.
pub proof fn lemma_multiple_successor(c: CurveModel, pt: Point, k: nat)
    requires
        c.wf(),
        on_curve(c, pt),
        is_associative(c),
    ensures
        scalar_multiple(c, pt, k + 1) == add_points(c, scalar_multiple(c, pt, k), pt),
    decreases k,
{
    lemma_scalar_multiple_step(c, pt, k + 1);
    lemma_scalar_multiple_step(c, pt, k);
    if k == 0 {
        lemma_scalar_multiple_step(c, pt, 0);
    } else if k % 2 == 1 {
        let m = k / 2;
        let h = scalar_multiple(c, pt, m);
        lemma_multiple_successor(c, pt, m);
        lemma_scalar_multiple_closed(c, pt, m);
        let hp = add_points(c, h, pt);
        let hh = add_points(c, h, h);
        lemma_add_closed(c, h, pt);
        lemma_add_closed(c, h, h);
        lemma_add_closed(c, pt, hp);
        lemma_add_closed(c, hp, pt);
        law_add_commutative(c, pt, h);
        // (h + pt) + (h + pt) = h + (pt + (h + pt)) = h + ((pt + h) + pt)
        //   = h + ((h + pt) + pt) = (h + (h + pt)) + pt = ((h + h) + pt) + pt
        assert(add_points(c, add_points(c, h, pt), hp) == add_points(
            c,
            h,
            add_points(c, pt, hp),
        ));
        assert(add_points(c, add_points(c, pt, h), pt) == add_points(c, pt, hp));
        assert(add_points(c, add_points(c, h, hp), pt) == add_points(
            c,
            h,
            add_points(c, hp, pt),
        ));
        assert(add_points(c, add_points(c, h, h), pt) == add_points(c, h, hp));
    }
}

/// On a curve with associative addition multiples add up:
/// `(j+k)·P = j·P + k·P`.
pub proof fn lemma_multiple_sum(c: CurveModel, pt: Point, j: nat, k: nat)
    requires
        c.wf(),
        on_curve(c, pt),
        is_associative(c),
    ensures
        scalar_multiple(c, pt, j + k) == add_points(
            c,
            scalar_multiple(c, pt, j),
            scalar_multiple(c, pt, k),
        ),
    decreases k,
{
    let a = scalar_multiple(c, pt, j);
    lemma_scalar_multiple_closed(c, pt, j);
    if k == 0 {
        lemma_scalar_multiple_step(c, pt, 0);
        law_add_identity(c, a);
    } else {
        let m = (k - 1) as nat;
        let b = scalar_multiple(c, pt, m);
        lemma_scalar_multiple_closed(c, pt, m);
        lemma_multiple_sum(c, pt, j, m);
        lemma_multiple_successor(c, pt, j + m);
        lemma_multiple_successor(c, pt, m);
        assert(add_points(c, add_points(c, a, b), pt) == add_points(c, a, add_points(c, b, pt)));
    }
}

/// On a curve with associative addition a multiple of a multiple is the
/// multiple by the product: `b·(a·P) = (a·b)·P`.
pub proof fn lemma_multiple_of_multiple(c: CurveModel, pt: Point, a: nat, b: nat)
    requires
        c.wf(),
        on_curve(c, pt),
        is_associative(c),
    ensures
        scalar_multiple(c, scalar_multiple(c, pt, a), b) == scalar_multiple(c, pt, a * b),
    decreases b,
{
    let q = scalar_multiple(c, pt, a);
    lemma_scalar_multiple_closed(c, pt, a);
    if b == 0 {
        lemma_scalar_multiple_step(c, pt, 0);
        lemma_scalar_multiple_step(c, q, 0);
        assert(a * 0 == 0);
    } else {
        let m = (b - 1) as nat;
        lemma_multiple_of_multiple(c, pt, a, m);
        lemma_multiple_successor(c, q, m);
        lemma_multiple_sum(c, pt, a * m, a);
        assert(a * m + a == a * b) by (nonlinear_arith)
            requires
                m + 1 == b,
        ;
    }
}

/// On a curve with associative addition two parties who each multiply the
/// other's multiple of a point by their own scalar arrive at the same point.
pub proof fn law_agreement_given_associativity(c: CurveModel, pt: Point, ka: nat, kb: nat)
    requires
        c.wf(),
        on_curve(c, pt),
        is_associative(c),
    ensures
        scalar_multiple(c, scalar_multiple(c, pt, ka), kb) == scalar_multiple(
            c,
            scalar_multiple(c, pt, kb),
            ka,
        ),
{
    lemma_multiple_of_multiple(c, pt, ka, kb);
    lemma_multiple_of_multiple(c, pt, kb, ka);
    assert(ka * kb == kb * ka) by (nonlinear_arith);
}

} // verus!
