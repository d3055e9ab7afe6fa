use prime_curve::curve::{CurvePoint, WeierstrassCurve};
use prime_curve::field::{DomainError, FieldElement};

fn curve61() -> WeierstrassCurve {
    WeierstrassCurve::new(61, 9, 1, 5, 7).unwrap()
}

fn el(c: &WeierstrassCurve, v: u64) -> FieldElement {
    c.field().element(v).unwrap()
}

fn pt(c: &WeierstrassCurve, x: u64, y: u64) -> CurvePoint {
    c.point(x, y).unwrap()
}

fn all_points(c: &WeierstrassCurve) -> Vec<CurvePoint> {
    let mut points = vec![CurvePoint::Infinity];
    for x in 0..c.field().modulus() {
        if let Some((y1, y2)) = c.evaluate_x(el(c, x)) {
            points.push(CurvePoint::Affine { x: el(c, x), y: y1 });
            if y1 != y2 {
                points.push(CurvePoint::Affine { x: el(c, x), y: y2 });
            }
        }
    }
    points
}

#[test]
fn new_keeps_the_parameters() {
    let c = curve61();
    assert_eq!(c.field().modulus(), 61);
    assert_eq!(c.a().value(), 9);
    assert_eq!(c.b().value(), 1);
    assert_eq!(c.generator(), pt(&c, 5, 7));
}

#[test]
fn new_refuses_a_base_point_off_the_curve() {
    assert_eq!(
        WeierstrassCurve::new(61, 9, 1, 5, 8),
        Err(DomainError::NotOnCurve)
    );
    assert_eq!(
        WeierstrassCurve::new(61, 9, 1, 1, 1),
        Err(DomainError::NotOnCurve)
    );
}

#[test]
fn new_refuses_numbers_that_are_not_reduced() {
    assert_eq!(
        WeierstrassCurve::new(61, 61, 1, 5, 7),
        Err(DomainError::OutOfRange)
    );
    assert_eq!(
        WeierstrassCurve::new(61, 9, 62, 5, 7),
        Err(DomainError::OutOfRange)
    );
    assert_eq!(
        WeierstrassCurve::new(61, 9, 1, 66, 7),
        Err(DomainError::OutOfRange)
    );
    assert_eq!(
        WeierstrassCurve::new(61, 9, 1, 5, 68),
        Err(DomainError::OutOfRange)
    );
}

#[test]
fn point_checks_the_curve_equation() {
    let c = curve61();
    assert!(c.point(5, 7).is_ok());
    assert!(c.point(5, 54).is_ok());
    assert_eq!(c.point(5, 8), Err(DomainError::NotOnCurve));
    assert_eq!(c.point(61, 7), Err(DomainError::OutOfRange));
    assert_eq!(c.point(5, 61), Err(DomainError::OutOfRange));
    assert!(c.contains(CurvePoint::Infinity));
    assert!(c.contains(pt(&c, 26, 50)));
    assert!(!c.contains(CurvePoint::Affine {
        x: el(&c, 26),
        y: el(&c, 51)
    }));
}

#[test]
fn scenario_evaluate_x() {
    let c = curve61();
    let values = |x: u64| c.evaluate_x(el(&c, x)).map(|(a, b)| (a.value(), b.value()));
    assert_eq!(values(0), Some((1, 60)));
    assert_eq!(values(1), None);
    assert_eq!(values(2), Some((24, 37)));
    assert_eq!(values(3), None);
    assert_eq!(values(4), None);
    assert_eq!(values(5), Some((7, 54)));
}

#[test]
fn scenario_add() {
    let c = curve61();
    let p = pt(&c, 5, 7);
    let p2 = c.add(p, p);
    assert_eq!(p2, pt(&c, 26, 50));
    assert_eq!(c.double(p), p2);
    let p3 = c.add(p2, p);
    assert_eq!(p3, pt(&c, 27, 38));
}

#[test]
fn scenario_scalar_multiply() {
    let c = curve61();
    let p = pt(&c, 5, 7);
    assert_eq!(c.scalar_multiply(p, 2), pt(&c, 26, 50));
    assert_eq!(c.scalar_multiply(p, 3), pt(&c, 27, 38));
}

#[test]
fn scalar_multiply_by_zero_and_one() {
    let c = curve61();
    let p = pt(&c, 5, 7);
    assert_eq!(c.scalar_multiply(p, 0), CurvePoint::Infinity);
    assert_eq!(c.scalar_multiply(p, 1), p);
    assert_eq!(c.scalar_multiply(CurvePoint::Infinity, 0), CurvePoint::Infinity);
    assert_eq!(c.scalar_multiply(CurvePoint::Infinity, 12345), CurvePoint::Infinity);
}

#[test]
fn identity_is_neutral() {
    let c = curve61();
    for p in all_points(&c) {
        assert_eq!(c.add(p, CurvePoint::Infinity), p);
        assert_eq!(c.add(CurvePoint::Infinity, p), p);
    }
}

#[test]
fn addition_is_commutative() {
    let c = curve61();
    let points = all_points(&c);
    for &p in &points {
        for &q in &points {
            assert_eq!(c.add(p, q), c.add(q, p));
        }
    }
}

#[test]
fn addition_stays_on_the_curve() {
    let c = curve61();
    let points = all_points(&c);
    for &p in &points {
        for &q in &points {
            assert!(c.contains(c.add(p, q)));
        }
    }
}

#[test]
fn a_point_and_its_negative_cancel() {
    let c = curve61();
    for p in all_points(&c) {
        let n = c.negate(p);
        assert!(c.contains(n));
        assert_eq!(c.add(p, n), CurvePoint::Infinity);
        assert_eq!(c.add(n, p), CurvePoint::Infinity);
    }
    assert_eq!(c.negate(pt(&c, 5, 7)), pt(&c, 5, 54));
    assert_eq!(c.negate(CurvePoint::Infinity), CurvePoint::Infinity);
}

#[test]
fn doubling_a_point_of_order_two_gives_infinity() {
    // y^2 = x^3 + 60 x over the integers modulo 61 has the point (0, 0)
    let c = WeierstrassCurve::new(61, 60, 0, 0, 0).unwrap();
    let p = c.generator();
    assert_eq!(c.add(p, p), CurvePoint::Infinity);
    assert_eq!(c.scalar_multiply(p, 2), CurvePoint::Infinity);
    assert_eq!(c.scalar_multiply(p, 3), p);
}

#[test]
fn scalar_multiply_is_consistent_with_add() {
    let c = curve61();
    for p in all_points(&c) {
        assert_eq!(c.scalar_multiply(p, 2), c.add(p, p));
        assert_eq!(
            c.scalar_multiply(p, 3),
            c.add(c.scalar_multiply(p, 2), p)
        );
    }
}

#[test]
fn scalar_multiply_equals_repeated_addition() {
    let c = curve61();
    let g = c.generator();
    let mut sum = CurvePoint::Infinity;
    for k in 0..200u64 {
        assert_eq!(c.scalar_multiply(g, k), sum);
        sum = c.add(sum, g);
    }
}

#[test]
fn scalar_multiply_takes_scalars_above_the_modulus() {
    let c = curve61();
    let g = c.generator();
    let mut order = 1u64;
    while c.scalar_multiply(g, order) != CurvePoint::Infinity {
        order += 1;
    }
    assert_eq!(c.scalar_multiply(g, order + 1), g);
    assert_eq!(c.scalar_multiply(g, u64::MAX), c.scalar_multiply(g, u64::MAX % order));
    assert_eq!(
        c.scalar_multiply(g, 1 << 63),
        c.scalar_multiply(g, (1u64 << 63) % order)
    );
}

#[test]
fn two_parties_agree_on_a_shared_point() {
    let c = curve61();
    let g = c.generator();
    for ka in [1u64, 2, 7, 12, 60, 61, 1000] {
        for kb in [1u64, 3, 7, 12, 59, 73, 4096] {
            let a = c.scalar_multiply(g, ka);
            let b = c.scalar_multiply(g, kb);
            assert_eq!(c.scalar_multiply(a, kb), c.scalar_multiply(b, ka));
        }
    }
}

#[test]
fn group_law_works_over_a_large_field() {
    // secp256k1's equation y^2 = x^3 + 7 over the largest prime below 2^64
    let p: u64 = 18_446_744_073_709_551_557;
    let field = prime_curve::field::PrimeField::new(p);
    let mut x = 1u64;
    let (gx, gy) = loop {
        let e = field.element(x).unwrap();
        let rhs = field.add(field.mul(field.mul(e, e), e), field.reduce(7));
        if let Some((y, _)) = field.sqrt(rhs) {
            break (x, y.value());
        }
        x += 1;
    };
    let c = WeierstrassCurve::new(p, 0, 7, gx, gy).unwrap();
    let g = c.generator();
    let a = c.scalar_multiply(g, 0xdead_beef_cafe);
    let b = c.scalar_multiply(g, 0x1234_5678_9abc_def0);
    assert!(c.contains(a));
    assert!(c.contains(b));
    assert_eq!(c.add(a, b), c.add(b, a));
    assert_eq!(
        c.scalar_multiply(a, 0x1234_5678_9abc_def0),
        c.scalar_multiply(b, 0xdead_beef_cafe)
    );
    assert_eq!(c.add(a, c.negate(a)), CurvePoint::Infinity);
}
