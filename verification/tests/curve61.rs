use prime_curve::curve61::Curve61;
use prime_curve::ff61::FiniteField61Point;

#[test]
fn test_eval_at() {
    let c61 = Curve61 {
        base_point: (FiniteField61Point::new(5), FiniteField61Point::new(7)),
    };

    assert_eq!(
        c61.eval_at(FiniteField61Point::new(0)),
        Some((FiniteField61Point::new(1), FiniteField61Point::new(60)))
    );
    assert_eq!(c61.eval_at(FiniteField61Point::new(1)), None);
    assert_eq!(
        c61.eval_at(FiniteField61Point::new(2)),
        Some((FiniteField61Point::new(24), FiniteField61Point::new(37)))
    );
    assert_eq!(c61.eval_at(FiniteField61Point::new(3)), None);
    assert_eq!(c61.eval_at(FiniteField61Point::new(4)), None);
    assert_eq!(
        c61.eval_at(FiniteField61Point::new(5)),
        Some((FiniteField61Point::new(7), FiniteField61Point::new(54)))
    );
}

#[test]
fn test_point_add() {
    let c61 = Curve61 {
        base_point: (FiniteField61Point::new(5), FiniteField61Point::new(7)),
    };

    let p = (FiniteField61Point::new(5), FiniteField61Point::new(7));
    // 2P
    let p2 = c61.point_add(&p, &p).unwrap();
    assert_eq!(
        p2,
        (FiniteField61Point::new(26), FiniteField61Point::new(50))
    );

    // 3P
    let p3 = c61.point_add(&p2, &p).unwrap();
    assert_eq!(
        p3,
        (FiniteField61Point::new(27), FiniteField61Point::new(38))
    );
}

#[test]
fn test_point_mul() {
    let c61 = Curve61 {
        base_point: (FiniteField61Point::new(5), FiniteField61Point::new(7)),
    };

    let p = (FiniteField61Point::new(5), FiniteField61Point::new(7));
    let p2 = c61.point_mul(p, FiniteField61Point::new(2));
    assert_eq!(
        p2.unwrap(),
        (FiniteField61Point::new(26), FiniteField61Point::new(50))
    );

    let p = (FiniteField61Point::new(5), FiniteField61Point::new(7));
    let p3 = c61.point_mul(p, FiniteField61Point::new(3));
    assert_eq!(
        p3.unwrap(),
        (FiniteField61Point::new(27), FiniteField61Point::new(38))
    );
}

#[allow(non_snake_case)]
#[test]
fn test_key_exchange() {
    let c61 = Curve61 {
        base_point: (FiniteField61Point::new(5), FiniteField61Point::new(7)),
    };
    let p = c61.base_point();

    // Alice
    let kA = FiniteField61Point::new(12);
    let A = c61.point_mul(p.clone(), kA.clone()).unwrap();

    // Bob
    let kB = FiniteField61Point::new(7);
    let B = c61.point_mul(p, kB.clone()).unwrap();

    // Alice
    let kA_B = c61.point_mul(B, kA).unwrap();

    // Bob
    let kb_A = c61.point_mul(A, kB).unwrap();

    assert_eq!(kA_B, kb_A);
}

#[test]
fn curve61_opposite_points_cancel() {
    let c61 = Curve61 {
        base_point: (FiniteField61Point::new(5), FiniteField61Point::new(7)),
    };
    let p = (FiniteField61Point::new(5), FiniteField61Point::new(7));
    let q = (FiniteField61Point::new(5), FiniteField61Point::new(54));
    assert_eq!(c61.point_add(&p, &q), None);
    assert_eq!(c61.point_add(&q, &p), None);
}

#[test]
fn curve61_multiple_by_zero_is_infinity() {
    let c61 = Curve61 {
        base_point: (FiniteField61Point::new(5), FiniteField61Point::new(7)),
    };
    let p = c61.base_point();
    assert_eq!(c61.point_mul(p, FiniteField61Point::new(0)), None);
    assert_eq!(c61.point_mul(p, FiniteField61Point::new(1)), Some(p));
}

#[test]
fn curve61_every_ordinate_found_lies_on_the_curve() {
    let c61 = Curve61 {
        base_point: (FiniteField61Point::new(5), FiniteField61Point::new(7)),
    };
    let nine = FiniteField61Point::new(9);
    let one = FiniteField61Point::new(1);
    let mut found = 0;
    for i in 0..FiniteField61Point::P {
        let x = FiniteField61Point::new(i);
        if let Some((y1, y2)) = c61.eval_at(x) {
            let rhs = x * x * x + nine * x + one;
            assert_eq!(y1 * y1, rhs);
            assert_eq!(y2 * y2, rhs);
            assert_eq!(y1 + y2, FiniteField61Point::new(0));
            assert!(y1.value() <= y2.value());
            found += 1;
        }
    }
    assert!(found > 0 && found < 61);
}

#[test]
fn curve61_two_parties_agree_for_every_pair_of_scalars() {
    let c61 = Curve61 {
        base_point: (FiniteField61Point::new(5), FiniteField61Point::new(7)),
    };
    let g = c61.base_point();
    let multiple_of = |p: Option<(FiniteField61Point, FiniteField61Point)>, k: u8| match p {
        Some(p) => c61.point_mul(p, FiniteField61Point::new(k)),
        None => None,
    };
    for ka in 0..FiniteField61Point::P {
        let a = c61.point_mul(g, FiniteField61Point::new(ka));
        for kb in 0..FiniteField61Point::P {
            let b = c61.point_mul(g, FiniteField61Point::new(kb));
            assert_eq!(multiple_of(a, kb), multiple_of(b, ka));
        }
    }
}

#[test]
fn curve61_has_seventy_three_points_all_multiples_of_the_base_point() {
    let c61 = Curve61 {
        base_point: (FiniteField61Point::new(5), FiniteField61Point::new(7)),
    };
    let g = c61.base_point();
    let mut on_curve = 1;
    for i in 0..FiniteField61Point::P {
        if let Some((y1, y2)) = c61.eval_at(FiniteField61Point::new(i)) {
            on_curve += if y1 == y2 { 1 } else { 2 };
        }
    }
    assert_eq!(on_curve, 73);
    let mut sum = Some(g);
    let mut count = 1;
    while let Some(p) = sum {
        sum = c61.point_add(&p, &g);
        count += 1;
    }
    assert_eq!(count, 73);
}
