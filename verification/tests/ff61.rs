use prime_curve::ff61::FiniteField61Point;
use prime_curve::field::DomainError;
use std::ops::Neg;

#[test]
fn test_basic() {
    let ff_min = FiniteField61Point::min();
    assert_eq!(ff_min, FiniteField61Point::new(0));

    let ff_max = FiniteField61Point::max();
    assert_eq!(ff_max, FiniteField61Point::new(60));
}

#[test]
fn test_add() {
    assert_eq!(
        FiniteField61Point::new(41) + FiniteField61Point::new(1),
        FiniteField61Point::new(42)
    );
    assert_eq!(
        FiniteField61Point::new(0) + FiniteField61Point::new(0),
        FiniteField61Point::new(0)
    );
    assert_eq!(
        FiniteField61Point::max() + FiniteField61Point::new(1),
        FiniteField61Point::new(0)
    );
    assert_eq!(
        FiniteField61Point::max() + FiniteField61Point::new(2),
        FiniteField61Point::new(1)
    );
    assert_eq!(
        FiniteField61Point::max() + FiniteField61Point::max(),
        FiniteField61Point::new(FiniteField61Point::P - 2)
    );
}

#[test]
fn test_sub() {
    assert_eq!(
        FiniteField61Point::new(43) - FiniteField61Point::new(1),
        FiniteField61Point::new(42)
    );
    assert_eq!(
        FiniteField61Point::new(0) - FiniteField61Point::new(0),
        FiniteField61Point::new(0)
    );
}

#[test]
fn test_neg() {
    for i in 0..FiniteField61Point::P {
        let v = FiniteField61Point::new(i);
        let nv = (&v).neg();
        assert_eq!(v + nv, FiniteField61Point::new(0));
    }
}

#[test]
fn ff61_test_multiplication_inverse() {
    for i in 1..FiniteField61Point::P {
        let v = FiniteField61Point::new(i);
        let iv = v.mul_inverse().unwrap();
        assert_eq!(v * iv, FiniteField61Point::new(1));
    }
}

#[test]
fn ff61_test_square_roots() {
    for i in 1..FiniteField61Point::P {
        let v = FiniteField61Point::new(i);
        if let Some((v_sqr_1, v_sqr_2)) = v.square_root() {
            assert_eq!(&v_sqr_1 * &v_sqr_1, v);
            assert_eq!(&v_sqr_2 * &v_sqr_2, v);
        }
    }
}

#[test]
fn ff61_value_gives_back_what_new_took() {
    assert_eq!(FiniteField61Point::P, 61);
    for i in 0..FiniteField61Point::P {
        assert_eq!(FiniteField61Point::new(i).value(), i);
    }
}

#[test]
fn ff61_sub_wraps_below_zero() {
    assert_eq!(
        FiniteField61Point::new(1) - FiniteField61Point::new(60),
        FiniteField61Point::new(2)
    );
    assert_eq!(
        &FiniteField61Point::new(0) - &FiniteField61Point::new(1),
        FiniteField61Point::new(60)
    );
}

#[test]
fn ff61_mul_needs_the_wider_intermediate() {
    assert_eq!(
        FiniteField61Point::new(60) * FiniteField61Point::new(60),
        FiniteField61Point::new(1)
    );
    assert_eq!(
        &FiniteField61Point::new(26) * &FiniteField61Point::new(54),
        FiniteField61Point::new(1)
    );
}

#[test]
fn ff61_neg_of_zero_is_zero() {
    assert_eq!(-FiniteField61Point::new(0), FiniteField61Point::new(0));
    assert_eq!(-FiniteField61Point::new(1), FiniteField61Point::new(60));
    assert_eq!(-&FiniteField61Point::new(7), FiniteField61Point::new(54));
}

#[test]
fn ff61_inverses_match_the_known_table() {
    let known: [(u8, u8); 8] = [
        (1, 1),
        (2, 31),
        (3, 41),
        (7, 35),
        (14, 48),
        (26, 54),
        (43, 44),
        (60, 60),
    ];
    for (x, inv) in known {
        assert_eq!(
            FiniteField61Point::new(x).mul_inverse(),
            Ok(FiniteField61Point::new(inv))
        );
    }
}

#[test]
fn ff61_square_roots_match_the_known_table() {
    let residues: [(u8, u8, u8); 8] = [
        (0, 0, 0),
        (1, 1, 60),
        (3, 8, 53),
        (5, 26, 35),
        (27, 24, 37),
        (46, 30, 31),
        (49, 7, 54),
        (60, 11, 50),
    ];
    for (x, r1, r2) in residues {
        assert_eq!(
            FiniteField61Point::new(x).square_root(),
            Some((FiniteField61Point::new(r1), FiniteField61Point::new(r2)))
        );
    }
    for x in [2u8, 6, 7, 8, 10, 11, 17, 59] {
        assert_eq!(FiniteField61Point::new(x).square_root(), None);
    }
}

#[test]
fn ff61_zero_has_no_inverse() {
    assert_eq!(
        FiniteField61Point::min().mul_inverse(),
        Err(DomainError::ZeroInverse)
    );
    assert_eq!(
        FiniteField61Point::new(0).mul_inverse(),
        Err(DomainError::ZeroInverse)
    );
    assert_eq!(
        (FiniteField61Point::max() + FiniteField61Point::new(1)).mul_inverse(),
        Err(DomainError::ZeroInverse)
    );
}

#[test]
fn ff61_try_new_refuses_values_outside_the_field() {
    assert_eq!(
        FiniteField61Point::try_new(0),
        Ok(FiniteField61Point::min())
    );
    assert_eq!(
        FiniteField61Point::try_new(60),
        Ok(FiniteField61Point::max())
    );
    for v in 0..61u8 {
        assert_eq!(FiniteField61Point::try_new(v).map(|e| e.value()), Ok(v));
    }
    assert_eq!(
        FiniteField61Point::try_new(61),
        Err(DomainError::OutOfRange)
    );
    assert_eq!(
        FiniteField61Point::try_new(70),
        Err(DomainError::OutOfRange)
    );
    assert_eq!(
        FiniteField61Point::try_new(255),
        Err(DomainError::OutOfRange)
    );
}
