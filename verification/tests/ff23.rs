use prime_curve::ff23::FiniteField23Point;
use prime_curve::field::DomainError;

#[test]
fn test_ff23_add() {
    assert_eq!(
        FiniteField23Point::new(22) + FiniteField23Point::new(12),
        FiniteField23Point::new(11)
    );
    assert_eq!(
        FiniteField23Point::new(22) + FiniteField23Point::new(19),
        FiniteField23Point::new(18)
    );
}

#[test]
fn test_ff23_sub() {
    assert_eq!(
        FiniteField23Point::min() - FiniteField23Point::new(18),
        FiniteField23Point::new(5)
    );
    assert_eq!(
        FiniteField23Point::new(1) - FiniteField23Point::new(22),
        FiniteField23Point::new(2)
    );
    assert_eq!(
        FiniteField23Point::new(18) - FiniteField23Point::new(20),
        FiniteField23Point::new(21)
    );
}

#[test]
fn test_ff23_mul() {
    assert_eq!(
        FiniteField23Point::new(21) * FiniteField23Point::new(14),
        FiniteField23Point::new(18)
    );
    assert_eq!(
        FiniteField23Point::new(16) * FiniteField23Point::new(22),
        FiniteField23Point::new(7)
    );
    assert_eq!(
        FiniteField23Point::new(15) * FiniteField23Point::new(8),
        FiniteField23Point::new(5)
    );
}

#[test]
fn test_ff23_neg() {
    assert_eq!(-FiniteField23Point::new(20), FiniteField23Point::new(3));

    assert_eq!(-FiniteField23Point::new(6), FiniteField23Point::new(17));

    assert_eq!(-FiniteField23Point::new(8), FiniteField23Point::new(15));

    assert_eq!(-FiniteField23Point::new(10), FiniteField23Point::new(13));
}

#[test]
fn ff23_test_multiplication_inverse() {
    for i in 1..22 {
        let v = FiniteField23Point::new(i);
        let iv = v.multiplication_inverse().unwrap();
        assert_eq!(v * iv, FiniteField23Point::new(1));
    }
}

#[test]
fn ff23_test_square_roots() {
    for i in 1..22 {
        let v = FiniteField23Point::new(i);
        if let Some((v_sqr_1, v_sqr_2)) = v.square_root() {
            assert_eq!(&v_sqr_1 * &v_sqr_1, v);
            assert_eq!(&v_sqr_2 * &v_sqr_2, v);
        }
    }
}

#[test]
fn ff23_bounds() {
    assert_eq!(FiniteField23Point::min(), FiniteField23Point::new(0));
    assert_eq!(FiniteField23Point::max(), FiniteField23Point::new(22));
    assert_eq!(
        FiniteField23Point::max() + FiniteField23Point::new(1),
        FiniteField23Point::min()
    );
}

#[test]
fn ff23_try_new_accepts_values_below_the_modulus() {
    assert_eq!(FiniteField23Point::try_new(0), Ok(FiniteField23Point::min()));
    assert_eq!(FiniteField23Point::try_new(22), Ok(FiniteField23Point::max()));
    assert_eq!(FiniteField23Point::try_new(23), Err("Higher than 23"));
    assert_eq!(FiniteField23Point::try_new(255), Err("Higher than 23"));
}

#[test]
fn ff23_last_element_is_its_own_inverse() {
    let v = FiniteField23Point::new(22);
    assert_eq!(v.multiplication_inverse(), Ok(FiniteField23Point::new(22)));
    assert_eq!(
        FiniteField23Point::new(2).multiplication_inverse(),
        Ok(FiniteField23Point::new(12))
    );
    assert_eq!(
        FiniteField23Point::new(13).multiplication_inverse(),
        Ok(FiniteField23Point::new(16))
    );
}

#[test]
fn ff23_square_roots_match_the_known_table() {
    let expected: [Option<(u8, u8)>; 23] = [
        Some((0, 0)),
        Some((1, 22)),
        Some((5, 18)),
        Some((7, 16)),
        Some((2, 21)),
        None,
        Some((11, 12)),
        None,
        Some((10, 13)),
        Some((3, 20)),
        None,
        None,
        Some((9, 14)),
        Some((6, 17)),
        None,
        None,
        Some((4, 19)),
        None,
        Some((8, 15)),
        None,
        None,
        None,
        None,
    ];
    for i in 0..23u8 {
        let got = FiniteField23Point::new(i).square_root();
        let want = expected[i as usize]
            .map(|(a, b)| (FiniteField23Point::new(a), FiniteField23Point::new(b)));
        assert_eq!(got, want);
    }
}

#[test]
fn ff23_product_by_reference_equals_product_by_value() {
    let a = FiniteField23Point::new(21);
    let b = FiniteField23Point::new(14);
    assert_eq!(&a * &b, a * b);
}

#[test]
fn ff23_zero_has_no_inverse() {
    assert_eq!(
        FiniteField23Point::min().multiplication_inverse(),
        Err(DomainError::ZeroInverse)
    );
    assert_eq!(
        FiniteField23Point::new(0).multiplication_inverse(),
        Err(DomainError::ZeroInverse)
    );
    assert_eq!(
        (FiniteField23Point::new(22) + FiniteField23Point::new(1)).multiplication_inverse(),
        Err(DomainError::ZeroInverse)
    );
}
