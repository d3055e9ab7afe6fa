use prime_curve::field::{DomainError, FieldElement, PrimeField};

fn el(f: &PrimeField, v: u64) -> FieldElement {
    f.element(v).unwrap()
}

#[test]
fn reduce_is_the_true_modulo_for_negative_numbers() {
    let f = PrimeField::new(61);
    assert_eq!(f.modulus(), 61);
    assert_eq!(f.reduce(0).value(), 0);
    assert_eq!(f.reduce(61).value(), 0);
    assert_eq!(f.reduce(62).value(), 1);
    assert_eq!(f.reduce(-1).value(), 60);
    assert_eq!(f.reduce(-61).value(), 0);
    assert_eq!(f.reduce(-62).value(), 60);
    assert_eq!(f.reduce(1_000_000).value(), 1_000_000 % 61);
    assert_eq!(f.reduce(i128::MIN).value(), 55);
    assert_eq!(f.reduce(i128::MAX).value(), 5);
}

#[test]
fn element_refuses_values_outside_the_field() {
    let f = PrimeField::new(23);
    assert_eq!(f.element(22).map(|e| e.value()), Ok(22));
    assert_eq!(f.element(0).map(|e| e.value()), Ok(0));
    assert_eq!(f.element(23), Err(DomainError::OutOfRange));
    assert_eq!(f.element(u64::MAX), Err(DomainError::OutOfRange));
}

#[test]
fn ring_operations_give_exact_values() {
    let f = PrimeField::new(61);
    assert_eq!(f.add(el(&f, 60), el(&f, 2)).value(), 1);
    assert_eq!(f.add(el(&f, 60), el(&f, 60)).value(), 59);
    assert_eq!(f.sub(el(&f, 1), el(&f, 60)).value(), 2);
    assert_eq!(f.sub(el(&f, 0), el(&f, 0)).value(), 0);
    assert_eq!(f.mul(el(&f, 60), el(&f, 60)).value(), 1);
    assert_eq!(f.mul(el(&f, 21), el(&f, 14)).value(), 294 % 61);
    assert_eq!(f.neg(el(&f, 0)).value(), 0);
    assert_eq!(f.neg(el(&f, 7)).value(), 54);
}

#[test]
fn multiplication_does_not_overflow_near_the_word_size() {
    // the largest prime below 2^64
    let p: u64 = 18_446_744_073_709_551_557;
    let f = PrimeField::new(p);
    let top = el(&f, p - 1);
    assert_eq!(f.mul(top, top).value(), 1);
    assert_eq!(f.add(top, top).value(), p - 2);
    assert_eq!(f.sub(el(&f, 0), top).value(), 1);
    assert_eq!(f.neg(top).value(), 1);
    let two = el(&f, 2);
    let half = f.inverse(two).unwrap();
    assert_eq!(half.value(), (p + 1) / 2);
    assert_eq!(f.mul(two, half).value(), 1);
}

#[test]
fn inverse_times_the_element_is_one() {
    for p in [3u64, 5, 23, 61, 1_000_003] {
        let f = PrimeField::new(p);
        let one = f.reduce(1);
        let upto = if p > 200 { 200 } else { p };
        for v in 1..upto {
            let x = el(&f, v);
            let inv = f.inverse(x).unwrap();
            assert_eq!(f.mul(x, inv), one);
            assert!(inv.value() < p);
        }
    }
}

#[test]
fn inverse_of_zero_is_a_domain_error() {
    let f = PrimeField::new(61);
    assert_eq!(f.inverse(el(&f, 0)), Err(DomainError::ZeroInverse));
    assert_eq!(f.inverse(f.reduce(61)), Err(DomainError::ZeroInverse));
}

#[test]
fn inverse_gives_the_known_values() {
    let f = PrimeField::new(61);
    assert_eq!(f.inverse(el(&f, 2)).unwrap().value(), 31);
    assert_eq!(f.inverse(el(&f, 13)).unwrap().value(), 47);
    let g = PrimeField::new(23);
    assert_eq!(g.inverse(el(&g, 5)).unwrap().value(), 14);
    assert_eq!(g.inverse(el(&g, 22)).unwrap().value(), 22);
}

#[test]
fn pow_gives_exact_values() {
    let f = PrimeField::new(61);
    assert_eq!(f.pow(el(&f, 2), 0).value(), 1);
    assert_eq!(f.pow(el(&f, 0), 0).value(), 1);
    assert_eq!(f.pow(el(&f, 0), 5).value(), 0);
    assert_eq!(f.pow(el(&f, 2), 10).value(), 1024 % 61);
    assert_eq!(f.pow(el(&f, 2), 60).value(), 1);
    assert_eq!(f.pow(el(&f, 2), 30).value(), 60);
    assert_eq!(f.pow(el(&f, 3), u64::MAX).value(), {
        // 3 has order dividing 60, and u64::MAX = 15 modulo 60
        let mut r = 1u64;
        for _ in 0..15 {
            r = r * 3 % 61;
        }
        r
    });
}

#[test]
fn sqrt_of_zero_is_zero_twice() {
    for p in [3u64, 23, 61] {
        let f = PrimeField::new(p);
        let zero = f.reduce(0);
        assert_eq!(f.sqrt(zero), Some((zero, zero)));
    }
}

#[test]
fn sqrt_returns_both_roots_smaller_first() {
    let f = PrimeField::new(61);
    let roots = |v: u64| f.sqrt(el(&f, v)).map(|(a, b)| (a.value(), b.value()));
    assert_eq!(roots(1), Some((1, 60)));
    assert_eq!(roots(3), Some((8, 53)));
    assert_eq!(roots(27), Some((24, 37)));
    assert_eq!(roots(49), Some((7, 54)));
    assert_eq!(roots(2), None);
    assert_eq!(roots(59), None);
    let g = PrimeField::new(23);
    let roots = |v: u64| g.sqrt(el(&g, v)).map(|(a, b)| (a.value(), b.value()));
    assert_eq!(roots(2), Some((5, 18)));
    assert_eq!(roots(6), Some((11, 12)));
    assert_eq!(roots(5), None);
    assert_eq!(roots(22), None);
}

#[test]
fn sqrt_roots_square_back_and_sum_to_zero() {
    // 17 and 97 leave 1 modulo 8, 13 leaves 5, 7 and 1_000_003 leave 3 modulo 4
    for p in [3u64, 5, 7, 13, 17, 23, 61, 97, 1_000_003] {
        let f = PrimeField::new(p);
        let zero = f.reduce(0);
        let upto = if p > 300 { 300 } else { p };
        let mut residues = 0;
        for v in 0..upto {
            let x = el(&f, v);
            match f.sqrt(x) {
                Some((r1, r2)) => {
                    assert_eq!(f.mul(r1, r1), x);
                    assert_eq!(f.mul(r2, r2), x);
                    assert_eq!(f.add(r1, r2), zero);
                    assert!(r1.value() <= r2.value());
                    residues += 1;
                },
                None => {
                    for c in 0..p.min(2000) {
                        assert_ne!(f.mul(el(&f, c), el(&f, c)), x);
                    }
                },
            }
        }
        if upto == p {
            assert_eq!(residues, (p + 1) / 2);
        }
    }
}

#[test]
fn sqrt_agrees_with_a_search_over_the_whole_field() {
    for p in [5u64, 13, 17, 29, 41, 61, 73, 97, 193, 257] {
        let f = PrimeField::new(p);
        for v in 0..p {
            let expected = (0..p).find(|c| c * c % p == v).map(|c| (c, (p - c) % p));
            let got = f.sqrt(el(&f, v)).map(|(a, b)| (a.value(), b.value()));
            assert_eq!(got, expected, "p = {}, x = {}", p, v);
        }
    }
}

#[test]
fn sqrt_works_in_a_field_with_a_large_power_of_two_in_its_order() {
    // 2^64 - 2^32 + 1 is prime: the loop of Tonelli and Shanks has many rounds
    let p: u64 = 18_446_744_069_414_584_321;
    let f = PrimeField::new(p);
    for v in [2u64, 3, 5, 7, 1234567, 987654321] {
        let x = el(&f, v);
        let square = f.mul(x, x);
        let (r1, r2) = f.sqrt(square).unwrap();
        assert_eq!(f.mul(r1, r1), square);
        assert_eq!(f.add(r1, r2).value(), 0);
        assert!(r1 == x || r2 == x);
    }
}
