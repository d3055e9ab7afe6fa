//! The field of integers modulo 23.

use crate::field::{DomainError, PrimeField};
use crate::floored::{mod_floor_i8, mod_floor_u16, mod_floor_u8};
use crate::modular::{
    is_inverse, is_odd_prime, is_quadratic_residue, is_root_pair, mod_inverse,
};
use std::ops::{Add, Mul, Neg, Sub};
use vstd::prelude::*;
use vstd::std_specs::ops::{AddSpecImpl, MulSpecImpl, NegSpecImpl, SubSpecImpl};

verus! {

/// 23 is an odd prime.
pub proof fn lemma_23_is_prime()
    ensures
        is_odd_prime(23),
{
    assert forall|d: int| 1 < d < 23 implies #[trigger] (23int % d) != 0 by {
        let e = d as u8;
        assert(1 < e && e < 23 ==> 23u8 % e != 0) by (bit_vector);
    }
}

/// An element of the field of integers modulo 23. Its view is its value, a
/// number from 0 to 22.
#[derive(Debug, Clone, Copy, PartialEq, Eq, Structural)]
pub struct FiniteField23Point {
    value: u8,
}

impl View for FiniteField23Point {
    type V = int;

    closed spec fn view(&self) -> int {
        self.value as int
    }
}

impl FiniteField23Point {
    #[verifier::type_invariant]
    spec fn reduced(&self) -> bool {
        self.value < 23
    }

    /// The element whose view is `v`.
    pub closed spec fn of(v: int) -> Self {
        FiniteField23Point { value: v as u8 }
    }

    /// An element is determined by its view.
    pub proof fn lemma_view_determines(self)
        requires
            0 <= self@ < 23,
        ensures
            Self::of(self@) == self,
    {
    }

    /// The least element, zero.
    pub fn min() -> (r: Self)
        ensures
            r@ == 0,
    {
        Self { value: 0 }
    }

    /// The greatest element, 22.
    pub fn max() -> (r: Self)
        ensures
            r@ == 22,
    {
        Self { value: 22 }
    }

    /// The element with the given value, or a message where the value is not
    /// below 23.
    pub fn try_new(value: u8) -> (r: Result<Self, &'static str>)
        ensures
            value < 23 ==> r.is_ok() && r.unwrap()@ == value,
            value >= 23 ==> r.is_err() && r.unwrap_err()@ == "Higher than 23"@,
    {
        if value < 23 {
            Ok(Self { value })
        } else {
            Err("Higher than 23")
        }
    }

    /// The element with the given value, which must be below 23. For a value
    /// that may not be, there is `try_new`.
    pub fn new(value: u8) -> (r: Self)
        requires
            value < 23,
        ensures
            r@ == value,
    {
        Self { value }
    }

    /// The multiplicative inverse: the one element whose product with this one
    /// is 1. Zero has none and is refused.
    pub fn multiplication_inverse(&self) -> (r: Result<Self, DomainError>)
        ensures
            self@ == 0 ==> r == Err::<Self, DomainError>(DomainError::ZeroInverse),
            self@ != 0 ==> ({
                &&& r.is_ok()
                &&& is_inverse(self@, r.unwrap()@, 23)
                &&& r.unwrap()@ == mod_inverse(self@, 23)
            }),
    {
        proof {
            use_type_invariant(self);
            lemma_23_is_prime();
        }
        let field = PrimeField::new(23);
        let x = field.element(self.value as u64).unwrap();
        match field.inverse(x) {
            Ok(inverse) => Ok(Self { value: inverse.value() as u8 }),
            Err(e) => Err(e),
        }
    }

    /// The two square roots of the element, the smaller first, or nothing
    /// where it has none.
    pub fn square_root(&self) -> (r: Option<(Self, Self)>)
        ensures
            match r {
                Some((r1, r2)) => is_root_pair(r1@, r2@, self@, 23),
                None => !is_quadratic_residue(self@, 23),
            },
    {
        proof {
            use_type_invariant(self);
            lemma_23_is_prime();
        }
        let field = PrimeField::new(23);
        let x = field.element(self.value as u64).unwrap();
        match field.sqrt(x) {
            Some((r1, r2)) => Some(
                (Self { value: r1.value() as u8 }, Self { value: r2.value() as u8 }),
            ),
            None => None,
        }
    }
}

impl AddSpecImpl for FiniteField23Point {
    open spec fn obeys_add_spec() -> bool {
        true
    }

    open spec fn add_req(self, other: FiniteField23Point) -> bool {
        true
    }

    open spec fn add_spec(self, other: FiniteField23Point) -> FiniteField23Point {
        FiniteField23Point::of((self@ + other@) % 23)
    }
}

impl Add for FiniteField23Point {
    type Output = FiniteField23Point;

    /// The sum modulo 23.
    fn add(self, other: FiniteField23Point) -> (r: FiniteField23Point)
        ensures
            r@ == (self@ + other@) % 23,
    {
        proof {
            use_type_invariant(&self);
            use_type_invariant(&other);
        }
        Self::Output { value: mod_floor_u8(self.value + other.value, 23) }
    }
}

impl SubSpecImpl for FiniteField23Point {
    open spec fn obeys_sub_spec() -> bool {
        true
    }

    open spec fn sub_req(self, other: FiniteField23Point) -> bool {
        true
    }

    open spec fn sub_spec(self, other: FiniteField23Point) -> FiniteField23Point {
        FiniteField23Point::of((self@ - other@) % 23)
    }
}

impl Sub for FiniteField23Point {
    type Output = FiniteField23Point;

    /// The difference modulo 23.
    fn sub(self, other: FiniteField23Point) -> (r: FiniteField23Point)
        ensures
            r@ == (self@ - other@) % 23,
    {
        proof {
            use_type_invariant(&self);
            use_type_invariant(&other);
        }
        let v1 = self.value as i8;
        let v2 = other.value as i8;
        let v = mod_floor_i8(v1 - v2, 23);
        Self::Output { value: v as u8 }
    }
}

impl MulSpecImpl for FiniteField23Point {
    open spec fn obeys_mul_spec() -> bool {
        true
    }

    open spec fn mul_req(self, other: FiniteField23Point) -> bool {
        true
    }

    open spec fn mul_spec(self, other: FiniteField23Point) -> FiniteField23Point {
        FiniteField23Point::of((self@ * other@) % 23)
    }
}

impl Mul for FiniteField23Point {
    type Output = FiniteField23Point;

    /// The product modulo 23, computed at twice the width so that it cannot
    /// overflow.
    fn mul(self, other: FiniteField23Point) -> (r: FiniteField23Point)
        ensures
            r@ == (self@ * other@) % 23,
    {
        (&self).mul(&other)
    }
}

impl MulSpecImpl<&FiniteField23Point> for &FiniteField23Point {
    open spec fn obeys_mul_spec() -> bool {
        true
    }

    open spec fn mul_req(self, other: &FiniteField23Point) -> bool {
        true
    }

    open spec fn mul_spec(self, other: &FiniteField23Point) -> FiniteField23Point {
        FiniteField23Point::of((self@ * other@) % 23)
    }
}

impl Mul<&FiniteField23Point> for &FiniteField23Point {
    type Output = FiniteField23Point;

    /// The product modulo 23, computed at twice the width so that it cannot
    /// overflow.
    fn mul(self, other: &FiniteField23Point) -> (r: FiniteField23Point)
        ensures
            r@ == (self@ * other@) % 23,
    {
        proof {
            use_type_invariant(self);
            use_type_invariant(other);
        }
        let v1 = self.value as u16;
        let v2 = other.value as u16;
        assert(v1 * v2 <= 484) by (nonlinear_arith)
            requires
                v1 <= 22,
                v2 <= 22,
        ;
        let v = mod_floor_u16(v1 * v2, 23);
        Self::Output { value: v as u8 }
    }
}

impl NegSpecImpl for FiniteField23Point {
    open spec fn obeys_neg_spec() -> bool {
        true
    }

    open spec fn neg_req(self) -> bool {
        true
    }

    open spec fn neg_spec(self) -> FiniteField23Point {
        FiniteField23Point::of((-self@) % 23)
    }
}

impl Neg for FiniteField23Point {
    type Output = FiniteField23Point;

    /// The additive inverse modulo 23.
    fn neg(self) -> (r: FiniteField23Point)
        ensures
            r@ == (-self@) % 23,
    {
        proof {
            use_type_invariant(&self);
            vstd::arithmetic::div_mod::lemma_mod_add_multiples_vanish(-self@, 23);
        }
        let v1 = self.value as i8;
        let v = mod_floor_i8(23 - v1, 23);
        FiniteField23Point { value: v as u8 }
    }
}

} // verus!
