//! The field of integers modulo 61.

use crate::field::{DomainError, PrimeField};
use crate::floored::{mod_floor_i8, mod_floor_u16, mod_floor_u8};
use crate::modular::{
    is_inverse, is_odd_prime, is_quadratic_residue, is_root_pair, mod_inverse,
};
use std::ops::{Add, Mul, Neg, Sub};
use vstd::prelude::*;
use vstd::std_specs::ops::{AddSpecImpl, MulSpecImpl, NegSpecImpl, SubSpecImpl};

verus! {

/// 61 is an odd prime.
pub proof fn lemma_61_is_prime()
    ensures
        is_odd_prime(61),
{
    assert forall|d: int| 1 < d < 61 implies #[trigger] (61int % d) != 0 by {
        let e = d as u8;
        assert(1 < e && e < 61 ==> 61u8 % e != 0) by (bit_vector);
    }
}

/// An element of the field of integers modulo 61. Its view is its value, a
/// number from 0 to 60.
#[derive(Debug, Clone, Copy, PartialEq, Eq, Structural)]
pub struct FiniteField61Point {
    value: u8,
}

impl View for FiniteField61Point {
    type V = int;

    closed spec fn view(&self) -> int {
        self.value as int
    }
}

impl FiniteField61Point {
    /// The modulus.
    pub const P: u8 = 61;

    #[verifier::type_invariant]
    spec fn reduced(&self) -> bool {
        self.value < 61
    }

    /// The element whose view is `v`.
    pub closed spec fn of(v: int) -> Self {
        FiniteField61Point { value: v as u8 }
    }

    /// An element is determined by its view.
    pub proof fn lemma_view_determines(self)
        requires
            0 <= self@ < 61,
        ensures
            Self::of(self@) == self,
    {
    }

    /// The least element, zero.
    pub fn min() -> (r: Self)
        ensures
            r@ == 0,
    {
        Self { value: 0 }
    }

    /// The greatest element, 60.
    pub fn max() -> (r: Self)
        ensures
            r@ == 60,
    {
        Self { value: 60 }
    }

    /// The element with the given value, or an error where the value is not
    /// below 61.
    pub fn try_new(value: u8) -> (r: Result<Self, DomainError>)
        ensures
            value < 61 ==> r.is_ok() && r.unwrap()@ == value,
            value >= 61 ==> r == Err::<Self, DomainError>(DomainError::OutOfRange),
    {
        if value < 61 {
            Ok(Self { value })
        } else {
            Err(DomainError::OutOfRange)
        }
    }

    /// The element with the given value, which must be below 61. For a value
    /// that may not be, there is `try_new`.
    pub fn new(value: u8) -> (r: Self)
        requires
            value < 61,
        ensures
            r@ == value,
    {
        Self { value }
    }

    /// The value, a number from 0 to 60.
    pub fn value(&self) -> (v: u8)
        ensures
            v == self@,
            v < 61,
    {
        proof {
            use_type_invariant(self);
        }
        self.value
    }

    /// The multiplicative inverse: the one element whose product with this one
    /// is 1. Zero has none and is refused.
    pub fn mul_inverse(&self) -> (r: Result<Self, DomainError>)
        ensures
            self@ == 0 ==> r == Err::<Self, DomainError>(DomainError::ZeroInverse),
            self@ != 0 ==> ({
                &&& r.is_ok()
                &&& is_inverse(self@, r.unwrap()@, 61)
                &&& r.unwrap()@ == mod_inverse(self@, 61)
            }),
    {
        proof {
            use_type_invariant(self);
            lemma_61_is_prime();
        }
        let field = PrimeField::new(61);
        let x = field.element(self.value as u64).unwrap();
        match field.inverse(x) {
            Ok(inverse) => Ok(Self { value: inverse.value() as u8 }),
            Err(e) => Err(e),
        }
    }

    /// The two square roots of the element, the smaller first, or nothing
    /// where it has none.
    pub fn square_root(&self) -> (r: Option<(Self, Self)>)
        ensures
            match r {
                Some((r1, r2)) => is_root_pair(r1@, r2@, self@, 61),
                None => !is_quadratic_residue(self@, 61),
            },
    {
        proof {
            use_type_invariant(self);
            lemma_61_is_prime();
        }
        let field = PrimeField::new(61);
        let x = field.element(self.value as u64).unwrap();
        match field.sqrt(x) {
            Some((r1, r2)) => Some(
                (Self { value: r1.value() as u8 }, Self { value: r2.value() as u8 }),
            ),
            None => None,
        }
    }
}

impl AddSpecImpl for FiniteField61Point {
    open spec fn obeys_add_spec() -> bool {
        true
    }

    open spec fn add_req(self, other: FiniteField61Point) -> bool {
        true
    }

    open spec fn add_spec(self, other: FiniteField61Point) -> FiniteField61Point {
        FiniteField61Point::of((self@ + other@) % 61)
    }
}

impl Add for FiniteField61Point {
    type Output = FiniteField61Point;

    /// The sum modulo 61.
    fn add(self, other: FiniteField61Point) -> (r: FiniteField61Point)
        ensures
            r@ == (self@ + other@) % 61,
    {
        proof {
            use_type_invariant(&self);
            use_type_invariant(&other);
        }
        Self::Output { value: mod_floor_u8(self.value + other.value, 61) }
    }
}

impl SubSpecImpl for FiniteField61Point {
    open spec fn obeys_sub_spec() -> bool {
        true
    }

    open spec fn sub_req(self, other: FiniteField61Point) -> bool {
        true
    }

    open spec fn sub_spec(self, other: FiniteField61Point) -> FiniteField61Point {
        FiniteField61Point::of((self@ - other@) % 61)
    }
}

impl Sub for FiniteField61Point {
    type Output = FiniteField61Point;

    /// The difference modulo 61.
    fn sub(self, other: FiniteField61Point) -> (r: FiniteField61Point)
        ensures
            r@ == (self@ - other@) % 61,
    {
        (&self).sub(&other)
    }
}

impl SubSpecImpl<&FiniteField61Point> for &FiniteField61Point {
    open spec fn obeys_sub_spec() -> bool {
        true
    }

    open spec fn sub_req(self, other: &FiniteField61Point) -> bool {
        true
    }

    open spec fn sub_spec(self, other: &FiniteField61Point) -> FiniteField61Point {
        FiniteField61Point::of((self@ - other@) % 61)
    }
}

impl Sub<&FiniteField61Point> for &FiniteField61Point {
    type Output = FiniteField61Point;

    /// The difference modulo 61.
    fn sub(self, other: &FiniteField61Point) -> (r: FiniteField61Point)
        ensures
            r@ == (self@ - other@) % 61,
    {
        proof {
            use_type_invariant(self);
            use_type_invariant(other);
        }
        let v1 = self.value as i8;
        let v2 = other.value as i8;
        let v = mod_floor_i8(v1 - v2, 61);
        Self::Output { value: v as u8 }
    }
}

impl MulSpecImpl for FiniteField61Point {
    open spec fn obeys_mul_spec() -> bool {
        true
    }

    open spec fn mul_req(self, other: FiniteField61Point) -> bool {
        true
    }

    open spec fn mul_spec(self, other: FiniteField61Point) -> FiniteField61Point {
        FiniteField61Point::of((self@ * other@) % 61)
    }
}

impl Mul for FiniteField61Point {
    type Output = FiniteField61Point;

    /// The product modulo 61, computed at twice the width so that it cannot
    /// overflow.
    fn mul(self, other: FiniteField61Point) -> (r: FiniteField61Point)
        ensures
            r@ == (self@ * other@) % 61,
    {
        (&self).mul(&other)
    }
}

impl MulSpecImpl<&FiniteField61Point> for &FiniteField61Point {
    open spec fn obeys_mul_spec() -> bool {
        true
    }

    open spec fn mul_req(self, other: &FiniteField61Point) -> bool {
        true
    }

    open spec fn mul_spec(self, other: &FiniteField61Point) -> FiniteField61Point {
        FiniteField61Point::of((self@ * other@) % 61)
    }
}

impl Mul<&FiniteField61Point> for &FiniteField61Point {
    type Output = FiniteField61Point;

    /// The product modulo 61, computed at twice the width so that it cannot
    /// overflow.
    fn mul(self, other: &FiniteField61Point) -> (r: FiniteField61Point)
        ensures
            r@ == (self@ * other@) % 61,
    {
        proof {
            use_type_invariant(self);
            use_type_invariant(other);
        }
        let v1 = self.value as u16;
        let v2 = other.value as u16;
        assert(v1 * v2 <= 3600) by (nonlinear_arith)
            requires
                v1 <= 60,
                v2 <= 60,
        ;
        let v = mod_floor_u16(v1 * v2, 61);
        Self::Output { value: v as u8 }
    }
}

impl NegSpecImpl for FiniteField61Point {
    open spec fn obeys_neg_spec() -> bool {
        true
    }

    open spec fn neg_req(self) -> bool {
        true
    }

    open spec fn neg_spec(self) -> FiniteField61Point {
        FiniteField61Point::of((-self@) % 61)
    }
}

impl Neg for FiniteField61Point {
    type Output = FiniteField61Point;

    /// The additive inverse modulo 61.
    fn neg(self) -> (r: FiniteField61Point)
        ensures
            r@ == (-self@) % 61,
    {
        (&self).neg()
    }
}

impl NegSpecImpl for &FiniteField61Point {
    open spec fn obeys_neg_spec() -> bool {
        true
    }

    open spec fn neg_req(self) -> bool {
        true
    }

    open spec fn neg_spec(self) -> FiniteField61Point {
        FiniteField61Point::of((-self@) % 61)
    }
}

impl Neg for &FiniteField61Point {
    type Output = FiniteField61Point;

    /// The additive inverse modulo 61.
    fn neg(self) -> (r: FiniteField61Point)
        ensures
            r@ == (-self@) % 61,
    {
        proof {
            use_type_invariant(self);
            vstd::arithmetic::div_mod::lemma_mod_add_multiples_vanish(-self@, 61);
        }
        let v1 = self.value as i8;
        let v = mod_floor_i8(61 - v1, 61);
        FiniteField61Point { value: v as u8 }
    }
}

} // verus!
