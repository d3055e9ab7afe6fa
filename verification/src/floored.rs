//! The floored remainder of the `num` crate, at each integer width the library
//! computes in.
//!
//! For a positive modulus the floored remainder is the least nonnegative
//! residue: it is what `%` means in a contract. The functions of this file are
//! believed, not proved.

use num::Integer;
use vstd::prelude::*;

verus! {

/// `num::Integer::mod_floor` on `u8`. The contract claims that for a nonzero
/// modulus it returns the remainder of the division.
#[verifier::external_body]
pub(crate) fn mod_floor_u8(x: u8, m: u8) -> (r: u8)
    requires
        m > 0,
    ensures
        r == x % m,
{
    x.mod_floor(&m)
}

/// `num::Integer::mod_floor` on `u16`. The contract claims that for a nonzero
/// modulus it returns the remainder of the division.
#[verifier::external_body]
pub(crate) fn mod_floor_u16(x: u16, m: u16) -> (r: u16)
    requires
        m > 0,
    ensures
        r == x % m,
{
    x.mod_floor(&m)
}

/// `num::Integer::mod_floor` on `u128`. The contract claims that for a nonzero
/// modulus it returns the remainder of the division.
#[verifier::external_body]
pub(crate) fn mod_floor_u128(x: u128, m: u128) -> (r: u128)
    requires
        m > 0,
    ensures
        r == x % m,
{
    x.mod_floor(&m)
}

/// `num::Integer::mod_floor` on `i8`. The contract claims that for a positive
/// modulus it returns the residue in `[0, m)`, also where `x` is negative.
#[verifier::external_body]
pub(crate) fn mod_floor_i8(x: i8, m: i8) -> (r: i8)
    requires
        m > 0,
    ensures
        r == (x as int) % (m as int),
{
    x.mod_floor(&m)
}

/// `num::Integer::mod_floor` on `i128`. The contract claims that for a positive
/// modulus it returns the residue in `[0, m)`, also where `x` is negative.
#[verifier::external_body]
pub(crate) fn mod_floor_i128(x: i128, m: i128) -> (r: i128)
    requires
        m > 0,
    ensures
        r == (x as int) % (m as int),
{
    x.mod_floor(&m)
}

} // verus!
