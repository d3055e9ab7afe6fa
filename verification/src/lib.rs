//! Arithmetic in prime fields and the group law of short Weierstrass curves
//! over them, with machine-checked contracts.
//!
//! [`field`] holds the field of integers modulo an odd prime: reduction, the
//! ring operations, inverses by the extended Euclidean algorithm and square
//! roots by Euler's criterion and the algorithm of Tonelli and Shanks.
//! [`curve`] holds curves `y² = x³ + a·x + b` over such a field: points, their
//! sum and their multiples. [`ff23`], [`ff61`] and [`curve61`] are the fields
//! modulo 23 and 61 and the curve `y² = x³ + 9·x + 1` modulo 61 as types of
//! their own.
//!
//! The contracts are stated over the integers. [`modular`], [`powers`],
//! [`polynomial`] and [`fermat`] hold the number theory they rest on,
//! [`group_law`] the group law and what is proved of it on every curve,
//! [`multiples61`] what is proved of it on the curve modulo 61 from the list
//! of its 73 points. [`floored`] and [`bits`] are the two places where the
//! library calls code that it takes on trust.

pub mod bits;
pub mod curve;
pub mod curve61;
pub mod fermat;
pub mod ff23;
pub mod ff61;
pub mod field;
pub mod floored;
pub mod group_law;
pub mod modular;
pub mod multiples61;
pub mod polynomial;
pub mod powers;
