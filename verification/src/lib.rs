//! Portable SIMD module.
//!
//! Vectors of a fixed number of lanes ([`vector`]) and the masks that pair
//! with them ([`masks`]), with horizontal reductions ([`reduction`]),
//! rounding and conversion between floating-point and integer lanes
//! ([`round`]), lane-wise floating-point arithmetic ([`ops`]) and an
//! approximate sine ([`math`]).
//!
//! A floating-point lane is held as its bit pattern, and its arithmetic is
//! carried out on integers: [`dyadic`] rounds integers counted in powers of
//! two, [`binary32`] and [`binary64`] hold the results in the two formats.
//! [`lane`] sees the integer types as ranges of the integers that wrap
//! around.
#![allow(non_camel_case_types)]

pub mod binary32;
pub mod binary64;
pub mod dyadic;
pub mod lane;
pub mod masks;
pub mod math;
pub mod ops;
pub mod reduction;
pub mod round;
mod sealed;
pub mod vector;
