//! IEEE-754 single-precision scalars, carried as `u32` bit patterns.
//!
//! The engine stores every sample coordinate, center coordinate and distance
//! as the bit pattern of an IEEE-754 single-precision number. The arithmetic
//! itself is performed by the `rustc_apfloat` and `ieee_apsqrt` crates, which
//! compute these operations as pure functions of the operands' bit patterns;
//! each operation is named below by an uninterpreted spec function, so that
//! every contract of the engine can speak of the exact value each step
//! produces.

use vstd::prelude::*;

use rustc_apfloat::Float;
use rustc_apfloat::Round;
use rustc_apfloat::ieee::Single;

verus! {

/// Bit pattern of IEEE-754 single-precision positive infinity.
pub const INF_BITS: u32 = 0x7f80_0000;

/// Bit pattern of IEEE-754 single-precision negative one.
pub const NEG_ONE_BITS: u32 = 0xbf80_0000;

/// Bit pattern of IEEE-754 single-precision one.
pub const ONE_BITS: u32 = 0x3f80_0000;

/// Bit pattern of IEEE-754 single-precision negative zero.
pub const NEG_ZERO_BITS: u32 = 0x8000_0000;

/// The bit pattern denotes an IEEE single-precision NaN: exponent bits all
/// set and a non-zero significand.
pub open spec fn is_nan_bits(a: u32) -> bool {
    (a & 0x7f80_0000u32) == 0x7f80_0000u32 && (a & 0x007f_ffffu32) != 0u32
}

/// The IEEE sum `0.0 + a` and the IEEE quotient `a / 1.0` both return `a`
/// itself, bit for bit, whenever `a` is neither a NaN nor the negative
/// zero.
pub open spec fn preserved_bits(a: u32) -> bool {
    a != NEG_ZERO_BITS && !is_nan_bits(a)
}

pub uninterp spec fn add_bits(a: u32, b: u32) -> u32;

pub uninterp spec fn sub_bits(a: u32, b: u32) -> u32;

pub uninterp spec fn mul_bits(a: u32, b: u32) -> u32;

pub uninterp spec fn div_bits(a: u32, b: u32) -> u32;

pub uninterp spec fn sqrt_bits(a: u32) -> u32;

pub uninterp spec fn lt_bits(a: u32, b: u32) -> bool;

pub uninterp spec fn gt_bits(a: u32, b: u32) -> bool;

pub uninterp spec fn from_usize_bits(n: usize) -> u32;

/// Relies on `rustc_apfloat::Float::add_r` (IEEE single-precision addition,
/// round to nearest, ties to even): the sum is a function of the operands'
/// bit patterns alone. IEEE addition of positive zero to anything but a
/// NaN or the negative zero is exact and returns that operand unchanged.
#[verifier::external_body]
pub(crate) fn add32(a: u32, b: u32) -> (r: u32)
    ensures
        r == add_bits(a, b),
        a == 0u32 && preserved_bits(b) ==> r == b,
{
    let x = Single::from_bits(a as u128);
    let y = Single::from_bits(b as u128);
    x.add_r(y, Round::NearestTiesToEven).value.to_bits() as u32
}

/// Relies on `rustc_apfloat::Float::sub_r` (IEEE single-precision
/// subtraction, round to nearest, ties to even).
#[verifier::external_body]
pub(crate) fn sub32(a: u32, b: u32) -> (r: u32)
    ensures
        r == sub_bits(a, b),
{
    let x = Single::from_bits(a as u128);
    let y = Single::from_bits(b as u128);
    x.sub_r(y, Round::NearestTiesToEven).value.to_bits() as u32
}

/// Relies on `rustc_apfloat::Float::mul_r` (IEEE single-precision
/// multiplication, round to nearest, ties to even).
#[verifier::external_body]
pub(crate) fn mul32(a: u32, b: u32) -> (r: u32)
    ensures
        r == mul_bits(a, b),
{
    let x = Single::from_bits(a as u128);
    let y = Single::from_bits(b as u128);
    x.mul_r(y, Round::NearestTiesToEven).value.to_bits() as u32
}

/// Relies on `rustc_apfloat::Float::div_r` (IEEE single-precision division,
/// round to nearest, ties to even). Division by zero does not panic: it
/// yields an infinity or a NaN bit pattern, as IEEE-754 prescribes. IEEE
/// division of anything but a NaN by one is exact and returns the dividend
/// unchanged.
#[verifier::external_body]
pub(crate) fn div32(a: u32, b: u32) -> (r: u32)
    ensures
        r == div_bits(a, b),
        b == ONE_BITS && !is_nan_bits(a) ==> r == a,
{
    let x = Single::from_bits(a as u128);
    let y = Single::from_bits(b as u128);
    x.div_r(y, Round::NearestTiesToEven).value.to_bits() as u32
}

/// Relies on `ieee_apsqrt::sqrt_accurate` (IEEE single-precision square
/// root by Newton-Raphson at doubled precision, round to nearest, ties to
/// even): the root is a function of the operand's bit pattern alone.
#[verifier::external_body]
pub(crate) fn sqrt32(a: u32) -> (r: u32)
    ensures
        r == sqrt_bits(a),
{
    ieee_apsqrt::sqrt_accurate(a, Round::NearestTiesToEven).0.value
}

/// Relies on `PartialOrd::lt` for `rustc_apfloat::ieee::Single` (IEEE
/// single-precision `<`, false whenever an operand is a NaN).
#[verifier::external_body]
pub(crate) fn lt32(a: u32, b: u32) -> (r: bool)
    ensures
        r == lt_bits(a, b),
{
    Single::from_bits(a as u128) < Single::from_bits(b as u128)
}

/// Relies on `PartialOrd::gt` for `rustc_apfloat::ieee::Single` (IEEE
/// single-precision `>`, false whenever an operand is a NaN).
#[verifier::external_body]
pub(crate) fn gt32(a: u32, b: u32) -> (r: bool)
    ensures
        r == gt_bits(a, b),
{
    Single::from_bits(a as u128) > Single::from_bits(b as u128)
}

/// Relies on `rustc_apfloat::Float::from_u128` (integer to IEEE
/// single-precision conversion, round to nearest, ties to even); the
/// conversion of one is exact.
#[verifier::external_body]
pub(crate) fn from_usize32(n: usize) -> (r: u32)
    ensures
        r == from_usize_bits(n),
        n == 1 ==> r == ONE_BITS,
{
    Single::from_u128(n as u128).value.to_bits() as u32
}

} // verus!
