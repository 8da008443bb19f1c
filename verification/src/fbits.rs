use vstd::prelude::*;
use rustc_apfloat::Float;

verus! {

// Scores, displacements and interpolation weights are IEEE 754
// single-precision values. Verified code carries them as their raw bit
// patterns (`u32`) and performs each arithmetic step through a trusted
// wrapper around rustc_apfloat's `Single` type, the bit-exact software
// implementation of that format. Every operation is deterministic, so
// its result is named by an uninterpreted function of the operand bits.

/// The bits of the rounded sum of two single-precision values.
pub uninterp spec fn add_bits(a: u32, b: u32) -> u32;

/// The bits of the rounded difference of two single-precision values.
pub uninterp spec fn sub_bits(a: u32, b: u32) -> u32;

/// The bits of the rounded product of two single-precision values.
pub uninterp spec fn mul_bits(a: u32, b: u32) -> u32;

/// The bits of the rounded quotient of two single-precision values.
pub uninterp spec fn div_bits(a: u32, b: u32) -> u32;

/// Whether one single-precision value is strictly greater than another.
pub uninterp spec fn gt_bits(a: u32, b: u32) -> bool;

/// Whether one single-precision value is greater than or equal to
/// another.
pub uninterp spec fn ge_bits(a: u32, b: u32) -> bool;

/// The floor of a single-precision value as a 32-bit integer,
/// saturating at the integer range's ends, 0 for a non-number.
pub uninterp spec fn floor_bits(a: u32) -> i32;

/// The bits of the single-precision value nearest to a 32-bit unsigned
/// integer.
pub uninterp spec fn f32_of_u32(v: u32) -> u32;

/// The bits of the single-precision value nearest to a 32-bit signed
/// integer.
pub uninterp spec fn f32_of_i32(v: i32) -> u32;

/// The bit pattern of single-precision 0.0.
pub const F32_ZERO_BITS: u32 = 0;

/// The bit pattern of single-precision 1.0.
pub const F32_ONE_BITS: u32 = 0x3F80_0000;

/// The bit pattern of single-precision 2.0.
pub const F32_TWO_BITS: u32 = 0x4000_0000;

/// The bit pattern of single-precision 32.0.
pub const F32_32_BITS: u32 = 0x4200_0000;

/// A single-precision value's bits denote a non-number when the
/// exponent field is all ones and the significand is not zero.
pub open spec fn is_nan_bits(a: u32) -> bool {
    (a & 0x7F80_0000u32) == 0x7F80_0000u32 && (a & 0x007F_FFFFu32) != 0
}

/// Relies on rustc_apfloat's Single addition (IEEE 754, round to
/// nearest even): the result bits are a function of the operand bits.
#[verifier::external_body]
pub(crate) fn f_add(a: u32, b: u32) -> (r: u32)
    ensures
        r == add_bits(a, b),
{
    let x = rustc_apfloat::ieee::Single::from_bits(a as u128);
    let y = rustc_apfloat::ieee::Single::from_bits(b as u128);
    (x + y).value.to_bits() as u32
}

/// Relies on rustc_apfloat's Single subtraction (IEEE 754, round to
/// nearest even): the result bits are a function of the operand bits.
#[verifier::external_body]
pub(crate) fn f_sub(a: u32, b: u32) -> (r: u32)
    ensures
        r == sub_bits(a, b),
{
    let x = rustc_apfloat::ieee::Single::from_bits(a as u128);
    let y = rustc_apfloat::ieee::Single::from_bits(b as u128);
    (x - y).value.to_bits() as u32
}

/// Relies on rustc_apfloat's Single multiplication (IEEE 754, round to
/// nearest even): the result bits are a function of the operand bits.
#[verifier::external_body]
pub(crate) fn f_mul(a: u32, b: u32) -> (r: u32)
    ensures
        r == mul_bits(a, b),
{
    let x = rustc_apfloat::ieee::Single::from_bits(a as u128);
    let y = rustc_apfloat::ieee::Single::from_bits(b as u128);
    (x * y).value.to_bits() as u32
}

/// Relies on rustc_apfloat's Single division (IEEE 754, round to
/// nearest even): the result bits are a function of the operand bits.
#[verifier::external_body]
pub(crate) fn f_div(a: u32, b: u32) -> (r: u32)
    ensures
        r == div_bits(a, b),
{
    let x = rustc_apfloat::ieee::Single::from_bits(a as u128);
    let y = rustc_apfloat::ieee::Single::from_bits(b as u128);
    (x / y).value.to_bits() as u32
}

/// Relies on rustc_apfloat's Single ordering (IEEE 754 `>`): the
/// outcome is a function of the operand bits, and two values are never
/// both strictly greater than the other.
#[verifier::external_body]
pub(crate) fn f_gt(a: u32, b: u32) -> (r: bool)
    ensures
        r == gt_bits(a, b),
        r ==> !gt_bits(b, a),
{
    let x = rustc_apfloat::ieee::Single::from_bits(a as u128);
    let y = rustc_apfloat::ieee::Single::from_bits(b as u128);
    x > y
}

/// Relies on rustc_apfloat's Single ordering (IEEE 754 `>=`): the
/// outcome is a function of the operand bits.
#[verifier::external_body]
pub(crate) fn f_ge(a: u32, b: u32) -> (r: bool)
    ensures
        r == ge_bits(a, b),
{
    let x = rustc_apfloat::ieee::Single::from_bits(a as u128);
    let y = rustc_apfloat::ieee::Single::from_bits(b as u128);
    x >= y
}

/// Relies on rustc_apfloat's conversion to integer with rounding
/// toward negative (the floor), which saturates out-of-range values
/// and sends non-numbers to 0: the result is a function of the bits.
#[verifier::external_body]
pub(crate) fn f_floor_i32(a: u32) -> (r: i32)
    ensures
        r == floor_bits(a),
{
    let x = rustc_apfloat::ieee::Single::from_bits(a as u128);
    let mut exact = false;
    x.to_i128_r(32, rustc_apfloat::Round::TowardNegative, &mut exact).value as i32
}

/// Relies on rustc_apfloat's conversion from an unsigned integer
/// (round to nearest even): the result bits are a function of the
/// integer.
#[verifier::external_body]
pub(crate) fn f_from_u32(v: u32) -> (r: u32)
    ensures
        r == f32_of_u32(v),
{
    rustc_apfloat::ieee::Single::from_u128(v as u128).value.to_bits() as u32
}

/// Relies on rustc_apfloat's conversion from a signed integer (round
/// to nearest even): the result bits are a function of the integer.
#[verifier::external_body]
pub(crate) fn f_from_i32(v: i32) -> (r: u32)
    ensures
        r == f32_of_i32(v),
{
    rustc_apfloat::ieee::Single::from_i128(v as i128).value.to_bits() as u32
}

/// Tests whether bits denote a non-number.
pub fn f_is_nan(a: u32) -> (r: bool)
    ensures
        r == is_nan_bits(a),
{
    (a & 0x7F80_0000u32) == 0x7F80_0000u32 && (a & 0x007F_FFFFu32) != 0
}

/// The absolute value of a single-precision value: its bits with the
/// sign bit cleared.
pub fn f_abs(a: u32) -> (r: u32)
    ensures
        r == (a & 0x7FFF_FFFFu32),
{
    a & 0x7FFF_FFFFu32
}

/// The larger of two single-precision values, the other value when one
/// is a non-number: the semantics of the standard float maximum.
pub open spec fn max_bits(a: u32, b: u32) -> u32 {
    if is_nan_bits(b) {
        a
    } else if is_nan_bits(a) {
        b
    } else if gt_bits(b, a) {
        b
    } else {
        a
    }
}

/// The larger of two single-precision values, ignoring non-numbers.
pub fn f_max(a: u32, b: u32) -> (r: u32)
    ensures
        r == max_bits(a, b),
{
    if f_is_nan(b) {
        a
    } else if f_is_nan(a) {
        b
    } else if f_gt(b, a) {
        b
    } else {
        a
    }
}

} // verus!
