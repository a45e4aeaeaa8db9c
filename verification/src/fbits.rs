//! Single-precision values carried as their IEEE-754 bit patterns.
//!
//! The solver's scalars are IEEE-754 single-precision numbers. Inside the
//! library a scalar is its 32-bit pattern; the four arithmetic operations
//! and the ordering test are done by the `rustc_apfloat` software
//! implementation of IEEE-754 behind trusted wrappers, and their results
//! are named by uninterpreted spec functions: each is a function of the
//! argument bit patterns alone. Sign operations and the test against zero
//! are plain bit manipulations and are verified here.

use rustc_apfloat::Float;
use vstd::prelude::*;

verus! {

/// Bit pattern of positive zero.
pub const F_ZERO: u32 = 0;

/// Bit pattern of one.
pub const F_ONE: u32 = 0x3f80_0000;

/// What IEEE-754 single-precision addition returns, on bit patterns.
pub uninterp spec fn add_bits(a: u32, b: u32) -> u32;

/// What IEEE-754 single-precision subtraction returns, on bit patterns.
pub uninterp spec fn sub_bits(a: u32, b: u32) -> u32;

/// What IEEE-754 single-precision multiplication returns, on bit patterns.
pub uninterp spec fn mul_bits(a: u32, b: u32) -> u32;

/// What IEEE-754 single-precision division returns, on bit patterns.
pub uninterp spec fn div_bits(a: u32, b: u32) -> u32;

/// Whether the number encoded by `a` is strictly below the one encoded by
/// `b` in the IEEE-754 partial order (false whenever either is a NaN).
pub uninterp spec fn lt_bits(a: u32, b: u32) -> bool;

/// The absolute value of a single-precision number, on its bit pattern:
/// the sign bit is cleared.
pub open spec fn abs_bits(a: u32) -> u32 {
    a & 0x7fff_ffff
}

/// The negation of a single-precision number, on its bit pattern: the
/// sign bit is flipped.
pub open spec fn neg_bits(a: u32) -> u32 {
    a ^ 0x8000_0000
}

/// Whether the bit pattern encodes a zero (either sign): equality with
/// `0.0` compares true exactly for the two zero patterns.
pub open spec fn is_zero_bits(a: u32) -> bool {
    a & 0x7fff_ffff == 0
}

/// Relies on `rustc_apfloat::ieee::Single` addition (round to nearest
/// even): the result depends on the two bit patterns alone.
#[verifier::external_body]
pub(crate) fn add32(a: u32, b: u32) -> (r: u32)
    ensures
        r == add_bits(a, b),
{
    let x = rustc_apfloat::ieee::Single::from_bits(a as u128);
    let y = rustc_apfloat::ieee::Single::from_bits(b as u128);
    (x + y).value.to_bits() as u32
}

/// Relies on `rustc_apfloat::ieee::Single` subtraction (round to nearest
/// even): the result depends on the two bit patterns alone.
#[verifier::external_body]
pub(crate) fn sub32(a: u32, b: u32) -> (r: u32)
    ensures
        r == sub_bits(a, b),
{
    let x = rustc_apfloat::ieee::Single::from_bits(a as u128);
    let y = rustc_apfloat::ieee::Single::from_bits(b as u128);
    (x - y).value.to_bits() as u32
}

/// Relies on `rustc_apfloat::ieee::Single` multiplication (round to
/// nearest even): the result depends on the two bit patterns alone.
#[verifier::external_body]
pub(crate) fn mul32(a: u32, b: u32) -> (r: u32)
    ensures
        r == mul_bits(a, b),
{
    let x = rustc_apfloat::ieee::Single::from_bits(a as u128);
    let y = rustc_apfloat::ieee::Single::from_bits(b as u128);
    (x * y).value.to_bits() as u32
}

/// Relies on `rustc_apfloat::ieee::Single` division (round to nearest
/// even): the result depends on the two bit patterns alone.
#[verifier::external_body]
pub(crate) fn div32(a: u32, b: u32) -> (r: u32)
    ensures
        r == div_bits(a, b),
{
    let x = rustc_apfloat::ieee::Single::from_bits(a as u128);
    let y = rustc_apfloat::ieee::Single::from_bits(b as u128);
    (x / y).value.to_bits() as u32
}

/// Relies on `PartialOrd for rustc_apfloat::ieee::IeeeFloat`: the IEEE-754
/// comparison, which yields no ordering when a NaN is involved, so `<` is
/// then false; a function of the two bit patterns alone.
#[verifier::external_body]
pub(crate) fn lt32(a: u32, b: u32) -> (r: bool)
    ensures
        r == lt_bits(a, b),
{
    let x = rustc_apfloat::ieee::Single::from_bits(a as u128);
    let y = rustc_apfloat::ieee::Single::from_bits(b as u128);
    x < y
}

/// Clears the sign bit: the absolute value on bit patterns.
pub(crate) fn abs32(a: u32) -> (r: u32)
    ensures
        r == abs_bits(a),
{
    a & 0x7fff_ffff
}

/// Flips the sign bit: the negation on bit patterns.
pub(crate) fn neg32(a: u32) -> (r: u32)
    ensures
        r == neg_bits(a),
{
    a ^ 0x8000_0000
}

/// Tests the bit pattern against the two encodings of zero.
pub(crate) fn is_zero32(a: u32) -> (r: bool)
    ensures
        r == is_zero_bits(a),
{
    a & 0x7fff_ffff == 0
}

} // verus!
