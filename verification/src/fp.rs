use vstd::prelude::*;

use rustc_apfloat::Float;

verus! {

/// IEEE-754 `<=` on the binary64 values with bit patterns `a` and `b`;
/// false when either operand is NaN.
pub uninterp spec fn fp_le_bits(a: u64, b: u64) -> bool;

/// The bit pattern of the IEEE-754 binary64 difference `a - b`, rounded to
/// nearest with ties to even.
pub uninterp spec fn fp_sub_bits(a: u64, b: u64) -> u64;

/// The bit pattern of the C `fmod` remainder of the binary64 values with bit
/// patterns `a` and `b`.
pub uninterp spec fn fp_fmod_bits(a: u64, b: u64) -> u64;

/// Whether a binary64 bit pattern denotes a zero: all bits clear except
/// possibly the sign.
pub open spec fn fp_is_zero_bits(a: u64) -> bool {
    a == 0 || a == 0x8000_0000_0000_0000u64
}

/// Relies on rustc_apfloat's `Double` ordering (`PartialOrd`): IEEE-754
/// comparison of the doubles with the given bit patterns.
#[verifier::external_body]
pub(crate) fn fp_le(a: u64, b: u64) -> (r: bool)
    ensures
        r == fp_le_bits(a, b),
{
    let x = rustc_apfloat::ieee::Double::from_bits(a as u128);
    let y = rustc_apfloat::ieee::Double::from_bits(b as u128);
    x <= y
}

/// Relies on rustc_apfloat's `Double` subtraction (`Sub`, round to nearest,
/// ties to even) on the doubles with the given bit patterns.
#[verifier::external_body]
pub(crate) fn fp_sub(a: u64, b: u64) -> (r: u64)
    ensures
        r == fp_sub_bits(a, b),
{
    let x = rustc_apfloat::ieee::Double::from_bits(a as u128);
    let y = rustc_apfloat::ieee::Double::from_bits(b as u128);
    (x - y).value.to_bits() as u64
}

/// Relies on rustc_apfloat's `Double` remainder (`Rem`, C `fmod` semantics)
/// on the doubles with the given bit patterns.
#[verifier::external_body]
pub(crate) fn fp_fmod(a: u64, b: u64) -> (r: u64)
    ensures
        r == fp_fmod_bits(a, b),
{
    let x = rustc_apfloat::ieee::Double::from_bits(a as u128);
    let y = rustc_apfloat::ieee::Double::from_bits(b as u128);
    (x % y).value.to_bits() as u64
}

/// Whether a binary64 bit pattern denotes a zero.
pub fn fp_is_zero(a: u64) -> (r: bool)
    ensures
        r == fp_is_zero_bits(a),
{
    a == 0 || a == 0x8000_0000_0000_0000u64
}

} // verus!
