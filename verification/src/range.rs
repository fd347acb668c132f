use vstd::prelude::*;

use crate::fp::{fp_fmod, fp_fmod_bits, fp_is_zero, fp_is_zero_bits, fp_le, fp_le_bits, fp_sub,
    fp_sub_bits};

verus! {

/// Containment in an inclusive integer range with a positive stride:
/// `min <= x <= max` and `x - min` is a multiple of `step`.
pub open spec fn int_range_contains(min: i64, max: i64, step: u64, x: i64) -> bool {
    min <= x <= max && (x - min) % (step as int) == 0
}

/// An inclusive integer range with a strictly positive stride.
#[derive(Clone, Copy, PartialEq, Eq, Structural, Debug)]
pub struct IntegerRange {
    pub min: i64,
    pub max: i64,
    pub step: u64,
}

impl IntegerRange {
    /// A well-formed range has a strictly positive stride.
    pub open spec fn wf(self) -> bool {
        self.step > 0
    }

    /// True iff `val` lies in the range and on the stride.
    pub fn contains(&self, val: i64) -> (r: bool)
        requires
            self.wf(),
        ensures
            r == int_range_contains(self.min, self.max, self.step, val),
    {
        if self.min <= val && val <= self.max {
            let diff: i128 = val as i128 - self.min as i128;
            diff % (self.step as i128) == 0
        } else {
            false
        }
    }
}

/// Containment in an inclusive floating-point range, over binary64 bit
/// patterns: `min <= x <= max` in IEEE-754 order and, unless `step` is zero,
/// the `fmod` remainder of `x - min` by `step` is zero. A zero `step`
/// disables the stride check.
pub open spec fn fp_range_contains(min: u64, max: u64, step: u64, x: u64) -> bool {
    fp_le_bits(min, x) && fp_le_bits(x, max) && (fp_is_zero_bits(step) || fp_is_zero_bits(
        fp_fmod_bits(fp_sub_bits(x, min), step),
    ))
}

/// An inclusive floating-point range with an optional stride, held as
/// IEEE-754 binary64 bit patterns.
#[derive(Clone, Copy, PartialEq, Eq, Structural, Debug)]
pub struct FloatingPointRange {
    pub min: u64,
    pub max: u64,
    pub step: u64,
}

impl FloatingPointRange {
    /// True iff the double with bit pattern `val` lies in the range and,
    /// when the stride is nonzero, on the stride.
    pub fn contains(&self, val: u64) -> (r: bool)
        ensures
            r == fp_range_contains(self.min, self.max, self.step, val),
    {
        if fp_le(self.min, val) && fp_le(val, self.max) {
            if fp_is_zero(self.step) {
                true
            } else {
                fp_is_zero(fp_fmod(fp_sub(val, self.min), self.step))
            }
        } else {
            false
        }
    }
}

} // verus!
