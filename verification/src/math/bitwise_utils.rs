//! The zero-filling right shift on signed integers.
use vstd::prelude::*;

verus! {

/// Intended for implementing logical right shift (i.e. `>>>`).
pub trait LogicalRightShift: Sized {
    /// The number of bits of the type; a shift must stay below it.
    spec fn lrs_width() -> u64;

    /// The value after a zero-filling shift to the right by `bits`.
    spec fn spec_lrs(self, bits: u64) -> Self;

    fn lrs(&mut self, bits: u64)
        requires
            bits < Self::lrs_width(),
        ensures
            *final(self) == old(self).spec_lrs(bits),
    ;
}

impl LogicalRightShift for i64 {
    open spec fn lrs_width() -> u64 {
        64
    }

    open spec fn spec_lrs(self, bits: u64) -> i64 {
        ((self as u64) >> bits) as i64
    }

    /// Logical right shift: the bit pattern moves right and zeros enter from the left.
    fn lrs(&mut self, bits: u64) {
        *self = ((*self as u64) >> bits) as i64;
    }
}

/// The bit pattern of a signed 64-bit value, read as an unsigned count.
pub open spec fn unsigned(value: i64) -> nat {
    if value >= 0 {
        value as nat
    } else {
        (value + 0x1_0000_0000_0000_0000) as nat
    }
}

/// A logical shift by one halves the unsigned reading, and the lowest bit is
/// its remainder.
pub proof fn lemma_lrs_halves(value: i64)
    ensures
        unsigned(value.spec_lrs(1)) == unsigned(value) / 2,
        (value & 1) == unsigned(value) % 2,
        value != 0 ==> unsigned(value.spec_lrs(1)) < unsigned(value),
        value == 0 <==> unsigned(value) == 0,
{
    let u = value as u64;
    let s = (u >> 1) as i64;
    assert((value >= 0 ==> u == value) && (value < 0 ==> u == value + 0x1_0000_0000_0000_0000)
        && s >= 0 && s == u / 2 && (value & 1) == u % 2) by (bit_vector)
        requires
            u == value as u64,
            s == (u >> 1) as i64,
    ;
}

} // verus!
