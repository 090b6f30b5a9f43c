//! The two float kinds of NBT, held by their bits: the format reads and writes
//! bits, and `==` and `partial_cmp` compare them as IEEE 754 floats do (a NaN equals
//! nothing, and `0.0 == -0.0`).
use vstd::prelude::*;

use core::cmp::Ordering;
use vstd::std_specs::cmp::{PartialEqSpecImpl, PartialOrdSpecImpl};

verus! {

/// Whether 4-byte float bits are a NaN: all exponent bits set, and some fraction bit.
pub open spec fn is_nan_32(b: u32) -> bool {
    (b & 0x7f80_0000u32) == 0x7f80_0000u32 && (b & 0x007f_ffffu32) != 0u32
}

/// Whether 4-byte float bits are a zero, of either sign.
pub open spec fn is_zero_32(b: u32) -> bool {
    (b & 0x7fff_ffffu32) == 0u32
}

/// Whether two 4-byte floats are equal as floats.
pub open spec fn float_eq_32(a: u32, b: u32) -> bool {
    !is_nan_32(a) && !is_nan_32(b) && (a == b || (is_zero_32(a) && is_zero_32(b)))
}

/// Whether one 4-byte float is below another, neither being a NaN nor equal to the
/// other: a negative one is below a positive one; among positive ones the larger
/// magnitude is larger, among negative ones it is smaller.
pub open spec fn float_below_32(a: u32, b: u32) -> bool {
    let neg_a = (a & 0x8000_0000u32) != 0u32;
    let neg_b = (b & 0x8000_0000u32) != 0u32;
    if neg_a != neg_b {
        neg_a
    } else if !neg_a {
        (a & 0x7fff_ffffu32) < (b & 0x7fff_ffffu32)
    } else {
        (a & 0x7fff_ffffu32) > (b & 0x7fff_ffffu32)
    }
}

/// How two 4-byte floats compare as floats: not at all if either is a NaN.
pub open spec fn float_order_32(a: u32, b: u32) -> Option<Ordering> {
    if is_nan_32(a) || is_nan_32(b) {
        None
    } else if float_eq_32(a, b) {
        Some(Ordering::Equal)
    } else if float_below_32(a, b) {
        Some(Ordering::Less)
    } else {
        Some(Ordering::Greater)
    }
}

/// Whether 8-byte float bits are a NaN: all exponent bits set, and some fraction bit.
pub open spec fn is_nan_64(b: u64) -> bool {
    (b & 0x7ff0_0000_0000_0000u64) == 0x7ff0_0000_0000_0000u64 && (b & 0x000f_ffff_ffff_ffffu64)
        != 0u64
}

/// Whether 8-byte float bits are a zero, of either sign.
pub open spec fn is_zero_64(b: u64) -> bool {
    (b & 0x7fff_ffff_ffff_ffffu64) == 0u64
}

/// Whether two 8-byte floats are equal as floats.
pub open spec fn float_eq_64(a: u64, b: u64) -> bool {
    !is_nan_64(a) && !is_nan_64(b) && (a == b || (is_zero_64(a) && is_zero_64(b)))
}

/// Whether one 8-byte float is below another, neither being a NaN nor equal to the
/// other.
pub open spec fn float_below_64(a: u64, b: u64) -> bool {
    let neg_a = (a & 0x8000_0000_0000_0000u64) != 0u64;
    let neg_b = (b & 0x8000_0000_0000_0000u64) != 0u64;
    if neg_a != neg_b {
        neg_a
    } else if !neg_a {
        (a & 0x7fff_ffff_ffff_ffffu64) < (b & 0x7fff_ffff_ffff_ffffu64)
    } else {
        (a & 0x7fff_ffff_ffff_ffffu64) > (b & 0x7fff_ffff_ffff_ffffu64)
    }
}

/// How two 8-byte floats compare as floats: not at all if either is a NaN.
pub open spec fn float_order_64(a: u64, b: u64) -> Option<Ordering> {
    if is_nan_64(a) || is_nan_64(b) {
        None
    } else if float_eq_64(a, b) {
        Some(Ordering::Equal)
    } else if float_below_64(a, b) {
        Some(Ordering::Less)
    } else {
        Some(Ordering::Greater)
    }
}

/// A 4-byte float, by its bits.
#[derive(Debug, Clone, Copy)]
pub struct F32Bits {
    pub bits: u32,
}

/// An 8-byte float, by its bits.
#[derive(Debug, Clone, Copy)]
pub struct F64Bits {
    pub bits: u64,
}

impl View for F32Bits {
    type V = u32;

    open spec fn view(&self) -> u32 {
        self.bits
    }
}

impl View for F64Bits {
    type V = u64;

    open spec fn view(&self) -> u64 {
        self.bits
    }
}

impl F32Bits {
    /// The float with these bits.
    pub fn from_bits(bits: u32) -> (r: Self)
        ensures
            r.bits == bits,
    {
        F32Bits { bits }
    }

    /// The bits of this float.
    pub fn to_bits(self) -> (r: u32)
        ensures
            r == self.bits,
    {
        self.bits
    }
}

impl F64Bits {
    /// The float with these bits.
    pub fn from_bits(bits: u64) -> (r: Self)
        ensures
            r.bits == bits,
    {
        F64Bits { bits }
    }

    /// The bits of this float.
    pub fn to_bits(self) -> (r: u64)
        ensures
            r == self.bits,
    {
        self.bits
    }
}

impl PartialEq for F32Bits {
    fn eq(&self, other: &Self) -> (r: bool) {
        let a = self.bits;
        let b = other.bits;
        let nan_a = (a & 0x7f80_0000u32) == 0x7f80_0000u32 && (a & 0x007f_ffffu32) != 0u32;
        let nan_b = (b & 0x7f80_0000u32) == 0x7f80_0000u32 && (b & 0x007f_ffffu32) != 0u32;
        !nan_a && !nan_b && (a == b || ((a & 0x7fff_ffffu32) == 0u32 && (b & 0x7fff_ffffu32)
            == 0u32))
    }
}

impl PartialEqSpecImpl for F32Bits {
    open spec fn obeys_eq_spec() -> bool {
        true
    }

    open spec fn eq_spec(&self, other: &Self) -> bool {
        float_eq_32(self.bits, other.bits)
    }
}

impl PartialOrd for F32Bits {
    fn partial_cmp(&self, other: &Self) -> (r: Option<Ordering>) {
        let a = self.bits;
        let b = other.bits;
        let nan_a = (a & 0x7f80_0000u32) == 0x7f80_0000u32 && (a & 0x007f_ffffu32) != 0u32;
        let nan_b = (b & 0x7f80_0000u32) == 0x7f80_0000u32 && (b & 0x007f_ffffu32) != 0u32;
        if nan_a || nan_b {
            return None;
        }
        if a == b || ((a & 0x7fff_ffffu32) == 0u32 && (b & 0x7fff_ffffu32) == 0u32) {
            return Some(Ordering::Equal);
        }
        let neg_a = (a & 0x8000_0000u32) != 0u32;
        let neg_b = (b & 0x8000_0000u32) != 0u32;
        let below = if neg_a != neg_b {
            neg_a
        } else if !neg_a {
            (a & 0x7fff_ffffu32) < (b & 0x7fff_ffffu32)
        } else {
            (a & 0x7fff_ffffu32) > (b & 0x7fff_ffffu32)
        };
        if below {
            Some(Ordering::Less)
        } else {
            Some(Ordering::Greater)
        }
    }
}

impl PartialOrdSpecImpl for F32Bits {
    open spec fn obeys_partial_cmp_spec() -> bool {
        true
    }

    open spec fn partial_cmp_spec(&self, other: &Self) -> Option<Ordering> {
        float_order_32(self.bits, other.bits)
    }
}

impl PartialEq for F64Bits {
    fn eq(&self, other: &Self) -> (r: bool) {
        let a = self.bits;
        let b = other.bits;
        let nan_a = (a & 0x7ff0_0000_0000_0000u64) == 0x7ff0_0000_0000_0000u64 && (a
            & 0x000f_ffff_ffff_ffffu64) != 0u64;
        let nan_b = (b & 0x7ff0_0000_0000_0000u64) == 0x7ff0_0000_0000_0000u64 && (b
            & 0x000f_ffff_ffff_ffffu64) != 0u64;
        !nan_a && !nan_b && (a == b || ((a & 0x7fff_ffff_ffff_ffffu64) == 0u64 && (b
            & 0x7fff_ffff_ffff_ffffu64) == 0u64))
    }
}

impl PartialEqSpecImpl for F64Bits {
    open spec fn obeys_eq_spec() -> bool {
        true
    }

    open spec fn eq_spec(&self, other: &Self) -> bool {
        float_eq_64(self.bits, other.bits)
    }
}

impl PartialOrd for F64Bits {
    fn partial_cmp(&self, other: &Self) -> (r: Option<Ordering>) {
        let a = self.bits;
        let b = other.bits;
        let nan_a = (a & 0x7ff0_0000_0000_0000u64) == 0x7ff0_0000_0000_0000u64 && (a
            & 0x000f_ffff_ffff_ffffu64) != 0u64;
        let nan_b = (b & 0x7ff0_0000_0000_0000u64) == 0x7ff0_0000_0000_0000u64 && (b
            & 0x000f_ffff_ffff_ffffu64) != 0u64;
        if nan_a || nan_b {
            return None;
        }
        if a == b || ((a & 0x7fff_ffff_ffff_ffffu64) == 0u64 && (b & 0x7fff_ffff_ffff_ffffu64)
            == 0u64) {
            return Some(Ordering::Equal);
        }
        let neg_a = (a & 0x8000_0000_0000_0000u64) != 0u64;
        let neg_b = (b & 0x8000_0000_0000_0000u64) != 0u64;
        let below = if neg_a != neg_b {
            neg_a
        } else if !neg_a {
            (a & 0x7fff_ffff_ffff_ffffu64) < (b & 0x7fff_ffff_ffff_ffffu64)
        } else {
            (a & 0x7fff_ffff_ffff_ffffu64) > (b & 0x7fff_ffff_ffff_ffffu64)
        };
        if below {
            Some(Ordering::Less)
        } else {
            Some(Ordering::Greater)
        }
    }
}

impl PartialOrdSpecImpl for F64Bits {
    open spec fn obeys_partial_cmp_spec() -> bool {
        true
    }

    open spec fn partial_cmp_spec(&self, other: &Self) -> Option<Ordering> {
        float_order_64(self.bits, other.bits)
    }
}

} // verus!
