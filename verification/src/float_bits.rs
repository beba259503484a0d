use vstd::prelude::*;

verus! {

/// A single-precision IEEE-754 number, held as its bit pattern.
///
/// The library never does arithmetic on these values; it only carries them and
/// compares them the way the hardware's `>=` does.
#[derive(Clone, Copy, Debug, PartialEq, Eq, Structural)]
pub struct FloatBits {
    pub bits: u32,
}

/// The magnitude part of the bit pattern (sign bit cleared).
pub open spec fn magnitude(bits: u32) -> int {
    (bits % 0x8000_0000u32) as int
}

/// Whether the sign bit is set.
pub open spec fn sign_set(bits: u32) -> bool {
    bits >= 0x8000_0000u32
}

/// Whether the pattern is a NaN: all exponent bits set and a non-zero fraction.
pub open spec fn is_nan(bits: u32) -> bool {
    magnitude(bits) > 0x7f80_0000
}

/// A key whose integer order is the numeric order of the non-NaN values
/// (both zeros get the key 0; infinities get the extreme keys).
pub open spec fn order_key(bits: u32) -> int {
    if sign_set(bits) {
        -magnitude(bits)
    } else {
        magnitude(bits)
    }
}

/// IEEE-754 `a >= b`: false as soon as one side is NaN.
pub open spec fn float_ge(a: u32, b: u32) -> bool {
    !is_nan(a) && !is_nan(b) && order_key(a) >= order_key(b)
}

impl FloatBits {
    /// `0.0`
    pub fn zero() -> (r: FloatBits)
        ensures
            r.bits == 0,
    {
        FloatBits { bits: 0 }
    }

    pub fn from_bits(bits: u32) -> (r: FloatBits)
        ensures
            r.bits == bits,
    {
        FloatBits { bits }
    }

    /// Whether this value is a NaN.
    pub fn is_nan(&self) -> (r: bool)
        ensures
            r == is_nan(self.bits),
    {
        self.bits % 0x8000_0000u32 > 0x7f80_0000u32
    }

    /// The comparison `self >= other` on the numbers these patterns encode.
    pub fn ge(&self, other: &FloatBits) -> (r: bool)
        ensures
            r == float_ge(self.bits, other.bits),
    {
        if self.is_nan() || other.is_nan() {
            return false;
        }
        let ma = self.bits % 0x8000_0000u32;
        let mb = other.bits % 0x8000_0000u32;
        let sa = self.bits >= 0x8000_0000u32;
        let sb = other.bits >= 0x8000_0000u32;
        if !sa && !sb {
            ma >= mb
        } else if sa && sb {
            ma <= mb
        } else if !sa {
            // self non-negative, other non-positive
            true
        } else {
            // self non-positive, other non-negative: equal only when both are zeros
            ma == 0 && mb == 0
        }
    }
}

/// `>=` on these values is reflexive on every non-NaN value and total between
/// any two non-NaN values.
pub proof fn lemma_float_ge_total(a: u32, b: u32)
    requires
        !is_nan(a),
        !is_nan(b),
    ensures
        float_ge(a, a),
        float_ge(a, b) || float_ge(b, a),
{
}

} // verus!
