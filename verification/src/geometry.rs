//! Plain geometric value types carried by layers: a 4-by-4 transform matrix
//! and a 2-D unsigned size.
//!
//! A transform entry is stored as the IEEE-754 bit pattern of a 32-bit
//! float (`f32::to_bits`), so the layer model itself never computes with
//! floating point; a renderer converts entries back with `f32::from_bits`.

use vstd::prelude::*;

verus! {

/// Bit pattern of the 32-bit float `1.0`.
pub const FLOAT_ONE_BITS: u32 = 0x3F80_0000;

/// Bit pattern of the 32-bit float `0.0`.
pub const FLOAT_ZERO_BITS: u32 = 0;

/// A 4-by-4 transform matrix. Entry `mRC` sits in row `R`, column `C`;
/// the row/column convention of the values themselves is the renderer's,
/// not this crate's. Each entry is an `f32` bit pattern.
#[derive(Clone, Copy, PartialEq, Eq, Structural, Debug)]
pub struct Matrix4 {
    pub m11: u32, pub m12: u32, pub m13: u32, pub m14: u32,
    pub m21: u32, pub m22: u32, pub m23: u32, pub m24: u32,
    pub m31: u32, pub m32: u32, pub m33: u32, pub m34: u32,
    pub m41: u32, pub m42: u32, pub m43: u32, pub m44: u32,
}

impl Matrix4 {
    /// The matrix whose diagonal entries are `1.0` and whose remaining
    /// entries are `0.0`, read on the bit patterns.
    pub open spec fn is_identity(self) -> bool {
        &&& self.m11 == FLOAT_ONE_BITS
        &&& self.m12 == FLOAT_ZERO_BITS
        &&& self.m13 == FLOAT_ZERO_BITS
        &&& self.m14 == FLOAT_ZERO_BITS
        &&& self.m21 == FLOAT_ZERO_BITS
        &&& self.m22 == FLOAT_ONE_BITS
        &&& self.m23 == FLOAT_ZERO_BITS
        &&& self.m24 == FLOAT_ZERO_BITS
        &&& self.m31 == FLOAT_ZERO_BITS
        &&& self.m32 == FLOAT_ZERO_BITS
        &&& self.m33 == FLOAT_ONE_BITS
        &&& self.m34 == FLOAT_ZERO_BITS
        &&& self.m41 == FLOAT_ZERO_BITS
        &&& self.m42 == FLOAT_ZERO_BITS
        &&& self.m43 == FLOAT_ZERO_BITS
        &&& self.m44 == FLOAT_ONE_BITS
    }
}

/// The identity transform: every fresh layer starts out carrying it.
pub fn identity() -> (r: Matrix4)
    ensures
        r.is_identity(),
{
    Matrix4 {
        m11: FLOAT_ONE_BITS, m12: FLOAT_ZERO_BITS, m13: FLOAT_ZERO_BITS, m14: FLOAT_ZERO_BITS,
        m21: FLOAT_ZERO_BITS, m22: FLOAT_ONE_BITS, m23: FLOAT_ZERO_BITS, m24: FLOAT_ZERO_BITS,
        m31: FLOAT_ZERO_BITS, m32: FLOAT_ZERO_BITS, m33: FLOAT_ONE_BITS, m34: FLOAT_ZERO_BITS,
        m41: FLOAT_ZERO_BITS, m42: FLOAT_ZERO_BITS, m43: FLOAT_ZERO_BITS, m44: FLOAT_ONE_BITS,
    }
}

/// Width and height of a pixel region.
#[derive(Clone, Copy, PartialEq, Eq, Structural, Debug)]
pub struct Size2D {
    pub width: usize,
    pub height: usize,
}

impl Size2D {
    pub fn new(width: usize, height: usize) -> (r: Size2D)
        ensures
            r.width == width,
            r.height == height,
    {
        Size2D { width, height }
    }
}

} // verus!
