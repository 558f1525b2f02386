use vstd::prelude::*;

verus! {

/// A 4x4 matrix of 32-bit floats, held row by row.
#[derive(Debug, Clone, Copy, PartialEq, Eq)]
pub struct Mat4(pub [Mat4Element; 4]);

/// One row of a [`Mat4`]: four 32-bit floats, held as their IEEE 754 bit patterns.
#[derive(Debug, Clone, Copy, PartialEq, Eq)]
pub struct Mat4Element {
    pub x: u32,
    pub y: u32,
    pub z: u32,
    pub w: u32,
}

} // verus!
