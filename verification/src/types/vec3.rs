use vstd::prelude::*;

verus! {

/// A 3-dimensional vector of 32-bit floats, held as their IEEE 754 bit patterns, followed by one
/// unused element that pads it to 16 bytes.
#[derive(Debug, Clone, Copy, PartialEq, Eq)]
pub struct Vec3 {
    pub x: u32,
    pub y: u32,
    pub z: u32,
    pub _dummy: u32,
}

} // verus!
