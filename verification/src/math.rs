//! Integer vectors for grid positions and sizes.
use vstd::prelude::*;

verus! {

/// A two-dimensional vector of unsigned integers: a size or a position on a
/// grid.
#[derive(Clone, Copy, Debug, PartialEq, Eq, Structural)]
pub struct UVec2 {
    pub x: u32,
    pub y: u32,
}

/// A two-dimensional vector of signed integers: a position or offset on a
/// grid.
#[derive(Clone, Copy, Debug, PartialEq, Eq, Structural)]
pub struct IVec2 {
    pub x: i32,
    pub y: i32,
}

impl UVec2 {
    /// The vector with both components zero.
    pub fn zero() -> (v: UVec2)
        ensures
            v.x == 0 && v.y == 0,
    {
        UVec2 { x: 0, y: 0 }
    }
}

impl IVec2 {
    /// The vector with both components zero.
    pub fn zero() -> (v: IVec2)
        ensures
            v.x == 0 && v.y == 0,
    {
        IVec2 { x: 0, y: 0 }
    }
}

} // verus!
