use vstd::prelude::*;

verus! {

/// A vector of three signed integers: a position or an offset on the voxel lattice.
#[derive(Clone, Copy, Debug, PartialEq, Eq, Structural, Hash, PartialOrd, Ord)]
pub struct Vec3i {
    pub x: i32,
    pub y: i32,
    pub z: i32,
}

impl Vec3i {
    /// The vector with the components `x`, `y` and `z`.
    pub fn new(x: i32, y: i32, z: i32) -> (r: Vec3i)
        ensures
            r == (Vec3i { x, y, z }),
    {
        Vec3i { x, y, z }
    }

    /// The vector whose components are all zero.
    pub fn zeros() -> (r: Vec3i)
        ensures
            r == (Vec3i { x: 0, y: 0, z: 0 }),
    {
        Vec3i { x: 0, y: 0, z: 0 }
    }
}

} // verus!
