//! Small integer vector types used for positions in every "space" of the engine.
use vstd::prelude::*;

verus! {

/// A two-dimensional integer vector.
#[derive(Copy, Clone, Debug, PartialEq, Eq, Hash, Structural)]
pub struct IVec2 {
    pub x: i32,
    pub y: i32,
}

/// A three-dimensional integer vector.
#[derive(Copy, Clone, Debug, PartialEq, Eq, Hash, Structural)]
pub struct IVec3 {
    pub x: i32,
    pub y: i32,
    pub z: i32,
}

/// A four-dimensional integer vector.
#[derive(Copy, Clone, Debug, PartialEq, Eq, Hash, Structural)]
pub struct IVec4 {
    pub x: i32,
    pub y: i32,
    pub z: i32,
    pub w: i32,
}

/// A three-dimensional unsigned integer vector.
#[derive(Copy, Clone, Debug, PartialEq, Eq, Hash, Structural)]
pub struct UVec3 {
    pub x: u32,
    pub y: u32,
    pub z: u32,
}

/// A two-dimensional unsigned integer vector.
#[derive(Copy, Clone, Debug, PartialEq, Eq, Hash, Structural)]
pub struct UVec2 {
    pub x: u32,
    pub y: u32,
}

/// Build an [`IVec2`].
pub fn ivec2(x: i32, y: i32) -> (r: IVec2)
    ensures
        r == (IVec2 { x, y }),
{
    IVec2 { x, y }
}

/// Build an [`IVec3`].
pub fn ivec3(x: i32, y: i32, z: i32) -> (r: IVec3)
    ensures
        r == (IVec3 { x, y, z }),
{
    IVec3 { x, y, z }
}

/// Build an [`IVec4`].
pub fn ivec4(x: i32, y: i32, z: i32, w: i32) -> (r: IVec4)
    ensures
        r == (IVec4 { x, y, z, w }),
{
    IVec4 { x, y, z, w }
}

/// Build a [`UVec3`].
pub fn uvec3(x: u32, y: u32, z: u32) -> (r: UVec3)
    ensures
        r == (UVec3 { x, y, z }),
{
    UVec3 { x, y, z }
}

/// Build a [`UVec2`].
pub fn uvec2(x: u32, y: u32) -> (r: UVec2)
    ensures
        r == (UVec2 { x, y }),
{
    UVec2 { x, y }
}

impl IVec3 {
    /// The component of this vector along the given axis (0 = x, 1 = y, 2 = z).
    pub open spec fn spec_axis(self, axis: int) -> i32 {
        if axis == 0 {
            self.x
        } else if axis == 1 {
            self.y
        } else {
            self.z
        }
    }

    /// The vector with every component set to `v`.
    pub fn splat(v: i32) -> (r: IVec3)
        ensures
            r == (IVec3 { x: v, y: v, z: v }),
    {
        IVec3 { x: v, y: v, z: v }
    }

    /// The zero vector.
    pub fn zero() -> (r: IVec3)
        ensures
            r == (IVec3 { x: 0, y: 0, z: 0 }),
    {
        IVec3 { x: 0, y: 0, z: 0 }
    }

    /// Component-wise sum; every sum must fit in an `i32`.
    pub fn add(self, o: IVec3) -> (r: IVec3)
        requires
            i32::MIN <= self.x + o.x <= i32::MAX,
            i32::MIN <= self.y + o.y <= i32::MAX,
            i32::MIN <= self.z + o.z <= i32::MAX,
        ensures
            r.x == self.x + o.x,
            r.y == self.y + o.y,
            r.z == self.z + o.z,
    {
        IVec3 { x: self.x + o.x, y: self.y + o.y, z: self.z + o.z }
    }

    /// Component-wise product with a scalar; every product must fit in an `i32`.
    pub fn scale(self, k: i32) -> (r: IVec3)
        requires
            i32::MIN <= self.x * k <= i32::MAX,
            i32::MIN <= self.y * k <= i32::MAX,
            i32::MIN <= self.z * k <= i32::MAX,
        ensures
            r.x == self.x * k,
            r.y == self.y * k,
            r.z == self.z * k,
    {
        IVec3 { x: self.x * k, y: self.y * k, z: self.z * k }
    }

    /// `true` if every component lies in `min..max` (upper bound exclusive).
    pub open spec fn spec_within(self, min: IVec3, max: IVec3) -> bool {
        &&& min.x <= self.x < max.x
        &&& min.y <= self.y < max.y
        &&& min.z <= self.z < max.z
    }

    /// `true` if every component lies in `min..=max`.
    pub open spec fn spec_within_inclusive(self, min: IVec3, max: IVec3) -> bool {
        &&& min.x <= self.x <= max.x
        &&& min.y <= self.y <= max.y
        &&& min.z <= self.z <= max.z
    }

    /// Component-wise minimum.
    pub fn min(self, o: IVec3) -> (r: IVec3)
        ensures
            r.x == (if self.x <= o.x { self.x } else { o.x }),
            r.y == (if self.y <= o.y { self.y } else { o.y }),
            r.z == (if self.z <= o.z { self.z } else { o.z }),
    {
        IVec3 {
            x: if self.x <= o.x { self.x } else { o.x },
            y: if self.y <= o.y { self.y } else { o.y },
            z: if self.z <= o.z { self.z } else { o.z },
        }
    }

    /// Component-wise maximum.
    pub fn max(self, o: IVec3) -> (r: IVec3)
        ensures
            r.x == (if self.x >= o.x { self.x } else { o.x }),
            r.y == (if self.y >= o.y { self.y } else { o.y }),
            r.z == (if self.z >= o.z { self.z } else { o.z }),
    {
        IVec3 {
            x: if self.x >= o.x { self.x } else { o.x },
            y: if self.y >= o.y { self.y } else { o.y },
            z: if self.z >= o.z { self.z } else { o.z },
        }
    }
}

impl IVec2 {
    /// The vector with every component set to `v`.
    pub fn splat(v: i32) -> (r: IVec2)
        ensures
            r == (IVec2 { x: v, y: v }),
    {
        IVec2 { x: v, y: v }
    }

    /// Component-wise minimum.
    pub fn min(self, o: IVec2) -> (r: IVec2)
        ensures
            r.x == (if self.x <= o.x { self.x } else { o.x }),
            r.y == (if self.y <= o.y { self.y } else { o.y }),
    {
        IVec2 { x: if self.x <= o.x { self.x } else { o.x }, y: if self.y <= o.y { self.y } else { o.y } }
    }

    /// Component-wise maximum.
    pub fn max(self, o: IVec2) -> (r: IVec2)
        ensures
            r.x == (if self.x >= o.x { self.x } else { o.x }),
            r.y == (if self.y >= o.y { self.y } else { o.y }),
    {
        IVec2 { x: if self.x >= o.x { self.x } else { o.x }, y: if self.y >= o.y { self.y } else { o.y } }
    }
}

} // verus!
