use vstd::prelude::*;

verus! {

/// True when a mathematical integer fits into an `i32`.
pub open spec fn fits_i32(v: int) -> bool {
    i32::MIN <= v <= i32::MAX
}

/// A point of the integer grid, used for chunk-space and voxel-space
/// addressing.
#[derive(Clone, Copy, Debug, PartialEq, Eq, Structural)]
pub struct Pos {
    pub x: i32,
    pub y: i32,
    pub z: i32,
}

impl Pos {
    pub fn new(x: i32, y: i32, z: i32) -> (p: Pos)
        ensures
            p == (Pos { x, y, z }),
    {
        Pos { x, y, z }
    }

    /// Component-wise sum.
    pub fn add(&self, other: &Pos) -> (r: Pos)
        requires
            fits_i32(self.x + other.x),
            fits_i32(self.y + other.y),
            fits_i32(self.z + other.z),
        ensures
            r.x == self.x + other.x,
            r.y == self.y + other.y,
            r.z == self.z + other.z,
    {
        Pos { x: self.x + other.x, y: self.y + other.y, z: self.z + other.z }
    }

    /// Component-wise difference.
    pub fn sub(&self, other: &Pos) -> (r: Pos)
        requires
            fits_i32(self.x - other.x),
            fits_i32(self.y - other.y),
            fits_i32(self.z - other.z),
        ensures
            r.x == self.x - other.x,
            r.y == self.y - other.y,
            r.z == self.z - other.z,
    {
        Pos { x: self.x - other.x, y: self.y - other.y, z: self.z - other.z }
    }

    /// Component-wise flooring division by a positive scalar; in ghost code
    /// `/` on `int` is Euclidean division, which floors when the divisor is
    /// positive.
    pub fn div(&self, d: i32) -> (r: Pos)
        requires
            d > 0,
        ensures
            r.x == self.x as int / d as int,
            r.y == self.y as int / d as int,
            r.z == self.z as int / d as int,
    {
        Pos {
            x: floor_div(self.x, d),
            y: floor_div(self.y, d),
            z: floor_div(self.z, d),
        }
    }
}

/// The unit of the signed 16.16 fixed-point scale that ray marching uses
/// for sub-voxel positions and directions.
pub const FIX_ONE: i64 = 65536;

/// A 3-vector in signed 16.16 fixed-point: each component stores its value
/// scaled by `FIX_ONE`. This carries the fractional positions and directions
/// of rays, which integer grid points cannot.
#[derive(Clone, Copy, Debug, PartialEq, Eq, Structural)]
pub struct Fix3 {
    pub x: i64,
    pub y: i64,
    pub z: i64,
}

/// The magnitude of an integer.
pub open spec fn abs_val(v: int) -> int {
    if v < 0 {
        -v
    } else {
        v
    }
}

/// The L1 (Manhattan) length of a fixed-point vector. Cheap to maintain
/// along a march, at the price of under-bounding Euclidean travel on
/// diagonals.
pub open spec fn l1_norm(d: Fix3) -> int {
    abs_val(d.x as int) + abs_val(d.y as int) + abs_val(d.z as int)
}

/// The magnitude of an `i64`, for operands away from the extreme value.
pub fn abs_i64(v: i64) -> (r: i64)
    requires
        v != i64::MIN,
    ensures
        r == abs_val(v as int),
{
    if v < 0 {
        -v
    } else {
        v
    }
}

/// The integer grid coordinate that a fixed-point component lies in: its
/// value divided by the fixed-point unit, rounded toward minus infinity.
pub fn fix_floor(v: i64) -> (r: i32)
    requires
        -0x7000_0000_0000 <= v <= 0x7000_0000_0000,
    ensures
        r == v as int / FIX_ONE as int,
{
    proof {
        assert(-0x8000_0000 <= v as int / FIX_ONE as int <= 0x7fff_ffff) by (nonlinear_arith)
            requires
                -0x7000_0000_0000 <= v <= 0x7000_0000_0000,
        ;
    }
    let q = v.checked_div_euclid(65536).unwrap();
    q as i32
}

/// Euclidean (flooring, for positive divisors) division on `i32`.
pub fn floor_div(v: i32, d: i32) -> (r: i32)
    requires
        d > 0,
    ensures
        r == v as int / d as int,
{
    proof {
        assert(i32::MIN <= v as int / d as int <= i32::MAX) by (nonlinear_arith)
            requires
                d > 0,
                i32::MIN <= v <= i32::MAX,
        ;
    }
    v.checked_div_euclid(d).unwrap()
}

/// Euclidean remainder on `i32`: the result is in `[0, d)`. For a power of
/// two `d` this coincides with masking by `d - 1`.
pub fn floor_rem(v: i32, d: i32) -> (r: i32)
    requires
        d > 0,
    ensures
        r == v as int % d as int,
        0 <= r < d,
{
    proof {
        assert(0 <= v as int % d as int && (v as int % d as int) < (d as int)) by (nonlinear_arith)
            requires
                d > 0,
        ;
    }
    v.checked_rem_euclid(d).unwrap()
}

} // verus!
