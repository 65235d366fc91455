//! The bounds-checked 3D vector used for positions and extents, and the
//! arithmetic that maps coordinates to linear storage positions.

use vstd::arithmetic::div_mod::*;
use vstd::prelude::*;

use crate::error::Error;

verus! {

/// Luanti's maximum map size is 62013 x 62013 x 62013, from -31006 to 31006
/// (inclusive), while the schematic file format stores each dimension as an
/// unsigned 16-bit integer.
pub const MAX_MAP_DIMENSION: u16 = 62013;

/// A map-aware, three-dimensional vector.
///
/// "Map-aware" as its constructor checks the components against the maximum
/// map/schematic size of Luanti (see [`MAX_MAP_DIMENSION`]). It serves both
/// as an absolute position and as an extent.
#[derive(Debug, Copy, Clone, PartialEq, Eq, Structural)]
pub struct MapVector {
    pub x: u16,
    pub y: u16,
    pub z: u16,
}

impl MapVector {
    /// Every component is strictly below the maximum map dimension.
    pub open spec fn in_bounds(self) -> bool {
        self.x < MAX_MAP_DIMENSION && self.y < MAX_MAP_DIMENSION && self.z < MAX_MAP_DIMENSION
    }

    /// Number of cells in a box of this extent.
    pub open spec fn spec_volume(self) -> int {
        self.x * self.y * self.z
    }

    /// Componentwise sum, if it stays within the map bound.
    pub open spec fn spec_checked_add(self, other: MapVector) -> Option<MapVector> {
        if self.x + other.x < MAX_MAP_DIMENSION && self.y + other.y < MAX_MAP_DIMENSION
            && self.z + other.z < MAX_MAP_DIMENSION {
            Some(
                MapVector {
                    x: (self.x + other.x) as u16,
                    y: (self.y + other.y) as u16,
                    z: (self.z + other.z) as u16,
                },
            )
        } else {
            None
        }
    }

    /// True when `c` addresses a cell of a box of extent `self`.
    pub open spec fn spec_contains(self, c: MapVector) -> bool {
        c.x < self.x && c.y < self.y && c.z < self.z
    }

    /// Linear position of cell `(x, y, z)` in storage order: X varies
    /// fastest, then Y, with Z slowest, exactly as the wire format lays the
    /// cell arrays out.
    pub open spec fn spec_index_of(self, x: int, y: int, z: int) -> int {
        x + self.x * (y + self.y * z)
    }

    /// X coordinate of the cell at linear position `k`.
    pub open spec fn x_of(self, k: int) -> int {
        k % (self.x as int)
    }

    /// Y coordinate of the cell at linear position `k`.
    pub open spec fn y_of(self, k: int) -> int {
        (k / (self.x as int)) % (self.y as int)
    }

    /// Z coordinate of the cell at linear position `k`.
    pub open spec fn z_of(self, k: int) -> int {
        k / (self.x as int * self.y as int)
    }

    pub fn new(x: u16, y: u16, z: u16) -> (r: Result<Self, Error>)
        ensures
            match r {
                Ok(v) => v == (MapVector { x, y, z }) && v.in_bounds(),
                Err(e) => e is OutOfBounds && !(MapVector { x, y, z }).in_bounds(),
            },
    {
        if x >= MAX_MAP_DIMENSION || y >= MAX_MAP_DIMENSION || z >= MAX_MAP_DIMENSION {
            return Err(Error::OutOfBounds);
        }

        Ok(MapVector { x, y, z })
    }

    /// The number of cells a grid of these dimensions holds.
    pub fn volume(&self) -> (r: usize)
        requires
            self.spec_volume() <= usize::MAX,
        ensures
            r == self.spec_volume(),
    {
        proof {
            assert(0 <= (self.x as int) * (self.y as int) <= 0xFFFF * 0xFFFF && 0 <= (
            self.x as int) * (self.y as int) * (self.z as int) <= 0xFFFF * 0xFFFF
                * 0xFFFF) by (nonlinear_arith)
                requires
                    0 <= self.x as int <= 0xFFFF,
                    0 <= self.y as int <= 0xFFFF,
                    0 <= self.z as int <= 0xFFFF,
            ;
        }
        let xy: u64 = (self.x as u64) * (self.y as u64);
        let v: u64 = xy * (self.z as u64);
        v as usize
    }

    /// Componentwise addition that fails (with `None`) instead of wrapping or
    /// exceeding the maximum map dimension.
    pub fn checked_add(&self, other: MapVector) -> (r: Option<Self>)
        ensures
            r == self.spec_checked_add(other),
    {
        let x: u32 = self.x as u32 + other.x as u32;
        let y: u32 = self.y as u32 + other.y as u32;
        let z: u32 = self.z as u32 + other.z as u32;

        if x >= MAX_MAP_DIMENSION as u32 || y >= MAX_MAP_DIMENSION as u32 || z
            >= MAX_MAP_DIMENSION as u32 {
            return None;
        }

        Some(MapVector { x: x as u16, y: y as u16, z: z as u16 })
    }

    /// Converts the `MapVector` into the shape of a row-major 3D array whose
    /// axes are ordered Z, then Y, then X, matching the storage order of a
    /// grid's cells.
    pub fn as_shape(self) -> (r: (usize, usize, usize))
        ensures
            r == (self.z as usize, self.y as usize, self.x as usize),
    {
        (self.z as usize, self.y as usize, self.x as usize)
    }
}

/// Computes the linear storage position of in-range coordinates.
pub(crate) fn index_of_coords(dims: MapVector, c: MapVector) -> (r: usize)
    requires
        dims.spec_contains(c),
        dims.spec_volume() <= usize::MAX,
    ensures
        r == dims.spec_index_of(c.x as int, c.y as int, c.z as int),
        r < dims.spec_volume(),
{
    proof {
        lemma_index_bounds(dims, c.x as int, c.y as int, c.z as int);
        let xs = dims.x as int;
        let ys = dims.y as int;
        let zs = dims.z as int;
        let cx = c.x as int;
        let cy = c.y as int;
        let cz = c.z as int;
        assert(0 <= ys * cz && cy + ys * cz < ys * zs && ys * zs <= xs * ys * zs && 0 <= xs * (cy
            + ys * cz) && xs * (cy + ys * cz) + cx < xs * ys * zs) by (nonlinear_arith)
            requires
                0 <= cx < xs,
                0 <= cy < ys,
                0 <= cz < zs,
        ;
    }
    (c.x as usize) + (dims.x as usize) * ((c.y as usize) + (dims.y as usize) * (c.z as usize))
}

/// Recovers the coordinates of the cell at linear storage position `k`.
pub(crate) fn coords_of_index(dims: MapVector, k: usize) -> (r: MapVector)
    requires
        k < dims.spec_volume(),
        dims.spec_volume() <= usize::MAX,
    ensures
        r.x == dims.x_of(k as int),
        r.y == dims.y_of(k as int),
        r.z == dims.z_of(k as int),
        dims.spec_contains(r),
        dims.spec_index_of(r.x as int, r.y as int, r.z as int) == k as int,
{
    proof {
        lemma_index_of_coords_of(dims, k as int);
        assert((dims.x as int) * (dims.y as int) <= (dims.x as int) * (dims.y as int) * (
        dims.z as int) && 0 < (dims.x as int) * (dims.y as int)) by (nonlinear_arith)
            requires
                0 < dims.x as int,
                0 < dims.y as int,
                0 < dims.z as int,
        ;
    }
    let xs = dims.x as usize;
    let ys = dims.y as usize;
    let x = k % xs;
    let y = (k / xs) % ys;
    let z = k / (xs * ys);
    MapVector { x: x as u16, y: y as u16, z: z as u16 }
}

/// The linear position of an in-range cell lies within the volume.
pub proof fn lemma_index_bounds(dims: MapVector, x: int, y: int, z: int)
    requires
        0 <= x < dims.x,
        0 <= y < dims.y,
        0 <= z < dims.z,
    ensures
        0 <= dims.spec_index_of(x, y, z) < dims.spec_volume(),
{
    let xs = dims.x as int;
    let ys = dims.y as int;
    let zs = dims.z as int;
    assert(0 <= x + xs * (y + ys * z) < xs * ys * zs) by (nonlinear_arith)
        requires
            0 <= x < xs,
            0 <= y < ys,
            0 <= z < zs,
    ;
}

/// Linear position and coordinates invert each other: recovering the
/// coordinates of `spec_index_of(x, y, z)` yields `(x, y, z)` again.
pub proof fn lemma_coords_of_index_of(dims: MapVector, x: int, y: int, z: int)
    requires
        0 <= x < dims.x,
        0 <= y < dims.y,
        0 <= z < dims.z,
    ensures
        dims.x_of(dims.spec_index_of(x, y, z)) == x,
        dims.y_of(dims.spec_index_of(x, y, z)) == y,
        dims.z_of(dims.spec_index_of(x, y, z)) == z,
{
    let xs = dims.x as int;
    let ys = dims.y as int;
    let k = dims.spec_index_of(x, y, z);
    lemma_fundamental_div_mod_converse(k, xs, y + ys * z, x);
    assert(y + ys * z == z * ys + y) by (nonlinear_arith);
    lemma_fundamental_div_mod_converse(y + ys * z, ys, z, y);
    assert(k == z * (xs * ys) + (x + xs * y) && 0 <= x + xs * y < xs * ys) by (nonlinear_arith)
        requires
            0 <= x < xs,
            0 <= y < ys,
            k == x + xs * (y + ys * z),
    ;
    lemma_fundamental_div_mod_converse(k, xs * ys, z, x + xs * y);
}

/// Every linear position below the volume comes from in-range coordinates:
/// the recovered coordinates are in range and map back to the position.
pub proof fn lemma_index_of_coords_of(dims: MapVector, k: int)
    requires
        0 <= k < dims.spec_volume(),
    ensures
        0 <= dims.x_of(k) < dims.x,
        0 <= dims.y_of(k) < dims.y,
        0 <= dims.z_of(k) < dims.z,
        dims.spec_index_of(dims.x_of(k), dims.y_of(k), dims.z_of(k)) == k,
{
    let xs = dims.x as int;
    let ys = dims.y as int;
    let zs = dims.z as int;
    assert(xs > 0 && ys > 0 && zs > 0) by (nonlinear_arith)
        requires
            0 <= k < xs * ys * zs,
            0 <= xs,
            0 <= ys,
            0 <= zs,
    ;
    lemma_mod_bound(k, xs);
    lemma_fundamental_div_mod(k, xs);
    lemma_mod_bound(k / xs, ys);
    lemma_fundamental_div_mod(k / xs, ys);
    lemma_div_denominator(k, xs, ys);
    // z_of(k) == (k / xs) / ys
    assert(dims.z_of(k) == (k / xs) / ys);
    // bound on the quotient: k < xs * (ys * zs) gives k / xs < ys * zs
    lemma_div_is_ordered(k, xs * ys * zs - 1, xs);
    assert((xs * ys * zs - 1) / xs == ys * zs - 1) by {
        assert(xs * ys * zs - 1 == (ys * zs - 1) * xs + (xs - 1)) by (nonlinear_arith);
        lemma_fundamental_div_mod_converse(xs * ys * zs - 1, xs, ys * zs - 1, xs - 1);
    }
    lemma_div_pos_is_pos(k, xs);
    lemma_div_is_ordered(k / xs, ys * zs - 1, ys);
    assert((ys * zs - 1) / ys == zs - 1) by {
        assert(ys * zs - 1 == (zs - 1) * ys + (ys - 1)) by (nonlinear_arith);
        lemma_fundamental_div_mod_converse(ys * zs - 1, ys, zs - 1, ys - 1);
    }
    lemma_div_pos_is_pos(k / xs, ys);
    assert(dims.z_of(k) <= zs - 1);
    assert(dims.z_of(k) >= 0);
    assert(dims.spec_index_of(dims.x_of(k), dims.y_of(k), dims.z_of(k)) == k) by (nonlinear_arith)
        requires
            k == xs * (k / xs) + k % xs,
            k / xs == ys * ((k / xs) / ys) + (k / xs) % ys,
            dims.x_of(k) == k % xs,
            dims.y_of(k) == (k / xs) % ys,
            dims.z_of(k) == (k / xs) / ys,
            dims.spec_index_of(dims.x_of(k), dims.y_of(k), dims.z_of(k)) == dims.x_of(k) + xs * (
            dims.y_of(k) + ys * dims.z_of(k)),
    ;
}

} // verus!
