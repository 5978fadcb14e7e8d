//! Integer 3-component vectors.
//!
//! Scene geometry lives on an integer lattice: positions, directions and
//! radii are whole numbers of world units (callers pick the unit scale).
//! This keeps every derived quantity — dot products, bounding boxes, slab
//! intervals, sphere discriminants — exactly representable.

use vstd::prelude::*;

verus! {

/// Magnitude limit for scene coordinates (sphere centers, radii, ray
/// origins and directions).  Chosen so that sphere discriminants and the
/// rational ray parameters built from them stay far inside
/// [`crate::scalar::SCALAR_LIMIT`].
pub const COORD_LIMIT: i64 = 65536;

/// Magnitude limit for bounding-box coordinates: a sphere's box reaches
/// `center +- radius`, at most twice [`COORD_LIMIT`].
pub const BOX_LIMIT: i64 = 131072;

/// Three integer components; used for points and directions.
#[derive(Clone, Copy, PartialEq, Eq, Structural, Debug)]
pub struct Vec3 {
    pub x: i64,
    pub y: i64,
    pub z: i64,
}

/// Dot product as an unbounded integer.
pub open spec fn dot(a: Vec3, b: Vec3) -> int {
    a.x * b.x + a.y * b.y + a.z * b.z
}

/// The smaller of two integers.
pub open spec fn imin(a: int, b: int) -> int {
    if a <= b {
        a
    } else {
        b
    }
}

/// The larger of two integers.
pub open spec fn imax(a: int, b: int) -> int {
    if a <= b {
        b
    } else {
        a
    }
}

impl Vec3 {
    /// Every component within `[-m, m]`.
    pub open spec fn bounded(self, m: int) -> bool {
        -m <= self.x <= m && -m <= self.y <= m && -m <= self.z <= m
    }

    /// Builds a vector from its components.
    pub fn new(x: i64, y: i64, z: i64) -> (r: Vec3)
        ensures
            r == (Vec3 { x, y, z }),
    {
        Vec3 { x, y, z }
    }

    /// All three components set to `v`.
    pub fn fill(v: i64) -> (r: Vec3)
        ensures
            r == (Vec3 { x: v, y: v, z: v }),
    {
        Vec3 { x: v, y: v, z: v }
    }

    /// The zero vector.
    pub fn zero() -> (r: Vec3)
        ensures
            r == (Vec3 { x: 0, y: 0, z: 0 }),
    {
        Vec3 { x: 0, y: 0, z: 0 }
    }

    /// Componentwise sum.
    pub fn add(self, other: Vec3) -> (r: Vec3)
        requires
            self.bounded(0x1000_0000_0000_0000),
            other.bounded(0x1000_0000_0000_0000),
        ensures
            r == (Vec3 {
                x: (self.x + other.x) as i64,
                y: (self.y + other.y) as i64,
                z: (self.z + other.z) as i64,
            }),
            r.x == self.x + other.x && r.y == self.y + other.y && r.z == self.z + other.z,
    {
        Vec3 { x: self.x + other.x, y: self.y + other.y, z: self.z + other.z }
    }

    /// Componentwise difference.
    pub fn sub(self, other: Vec3) -> (r: Vec3)
        requires
            self.bounded(0x1000_0000_0000_0000),
            other.bounded(0x1000_0000_0000_0000),
        ensures
            r.x == self.x - other.x && r.y == self.y - other.y && r.z == self.z - other.z,
    {
        Vec3 { x: self.x - other.x, y: self.y - other.y, z: self.z - other.z }
    }

    /// Componentwise minimum.
    pub fn min(a: Vec3, b: Vec3) -> (r: Vec3)
        ensures
            r.x == imin(a.x as int, b.x as int),
            r.y == imin(a.y as int, b.y as int),
            r.z == imin(a.z as int, b.z as int),
    {
        Vec3 {
            x: if a.x <= b.x {
                a.x
            } else {
                b.x
            },
            y: if a.y <= b.y {
                a.y
            } else {
                b.y
            },
            z: if a.z <= b.z {
                a.z
            } else {
                b.z
            },
        }
    }

    /// Componentwise maximum.
    pub fn max(a: Vec3, b: Vec3) -> (r: Vec3)
        ensures
            r.x == imax(a.x as int, b.x as int),
            r.y == imax(a.y as int, b.y as int),
            r.z == imax(a.z as int, b.z as int),
    {
        Vec3 {
            x: if a.x <= b.x {
                b.x
            } else {
                a.x
            },
            y: if a.y <= b.y {
                b.y
            } else {
                a.y
            },
            z: if a.z <= b.z {
                b.z
            } else {
                a.z
            },
        }
    }

    /// Dot product.
    pub fn dot(a: Vec3, b: Vec3) -> (r: i64)
        requires
            a.bounded(4 * COORD_LIMIT),
            b.bounded(4 * COORD_LIMIT),
        ensures
            r == dot(a, b),
    {
        proof {
            lemma_dot_bounded(a, b);
            lemma_products_bounded(a, b);
        }
        a.x * b.x + a.y * b.y + a.z * b.z
    }

    /// Squared Euclidean length.
    pub fn length_sqr(self) -> (r: i64)
        requires
            self.bounded(4 * COORD_LIMIT),
        ensures
            r == dot(self, self),
    {
        Vec3::dot(self, self)
    }

    /// Cross product.
    pub fn cross(a: Vec3, b: Vec3) -> (r: Vec3)
        requires
            a.bounded(4 * COORD_LIMIT),
            b.bounded(4 * COORD_LIMIT),
        ensures
            r.x == a.y * b.z - a.z * b.y,
            r.y == a.z * b.x - a.x * b.z,
            r.z == a.x * b.y - a.y * b.x,
    {
        proof {
            lemma_products_bounded(a, b);
        }
        Vec3 {
            x: a.y * b.z - a.z * b.y,
            y: a.z * b.x - a.x * b.z,
            z: a.x * b.y - a.y * b.x,
        }
    }
}

/// The dot product of vectors bounded by `4 * COORD_LIMIT` is bounded by
/// `3 * (4 * COORD_LIMIT)^2`.
pub proof fn lemma_dot_bounded(a: Vec3, b: Vec3)
    by (nonlinear_arith)
    requires
        a.bounded(262144),
        b.bounded(262144),
    ensures
        -0x30_0000_0000 <= dot(a, b) <= 0x30_0000_0000,
{
}

/// Componentwise products of vectors bounded by `4 * COORD_LIMIT` are
/// bounded by `(4 * COORD_LIMIT)^2`.
proof fn lemma_products_bounded(a: Vec3, b: Vec3)
    by (nonlinear_arith)
    requires
        a.bounded(262144),
        b.bounded(262144),
    ensures
        -0x10_0000_0000 <= a.x * b.x <= 0x10_0000_0000,
        -0x10_0000_0000 <= a.y * b.y <= 0x10_0000_0000,
        -0x10_0000_0000 <= a.z * b.z <= 0x10_0000_0000,
        -0x10_0000_0000 <= a.y * b.z <= 0x10_0000_0000,
        -0x10_0000_0000 <= a.z * b.y <= 0x10_0000_0000,
        -0x10_0000_0000 <= a.z * b.x <= 0x10_0000_0000,
        -0x10_0000_0000 <= a.x * b.z <= 0x10_0000_0000,
        -0x10_0000_0000 <= a.x * b.y <= 0x10_0000_0000,
        -0x10_0000_0000 <= a.y * b.x <= 0x10_0000_0000,
{
}

} // verus!
