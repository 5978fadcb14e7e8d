//! Spheres and ray/sphere intersection.
//!
//! A sphere with integer center and radius meets the ray where
//! `|origin + t*direction - center|^2 = radius^2`, a quadratic in `t` with
//! integer coefficients.  The trace reports the root
//! `(-b - isqrt(disc)) / a` if it lies inside the open window, else the
//! far root, else nothing — with `isqrt` the integer (floor) square root,
//! so the reported parameter is exact whenever the discriminant is a
//! perfect square and a slightly-inside approximation otherwise.  Both
//! candidate parameters always lie inside the closed ball, which is what
//! the traversal's pruning argument needs.

use vstd::prelude::*;

use crate::aabb::AABB;
use crate::ray::{ray_at_axis, Ray, PARAM_LIMIT};
use crate::scalar::{rlt, Point3, Rat, Scalar};
use crate::vec3::{dot, lemma_dot_bounded, Vec3, COORD_LIMIT};

verus! {

/// Reference to a material owned by the caller's material store; the
/// renderer core only carries it from the hit object to the shader.
#[derive(Clone, Copy, PartialEq, Eq, Structural, Debug)]
pub struct MaterialHandle(pub usize);

/// Everything known about the nearest intersection found along a ray.
#[derive(Clone, Copy, PartialEq, Eq, Structural, Debug)]
pub struct HitRecord {
    /// Ray parameter of the hit.
    pub t: Scalar,
    /// The point reached at `t`.
    pub point: Point3,
    /// Direction from the sphere's center to the hit point, divided by
    /// the radius (unit length exactly when the hit lies on the sphere).
    pub normal: Point3,
    /// Material of the hit object.
    pub material: MaterialHandle,
}

impl HitRecord {
    /// Parameter within range for further exact evaluation.
    pub open spec fn wf(self) -> bool {
        &&& self.t.wf()
        &&& 0 < self.t.den <= PARAM_LIMIT
        &&& -PARAM_LIMIT <= self.t.num <= PARAM_LIMIT
        &&& self.point.wf()
        &&& self.normal.wf()
    }
}

#[derive(Clone, Copy, PartialEq, Eq, Structural, Debug)]
pub struct Sphere {
    pub center: Vec3,
    pub radius: i64,
    pub material: MaterialHandle,
}

/// Quadratic coefficient `a = direction . direction`.
pub open spec fn sph_a(ray: Ray) -> int {
    dot(ray.direction, ray.direction)
}

/// Half-form linear coefficient `b = (origin - center) . direction`.
pub open spec fn sph_b(s: Sphere, ray: Ray) -> int {
    (ray.origin.x - s.center.x) * ray.direction.x + (ray.origin.y - s.center.y) * ray.direction.y
        + (ray.origin.z - s.center.z) * ray.direction.z
}

/// Constant coefficient `c = |origin - center|^2 - radius^2`.
pub open spec fn sph_c(s: Sphere, ray: Ray) -> int {
    (ray.origin.x - s.center.x) * (ray.origin.x - s.center.x) + (ray.origin.y - s.center.y) * (
    ray.origin.y - s.center.y) + (ray.origin.z - s.center.z) * (ray.origin.z - s.center.z)
        - s.radius * s.radius
}

/// Discriminant of the half-form quadratic.
pub open spec fn sph_disc(s: Sphere, ray: Ray) -> int {
    sph_b(s, ray) * sph_b(s, ray) - sph_a(ray) * sph_c(s, ray)
}

/// `s` is the integer (floor) square root of `n`.
pub open spec fn is_isqrt(n: int, s: int) -> bool {
    0 <= s && s * s <= n && n < (s + 1) * (s + 1)
}

/// The integer square root of a nonnegative integer.
pub open spec fn isqrt(n: int) -> int {
    choose|s: int| is_isqrt(n, s)
}

/// Near root of the quadratic (floor-rounded via `isqrt`).
pub open spec fn root_near(s: Sphere, ray: Ray) -> Rat {
    Rat { num: -sph_b(s, ray) - isqrt(sph_disc(s, ray)), den: sph_a(ray) }
}

/// Far root of the quadratic (floor-rounded via `isqrt`).
pub open spec fn root_far(s: Sphere, ray: Ray) -> Rat {
    Rat { num: -sph_b(s, ray) + isqrt(sph_disc(s, ray)), den: sph_a(ray) }
}

/// The parameter the sphere trace reports inside the open window
/// `(tmin, tmax)`: the near root if it qualifies, else the far root.
pub open spec fn sphere_hit_t(s: Sphere, ray: Ray, tmin: Rat, tmax: Rat) -> Option<Rat> {
    if sph_disc(s, ray) > 0 {
        if rlt(tmin, root_near(s, ray)) && rlt(root_near(s, ray), tmax) {
            Some(root_near(s, ray))
        } else if rlt(tmin, root_far(s, ray)) && rlt(root_far(s, ray), tmax) {
            Some(root_far(s, ray))
        } else {
            None
        }
    } else {
        None
    }
}

/// The record a trace at parameter `t` on sphere `s` must carry.
pub open spec fn hit_for(s: Sphere, ray: Ray, t: Rat, rec: HitRecord) -> bool {
    &&& rec.t@ == t
    &&& rec.point.x@ == ray_at_axis(ray.origin.x as int, ray.direction.x as int, t)
    &&& rec.point.y@ == ray_at_axis(ray.origin.y as int, ray.direction.y as int, t)
    &&& rec.point.z@ == ray_at_axis(ray.origin.z as int, ray.direction.z as int, t)
    &&& rec.normal.x@ == (Rat {
        num: (ray.origin.x - s.center.x) * t.den + ray.direction.x * t.num,
        den: s.radius * t.den,
    })
    &&& rec.normal.y@ == (Rat {
        num: (ray.origin.y - s.center.y) * t.den + ray.direction.y * t.num,
        den: s.radius * t.den,
    })
    &&& rec.normal.z@ == (Rat {
        num: (ray.origin.z - s.center.z) * t.den + ray.direction.z * t.num,
        den: s.radius * t.den,
    })
    &&& rec.material == s.material
}

/// The tight axis-aligned box around a sphere.
pub open spec fn sphere_box(s: Sphere) -> AABB {
    AABB {
        min: Vec3 {
            x: (s.center.x - s.radius) as i64,
            y: (s.center.y - s.radius) as i64,
            z: (s.center.z - s.radius) as i64,
        },
        max: Vec3 {
            x: (s.center.x + s.radius) as i64,
            y: (s.center.y + s.radius) as i64,
            z: (s.center.z + s.radius) as i64,
        },
    }
}

impl Sphere {
    /// Coordinates and radius in range, radius positive.
    pub open spec fn wf(self) -> bool {
        self.center.bounded(COORD_LIMIT as int) && 1 <= self.radius <= COORD_LIMIT
    }

    /// Builds a sphere.
    pub fn new(center: Vec3, radius: i64, material: MaterialHandle) -> (r: Sphere)
        requires
            center.bounded(COORD_LIMIT as int),
            1 <= radius <= COORD_LIMIT,
        ensures
            r == (Sphere { center, radius, material }),
            r.wf(),
    {
        Sphere { center, radius, material }
    }

    /// The sphere's bounding box.
    pub fn bounding_box(&self) -> (r: AABB)
        requires
            self.wf(),
        ensures
            r == sphere_box(*self),
            r.wf(),
    {
        AABB::new(
            self.center.sub(Vec3::fill(self.radius)),
            self.center.add(Vec3::fill(self.radius)),
        )
    }

    /// Builds the hit record for parameter `t`.
    fn record(&self, t: Scalar, ray: &Ray) -> (r: HitRecord)
        requires
            self.wf(),
            ray.wf(),
            t.wf(),
            0 < t.den <= PARAM_LIMIT,
            -PARAM_LIMIT <= t.num <= PARAM_LIMIT,
        ensures
            hit_for(*self, *ray, t@, r),
            r.wf(),
    {
        let point = ray.point(t);
        proof {
            lemma_normal_products_bounded(*self, *ray, t);
        }
        let normal = Point3 {
            x: Scalar {
                num: ((ray.origin.x - self.center.x) as i128) * t.den + (ray.direction.x as i128)
                    * t.num,
                den: (self.radius as i128) * t.den,
            },
            y: Scalar {
                num: ((ray.origin.y - self.center.y) as i128) * t.den + (ray.direction.y as i128)
                    * t.num,
                den: (self.radius as i128) * t.den,
            },
            z: Scalar {
                num: ((ray.origin.z - self.center.z) as i128) * t.den + (ray.direction.z as i128)
                    * t.num,
                den: (self.radius as i128) * t.den,
            },
        };
        HitRecord { t, point, normal, material: self.material }
    }

    /// Traces the ray against this sphere over the open window
    /// `(min_t, max_t)`.
    pub fn trace(&self, ray: &Ray, min_t: Scalar, max_t: Scalar) -> (res: Option<HitRecord>)
        requires
            self.wf(),
            ray.wf(),
            min_t.wf(),
            max_t.wf(),
        ensures
            match res {
                Some(rec) => sphere_hit_t(*self, *ray, min_t@, max_t@) == Some(rec.t@) && hit_for(
                    *self,
                    *ray,
                    rec.t@,
                    rec,
                ) && rec.wf(),
                None => sphere_hit_t(*self, *ray, min_t@, max_t@) is None,
            },
    {
        let oc = ray.origin.sub(self.center);
        let a = Vec3::dot(ray.direction, ray.direction);
        let b = Vec3::dot(oc, ray.direction);
        proof {
            lemma_direction_dot_positive(ray.direction);
            lemma_dot_bounded(oc, ray.direction);
            lemma_dot_bounded(oc, oc);
            assert(1 <= self.radius * self.radius <= 0x1_0000_0000) by (nonlinear_arith)
                requires
                    1 <= self.radius <= 65536,
            ;
        }
        let c = oc.length_sqr() - self.radius * self.radius;
        proof {
            lemma_coefficients_bounded(a as int, b as int, c as int);
        }
        let disc: i128 = (b as i128) * (b as i128) - (a as i128) * (c as i128);
        if disc > 0 {
            let sq = isqrt_i128(disc);
            proof {
                lemma_isqrt_bounded(disc as int, sq as int);
            }
            let t1 = Scalar { num: -(b as i128) - sq, den: a as i128 };
            proof {
                lemma_isqrt_determines(disc as int, sq as int);
                assert(t1@ == root_near(*self, *ray));
            }
            if min_t.lt(&t1) && t1.lt(&max_t) {
                return Some(self.record(t1, ray));
            }
            let t2 = Scalar { num: -(b as i128) + sq, den: a as i128 };
            proof {
                assert(t2@ == root_far(*self, *ray));
            }
            if min_t.lt(&t2) && t2.lt(&max_t) {
                return Some(self.record(t2, ray));
            }
            None
        } else {
            None
        }
    }
}

/// Integer (floor) square root by bisection.
pub fn isqrt_i128(n: i128) -> (r: i128)
    requires
        0 <= n < 0x1_0000_0000_0000_0000_0000,
    ensures
        is_isqrt(n as int, r as int),
        0 <= r < 0x100_0000_0000,
{
    let mut lo: i128 = 0;
    let mut hi: i128 = 0x100_0000_0000;
    proof {
        assert(0x100_0000_0000i128 * 0x100_0000_0000i128 == 0x1_0000_0000_0000_0000_0000i128)
            by (nonlinear_arith);
    }
    while lo + 1 < hi
        invariant
            0 <= lo < hi <= 0x100_0000_0000,
            lo * lo <= n,
            n < hi * hi,
        decreases hi - lo,
    {
        let mid = lo + (hi - lo) / 2;
        assert(lo < mid < hi);
        proof {
            lemma_square_bounded(mid as int);
        }
        if mid * mid <= n {
            lo = mid;
        } else {
            hi = mid;
        }
    }
    proof {
        assert(hi == lo + 1);
    }
    lo
}

/// Every nonnegative integer has a floor square root, so `isqrt` denotes
/// one.
pub proof fn lemma_isqrt_exists(n: int)
    requires
        n >= 0,
    ensures
        is_isqrt(n, isqrt(n)),
    decreases n,
{
    if n == 0 {
        assert(is_isqrt(0, 0));
    } else {
        lemma_isqrt_exists(n - 1);
        let s = isqrt(n - 1);
        if (s + 1) * (s + 1) <= n {
            assert(is_isqrt(n, s + 1)) by (nonlinear_arith)
                requires
                    is_isqrt(n - 1, s),
                    (s + 1) * (s + 1) <= n,
            ;
        } else {
            assert(is_isqrt(n, s));
        }
    }
    assert(exists|q: int| is_isqrt(n, q));
}

/// The floor square root is unique, so the executable result pins down
/// the specification value.
pub proof fn lemma_isqrt_determines(n: int, s: int)
    requires
        is_isqrt(n, s),
    ensures
        isqrt(n) == s,
{
    assert(exists|q: int| is_isqrt(n, q));
    let q = isqrt(n);
    lemma_isqrt_unique(n, q, s);
}

/// Two floor square roots of the same number are equal.
proof fn lemma_isqrt_unique(n: int, s1: int, s2: int)
    by (nonlinear_arith)
    requires
        is_isqrt(n, s1),
        is_isqrt(n, s2),
    ensures
        s1 == s2,
{
}

/// Squares of bisection midpoints stay in `i128` range.
proof fn lemma_square_bounded(m: int)
    by (nonlinear_arith)
    requires
        0 <= m <= 0x100_0000_0000,
    ensures
        0 <= m * m <= 0x1_0000_0000_0000_0000_0000,
{
}

/// A nonzero integer direction has a positive squared length.
pub proof fn lemma_direction_dot_positive(d: Vec3)
    by (nonlinear_arith)
    requires
        !(d.x == 0 && d.y == 0 && d.z == 0),
        d.bounded(COORD_LIMIT as int),
    ensures
        1 <= dot(d, d) <= 0xC_0000_0000,
{
}

/// The quadratic's discriminant terms stay far inside `i128`.
proof fn lemma_coefficients_bounded(a: int, b: int, c: int)
    by (nonlinear_arith)
    requires
        -0xC_0000_0000 <= a <= 0xC_0000_0000,
        -0x31_0000_0000 <= b <= 0x31_0000_0000,
        -0x31_0000_0000 <= c <= 0x31_0000_0000,
    ensures
        0 <= b * b <= 0xA00_0000_0000_0000_0000,
        -0x300_0000_0000_0000_0000 <= a * c <= 0x300_0000_0000_0000_0000,
{
}

/// The floor square root of a bounded discriminant is bounded.
proof fn lemma_isqrt_bounded(n: int, s: int)
    by (nonlinear_arith)
    requires
        is_isqrt(n, s),
        n <= 0xD00_0000_0000_0000_0000,
    ensures
        0 <= s <= 0x40_0000_0000,
{
}

/// The normal's numerators and denominator stay inside the scalar limit.
proof fn lemma_normal_products_bounded(s: Sphere, ray: Ray, t: Scalar)
    by (nonlinear_arith)
    requires
        s.wf(),
        ray.wf(),
        t.wf(),
        0 < t.den <= PARAM_LIMIT,
        -PARAM_LIMIT <= t.num <= PARAM_LIMIT,
    ensures
        -0x200_0000_0000_0000 <= ((ray.origin.x - s.center.x) as int) * t.den
            <= 0x200_0000_0000_0000,
        -0x200_0000_0000_0000 <= ((ray.origin.y - s.center.y) as int) * t.den
            <= 0x200_0000_0000_0000,
        -0x200_0000_0000_0000 <= ((ray.origin.z - s.center.z) as int) * t.den
            <= 0x200_0000_0000_0000,
        -0x200_0000_0000_0000 <= (ray.direction.x as int) * t.num <= 0x200_0000_0000_0000,
        -0x200_0000_0000_0000 <= (ray.direction.y as int) * t.num <= 0x200_0000_0000_0000,
        -0x200_0000_0000_0000 <= (ray.direction.z as int) * t.num <= 0x200_0000_0000_0000,
        0 < (s.radius as int) * t.den <= 0x200_0000_0000_0000,
{
}

} // verus!
