//! Rays with integer origin and direction.
//!
//! A ray is parametrized as `origin + t * direction` for rational `t`.
//! Directions are not normalized: the integer model keeps one fixed
//! direction per ray, and every intersection along that ray is expressed
//! in the same `t` parametrization, which is all the traversal needs.

use vstd::prelude::*;

use crate::scalar::{Point3, Rat, Scalar};
use crate::vec3::{Vec3, COORD_LIMIT};

verus! {

/// Magnitude limit for the numerator and denominator of ray parameters fed
/// to [`Ray::point`]; sphere-hit parameters stay well inside it.
pub const PARAM_LIMIT: i128 = 0x100_0000_0000;

/// The rational coordinate of `origin + t * direction` along one axis,
/// over the common denominator `t.den`.
pub open spec fn ray_at_axis(o: int, d: int, t: Rat) -> Rat {
    Rat { num: o * t.den + d * t.num, den: t.den }
}

#[derive(Clone, Copy, PartialEq, Eq, Structural, Debug)]
pub struct Ray {
    pub origin: Vec3,
    pub direction: Vec3,
}

impl Ray {
    /// Coordinates in range and a non-null direction.
    pub open spec fn wf(self) -> bool {
        &&& self.origin.bounded(COORD_LIMIT as int)
        &&& self.direction.bounded(COORD_LIMIT as int)
        &&& !(self.direction.x == 0 && self.direction.y == 0 && self.direction.z == 0)
    }

    /// Builds a ray; the direction is taken as given (see module note).
    pub fn new(origin: Vec3, direction: Vec3) -> (r: Ray)
        ensures
            r == (Ray { origin, direction }),
    {
        Ray { origin, direction }
    }

    /// The exact point reached at parameter `t`.
    pub fn point(&self, t: Scalar) -> (r: Point3)
        requires
            self.wf(),
            t.wf(),
            t.den <= PARAM_LIMIT,
            -PARAM_LIMIT <= t.num <= PARAM_LIMIT,
        ensures
            r.wf(),
            r.x@ == ray_at_axis(self.origin.x as int, self.direction.x as int, t@),
            r.y@ == ray_at_axis(self.origin.y as int, self.direction.y as int, t@),
            r.z@ == ray_at_axis(self.origin.z as int, self.direction.z as int, t@),
    {
        proof {
            lemma_point_products_bounded(*self, t);
        }
        Point3 {
            x: Scalar {
                num: (self.origin.x as i128) * t.den + (self.direction.x as i128) * t.num,
                den: t.den,
            },
            y: Scalar {
                num: (self.origin.y as i128) * t.den + (self.direction.y as i128) * t.num,
                den: t.den,
            },
            z: Scalar {
                num: (self.origin.z as i128) * t.den + (self.direction.z as i128) * t.num,
                den: t.den,
            },
        }
    }
}

/// Bounds for the coordinate numerators built in [`Ray::point`].
proof fn lemma_point_products_bounded(ray: Ray, t: Scalar)
    by (nonlinear_arith)
    requires
        ray.wf(),
        t.wf(),
        t.den <= PARAM_LIMIT,
        -PARAM_LIMIT <= t.num <= PARAM_LIMIT,
    ensures
        -(COORD_LIMIT as int) * PARAM_LIMIT <= (ray.origin.x as int) * t.den <= (COORD_LIMIT
            as int) * PARAM_LIMIT,
        -(COORD_LIMIT as int) * PARAM_LIMIT <= (ray.origin.y as int) * t.den <= (COORD_LIMIT
            as int) * PARAM_LIMIT,
        -(COORD_LIMIT as int) * PARAM_LIMIT <= (ray.origin.z as int) * t.den <= (COORD_LIMIT
            as int) * PARAM_LIMIT,
        -(COORD_LIMIT as int) * PARAM_LIMIT <= (ray.direction.x as int) * t.num <= (COORD_LIMIT
            as int) * PARAM_LIMIT,
        -(COORD_LIMIT as int) * PARAM_LIMIT <= (ray.direction.y as int) * t.num <= (COORD_LIMIT
            as int) * PARAM_LIMIT,
        -(COORD_LIMIT as int) * PARAM_LIMIT <= (ray.direction.z as int) * t.num <= (COORD_LIMIT
            as int) * PARAM_LIMIT,
{
}

} // verus!
