//! Axis-aligned bounding boxes and the slab ray/box test.
//!
//! The slab test intersects the per-axis parameter intervals in which the
//! ray's coordinate stays between the box planes with the incoming
//! `[min_t, max_t]` window.  A box is reported hit only when the final
//! window has positive length (strictly `min < max`), mirroring the
//! traversal's open-interval convention.  An axis whose direction
//! component is zero constrains nothing when the origin lies between the
//! planes and rules the box out otherwise — the exact-arithmetic reading
//! of the reciprocal-infinity convention.

use vstd::prelude::*;

use crate::ray::{ray_at_axis, Ray};
use crate::scalar::{rat_int, rat_wf, rle, rlt, rmax, rmin, Point3, Rat, Scalar};
use crate::scalar::{lemma_rle_rlt_trans, lemma_rle_trans, lemma_rlt_rle_trans, lemma_rmax_bounds,
    lemma_rmin_bounds};
use crate::vec3::{imax, imin, Vec3, BOX_LIMIT};

verus! {

#[derive(Clone, Copy, PartialEq, Eq, Structural, Debug)]
pub struct AABB {
    pub min: Vec3,
    pub max: Vec3,
}

/// One axis admits the ray at all: always, except when the ray runs
/// parallel to the slab planes and starts outside them.
pub open spec fn axis_in(bmin: int, bmax: int, o: int, d: int) -> bool {
    d != 0 || (bmin <= o && o <= bmax)
}

/// The entry parameter for one axis, folded into the running lower bound.
pub open spec fn axis_lo(lo: Rat, bmin: int, bmax: int, o: int, d: int) -> Rat {
    if d > 0 {
        rmax(lo, Rat { num: bmin - o, den: d })
    } else if d < 0 {
        rmax(lo, Rat { num: o - bmax, den: -d })
    } else {
        lo
    }
}

/// The exit parameter for one axis, folded into the running upper bound.
pub open spec fn axis_hi(hi: Rat, bmin: int, bmax: int, o: int, d: int) -> Rat {
    if d > 0 {
        rmin(hi, Rat { num: bmax - o, den: d })
    } else if d < 0 {
        rmin(hi, Rat { num: o - bmin, den: -d })
    } else {
        hi
    }
}

/// Lower bound of the slab window after folding all three axes.
pub open spec fn slab_lo(b: AABB, r: Ray, tmin: Rat) -> Rat {
    axis_lo(
        axis_lo(
            axis_lo(tmin, b.min.x as int, b.max.x as int, r.origin.x as int, r.direction.x as int),
            b.min.y as int,
            b.max.y as int,
            r.origin.y as int,
            r.direction.y as int,
        ),
        b.min.z as int,
        b.max.z as int,
        r.origin.z as int,
        r.direction.z as int,
    )
}

/// Upper bound of the slab window after folding all three axes.
pub open spec fn slab_hi(b: AABB, r: Ray, tmax: Rat) -> Rat {
    axis_hi(
        axis_hi(
            axis_hi(tmax, b.min.x as int, b.max.x as int, r.origin.x as int, r.direction.x as int),
            b.min.y as int,
            b.max.y as int,
            r.origin.y as int,
            r.direction.y as int,
        ),
        b.min.z as int,
        b.max.z as int,
        r.origin.z as int,
        r.direction.z as int,
    )
}

/// Every degenerate axis admits the ray.
pub open spec fn slab_axes_ok(b: AABB, r: Ray) -> bool {
    &&& axis_in(b.min.x as int, b.max.x as int, r.origin.x as int, r.direction.x as int)
    &&& axis_in(b.min.y as int, b.max.y as int, r.origin.y as int, r.direction.y as int)
    &&& axis_in(b.min.z as int, b.max.z as int, r.origin.z as int, r.direction.z as int)
}

/// The slab test: the ray meets the box within the open window
/// `(tmin, tmax)`.
pub open spec fn slab_hit(b: AABB, r: Ray, tmin: Rat, tmax: Rat) -> bool {
    slab_axes_ok(b, r) && rlt(slab_lo(b, r, tmin), slab_hi(b, r, tmax))
}

/// The box of the componentwise extremes of two boxes.
pub open spec fn enclosing(a: AABB, b: AABB) -> AABB {
    AABB {
        min: Vec3 {
            x: imin(a.min.x as int, b.min.x as int) as i64,
            y: imin(a.min.y as int, b.min.y as int) as i64,
            z: imin(a.min.z as int, b.min.z as int) as i64,
        },
        max: Vec3 {
            x: imax(a.max.x as int, b.max.x as int) as i64,
            y: imax(a.max.y as int, b.max.y as int) as i64,
            z: imax(a.max.z as int, b.max.z as int) as i64,
        },
    }
}

/// Signed volume of a box; nonnegative for well-formed boxes.
pub open spec fn volume_of(b: AABB) -> int {
    (b.max.x - b.min.x) * (b.max.y - b.min.y) * (b.max.z - b.min.z)
}

/// A rational point lies inside the (closed) box.
pub open spec fn contains_point(b: AABB, p: Point3) -> bool {
    &&& rle(rat_int(b.min.x as int), p.x@) && rle(p.x@, rat_int(b.max.x as int))
    &&& rle(rat_int(b.min.y as int), p.y@) && rle(p.y@, rat_int(b.max.y as int))
    &&& rle(rat_int(b.min.z as int), p.z@) && rle(p.z@, rat_int(b.max.z as int))
}

/// Box `a` lies inside box `b` (componentwise).
pub open spec fn box_inside(a: AABB, b: AABB) -> bool {
    &&& b.min.x <= a.min.x && a.max.x <= b.max.x
    &&& b.min.y <= a.min.y && a.max.y <= b.max.y
    &&& b.min.z <= a.min.z && a.max.z <= b.max.z
}

impl AABB {
    /// Ordered planes, coordinates in range.
    pub open spec fn wf(self) -> bool {
        &&& self.min.x <= self.max.x && self.min.y <= self.max.y && self.min.z <= self.max.z
        &&& self.min.bounded(BOX_LIMIT as int)
        &&& self.max.bounded(BOX_LIMIT as int)
    }

    /// Builds a box from its extreme corners.
    pub fn new(min: Vec3, max: Vec3) -> (r: AABB)
        requires
            min.x <= max.x && min.y <= max.y && min.z <= max.z,
            min.bounded(BOX_LIMIT as int),
            max.bounded(BOX_LIMIT as int),
        ensures
            r == (AABB { min, max }),
            r.wf(),
    {
        AABB { min, max }
    }

    /// Componentwise size of the box.
    pub fn extent(&self) -> (r: Vec3)
        requires
            self.wf(),
        ensures
            r.x == self.max.x - self.min.x,
            r.y == self.max.y - self.min.y,
            r.z == self.max.z - self.min.z,
    {
        self.max.sub(self.min)
    }

    /// Midpoint of the box, exact (halves are rational).
    pub fn center(&self) -> (r: Point3)
        requires
            self.wf(),
        ensures
            r.wf(),
            r.x@ == (Rat { num: self.min.x + self.max.x, den: 2 }),
            r.y@ == (Rat { num: self.min.y + self.max.y, den: 2 }),
            r.z@ == (Rat { num: self.min.z + self.max.z, den: 2 }),
    {
        Point3 {
            x: Scalar { num: self.min.x as i128 + self.max.x as i128, den: 2 },
            y: Scalar { num: self.min.y as i128 + self.max.y as i128, den: 2 },
            z: Scalar { num: self.min.z as i128 + self.max.z as i128, den: 2 },
        }
    }

    /// Volume of the box.
    pub fn volume(&self) -> (r: i128)
        requires
            self.wf(),
        ensures
            r == volume_of(*self),
            0 <= r <= 0x40_0000_0000_0000,
    {
        let ex = (self.max.x - self.min.x) as i128;
        let ey = (self.max.y - self.min.y) as i128;
        let ez = (self.max.z - self.min.z) as i128;
        proof {
            lemma_volume_bounded(
                self.max.x - self.min.x,
                self.max.y - self.min.y,
                self.max.z - self.min.z,
            );
        }
        ex * ey * ez
    }

    /// The smallest box containing both arguments.
    pub fn enclosing_box(box0: &AABB, box1: &AABB) -> (r: AABB)
        requires
            box0.wf(),
            box1.wf(),
        ensures
            r == enclosing(*box0, *box1),
            r.wf(),
    {
        AABB { min: Vec3::min(box0.min, box1.min), max: Vec3::max(box0.max, box1.max) }
    }

    /// Slab test against the open window `(min_t, max_t)`.
    pub fn intersect(&self, ray: &Ray, min_t: Scalar, max_t: Scalar) -> (res: bool)
        requires
            self.wf(),
            ray.wf(),
            min_t.wf(),
            max_t.wf(),
        ensures
            res == slab_hit(*self, *ray, min_t@, max_t@),
    {
        let ghost b = *self;
        let ghost r = *ray;
        match axis_update(min_t, max_t, self.min.x, self.max.x, ray.origin.x, ray.direction.x) {
            None => false,
            Some((lo1, hi1)) => {
                proof {
                    lemma_remaining_axes_widen_y(b, r, lo1@, hi1@);
                }
                if !lo1.lt(&hi1) {
                    proof {
                        lemma_pinched_window(lo1@, hi1@, slab_lo(b, r, min_t@), slab_hi(b, r, max_t@));
                    }
                    return false;
                }
                match axis_update(lo1, hi1, self.min.y, self.max.y, ray.origin.y, ray.direction.y) {
                    None => false,
                    Some((lo2, hi2)) => {
                        proof {
                            lemma_remaining_axes_widen_z(b, r, lo2@, hi2@);
                        }
                        if !lo2.lt(&hi2) {
                            proof {
                                lemma_pinched_window(
                                    lo2@,
                                    hi2@,
                                    slab_lo(b, r, min_t@),
                                    slab_hi(b, r, max_t@),
                                );
                            }
                            return false;
                        }
                        match axis_update(
                            lo2,
                            hi2,
                            self.min.z,
                            self.max.z,
                            ray.origin.z,
                            ray.direction.z,
                        ) {
                            None => false,
                            Some((lo3, hi3)) => lo3.lt(&hi3),
                        }
                    },
                }
            },
        }
    }
}

/// Folds one axis into the running window, or reports that a degenerate
/// axis rules the box out.
fn axis_update(lo: Scalar, hi: Scalar, bmin: i64, bmax: i64, o: i64, d: i64) -> (res: Option<
    (Scalar, Scalar),
>)
    requires
        lo.wf(),
        hi.wf(),
        -BOX_LIMIT <= bmin <= BOX_LIMIT,
        -BOX_LIMIT <= bmax <= BOX_LIMIT,
        -BOX_LIMIT <= o <= BOX_LIMIT,
        -BOX_LIMIT <= d <= BOX_LIMIT,
    ensures
        match res {
            Some(p) => {
                &&& axis_in(bmin as int, bmax as int, o as int, d as int)
                &&& p.0.wf() && p.1.wf()
                &&& p.0@ == axis_lo(lo@, bmin as int, bmax as int, o as int, d as int)
                &&& p.1@ == axis_hi(hi@, bmin as int, bmax as int, o as int, d as int)
            },
            None => !axis_in(bmin as int, bmax as int, o as int, d as int),
        },
{
    if d == 0 {
        if bmin <= o && o <= bmax {
            Some((lo, hi))
        } else {
            None
        }
    } else if d > 0 {
        let t0 = Scalar::new((bmin as i128) - (o as i128), d as i128);
        let t1 = Scalar::new((bmax as i128) - (o as i128), d as i128);
        Some((lo.max(t0), hi.min(t1)))
    } else {
        let t0 = Scalar::new((o as i128) - (bmax as i128), -(d as i128));
        let t1 = Scalar::new((o as i128) - (bmin as i128), -(d as i128));
        Some((lo.max(t0), hi.min(t1)))
    }
}

/// Folding an axis moves the lower bound up and the upper bound down.
pub proof fn lemma_axis_widens(lo: Rat, hi: Rat, bmin: int, bmax: int, o: int, d: int)
    requires
        rat_wf(lo),
        rat_wf(hi),
    ensures
        rat_wf(axis_lo(lo, bmin, bmax, o, d)),
        rat_wf(axis_hi(hi, bmin, bmax, o, d)),
        rle(lo, axis_lo(lo, bmin, bmax, o, d)),
        rle(axis_hi(hi, bmin, bmax, o, d), hi),
{
    if d > 0 {
        lemma_rmax_bounds(lo, Rat { num: bmin - o, den: d });
        lemma_rmin_bounds(hi, Rat { num: bmax - o, den: d });
    } else if d < 0 {
        lemma_rmax_bounds(lo, Rat { num: o - bmax, den: -d });
        lemma_rmin_bounds(hi, Rat { num: o - bmin, den: -d });
    }
}

/// After the x axis is folded, the remaining y and z folds only narrow
/// the window further.
proof fn lemma_remaining_axes_widen_y(b: AABB, r: Ray, lo1: Rat, hi1: Rat)
    requires
        rat_wf(lo1),
        rat_wf(hi1),
    ensures
        rat_wf(
            axis_lo(
                axis_lo(lo1, b.min.y as int, b.max.y as int, r.origin.y as int, r.direction.y as int),
                b.min.z as int,
                b.max.z as int,
                r.origin.z as int,
                r.direction.z as int,
            ),
        ),
        rle(
            lo1,
            axis_lo(
                axis_lo(lo1, b.min.y as int, b.max.y as int, r.origin.y as int, r.direction.y as int),
                b.min.z as int,
                b.max.z as int,
                r.origin.z as int,
                r.direction.z as int,
            ),
        ),
        rat_wf(
            axis_hi(
                axis_hi(hi1, b.min.y as int, b.max.y as int, r.origin.y as int, r.direction.y as int),
                b.min.z as int,
                b.max.z as int,
                r.origin.z as int,
                r.direction.z as int,
            ),
        ),
        rle(
            axis_hi(
                axis_hi(hi1, b.min.y as int, b.max.y as int, r.origin.y as int, r.direction.y as int),
                b.min.z as int,
                b.max.z as int,
                r.origin.z as int,
                r.direction.z as int,
            ),
            hi1,
        ),
{
    let loy = axis_lo(lo1, b.min.y as int, b.max.y as int, r.origin.y as int, r.direction.y as int);
    let hiy = axis_hi(hi1, b.min.y as int, b.max.y as int, r.origin.y as int, r.direction.y as int);
    lemma_axis_widens(lo1, hi1, b.min.y as int, b.max.y as int, r.origin.y as int, r.direction.y as int);
    lemma_axis_widens(loy, hiy, b.min.z as int, b.max.z as int, r.origin.z as int, r.direction.z as int);
    let loz = axis_lo(loy, b.min.z as int, b.max.z as int, r.origin.z as int, r.direction.z as int);
    let hiz = axis_hi(hiy, b.min.z as int, b.max.z as int, r.origin.z as int, r.direction.z as int);
    lemma_rle_trans(lo1, loy, loz);
    lemma_rle_trans(hiz, hiy, hi1);
}

/// After the x and y axes are folded, the remaining z fold only narrows
/// the window further.
proof fn lemma_remaining_axes_widen_z(b: AABB, r: Ray, lo2: Rat, hi2: Rat)
    requires
        rat_wf(lo2),
        rat_wf(hi2),
    ensures
        rat_wf(
            axis_lo(lo2, b.min.z as int, b.max.z as int, r.origin.z as int, r.direction.z as int),
        ),
        rle(
            lo2,
            axis_lo(lo2, b.min.z as int, b.max.z as int, r.origin.z as int, r.direction.z as int),
        ),
        rat_wf(
            axis_hi(hi2, b.min.z as int, b.max.z as int, r.origin.z as int, r.direction.z as int),
        ),
        rle(
            axis_hi(hi2, b.min.z as int, b.max.z as int, r.origin.z as int, r.direction.z as int),
            hi2,
        ),
{
    lemma_axis_widens(lo2, hi2, b.min.z as int, b.max.z as int, r.origin.z as int, r.direction.z as int);
}

/// A window already pinched shut stays shut as later axes narrow it.
proof fn lemma_pinched_window(lo_k: Rat, hi_k: Rat, lo_f: Rat, hi_f: Rat)
    requires
        rat_wf(lo_k),
        rat_wf(hi_k),
        rat_wf(lo_f),
        rat_wf(hi_f),
        !rlt(lo_k, hi_k),
        rle(lo_k, lo_f),
        rle(hi_f, hi_k),
    ensures
        !rlt(lo_f, hi_f),
{
    if rlt(lo_f, hi_f) {
        lemma_rle_rlt_trans(lo_k, lo_f, hi_f);
        lemma_rlt_rle_trans(lo_k, hi_f, hi_k);
    }
}

/// The ray's exact point at parameter `t` lies in the (closed) box.
pub open spec fn ray_in_box_at(b: AABB, r: Ray, t: Rat) -> bool {
    &&& rle(rat_int(b.min.x as int), ray_at_axis(r.origin.x as int, r.direction.x as int, t))
    &&& rle(ray_at_axis(r.origin.x as int, r.direction.x as int, t), rat_int(b.max.x as int))
    &&& rle(rat_int(b.min.y as int), ray_at_axis(r.origin.y as int, r.direction.y as int, t))
    &&& rle(ray_at_axis(r.origin.y as int, r.direction.y as int, t), rat_int(b.max.y as int))
    &&& rle(rat_int(b.min.z as int), ray_at_axis(r.origin.z as int, r.direction.z as int, t))
    &&& rle(ray_at_axis(r.origin.z as int, r.direction.z as int, t), rat_int(b.max.z as int))
}

/// Box merge law: merging two boxes is commutative.
pub proof fn lemma_enclosing_commutative(a: AABB, b: AABB)
    ensures
        enclosing(a, b) == enclosing(b, a),
{
}

/// Box merge law: a point inside either box is inside the merged box.
pub proof fn lemma_enclosing_contains(a: AABB, b: AABB, p: Point3)
    requires
        a.wf(),
        b.wf(),
        p.wf(),
        contains_point(a, p) || contains_point(b, p),
    ensures
        contains_point(enclosing(a, b), p),
{
    let e = enclosing(a, b);
    if contains_point(a, p) {
        lemma_rle_trans(rat_int(e.min.x as int), rat_int(a.min.x as int), p.x@);
        lemma_rle_trans(rat_int(e.min.y as int), rat_int(a.min.y as int), p.y@);
        lemma_rle_trans(rat_int(e.min.z as int), rat_int(a.min.z as int), p.z@);
        lemma_rle_trans(p.x@, rat_int(a.max.x as int), rat_int(e.max.x as int));
        lemma_rle_trans(p.y@, rat_int(a.max.y as int), rat_int(e.max.y as int));
        lemma_rle_trans(p.z@, rat_int(a.max.z as int), rat_int(e.max.z as int));
    } else {
        lemma_rle_trans(rat_int(e.min.x as int), rat_int(b.min.x as int), p.x@);
        lemma_rle_trans(rat_int(e.min.y as int), rat_int(b.min.y as int), p.y@);
        lemma_rle_trans(rat_int(e.min.z as int), rat_int(b.min.z as int), p.z@);
        lemma_rle_trans(p.x@, rat_int(b.max.x as int), rat_int(e.max.x as int));
        lemma_rle_trans(p.y@, rat_int(b.max.y as int), rat_int(e.max.y as int));
        lemma_rle_trans(p.z@, rat_int(b.max.z as int), rat_int(e.max.z as int));
    }
}

/// The slab fold only narrows the incoming window.
pub proof fn lemma_slab_window_shrinks(b: AABB, r: Ray, tmin: Rat, tmax: Rat)
    requires
        rat_wf(tmin),
        rat_wf(tmax),
    ensures
        rat_wf(slab_lo(b, r, tmin)),
        rat_wf(slab_hi(b, r, tmax)),
        rle(tmin, slab_lo(b, r, tmin)),
        rle(slab_hi(b, r, tmax), tmax),
{
    lemma_axis_widens(tmin, tmax, b.min.x as int, b.max.x as int, r.origin.x as int, r.direction.x as int);
    lemma_remaining_axes_widen_y(
        b,
        r,
        axis_lo(tmin, b.min.x as int, b.max.x as int, r.origin.x as int, r.direction.x as int),
        axis_hi(tmax, b.min.x as int, b.max.x as int, r.origin.x as int, r.direction.x as int),
    );
    lemma_rle_trans(
        tmin,
        axis_lo(tmin, b.min.x as int, b.max.x as int, r.origin.x as int, r.direction.x as int),
        slab_lo(b, r, tmin),
    );
    lemma_rle_trans(
        slab_hi(b, r, tmax),
        axis_hi(tmax, b.min.x as int, b.max.x as int, r.origin.x as int, r.direction.x as int),
        tmax,
    );
}

/// Slab boundary law, empty window: with `tmax <= tmin` going in, the
/// slab test reports no intersection.
pub proof fn lemma_slab_empty_window(b: AABB, r: Ray, tmin: Rat, tmax: Rat)
    requires
        rat_wf(tmin),
        rat_wf(tmax),
        rle(tmax, tmin),
    ensures
        !slab_hit(b, r, tmin, tmax),
{
    lemma_slab_window_shrinks(b, r, tmin, tmax);
    if rlt(slab_lo(b, r, tmin), slab_hi(b, r, tmax)) {
        lemma_rle_rlt_trans(tmin, slab_lo(b, r, tmin), slab_hi(b, r, tmax));
        lemma_rlt_rle_trans(tmin, slab_hi(b, r, tmax), tmax);
    }
}

/// Slab boundary law, point box: a box with `min == max` meets the ray
/// only at the single parameter where the ray crosses that point, pinned
/// per axis with nonzero direction.
pub proof fn lemma_point_box_param(b: AABB, r: Ray, t: Rat)
    requires
        b.min == b.max,
        rat_wf(t),
        ray_in_box_at(b, r, t),
    ensures
        r.direction.x != 0 ==> t.num * r.direction.x == (b.min.x - r.origin.x) * t.den,
        r.direction.y != 0 ==> t.num * r.direction.y == (b.min.y - r.origin.y) * t.den,
        r.direction.z != 0 ==> t.num * r.direction.z == (b.min.z - r.origin.z) * t.den,
{
    let px = ray_at_axis(r.origin.x as int, r.direction.x as int, t);
    let py = ray_at_axis(r.origin.y as int, r.direction.y as int, t);
    let pz = ray_at_axis(r.origin.z as int, r.direction.z as int, t);
    assert(px.num == b.min.x * t.den);
    assert(py.num == b.min.y * t.den);
    assert(pz.num == b.min.z * t.den);
    assert(t.num * r.direction.x == (b.min.x - r.origin.x) * t.den) by (nonlinear_arith)
        requires
            (r.origin.x as int) * t.den + (r.direction.x as int) * t.num == (b.min.x as int)
                * t.den,
    ;
    assert(t.num * r.direction.y == (b.min.y - r.origin.y) * t.den) by (nonlinear_arith)
        requires
            (r.origin.y as int) * t.den + (r.direction.y as int) * t.num == (b.min.y as int)
                * t.den,
    ;
    assert(t.num * r.direction.z == (b.min.z - r.origin.z) * t.den) by (nonlinear_arith)
        requires
            (r.origin.z as int) * t.den + (r.direction.z as int) * t.num == (b.min.z as int)
                * t.den,
    ;
}

/// Slab boundary law, point box: since the crossing is a single
/// parameter, the open-window slab test never reports a point box.
pub proof fn lemma_point_box_no_hit(b: AABB, r: Ray, tmin: Rat, tmax: Rat)
    requires
        b.min == b.max,
        r.wf(),
        rat_wf(tmin),
        rat_wf(tmax),
    ensures
        !slab_hit(b, r, tmin, tmax),
{
    let lo1 = axis_lo(tmin, b.min.x as int, b.max.x as int, r.origin.x as int, r.direction.x as int);
    let hi1 = axis_hi(tmax, b.min.x as int, b.max.x as int, r.origin.x as int, r.direction.x as int);
    let lo2 = axis_lo(lo1, b.min.y as int, b.max.y as int, r.origin.y as int, r.direction.y as int);
    let hi2 = axis_hi(hi1, b.min.y as int, b.max.y as int, r.origin.y as int, r.direction.y as int);
    let lo3 = axis_lo(lo2, b.min.z as int, b.max.z as int, r.origin.z as int, r.direction.z as int);
    let hi3 = axis_hi(hi2, b.min.z as int, b.max.z as int, r.origin.z as int, r.direction.z as int);
    lemma_axis_widens(tmin, tmax, b.min.x as int, b.max.x as int, r.origin.x as int, r.direction.x as int);
    lemma_axis_widens(lo1, hi1, b.min.y as int, b.max.y as int, r.origin.y as int, r.direction.y as int);
    lemma_axis_widens(lo2, hi2, b.min.z as int, b.max.z as int, r.origin.z as int, r.direction.z as int);
    if !rlt(lo3, hi3) {
        // the final window is already shut
    } else if r.direction.x != 0 {
        // the x fold pinches the window to the single crossing; later
        // folds only narrow it further
        let cross = cross_of(b.min.x as int, r.origin.x as int, r.direction.x as int);
        lemma_rmax_bounds(tmin, cross);
        lemma_rmin_bounds(tmax, cross);
        lemma_rle_trans(hi1, cross, lo1);
        lemma_rle_trans(lo1, lo2, lo3);
        lemma_rle_trans(hi3, hi2, hi1);
        lemma_rlt_rle_trans(lo3, hi3, hi1);
        lemma_rlt_rle_trans(lo3, hi1, lo1);
        lemma_rle_rlt_trans(lo1, lo3, lo1);
    } else if r.direction.y != 0 {
        let cross = cross_of(b.min.y as int, r.origin.y as int, r.direction.y as int);
        lemma_rmax_bounds(lo1, cross);
        lemma_rmin_bounds(hi1, cross);
        lemma_rle_trans(hi2, cross, lo2);
        lemma_rle_trans(hi3, hi2, lo2);
        lemma_rlt_rle_trans(lo3, hi3, lo2);
        lemma_rle_rlt_trans(lo2, lo3, lo2);
    } else {
        let cross = cross_of(b.min.z as int, r.origin.z as int, r.direction.z as int);
        lemma_rmax_bounds(lo2, cross);
        lemma_rmin_bounds(hi2, cross);
        lemma_rle_trans(hi3, cross, lo3);
        lemma_rle_rlt_trans(hi3, lo3, hi3);
    }
}

/// The single crossing parameter of a point box's coordinate on one
/// axis, with the denominator's sign normalized.
pub open spec fn cross_of(m: int, o: int, d: int) -> Rat {
    if d > 0 {
        Rat { num: m - o, den: d }
    } else {
        Rat { num: o - m, den: -d }
    }
}

/// Extent products fit comfortably in `i128`.
proof fn lemma_volume_bounded(ex: int, ey: int, ez: int)
    by (nonlinear_arith)
    requires
        0 <= ex <= 262144,
        0 <= ey <= 262144,
        0 <= ez <= 262144,
    ensures
        0 <= ex * ey * ez <= 0x40_0000_0000_0000,
        0 <= ex * ey <= 0x10_0000_0000,
{
}

} // verus!
