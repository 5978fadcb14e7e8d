//! Pruning soundness: a box miss really means no hit.
//!
//! The traversal skips a subtree when the slab test misses its bounding
//! box.  This module proves that safe: any parameter a sphere trace can
//! report lies inside the sphere's closed ball, hence inside every box
//! enclosing the sphere's own box, and a window that contains such a
//! parameter always passes the slab test.  Contrapositively, a failed
//! slab test over a node's bounds rules out every object beneath it.

use vstd::prelude::*;

use crate::aabb::{axis_hi, axis_in, axis_lo, box_inside, slab_hi, slab_hit, slab_lo, AABB};
use crate::ray::Ray;
use crate::scalar::{rat_wf, rle, rlt, Rat};
use crate::scalar::{lemma_rle_rlt_trans, lemma_rlt_rle_trans};
use crate::sphere::{is_isqrt, isqrt, lemma_direction_dot_positive, lemma_isqrt_exists, root_far,
    root_near, sph_a, sph_b, sph_c, sph_disc, sphere_box, sphere_hit_t, Sphere};

verus! {

/// Both quadratic roots keep the ray inside the sphere's closed ball,
/// stated per axis over the common denominator `a`: for the root `n / a`,
/// the coordinate `(o_i * a + d_i * n) / a` lies between `c_i - r` and
/// `c_i + r`.
proof fn lemma_root_in_ball(s: Sphere, ray: Ray, n: int)
    requires
        s.wf(),
        ray.wf(),
        sph_disc(s, ray) > 0,
        n == -sph_b(s, ray) - isqrt(sph_disc(s, ray)) || n == -sph_b(s, ray) + isqrt(
            sph_disc(s, ray),
        ),
    ensures
        ((s.center.x - s.radius) * sph_a(ray) <= ray.origin.x * sph_a(ray) + ray.direction.x * n)
            && (ray.origin.x * sph_a(ray) + ray.direction.x * n <= (s.center.x + s.radius) * sph_a(
            ray,
        )),
        ((s.center.y - s.radius) * sph_a(ray) <= ray.origin.y * sph_a(ray) + ray.direction.y * n)
            && (ray.origin.y * sph_a(ray) + ray.direction.y * n <= (s.center.y + s.radius) * sph_a(
            ray,
        )),
        ((s.center.z - s.radius) * sph_a(ray) <= ray.origin.z * sph_a(ray) + ray.direction.z * n)
            && (ray.origin.z * sph_a(ray) + ray.direction.z * n <= (s.center.z + s.radius) * sph_a(
            ray,
        )),
{
    let a = sph_a(ray);
    let bq = sph_b(s, ray);
    let c = sph_c(s, ray);
    let d = sph_disc(s, ray);
    lemma_direction_dot_positive(ray.direction);
    lemma_isqrt_exists(d);
    let q = isqrt(d);
    let ox = ray.origin.x as int;
    let oy = ray.origin.y as int;
    let oz = ray.origin.z as int;
    let dx = ray.direction.x as int;
    let dy = ray.direction.y as int;
    let dz = ray.direction.z as int;
    let cx = s.center.x as int;
    let cy = s.center.y as int;
    let cz = s.center.z as int;
    let r = s.radius as int;
    let ocx = ox - cx;
    let ocy = oy - cy;
    let ocz = oz - cz;
    let occ = ocx * ocx + ocy * ocy + ocz * ocz;
    // the root satisfies the quadratic within the floor-rounding slack
    assert(n * n + 2 * bq * n + a * c <= 0) by (nonlinear_arith)
        requires
            n == -bq - q || n == -bq + q,
            q * q <= d,
            d == bq * bq - a * c,
    ;
    // squared distance from the center, over denominator a: expand each
    // axis, then regroup the monomials
    lemma_expand_square(ocx, a, dx, n);
    lemma_expand_square(ocy, a, dy, n);
    lemma_expand_square(ocz, a, dz, n);
    assert((ocx * ocx) * (a * a) + (ocy * ocy) * (a * a) + (ocz * ocz) * (a * a) == occ * (a * a))
        by (nonlinear_arith)
        requires
            occ == ocx * ocx + ocy * ocy + ocz * ocz,
    ;
    assert(2 * ((ocx * dx) * (a * n)) + 2 * ((ocy * dy) * (a * n)) + 2 * ((ocz * dz) * (a * n))
        == 2 * (bq * (a * n))) by (nonlinear_arith)
        requires
            bq == ocx * dx + ocy * dy + ocz * dz,
    ;
    assert((dx * dx) * (n * n) + (dy * dy) * (n * n) + (dz * dz) * (n * n) == a * (n * n))
        by (nonlinear_arith)
        requires
            a == dx * dx + dy * dy + dz * dz,
    ;
    assert((ocx * a + dx * n) * (ocx * a + dx * n) + (ocy * a + dy * n) * (ocy * a + dy * n) + (ocz
        * a + dz * n) * (ocz * a + dz * n) == occ * (a * a) + 2 * (bq * (a * n)) + a * (n * n));
    assert(occ * (a * a) + 2 * (bq * (a * n)) + a * (n * n) == a * (n * n + 2 * bq * n + a * c) + (a
        * a) * (r * r)) by (nonlinear_arith)
        requires
            c == occ - r * r,
    ;
    assert(a * (n * n + 2 * bq * n + a * c) <= 0) by (nonlinear_arith)
        requires
            a > 0,
            n * n + 2 * bq * n + a * c <= 0,
    ;
    // each squared coordinate offset is at most the squared distance
    lemma_square_nonneg(ocx * a + dx * n);
    lemma_square_nonneg(ocy * a + dy * n);
    lemma_square_nonneg(ocz * a + dz * n);
    assert(r * a > 0) by (nonlinear_arith)
        requires
            r >= 1,
            a > 0,
    ;
    lemma_square_factor(a, r);
    // take square roots: the offset lies within +- r*a
    assert(-(r * a) <= ocx * a + dx * n <= r * a && -(r * a) <= ocy * a + dy * n <= r * a && -(r
        * a) <= ocz * a + dz * n <= r * a) by (nonlinear_arith)
        requires
            r * a > 0,
            (ocx * a + dx * n) * (ocx * a + dx * n) <= (r * a) * (r * a),
            (ocy * a + dy * n) * (ocy * a + dy * n) <= (r * a) * (r * a),
            (ocz * a + dz * n) * (ocz * a + dz * n) <= (r * a) * (r * a),
    ;
    // rearrange the offsets around the center
    assert((cx - r) * a <= ox * a + dx * n <= (cx + r) * a && (cy - r) * a <= oy * a + dy * n <= (
    cy + r) * a && (cz - r) * a <= oz * a + dz * n <= (cz + r) * a) by (nonlinear_arith)
        requires
            ocx == ox - cx,
            ocy == oy - cy,
            ocz == oz - cz,
            -(r * a) <= ocx * a + dx * n <= r * a,
            -(r * a) <= ocy * a + dy * n <= r * a,
            -(r * a) <= ocz * a + dz * n <= r * a,
    ;
}

/// Binomial expansion.
proof fn lemma_binomial(p: int, q: int)
    by (nonlinear_arith)
    ensures
        (p + q) * (p + q) == p * p + 2 * (p * q) + q * q,
{
}

/// Swapping factors between two products.
proof fn lemma_mul_rearrange(p: int, q: int, r: int, s: int)
    by (nonlinear_arith)
    ensures
        (p * q) * (r * s) == (p * r) * (q * s),
{
}

/// Binomial expansion of one squared coordinate offset.
proof fn lemma_expand_square(x: int, a: int, d: int, n: int)
    ensures
        (x * a + d * n) * (x * a + d * n) == (x * x) * (a * a) + 2 * ((x * d) * (a * n)) + (d * d)
            * (n * n),
{
    lemma_binomial(x * a, d * n);
    lemma_mul_rearrange(x, a, x, a);
    lemma_mul_rearrange(x, a, d, n);
    assert(2 * ((x * a) * (d * n)) == 2 * ((x * d) * (a * n)));
    lemma_mul_rearrange(d, n, d, n);
}

/// Squares are nonnegative.
proof fn lemma_square_nonneg(x: int)
    by (nonlinear_arith)
    ensures
        x * x >= 0,
{
}

/// Rearranging the product of two squares.
proof fn lemma_square_factor(a: int, r: int)
    by (nonlinear_arith)
    ensures
        (a * a) * (r * r) == (r * a) * (r * a),
{
}

/// From the cleared per-axis inequalities to the rational slab bounds
/// for one axis.
proof fn lemma_axis_rat_bounds(bmin: int, bmax: int, o: int, d: int, a: int, n: int)
    requires
        a > 0,
        bmin * a <= o * a + d * n,
        o * a + d * n <= bmax * a,
    ensures
        axis_in(bmin, bmax, o, d),
        d > 0 ==> rle(Rat { num: bmin - o, den: d }, Rat { num: n, den: a }) && rle(
            Rat { num: n, den: a },
            Rat { num: bmax - o, den: d },
        ),
        d < 0 ==> rle(Rat { num: o - bmax, den: -d }, Rat { num: n, den: a }) && rle(
            Rat { num: n, den: a },
            Rat { num: o - bmin, den: -d },
        ),
{
    if d == 0 {
        assert(bmin <= o && o <= bmax) by (nonlinear_arith)
            requires
                a > 0,
                bmin * a <= o * a + d * n,
                o * a + d * n <= bmax * a,
                d == 0,
        ;
    } else if d > 0 {
        assert((bmin - o) * a <= n * d && n * d <= (bmax - o) * a) by (nonlinear_arith)
            requires
                bmin * a <= o * a + d * n,
                o * a + d * n <= bmax * a,
        ;
    } else {
        assert((o - bmax) * a <= n * (-d) && n * (-d) <= (o - bmin) * a) by (nonlinear_arith)
            requires
                bmin * a <= o * a + d * n,
                o * a + d * n <= bmax * a,
        ;
    }
}

/// Folding one axis keeps the lower bound at or below a parameter that
/// respects the axis entry (strictly, when the inputs are strict).
proof fn lemma_axis_lo_bound(lo: Rat, bmin: int, bmax: int, o: int, d: int, z: Rat, strict: bool)
    requires
        if strict {
            rlt(lo, z)
        } else {
            rle(lo, z)
        },
        d > 0 ==> if strict {
            rlt(Rat { num: bmin - o, den: d }, z)
        } else {
            rle(Rat { num: bmin - o, den: d }, z)
        },
        d < 0 ==> if strict {
            rlt(Rat { num: o - bmax, den: -d }, z)
        } else {
            rle(Rat { num: o - bmax, den: -d }, z)
        },
    ensures
        if strict {
            rlt(axis_lo(lo, bmin, bmax, o, d), z)
        } else {
            rle(axis_lo(lo, bmin, bmax, o, d), z)
        },
{
}

/// Folding one axis keeps the upper bound at or above a parameter that
/// respects the axis exit (strictly, when the inputs are strict).
proof fn lemma_axis_hi_bound(hi: Rat, bmin: int, bmax: int, o: int, d: int, z: Rat, strict: bool)
    requires
        if strict {
            rlt(z, hi)
        } else {
            rle(z, hi)
        },
        d > 0 ==> if strict {
            rlt(z, Rat { num: bmax - o, den: d })
        } else {
            rle(z, Rat { num: bmax - o, den: d })
        },
        d < 0 ==> if strict {
            rlt(z, Rat { num: o - bmin, den: -d })
        } else {
            rle(z, Rat { num: o - bmin, den: -d })
        },
    ensures
        if strict {
            rlt(z, axis_hi(hi, bmin, bmax, o, d))
        } else {
            rle(z, axis_hi(hi, bmin, bmax, o, d))
        },
{
}

/// If a sphere inside box `b` reports a hit in the open window, the slab
/// test on `b` passes for that window.
pub proof fn lemma_hit_implies_slab(s: Sphere, b: AABB, ray: Ray, tmin: Rat, tmax: Rat)
    requires
        s.wf(),
        ray.wf(),
        b.wf(),
        rat_wf(tmin),
        rat_wf(tmax),
        box_inside(sphere_box(s), b),
        sphere_hit_t(s, ray, tmin, tmax) is Some,
    ensures
        slab_hit(b, ray, tmin, tmax),
{
    let a = sph_a(ray);
    let bq = sph_b(s, ray);
    let d = sph_disc(s, ray);
    lemma_direction_dot_positive(ray.direction);
    lemma_isqrt_exists(d);
    let q = isqrt(d);
    assert(q >= 1) by (nonlinear_arith)
        requires
            is_isqrt(d, q),
            d >= 1,
    ;
    let n1 = -bq - q;
    let n2 = -bq + q;
    let t1 = root_near(s, ray);
    let t2 = root_far(s, ray);
    lemma_root_in_ball(s, ray, n1);
    lemma_root_in_ball(s, ray, n2);
    let ox = ray.origin.x as int;
    let oy = ray.origin.y as int;
    let oz = ray.origin.z as int;
    let dx = ray.direction.x as int;
    let dy = ray.direction.y as int;
    let dz = ray.direction.z as int;
    let bminx = b.min.x as int;
    let bminy = b.min.y as int;
    let bminz = b.min.z as int;
    let bmaxx = b.max.x as int;
    let bmaxy = b.max.y as int;
    let bmaxz = b.max.z as int;
    // box_inside widens the ball bounds to the node's box, per axis
    assert(bminx * a <= (s.center.x - s.radius) * a && (s.center.x + s.radius) * a <= bmaxx * a
        && bminy * a <= (s.center.y - s.radius) * a && (s.center.y + s.radius) * a <= bmaxy * a
        && bminz * a <= (s.center.z - s.radius) * a && (s.center.z + s.radius) * a <= bmaxz * a)
        by (nonlinear_arith)
        requires
            a > 0,
            bminx <= s.center.x - s.radius,
            s.center.x + s.radius <= bmaxx,
            bminy <= s.center.y - s.radius,
            s.center.y + s.radius <= bmaxy,
            bminz <= s.center.z - s.radius,
            s.center.z + s.radius <= bmaxz,
    ;
    lemma_axis_rat_bounds(bminx, bmaxx, ox, dx, a, n1);
    lemma_axis_rat_bounds(bminy, bmaxy, oy, dy, a, n1);
    lemma_axis_rat_bounds(bminz, bmaxz, oz, dz, a, n1);
    lemma_axis_rat_bounds(bminx, bmaxx, ox, dx, a, n2);
    lemma_axis_rat_bounds(bminy, bmaxy, oy, dy, a, n2);
    lemma_axis_rat_bounds(bminz, bmaxz, oz, dz, a, n2);
    // the strict gap between the two roots
    assert(n1 * a < n2 * a) by (nonlinear_arith)
        requires
            n1 == -bq - q,
            n2 == -bq + q,
            q >= 1,
            a > 0,
    ;
    assert(rlt(t1, t2));
    let lo1 = axis_lo(tmin, bminx, bmaxx, ox, dx);
    let lo2 = axis_lo(lo1, bminy, bmaxy, oy, dy);
    let lo3 = axis_lo(lo2, bminz, bmaxz, oz, dz);
    let hi1 = axis_hi(tmax, bminx, bmaxx, ox, dx);
    let hi2 = axis_hi(hi1, bminy, bmaxy, oy, dy);
    let hi3 = axis_hi(hi2, bminz, bmaxz, oz, dz);
    assert(lo3 == slab_lo(b, ray, tmin));
    assert(hi3 == slab_hi(b, ray, tmax));
    let t = sphere_hit_t(s, ray, tmin, tmax)->Some_0;
    if t == t1 {
        // every lower component stays at or below the near root
        lemma_axis_lo_bound(tmin, bminx, bmaxx, ox, dx, t1, false);
        lemma_axis_lo_bound(lo1, bminy, bmaxy, oy, dy, t1, false);
        lemma_axis_lo_bound(lo2, bminz, bmaxz, oz, dz, t1, false);
        // every upper component stays strictly above it
        assert(dx > 0 ==> rlt(t1, Rat { num: bmaxx - ox, den: dx })) by {
            if dx > 0 {
                lemma_rlt_rle_trans(t1, t2, Rat { num: bmaxx - ox, den: dx });
            }
        }
        assert(dx < 0 ==> rlt(t1, Rat { num: ox - bminx, den: -dx })) by {
            if dx < 0 {
                lemma_rlt_rle_trans(t1, t2, Rat { num: ox - bminx, den: -dx });
            }
        }
        assert(dy > 0 ==> rlt(t1, Rat { num: bmaxy - oy, den: dy })) by {
            if dy > 0 {
                lemma_rlt_rle_trans(t1, t2, Rat { num: bmaxy - oy, den: dy });
            }
        }
        assert(dy < 0 ==> rlt(t1, Rat { num: oy - bminy, den: -dy })) by {
            if dy < 0 {
                lemma_rlt_rle_trans(t1, t2, Rat { num: oy - bminy, den: -dy });
            }
        }
        assert(dz > 0 ==> rlt(t1, Rat { num: bmaxz - oz, den: dz })) by {
            if dz > 0 {
                lemma_rlt_rle_trans(t1, t2, Rat { num: bmaxz - oz, den: dz });
            }
        }
        assert(dz < 0 ==> rlt(t1, Rat { num: oz - bminz, den: -dz })) by {
            if dz < 0 {
                lemma_rlt_rle_trans(t1, t2, Rat { num: oz - bminz, den: -dz });
            }
        }
        lemma_axis_hi_bound(tmax, bminx, bmaxx, ox, dx, t1, true);
        lemma_axis_hi_bound(hi1, bminy, bmaxy, oy, dy, t1, true);
        lemma_axis_hi_bound(hi2, bminz, bmaxz, oz, dz, t1, true);
        lemma_rle_rlt_trans(lo3, t1, hi3);
    } else {
        // the far root was the accepted hit
        assert(t == t2);
        // every lower component stays strictly below the far root
        assert(dx > 0 ==> rlt(Rat { num: bminx - ox, den: dx }, t2)) by {
            if dx > 0 {
                lemma_rle_rlt_trans(Rat { num: bminx - ox, den: dx }, t1, t2);
            }
        }
        assert(dx < 0 ==> rlt(Rat { num: ox - bmaxx, den: -dx }, t2)) by {
            if dx < 0 {
                lemma_rle_rlt_trans(Rat { num: ox - bmaxx, den: -dx }, t1, t2);
            }
        }
        assert(dy > 0 ==> rlt(Rat { num: bminy - oy, den: dy }, t2)) by {
            if dy > 0 {
                lemma_rle_rlt_trans(Rat { num: bminy - oy, den: dy }, t1, t2);
            }
        }
        assert(dy < 0 ==> rlt(Rat { num: oy - bmaxy, den: -dy }, t2)) by {
            if dy < 0 {
                lemma_rle_rlt_trans(Rat { num: oy - bmaxy, den: -dy }, t1, t2);
            }
        }
        assert(dz > 0 ==> rlt(Rat { num: bminz - oz, den: dz }, t2)) by {
            if dz > 0 {
                lemma_rle_rlt_trans(Rat { num: bminz - oz, den: dz }, t1, t2);
            }
        }
        assert(dz < 0 ==> rlt(Rat { num: oz - bmaxz, den: -dz }, t2)) by {
            if dz < 0 {
                lemma_rle_rlt_trans(Rat { num: oz - bmaxz, den: -dz }, t1, t2);
            }
        }
        lemma_axis_lo_bound(tmin, bminx, bmaxx, ox, dx, t2, true);
        lemma_axis_lo_bound(lo1, bminy, bmaxy, oy, dy, t2, true);
        lemma_axis_lo_bound(lo2, bminz, bmaxz, oz, dz, t2, true);
        // every upper component stays at or above it
        lemma_axis_hi_bound(tmax, bminx, bmaxx, ox, dx, t2, false);
        lemma_axis_hi_bound(hi1, bminy, bmaxy, oy, dy, t2, false);
        lemma_axis_hi_bound(hi2, bminz, bmaxz, oz, dz, t2, false);
        lemma_rlt_rle_trans(lo3, t2, hi3);
    }
}

} // verus!
