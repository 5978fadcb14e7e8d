//! Nearest-hit semantics over object sequences.
//!
//! [`best_hit`] is the mathematical brute-force reference: scan the
//! objects left to right, narrowing the search window to the best hit
//! found so far (ties therefore keep the earlier object).  The BVH
//! traversal and the linear scene scan are both proved against it.

use vstd::prelude::*;

use crate::ray::Ray;
use crate::scalar::{rat_wf, rle, rlt, Rat};
use crate::scalar::{lemma_rle_rlt_trans, lemma_rlt_rle_trans, lemma_rlt_trans};
use crate::sphere::{is_isqrt, isqrt, root_far, root_near, sph_a, sph_b, sph_disc, sphere_hit_t,
    Sphere};

verus! {

/// The hit a left-to-right nearest scan of `objs` reports in the open
/// window `(tmin, tmax)`: the index of the winning object and the hit
/// parameter.  Each object after the first winner is traced against the
/// window narrowed to the best parameter so far.
pub open spec fn best_hit(objs: Seq<Sphere>, ray: Ray, tmin: Rat, tmax: Rat) -> Option<(int, Rat)>
    decreases objs.len(),
{
    if objs.len() == 0 {
        None
    } else {
        match sphere_hit_t(objs[0], ray, tmin, tmax) {
            Some(t0) => match best_hit(objs.drop_first(), ray, tmin, t0) {
                Some(p) => Some((p.0 + 1, p.1)),
                None => Some((0, t0)),
            },
            None => match best_hit(objs.drop_first(), ray, tmin, tmax) {
                Some(p) => Some((p.0 + 1, p.1)),
                None => None,
            },
        }
    }
}

/// A reported hit names a real object and lies strictly inside the window.
pub proof fn lemma_best_hit_range(objs: Seq<Sphere>, ray: Ray, tmin: Rat, tmax: Rat)
    requires
        rat_wf(tmin),
        rat_wf(tmax),
        sph_a(ray) > 0,
    ensures
        match best_hit(objs, ray, tmin, tmax) {
            Some(p) => 0 <= p.0 < objs.len() && rat_wf(p.1) && rlt(tmin, p.1) && rlt(p.1, tmax),
            None => true,
        },
    decreases objs.len(),
{
    if objs.len() > 0 {
        let rest = objs.drop_first();
        match sphere_hit_t(objs[0], ray, tmin, tmax) {
            Some(t0) => {
                lemma_best_hit_range(rest, ray, tmin, t0);
                match best_hit(rest, ray, tmin, t0) {
                    Some(p) => {
                        lemma_rlt_trans(p.1, t0, tmax);
                    },
                    None => {},
                }
            },
            None => {
                lemma_best_hit_range(rest, ray, tmin, tmax);
            },
        }
    }
}

/// When no object hits inside the window, the scan reports nothing.
pub proof fn lemma_best_hit_all_miss(objs: Seq<Sphere>, ray: Ray, tmin: Rat, tmax: Rat)
    requires
        forall|i: int|
            0 <= i < objs.len() ==> sphere_hit_t(#[trigger] objs[i], ray, tmin, tmax) is None,
    ensures
        best_hit(objs, ray, tmin, tmax) is None,
    decreases objs.len(),
{
    if objs.len() > 0 {
        let rest = objs.drop_first();
        assert(forall|i: int| 0 <= i < rest.len() ==> rest[i] == objs[i + 1]);
        lemma_best_hit_all_miss(rest, ray, tmin, tmax);
    }
}

/// How the scan of a concatenation decomposes: scan the left part over
/// the full window; if it hits, scan the right part with the window
/// narrowed to that hit and prefer the right result, else scan the right
/// part over the full window.  This is exactly the BVH split rule.
pub proof fn lemma_best_hit_concat(l: Seq<Sphere>, r: Seq<Sphere>, ray: Ray, tmin: Rat, tmax: Rat)
    ensures
        best_hit(l + r, ray, tmin, tmax) == (match best_hit(l, ray, tmin, tmax) {
            Some(pl) => match best_hit(r, ray, tmin, pl.1) {
                Some(pr) => Some((l.len() + pr.0, pr.1)),
                None => Some(pl),
            },
            None => match best_hit(r, ray, tmin, tmax) {
                Some(pr) => Some((l.len() + pr.0, pr.1)),
                None => None::<(int, Rat)>,
            },
        }),
    decreases l.len(),
{
    if l.len() == 0 {
        assert(l + r =~= r);
        match best_hit(r, ray, tmin, tmax) {
            Some(pr) => {},
            None => {},
        }
    } else {
        let lrest = l.drop_first();
        assert((l + r).drop_first() =~= lrest + r);
        assert((l + r)[0] == l[0]);
        assert((l + r).len() > 0);
        match sphere_hit_t(l[0], ray, tmin, tmax) {
            Some(t0) => {
                lemma_best_hit_concat(lrest, r, ray, tmin, t0);
            },
            None => {
                lemma_best_hit_concat(lrest, r, ray, tmin, tmax);
            },
        }
    }
}

/// Narrowing the window clips the reported hit: an object's hit in
/// `(tmin, cap)` with `cap <= tmax` is its hit in `(tmin, tmax)` when
/// that one lies below `cap`, and nothing otherwise.
pub proof fn lemma_sphere_hit_narrow(s: Sphere, ray: Ray, tmin: Rat, tmax: Rat, cap: Rat)
    requires
        rat_wf(tmin),
        rat_wf(tmax),
        rat_wf(cap),
        sph_a(ray) > 0,
        rle(cap, tmax),
    ensures
        sphere_hit_t(s, ray, tmin, cap) == (match sphere_hit_t(s, ray, tmin, tmax) {
            Some(t) => if rlt(t, cap) {
                Some(t)
            } else {
                None::<Rat>
            },
            None => None::<Rat>,
        }),
{
    if sph_disc(s, ray) > 0 {
        let r1 = root_near(s, ray);
        let r2 = root_far(s, ray);
        lemma_roots_ordered(s, ray);
        match sphere_hit_t(s, ray, tmin, tmax) {
            Some(t) => {
                if t == r1 {
                    if !rlt(r1, cap) {
                        // cap <= r1 <= r2, so neither root fits below cap
                        lemma_rle_rlt_trans(cap, r1, r2);
                        assert(!rlt(r2, cap));
                    }
                } else {
                    // near root was rejected for the full window; a
                    // narrower window rejects it as well
                    if rlt(tmin, r1) && rlt(r1, cap) {
                        lemma_rlt_rle_trans(r1, cap, tmax);
                        assert(false);
                    }
                }
            },
            None => {
                if rlt(tmin, r1) && rlt(r1, cap) {
                    lemma_rlt_rle_trans(r1, cap, tmax);
                    assert(false);
                }
                if rlt(tmin, r2) && rlt(r2, cap) {
                    lemma_rlt_rle_trans(r2, cap, tmax);
                    assert(false);
                }
            },
        }
    }
}

/// Coverage: if any object of the searched sequence reports a hit
/// inside the window, the nearest scan reports a hit — searching never
/// loses one.
pub proof fn lemma_best_hit_complete(objs: Seq<Sphere>, ray: Ray, tmin: Rat, tmax: Rat, j: int)
    requires
        0 <= j < objs.len(),
        sphere_hit_t(objs[j], ray, tmin, tmax) is Some,
    ensures
        best_hit(objs, ray, tmin, tmax) is Some,
    decreases objs.len(),
{
    let rest = objs.drop_first();
    assert(forall|k: int| 0 <= k < rest.len() ==> rest[k] == objs[k + 1]);
    match sphere_hit_t(objs[0], ray, tmin, tmax) {
        Some(_) => {},
        None => {
            lemma_best_hit_complete(rest, ray, tmin, tmax, j - 1);
        },
    }
}

/// Nearest-hit: the reported parameter is a genuine hit of the winning
/// object over the full window, and no object of the sequence hits
/// strictly closer; when nothing is reported, no object hits at all.
pub proof fn lemma_best_hit_minimal(objs: Seq<Sphere>, ray: Ray, tmin: Rat, tmax: Rat)
    requires
        rat_wf(tmin),
        rat_wf(tmax),
        sph_a(ray) > 0,
    ensures
        match best_hit(objs, ray, tmin, tmax) {
            Some(p) => 0 <= p.0 < objs.len() && sphere_hit_t(objs[p.0], ray, tmin, tmax) == Some(
                p.1,
            ) && forall|j: int|
                0 <= j < objs.len() && #[trigger] sphere_hit_t(objs[j], ray, tmin, tmax) is Some
                    ==> rle(p.1, sphere_hit_t(objs[j], ray, tmin, tmax)->Some_0),
            None => forall|j: int|
                0 <= j < objs.len() ==> #[trigger] sphere_hit_t(objs[j], ray, tmin, tmax) is None,
        },
    decreases objs.len(),
{
    if objs.len() == 0 {
        return ;
    }
    let rest = objs.drop_first();
    assert(forall|k: int| 0 <= k < rest.len() ==> rest[k] == objs[k + 1]);
    match sphere_hit_t(objs[0], ray, tmin, tmax) {
        Some(t0) => {
            assert(rat_wf(t0));
            lemma_best_hit_minimal(rest, ray, tmin, t0);
            match best_hit(rest, ray, tmin, t0) {
                Some(pr) => {
                    let p = best_hit(objs, ray, tmin, tmax)->Some_0;
                    assert(p == (pr.0 + 1, pr.1));
                    lemma_best_hit_range(rest, ray, tmin, t0);
                    lemma_sphere_hit_narrow(rest[pr.0], ray, tmin, tmax, t0);
                    assert(sphere_hit_t(objs[p.0], ray, tmin, tmax) == Some(p.1));
                    assert forall|j: int|
                        0 <= j < objs.len() && #[trigger] sphere_hit_t(
                            objs[j],
                            ray,
                            tmin,
                            tmax,
                        ) is Some implies rle(p.1, sphere_hit_t(objs[j], ray, tmin, tmax)->Some_0)
                        by {
                        let tj = sphere_hit_t(objs[j], ray, tmin, tmax)->Some_0;
                        if j == 0 {
                            assert(tj == t0);
                            assert(rle(p.1, t0));
                        } else {
                            lemma_sphere_hit_narrow(objs[j], ray, tmin, tmax, t0);
                            if rlt(tj, t0) {
                                assert(sphere_hit_t(rest[j - 1], ray, tmin, t0) == Some(tj));
                            } else {
                                assert(rle(t0, tj));
                                lemma_rlt_rle_trans(p.1, t0, tj);
                            }
                        }
                    }
                },
                None => {
                    let p = best_hit(objs, ray, tmin, tmax)->Some_0;
                    assert(p == (0int, t0));
                    assert forall|j: int|
                        0 <= j < objs.len() && #[trigger] sphere_hit_t(
                            objs[j],
                            ray,
                            tmin,
                            tmax,
                        ) is Some implies rle(p.1, sphere_hit_t(objs[j], ray, tmin, tmax)->Some_0)
                        by {
                        let tj = sphere_hit_t(objs[j], ray, tmin, tmax)->Some_0;
                        if j == 0 {
                            assert(rle(t0, t0));
                        } else {
                            lemma_sphere_hit_narrow(objs[j], ray, tmin, tmax, t0);
                            if rlt(tj, t0) {
                                assert(sphere_hit_t(rest[j - 1], ray, tmin, t0) == Some(tj));
                                assert(false);
                            } else {
                                assert(rle(t0, tj));
                            }
                        }
                    }
                },
            }
        },
        None => {
            lemma_best_hit_minimal(rest, ray, tmin, tmax);
            match best_hit(rest, ray, tmin, tmax) {
                Some(pr) => {
                    assert forall|j: int|
                        0 <= j < objs.len() && #[trigger] sphere_hit_t(
                            objs[j],
                            ray,
                            tmin,
                            tmax,
                        ) is Some implies rle(pr.1, sphere_hit_t(objs[j], ray, tmin, tmax)->Some_0)
                        by {
                        let tj = sphere_hit_t(objs[j], ray, tmin, tmax)->Some_0;
                        if j > 0 {
                            assert(sphere_hit_t(rest[j - 1], ray, tmin, tmax) == Some(tj));
                        }
                    }
                },
                None => {
                    assert forall|j: int| 0 <= j < objs.len() implies #[trigger] sphere_hit_t(
                        objs[j],
                        ray,
                        tmin,
                        tmax,
                    ) is None by {
                        if j > 0 {
                            assert(objs[j] == rest[j - 1]);
                            assert(sphere_hit_t(rest[j - 1], ray, tmin, tmax) is None);
                        }
                    }
                },
            }
        },
    }
}

/// Over two arrangements of the same objects, a hit of any object in
/// one is matched by the scan of the other: the scan of `searched`
/// reports a hit exactly when some object of `given` hits, its reported
/// parameter is a hit of one of `given`'s objects, and no object of
/// `given` hits strictly closer.  Taking `searched` as a tree's objects
/// and `given` as the list the tree was built from, this is the pruning
/// coverage and nearest-hit guarantee of the traversal.
pub proof fn lemma_best_hit_permuted(searched: Seq<Sphere>, given: Seq<Sphere>, ray: Ray, tmin: Rat, tmax: Rat)
    requires
        rat_wf(tmin),
        rat_wf(tmax),
        sph_a(ray) > 0,
        searched.to_multiset() == given.to_multiset(),
    ensures
        match best_hit(searched, ray, tmin, tmax) {
            Some(p) => (exists|k: int|
                0 <= k < given.len() && #[trigger] sphere_hit_t(given[k], ray, tmin, tmax) == Some(
                    p.1,
                )) && forall|j: int|
                0 <= j < given.len() && #[trigger] sphere_hit_t(given[j], ray, tmin, tmax) is Some
                    ==> rle(p.1, sphere_hit_t(given[j], ray, tmin, tmax)->Some_0),
            None => forall|j: int|
                0 <= j < given.len() ==> #[trigger] sphere_hit_t(given[j], ray, tmin, tmax) is None,
        },
{
    searched.to_multiset_ensures();
    given.to_multiset_ensures();
    lemma_best_hit_minimal(searched, ray, tmin, tmax);
    match best_hit(searched, ray, tmin, tmax) {
        Some(p) => {
            // the winner sits somewhere in `given`
            assert(searched.contains(searched[p.0]));
            assert(searched.to_multiset().count(searched[p.0]) > 0);
            assert(given.to_multiset().count(searched[p.0]) > 0);
            assert(given.contains(searched[p.0]));
            let k = choose|k: int| 0 <= k < given.len() && given[k] == searched[p.0];
            assert(sphere_hit_t(given[k], ray, tmin, tmax) == Some(p.1));
            // and nothing in `given` beats it, since each such object
            // also sits in `searched`
            assert forall|j: int|
                0 <= j < given.len() && #[trigger] sphere_hit_t(given[j], ray, tmin, tmax) is Some
                implies rle(p.1, sphere_hit_t(given[j], ray, tmin, tmax)->Some_0) by {
                let tj = sphere_hit_t(given[j], ray, tmin, tmax)->Some_0;
                assert(given.contains(given[j]));
                assert(given.to_multiset().count(given[j]) > 0);
                assert(searched.to_multiset().count(given[j]) > 0);
                assert(searched.contains(given[j]));
                let m = choose|m: int| 0 <= m < searched.len() && searched[m] == given[j];
                assert(sphere_hit_t(searched[m], ray, tmin, tmax) == Some(tj));
            }
        },
        None => {
            assert forall|j: int| 0 <= j < given.len() implies #[trigger] sphere_hit_t(
                given[j],
                ray,
                tmin,
                tmax,
            ) is None by {
                assert(given.contains(given[j]));
                assert(given.to_multiset().count(given[j]) > 0);
                assert(searched.to_multiset().count(given[j]) > 0);
                assert(searched.contains(given[j]));
                let m = choose|m: int| 0 <= m < searched.len() && searched[m] == given[j];
                assert(sphere_hit_t(searched[m], ray, tmin, tmax) is None);
            }
        },
    }
}

/// The near root never exceeds the far root.
proof fn lemma_roots_ordered(s: Sphere, ray: Ray)
    requires
        sph_a(ray) > 0,
        sph_disc(s, ray) >= 0,
    ensures
        rle(root_near(s, ray), root_far(s, ray)),
        sph_disc(s, ray) > 0 ==> rlt(root_near(s, ray), root_far(s, ray)),
        rat_wf(root_near(s, ray)),
        rat_wf(root_far(s, ray)),
{
    let d = sph_disc(s, ray);
    crate::sphere::lemma_isqrt_exists(d);
    let q = isqrt(d);
    assert(is_isqrt(d, q));
    if d > 0 {
        assert(q >= 1) by (nonlinear_arith)
            requires
                is_isqrt(d, q),
                d >= 1,
        ;
    }
    let a = sph_a(ray);
    let b = sph_b(s, ray);
    assert((-b - q) * a <= (-b + q) * a) by (nonlinear_arith)
        requires
            q >= 0,
            a > 0,
    ;
    if d > 0 {
        assert((-b - q) * a < (-b + q) * a) by (nonlinear_arith)
            requires
                q >= 1,
                a > 0,
        ;
    }
}

} // verus!
