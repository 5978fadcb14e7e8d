//! A scene: an object list and, once built, its bounding volume
//! hierarchy.
//!
//! Tracing uses the hierarchy when it has been built and a linear
//! nearest scan otherwise; both return exactly the nearest-scan result
//! over the scene's objects, in the fixed window starting just in front
//! of the ray origin.

use vstd::prelude::*;

use crate::bvh::{BvhNode, MAX_OBJECTS};
use crate::nearest::best_hit;
use crate::ray::Ray;
use crate::scalar::{Rat, Scalar, SCALAR_LIMIT};
use crate::sphere::{hit_for, sphere_hit_t, HitRecord, Sphere};

verus! {

/// Lower end of every scene trace window: `1/1000` of a unit along the
/// ray, so a bounced ray does not immediately re-hit its own surface.
pub open spec fn scene_t_min() -> Rat {
    Rat { num: 1, den: 1000 }
}

/// Upper end of every scene trace window: far beyond any parameter a
/// well-formed object can report.
pub open spec fn scene_t_max() -> Rat {
    Rat { num: SCALAR_LIMIT as int, den: 1 }
}

pub struct Scene {
    objects: Vec<Sphere>,
    bvh_root: Option<BvhNode>,
}

impl Scene {
    /// The objects a trace searches: the tree's objects once the
    /// hierarchy is built, the plain list before.
    pub closed spec fn object_seq(self) -> Seq<Sphere> {
        match self.bvh_root {
            Some(root) => root.objects(),
            None => self.objects@,
        }
    }

    /// Whether the hierarchy has been built.
    pub closed spec fn has_bvh(self) -> bool {
        self.bvh_root is Some
    }

    /// Objects well-formed; the hierarchy, if built, well-formed.
    pub closed spec fn wf(self) -> bool {
        match self.bvh_root {
            Some(root) => root.wf(),
            None => forall|i: int|
                0 <= i < self.objects@.len() ==> (#[trigger] self.objects@[i]).wf(),
        }
    }

    /// An empty scene.
    pub fn new() -> (r: Scene)
        ensures
            r.wf(),
            !r.has_bvh(),
            r.object_seq() =~= Seq::<Sphere>::empty(),
    {
        Scene { objects: Vec::new(), bvh_root: None }
    }

    /// Adds an object.  Objects are added before the hierarchy is built;
    /// the builder takes ownership of them.
    pub fn add(&mut self, object: Sphere)
        requires
            old(self).wf(),
            !old(self).has_bvh(),
            object.wf(),
        ensures
            final(self).wf(),
            !final(self).has_bvh(),
            final(self).object_seq() == old(self).object_seq().push(object),
    {
        self.objects.push(object);
    }

    /// Builds the hierarchy from the objects added so far.  Building
    /// over zero objects is a programming error, excluded by
    /// precondition.
    pub fn construct_bvh(&mut self)
        requires
            old(self).wf(),
            !old(self).has_bvh(),
            1 <= old(self).object_seq().len() <= MAX_OBJECTS,
        ensures
            final(self).wf(),
            final(self).has_bvh(),
            final(self).object_seq().to_multiset() == old(self).object_seq().to_multiset(),
    {
        let mut taken: Vec<Sphere> = Vec::new();
        core::mem::swap(&mut self.objects, &mut taken);
        self.bvh_root = Some(BvhNode::new(taken));
    }

    /// Nearest hit along the ray, over the window
    /// `(scene_t_min(), scene_t_max())`.
    pub fn trace(&self, ray: &Ray) -> (res: Option<HitRecord>)
        requires
            self.wf(),
            ray.wf(),
        ensures
            match res {
                Some(rec) => rec.wf() && match best_hit(
                    self.object_seq(),
                    *ray,
                    scene_t_min(),
                    scene_t_max(),
                ) {
                    Some(p) => rec.t@ == p.1 && 0 <= p.0 < self.object_seq().len() && hit_for(
                        self.object_seq()[p.0],
                        *ray,
                        p.1,
                        rec,
                    ),
                    None => false,
                },
                None => best_hit(self.object_seq(), *ray, scene_t_min(), scene_t_max()) is None,
            },
    {
        let t_min = Scalar { num: 1, den: 1000 };
        let t_max = Scalar { num: SCALAR_LIMIT, den: 1 };
        match &self.bvh_root {
            Some(root) => root.trace(ray, t_min, t_max),
            None => {
                let ghost objs = self.objects@;
                let mut closest = t_max;
                let mut best: Option<HitRecord> = None;
                let n = self.objects.len();
                let mut i: usize = 0;
                while i < n
                    invariant
                        self.wf(),
                        ray.wf(),
                        !self.has_bvh(),
                        objs == self.objects@,
                        i <= n == objs.len(),
                        t_min == (Scalar { num: 1, den: 1000 }),
                        closest.wf(),
                        match best {
                            Some(rec) => rec.wf() && closest == rec.t && match best_hit(
                                objs.subrange(0, i as int),
                                *ray,
                                scene_t_min(),
                                scene_t_max(),
                            ) {
                                Some(p) => rec.t@ == p.1 && 0 <= p.0 < i && hit_for(
                                    objs[p.0],
                                    *ray,
                                    p.1,
                                    rec,
                                ),
                                None => false,
                            },
                            None => closest == (Scalar { num: SCALAR_LIMIT, den: 1 }) && best_hit(
                                objs.subrange(0, i as int),
                                *ray,
                                scene_t_min(),
                                scene_t_max(),
                            ) is None,
                        },
                    decreases n - i,
                {
                    let ghost prefix = objs.subrange(0, i as int);
                    let ghost single = seq![objs[i as int]];
                    proof {
                        crate::nearest::lemma_best_hit_concat(
                            prefix,
                            single,
                            *ray,
                            scene_t_min(),
                            scene_t_max(),
                        );
                        assert(prefix + single =~= objs.subrange(0, i + 1));
                        assert(single.drop_first() =~= Seq::<Sphere>::empty());
                    }
                    let res = self.objects[i].trace(ray, t_min, closest);
                    proof {
                        match best {
                            Some(rec) => {
                                match best_hit(prefix, *ray, scene_t_min(), scene_t_max()) {
                                    Some(p) => {
                                        lemma_singleton_hit(objs[i as int], *ray, scene_t_min(), p.1);
                                    },
                                    None => {},
                                }
                            },
                            None => {
                                lemma_singleton_hit(
                                    objs[i as int],
                                    *ray,
                                    scene_t_min(),
                                    scene_t_max(),
                                );
                            },
                        }
                    }
                    if let Some(rec) = res {
                        closest = rec.t;
                        best = Some(rec);
                    }
                    i += 1;
                }
                proof {
                    assert(objs.subrange(0, n as int) =~= objs);
                }
                best
            },
        }
    }
}

/// Unfolds the nearest scan of a single object.
proof fn lemma_singleton_hit(s: Sphere, ray: Ray, tmin: Rat, tmax: Rat)
    ensures
        best_hit(seq![s], ray, tmin, tmax) == (match sphere_hit_t(s, ray, tmin, tmax) {
            Some(t) => Some((0int, t)),
            None => None::<(int, Rat)>,
        }),
{
    assert(seq![s].drop_first() =~= Seq::<Sphere>::empty());
    match sphere_hit_t(s, ray, tmin, tmax) {
        Some(t) => {
            assert(best_hit(Seq::<Sphere>::empty(), ray, tmin, t) is None);
        },
        None => {
            assert(best_hit(Seq::<Sphere>::empty(), ray, tmin, tmax) is None);
        },
    }
}

} // verus!
