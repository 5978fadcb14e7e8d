//! Bounding volume hierarchy: builder and nearest-hit traversal.
//!
//! The builder recursively partitions the object list into a binary tree.
//! At each level it sorts the slice by the objects' bounding-box centers
//! along the widest axis of the enclosing box, then picks the split index
//! minimizing a volume-weighted cost (volume of each side times the
//! number of objects on it; the first minimal index wins).  Every node
//! carries the tight enclosing box of its subtree.
//!
//! The traversal prunes a subtree when the slab test misses its box, and
//! narrows the search window to the left child's hit distance before
//! descending right — proved to return exactly the nearest hit that a
//! brute-force scan over the tree's objects would find.

use vstd::prelude::*;
use vstd::seq_lib::{group_seq_properties, lemma_multiset_commutative};
use vstd::seq_lib::to_multiset_update;

use crate::aabb::{box_inside, enclosing, volume_of, AABB};
use crate::coverage::lemma_hit_implies_slab;
use crate::nearest::{best_hit, lemma_best_hit_all_miss, lemma_best_hit_concat};
use crate::ray::Ray;
use crate::scalar::Scalar;
use crate::sphere::{hit_for, lemma_direction_dot_positive, sphere_box, sphere_hit_t, HitRecord,
    Sphere};

verus! {

/// Hard cap on the number of objects in one build, so that the cost
/// products in the split scan stay far inside `i128`.
pub const MAX_OBJECTS: usize = 0x1000_0000;

pub enum BvhNode {
    /// A single object together with its bounding box.
    Leaf(AABB, Sphere),
    /// Two subtrees together with the box enclosing both.
    Split(AABB, Box<BvhNode>, Box<BvhNode>),
}

impl BvhNode {
    /// The objects stored beneath this node, left to right.
    pub open spec fn objects(self) -> Seq<Sphere>
        decreases self,
    {
        match self {
            BvhNode::Leaf(_, s) => seq![s],
            BvhNode::Split(_, l, r) => l.objects() + r.objects(),
        }
    }

    /// The bounding box recorded on this node.
    pub open spec fn bounds(self) -> AABB {
        match self {
            BvhNode::Leaf(b, _) => b,
            BvhNode::Split(b, _, _) => b,
        }
    }

    /// Structural invariant: each node's box is the tight enclosure of
    /// its subtree — a leaf carries its object's box, a split carries the
    /// enclosing box of its children's boxes.
    pub open spec fn wf(self) -> bool
        decreases self,
    {
        match self {
            BvhNode::Leaf(b, s) => s.wf() && b == sphere_box(s),
            BvhNode::Split(b, l, r) => l.wf() && r.wf() && b == enclosing(l.bounds(), r.bounds()),
        }
    }

    /// A well-formed tree holds at least one object, all well-formed.
    pub proof fn lemma_wf_objects(self)
        requires
            self.wf(),
        ensures
            self.objects().len() >= 1,
            forall|i: int| 0 <= i < self.objects().len() ==> (#[trigger] self.objects()[i]).wf(),
        decreases self,
    {
        match self {
            BvhNode::Leaf(_, _) => {},
            BvhNode::Split(_, l, r) => {
                l.lemma_wf_objects();
                r.lemma_wf_objects();
            },
        }
    }

    /// A well-formed tree records a well-formed box.
    pub proof fn lemma_wf_bounds(self)
        requires
            self.wf(),
        ensures
            self.bounds().wf(),
        decreases self,
    {
        match self {
            BvhNode::Leaf(_, _) => {},
            BvhNode::Split(_, l, r) => {
                l.lemma_wf_bounds();
                r.lemma_wf_bounds();
            },
        }
    }

    /// The box recorded on this node.
    pub fn bounding_box(&self) -> (r: AABB)
        ensures
            r == self.bounds(),
    {
        match self {
            BvhNode::Leaf(b, _) => *b,
            BvhNode::Split(b, _, _) => *b,
        }
    }
}

/// The box center coordinate a build sorts by along `axis`; for spheres
/// the box center is the sphere's own center.
pub open spec fn key_on(s: Sphere, axis: int) -> int {
    if axis == 0 {
        s.center.x as int
    } else if axis == 1 {
        s.center.y as int
    } else {
        s.center.z as int
    }
}

/// Tight enclosing box of a non-empty object sequence, folded from the
/// left exactly as the builder computes it.
pub open spec fn enclosing_of_seq(s: Seq<Sphere>) -> AABB
    recommends
        s.len() >= 1,
    decreases s.len(),
{
    if s.len() <= 1 {
        sphere_box(s[0])
    } else {
        enclosing(enclosing_of_seq(s.drop_last()), sphere_box(s.last()))
    }
}

/// Split-axis choice: the axis of the largest extent of `b`, lowest axis
/// index winning ties.
pub open spec fn split_axis_of(b: AABB) -> int {
    let ex = b.max.x - b.min.x;
    let ey = b.max.y - b.min.y;
    let ez = b.max.z - b.min.z;
    let a01 = if ey > ex {
        1int
    } else {
        0int
    };
    let e01 = if ey > ex {
        ey
    } else {
        ex
    };
    if ez > e01 {
        2int
    } else {
        a01
    }
}

/// Cost of splitting `objs` before index `i`: each side's enclosing-box
/// volume weighted by the number of objects on that side.
pub open spec fn split_cost(objs: Seq<Sphere>, i: int) -> int
    recommends
        1 <= i < objs.len(),
{
    volume_of(enclosing_of_seq(objs.subrange(0, i))) * i + volume_of(
        enclosing_of_seq(objs.subrange(i, objs.len() as int)),
    ) * (objs.len() - i)
}

/// Tight enclosing box of `objects[from..to]`.
fn enclosing_range(objects: &Vec<Sphere>, from: usize, to: usize) -> (r: AABB)
    requires
        from < to <= objects@.len(),
        forall|i: int| 0 <= i < objects@.len() ==> (#[trigger] objects@[i]).wf(),
    ensures
        r == enclosing_of_seq(objects@.subrange(from as int, to as int)),
        r.wf(),
{
    let mut bb = objects[from].bounding_box();
    proof {
        assert(objects@.subrange(from as int, from + 1) =~= seq![objects@[from as int]]);
    }
    let mut j: usize = from + 1;
    while j < to
        invariant
            from < j <= to <= objects@.len(),
            forall|i: int| 0 <= i < objects@.len() ==> (#[trigger] objects@[i]).wf(),
            bb == enclosing_of_seq(objects@.subrange(from as int, j as int)),
            bb.wf(),
        decreases to - j,
    {
        let obb = objects[j].bounding_box();
        proof {
            let pre = objects@.subrange(from as int, j as int);
            let post = objects@.subrange(from as int, j + 1);
            assert(post.drop_last() =~= pre);
            assert(post.last() == objects@[j as int]);
        }
        bb = AABB::enclosing_box(&bb, &obb);
        j += 1;
    }
    bb
}

/// Axis of the largest extent of `b` (0, 1 or 2), per [`split_axis_of`].
fn select_axis(b: &AABB) -> (r: usize)
    requires
        b.wf(),
    ensures
        r == split_axis_of(*b),
        r < 3,
{
    let ex = b.max.x - b.min.x;
    let ey = b.max.y - b.min.y;
    let ez = b.max.z - b.min.z;
    let mut longest: usize = 0;
    let mut extent: i64 = ex;
    if ey > extent {
        longest = 1;
        extent = ey;
    }
    if ez > extent {
        longest = 2;
    }
    longest
}

/// The sort key of `s` along `axis`.
fn axis_key(s: &Sphere, axis: usize) -> (r: i64)
    requires
        axis < 3,
    ensures
        r == key_on(*s, axis as int),
{
    if axis == 0 {
        s.center.x
    } else if axis == 1 {
        s.center.y
    } else {
        s.center.z
    }
}

/// Swapping two positions of a sequence preserves its multiset.
proof fn lemma_swap_preserves_multiset(s: Seq<Sphere>, i: int, j: int)
    requires
        0 <= i < s.len(),
        0 <= j < s.len(),
        i != j,
    ensures
        s.update(i, s[j]).update(j, s[i]).to_multiset() == s.to_multiset(),
{
    broadcast use group_seq_properties;

    let s1 = s.update(i, s[j]);
    let s2 = s1.update(j, s[i]);
    to_multiset_update(s, i, s[j]);
    to_multiset_update(s1, j, s[i]);
    s.to_multiset_ensures();
    assert(s.contains(s[i]));
    assert(s.contains(s[j]));
    assert(s1[j] == s[j]);
    assert(s2.to_multiset() =~= s.to_multiset());
}

/// Sorts the objects by their box center along `axis`, in place.
fn sort_by_key(objects: &mut Vec<Sphere>, axis: usize)
    requires
        axis < 3,
    ensures
        final(objects)@.len() == old(objects)@.len(),
        final(objects)@.to_multiset() == old(objects)@.to_multiset(),
        forall|p: int, q: int|
            0 <= p < q < final(objects)@.len() ==> key_on(#[trigger] final(objects)@[p], axis as int)
                <= key_on(#[trigger] final(objects)@[q], axis as int),
{
    let n = objects.len();
    let mut i: usize = 0;
    while i < n
        invariant
            axis < 3,
            i <= n,
            n == objects@.len(),
            objects@.to_multiset() == old(objects)@.to_multiset(),
            forall|p: int, q: int|
                0 <= p < q < i ==> key_on(#[trigger] objects@[p], axis as int) <= key_on(
                    #[trigger] objects@[q],
                    axis as int,
                ),
            forall|p: int, q: int|
                0 <= p < i <= q < n ==> key_on(#[trigger] objects@[p], axis as int) <= key_on(
                    #[trigger] objects@[q],
                    axis as int,
                ),
        decreases n - i,
    {
        let mut m: usize = i;
        let mut j: usize = i + 1;
        while j < n
            invariant
                axis < 3,
                i <= m < j <= n,
                n == objects@.len(),
                forall|q: int|
                    i <= q < j ==> key_on(objects@[m as int], axis as int) <= key_on(
                        #[trigger] objects@[q],
                        axis as int,
                    ),
            decreases n - j,
        {
            if axis_key(&objects[j], axis) < axis_key(&objects[m], axis) {
                m = j;
            }
            j += 1;
        }
        if m != i {
            let ghost pre = objects@;
            let a = objects[i];
            let b = objects[m];
            objects.set(i, b);
            objects.set(m, a);
            proof {
                lemma_swap_preserves_multiset(pre, i as int, m as int);
                assert(objects@ =~= pre.update(i as int, pre[m as int]).update(
                    m as int,
                    pre[i as int],
                ));
            }
        }
        i += 1;
    }
}

/// Products in the split-cost scan fit in `i128`.
proof fn lemma_cost_product_bounded(vol: int, n: int)
    by (nonlinear_arith)
    requires
        0 <= vol <= 0x40_0000_0000_0000,
        0 <= n <= 0x1000_0000,
    ensures
        0 <= vol * n <= 0x4_0000_0000_0000_0000_0000,
{
}

/// The split index with the least cost, scanning left to right with the
/// first minimum winning.
fn best_split(objects: &Vec<Sphere>) -> (r: usize)
    requires
        2 <= objects@.len() <= MAX_OBJECTS,
        forall|i: int| 0 <= i < objects@.len() ==> (#[trigger] objects@[i]).wf(),
    ensures
        1 <= r < objects@.len(),
        forall|i: int| 1 <= i < objects@.len() ==> split_cost(objects@, r as int) <= #[trigger] split_cost(objects@, i),
        forall|i: int| 1 <= i < r ==> split_cost(objects@, r as int) < #[trigger] split_cost(objects@, i),
{
    let n = objects.len();
    let mut best: usize = 1;
    let mut best_cost: i128 = split_cost_at(objects, 1);
    let mut i: usize = 2;
    while i < n
        invariant
            2 <= n == objects@.len() <= MAX_OBJECTS,
            forall|k: int| 0 <= k < objects@.len() ==> (#[trigger] objects@[k]).wf(),
            1 <= best < i <= n,
            best_cost == split_cost(objects@, best as int),
            forall|k: int| 1 <= k < i ==> split_cost(objects@, best as int) <= #[trigger] split_cost(objects@, k),
            forall|k: int| 1 <= k < best ==> split_cost(objects@, best as int) < #[trigger] split_cost(objects@, k),
        decreases n - i,
    {
        let cost = split_cost_at(objects, i);
        if cost < best_cost {
            best = i;
            best_cost = cost;
        }
        i += 1;
    }
    best
}

/// Cost of splitting before index `i`, exactly [`split_cost`].
fn split_cost_at(objects: &Vec<Sphere>, i: usize) -> (r: i128)
    requires
        2 <= objects@.len() <= MAX_OBJECTS,
        1 <= i < objects@.len(),
        forall|k: int| 0 <= k < objects@.len() ==> (#[trigger] objects@[k]).wf(),
    ensures
        r == split_cost(objects@, i as int),
{
    let n = objects.len();
    let lb = enclosing_range(objects, 0, i);
    let rb = enclosing_range(objects, i, n);
    let lv = lb.volume();
    let rv = rb.volume();
    proof {
        lemma_cost_product_bounded(lv as int, i as int);
        lemma_cost_product_bounded(rv as int, n - i);
    }
    lv * (i as i128) + rv * ((n - i) as i128)
}

impl BvhNode {
    /// Recursive builder over an owned object list.
    fn construct(objects: Vec<Sphere>) -> (r: BvhNode)
        requires
            1 <= objects@.len() <= MAX_OBJECTS,
            forall|i: int| 0 <= i < objects@.len() ==> (#[trigger] objects@[i]).wf(),
        ensures
            r.wf(),
            r.objects().to_multiset() == objects@.to_multiset(),
        decreases objects@.len(),
    {
        let ghost input = objects@;
        let n = objects.len();
        if n == 1 {
            let s = objects[0];
            let bb = s.bounding_box();
            proof {
                assert(input =~= seq![s]);
            }
            BvhNode::Leaf(bb, s)
        } else {
            let mut objects = objects;
            let whole = enclosing_range(&objects, 0, n);
            let axis = select_axis(&whole);
            sort_by_key(&mut objects, axis);
            proof {
                lemma_multiset_wf(input, objects@);
            }
            let k = best_split(&objects);
            let mut left: Vec<Sphere> = Vec::new();
            let mut idx: usize = 0;
            while idx < k
                invariant
                    idx <= k < n == objects@.len(),
                    left@ =~= objects@.subrange(0, idx as int),
                decreases k - idx,
            {
                left.push(objects[idx]);
                proof {
                    assert(left@ =~= objects@.subrange(0, idx + 1));
                }
                idx += 1;
            }
            let mut right: Vec<Sphere> = Vec::new();
            let mut idx: usize = k;
            while idx < n
                invariant
                    k <= idx <= n == objects@.len(),
                    right@ =~= objects@.subrange(k as int, idx as int),
                decreases n - idx,
            {
                right.push(objects[idx]);
                proof {
                    assert(right@ =~= objects@.subrange(k as int, idx + 1));
                }
                idx += 1;
            }
            proof {
                assert(objects@ =~= left@ + right@);
                lemma_multiset_commutative(left@, right@);
                assert forall|i: int| 0 <= i < left@.len() implies (#[trigger] left@[i]).wf() by {
                    assert(left@[i] == objects@[i]);
                }
                assert forall|i: int| 0 <= i < right@.len() implies (#[trigger] right@[i]).wf() by {
                    assert(right@[i] == objects@[k + i]);
                }
            }
            let l = BvhNode::construct(left);
            let rgt = BvhNode::construct(right);
            proof {
                l.lemma_wf_bounds();
                rgt.lemma_wf_bounds();
            }
            let bounds = AABB::enclosing_box(&l.bounding_box(), &rgt.bounding_box());
            let node = BvhNode::Split(bounds, Box::new(l), Box::new(rgt));
            proof {
                lemma_multiset_commutative(node->Split_1.objects(), node->Split_2.objects());
            }
            node
        }
    }

    /// Builds the hierarchy for a non-empty object list.  Building over
    /// zero objects is a programming error, excluded by precondition.
    pub fn new(objects: Vec<Sphere>) -> (r: BvhNode)
        requires
            1 <= objects@.len() <= MAX_OBJECTS,
            forall|i: int| 0 <= i < objects@.len() ==> (#[trigger] objects@[i]).wf(),
        ensures
            r.wf(),
            r.objects().to_multiset() == objects@.to_multiset(),
    {
        BvhNode::construct(objects)
    }
}

impl BvhNode {
    /// Every object's box lies inside its node's recorded bounds.
    pub proof fn lemma_boxes_inside(self)
        requires
            self.wf(),
        ensures
            forall|i: int|
                0 <= i < self.objects().len() ==> box_inside(
                    sphere_box(#[trigger] self.objects()[i]),
                    self.bounds(),
                ),
        decreases self,
    {
        match self {
            BvhNode::Leaf(_, s) => {
                assert(self.objects() =~= seq![s]);
            },
            BvhNode::Split(b, l, r) => {
                l.lemma_boxes_inside();
                r.lemma_boxes_inside();
                l.lemma_wf_bounds();
                r.lemma_wf_bounds();
                let objs = self.objects();
                assert forall|i: int| 0 <= i < objs.len() implies box_inside(
                    sphere_box(#[trigger] objs[i]),
                    self.bounds(),
                ) by {
                    if i < l.objects().len() {
                        assert(objs[i] == l.objects()[i]);
                    } else {
                        assert(objs[i] == r.objects()[i - l.objects().len()]);
                    }
                }
            },
        }
    }

    /// Traces the ray through the tree over the open window
    /// `(min_t, max_t)`: prune on a box miss; at a leaf ask the object;
    /// at a split search left first, then search right with the window
    /// narrowed to the left hit, preferring a (strictly closer) right
    /// hit.  The result is exactly the nearest-scan result over the
    /// tree's objects.
    pub fn trace(&self, ray: &Ray, min_t: Scalar, max_t: Scalar) -> (res: Option<HitRecord>)
        requires
            self.wf(),
            ray.wf(),
            min_t.wf(),
            max_t.wf(),
        ensures
            match res {
                Some(rec) => rec.wf() && match best_hit(self.objects(), *ray, min_t@, max_t@) {
                    Some(p) => rec.t@ == p.1 && 0 <= p.0 < self.objects().len() && hit_for(
                        self.objects()[p.0],
                        *ray,
                        p.1,
                        rec,
                    ),
                    None => false,
                },
                None => best_hit(self.objects(), *ray, min_t@, max_t@) is None,
            },
        decreases *self,
    {
        match self {
            BvhNode::Leaf(_, s) => {
                let r = s.trace(ray, min_t, max_t);
                proof {
                    let objs = self.objects();
                    assert(objs =~= seq![*s]);
                    assert(objs.drop_first() =~= Seq::<Sphere>::empty());
                    match sphere_hit_t(*s, *ray, min_t@, max_t@) {
                        Some(t0) => {
                            assert(best_hit(Seq::<Sphere>::empty(), *ray, min_t@, t0) is None);
                            assert(best_hit(objs, *ray, min_t@, max_t@) == Some((0int, t0)));
                        },
                        None => {
                            assert(best_hit(Seq::<Sphere>::empty(), *ray, min_t@, max_t@) is None);
                            assert(best_hit(objs, *ray, min_t@, max_t@) is None);
                        },
                    }
                }
                r
            },
            BvhNode::Split(_, left, right) => {
                let ghost lobjs = left.objects();
                let ghost robjs = right.objects();
                proof {
                    assert(self.objects() == lobjs + robjs);
                    self.lemma_wf_bounds();
                }
                if self.bounding_box().intersect(ray, min_t, max_t) {
                    let lres = left.trace(ray, min_t, max_t);
                    proof {
                        lemma_best_hit_concat(lobjs, robjs, *ray, min_t@, max_t@);
                    }
                    match lres {
                        Some(lrec) => {
                            let rres = right.trace(ray, min_t, lrec.t);
                            match rres {
                                Some(rrec) => Some(rrec),
                                None => Some(lrec),
                            }
                        },
                        None => right.trace(ray, min_t, max_t),
                    }
                } else {
                    proof {
                        self.lemma_boxes_inside();
                        self.lemma_wf_objects();
                        let objs = self.objects();
                        assert forall|i: int| 0 <= i < objs.len() implies sphere_hit_t(
                            #[trigger] objs[i],
                            *ray,
                            min_t@,
                            max_t@,
                        ) is None by {
                            if sphere_hit_t(objs[i], *ray, min_t@, max_t@) is Some {
                                lemma_hit_implies_slab(
                                    objs[i],
                                    self.bounds(),
                                    *ray,
                                    min_t@,
                                    max_t@,
                                );
                            }
                        }
                        lemma_best_hit_all_miss(objs, *ray, min_t@, max_t@);
                    }
                    None
                }
            },
        }
    }
}

/// Multiset equality carries elementwise well-formedness across.
proof fn lemma_multiset_wf(pre: Seq<Sphere>, post: Seq<Sphere>)
    requires
        pre.to_multiset() == post.to_multiset(),
        forall|i: int| 0 <= i < pre.len() ==> (#[trigger] pre[i]).wf(),
    ensures
        forall|i: int| 0 <= i < post.len() ==> (#[trigger] post[i]).wf(),
{
    pre.to_multiset_ensures();
    post.to_multiset_ensures();
    assert forall|i: int| 0 <= i < post.len() implies (#[trigger] post[i]).wf() by {
        assert(post.contains(post[i]));
        assert(post.to_multiset().count(post[i]) > 0);
        assert(pre.contains(post[i]));
        let j = choose|j: int| 0 <= j < pre.len() && pre[j] == post[i];
        assert(pre[j].wf());
    }
}

} // verus!
