//! Hierarchy construction and nearest-hit traversal, against a
//! brute-force scene.

use raytracer::bvh::BvhNode;
use raytracer::ray::Ray;
use raytracer::scalar::Scalar;
use raytracer::scene::Scene;
use raytracer::sphere::{MaterialHandle, Sphere};
use raytracer::vec3::Vec3;

/// Three unit-diameter spheres on the x axis; the scene of the classic
/// nearest-hit check, in units doubled so the half-unit radius is whole.
fn row_of_three() -> Vec<Sphere> {
    vec![
        Sphere::new(Vec3::new(-4, 0, 0), 1, MaterialHandle(0)),
        Sphere::new(Vec3::new(0, 0, 0), 1, MaterialHandle(1)),
        Sphere::new(Vec3::new(4, 0, 0), 1, MaterialHandle(2)),
    ]
}

#[test]
fn bvh_finds_the_center_sphere_head_on() {
    // ray from (0,0,-20) toward +z must hit the center sphere's front
    // surface at t = 19 (9.5 before the unit doubling), whether traced
    // brute force or through the built hierarchy
    let ray = Ray::new(Vec3::new(0, 0, -20), Vec3::new(0, 0, 1));

    let mut brute = Scene::new();
    for s in row_of_three() {
        brute.add(s);
    }
    let direct = brute.trace(&ray).expect("brute force must hit");

    let mut tree = Scene::new();
    for s in row_of_three() {
        tree.add(s);
    }
    tree.construct_bvh();
    let via_bvh = tree.trace(&ray).expect("traversal must hit");

    assert_eq!((direct.t.num, direct.t.den), (19, 1));
    assert_eq!((via_bvh.t.num, via_bvh.t.den), (19, 1));
    assert_eq!(direct.material, MaterialHandle(1));
    assert_eq!(via_bvh.material, MaterialHandle(1));
    assert_eq!(direct.point.z.num * via_bvh.point.z.den, via_bvh.point.z.num * direct.point.z.den);
}

#[test]
fn bvh_never_loses_a_hit_any_single_sphere_finds() {
    // coverage: every ray that hits some sphere in isolation is also
    // found by the traversal over the whole set
    let spheres = vec![
        Sphere::new(Vec3::new(-6, 2, 10), 2, MaterialHandle(0)),
        Sphere::new(Vec3::new(5, -3, 18), 3, MaterialHandle(1)),
        Sphere::new(Vec3::new(0, 0, 30), 4, MaterialHandle(2)),
        Sphere::new(Vec3::new(-2, 7, 22), 1, MaterialHandle(3)),
        Sphere::new(Vec3::new(9, 9, 40), 5, MaterialHandle(4)),
    ];
    let mut scene = Scene::new();
    for s in &spheres {
        scene.add(*s);
    }
    scene.construct_bvh();

    let t_min = Scalar::new(1, 1000);
    for ox in [-8i64, -3, 0, 4, 9] {
        for oy in [-4i64, 0, 6] {
            let ray = Ray::new(Vec3::new(ox, oy, -10), Vec3::new(0, 0, 1));
            let isolated_hit = spheres.iter().any(|s| {
                s.trace(&ray, t_min, Scalar::new(4611686018427387904, 1)).is_some()
            });
            let found = scene.trace(&ray).is_some();
            assert!(!isolated_hit || found, "pruning discarded a real hit");
        }
    }
}

#[test]
fn bvh_matches_brute_force_nearest_everywhere() {
    // nearest-hit: for rays crossing several spheres the traversal
    // returns the same (smallest) parameter as the linear scan
    let spheres = vec![
        Sphere::new(Vec3::new(0, 0, 12), 2, MaterialHandle(0)),
        Sphere::new(Vec3::new(0, 0, 30), 2, MaterialHandle(1)),
        Sphere::new(Vec3::new(0, 0, 50), 2, MaterialHandle(2)),
        Sphere::new(Vec3::new(1, 1, 20), 2, MaterialHandle(3)),
        Sphere::new(Vec3::new(-2, 0, 40), 3, MaterialHandle(4)),
        Sphere::new(Vec3::new(3, -1, 25), 1, MaterialHandle(5)),
    ];
    let mut brute = Scene::new();
    let mut tree = Scene::new();
    for s in &spheres {
        brute.add(*s);
        tree.add(*s);
    }
    tree.construct_bvh();

    for ox in -4i64..=4 {
        for oy in -3i64..=3 {
            let ray = Ray::new(Vec3::new(ox, oy, 0), Vec3::new(0, 0, 1));
            let a = brute.trace(&ray);
            let b = tree.trace(&ray);
            match (a, b) {
                (None, None) => {}
                (Some(x), Some(y)) => {
                    // equal as rationals
                    assert_eq!(x.t.num * y.t.den, y.t.num * x.t.den, "nearest t differs");
                }
                _ => panic!("one search hit where the other missed"),
            }
        }
    }
}

#[test]
fn bvh_node_traces_like_its_object_list() {
    let spheres = row_of_three();
    let root = BvhNode::new(spheres.clone());
    let bounds = root.bounding_box();
    // the root box encloses all three spheres
    assert!(bounds.min.x <= -5 && bounds.max.x >= 5);
    assert!(bounds.min.y <= -1 && bounds.max.y >= 1);

    let ray = Ray::new(Vec3::new(-4, 0, -20), Vec3::new(0, 0, 1));
    let hit = root
        .trace(&ray, Scalar::from_int(0), Scalar::from_int(1000))
        .expect("the left sphere is dead ahead");
    assert_eq!((hit.t.num, hit.t.den), (19, 1));
    assert_eq!(hit.material, MaterialHandle(0));
}

#[test]
fn closer_hits_win_after_narrowing() {
    // the second sphere is closer: narrowing the window to the first
    // hit must still let the closer one through
    let mut scene = Scene::new();
    scene.add(Sphere::new(Vec3::new(0, 0, 40), 2, MaterialHandle(0)));
    scene.add(Sphere::new(Vec3::new(0, 0, 10), 2, MaterialHandle(1)));
    scene.construct_bvh();
    let ray = Ray::new(Vec3::new(0, 0, 0), Vec3::new(0, 0, 1));
    let hit = scene.trace(&ray).expect("both spheres are dead ahead");
    assert_eq!((hit.t.num, hit.t.den), (8, 1));
    assert_eq!(hit.material, MaterialHandle(1));
}

#[test]
fn scene_traces_without_a_bvh_too() {
    let mut scene = Scene::new();
    scene.add(Sphere::new(Vec3::new(0, 0, 10), 2, MaterialHandle(9)));
    let ray = Ray::new(Vec3::new(0, 0, 0), Vec3::new(0, 0, 1));
    let hit = scene.trace(&ray).expect("linear scan must hit");
    assert_eq!((hit.t.num, hit.t.den), (8, 1));
    assert_eq!(hit.material, MaterialHandle(9));
    let miss = Ray::new(Vec3::new(100, 0, 0), Vec3::new(0, 0, 1));
    assert!(scene.trace(&miss).is_none());
}
