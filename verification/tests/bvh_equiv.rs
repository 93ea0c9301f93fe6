use raytracer::fx::{ONE, FX_MAX};
use raytracer::vec3::Vec3;
use raytracer::ray::Ray;
use raytracer::material::{Material, Lamber};
use raytracer::shapes::{Sphere, XyRect, XzRect, YzRect};
use raytracer::bvh::{Shape, Hitlist, BvhNode, Boxes, Translate};
use raytracer::rng::{rng_new, randfx};

fn mat(r: i64, g: i64, b: i64) -> Material {
    Material::Lamber(Lamber::cnew(Vec3::new(r, g, b)))
}

fn scene_shapes() -> Vec<Shape> {
    let mut v: Vec<Shape> = Vec::new();
    let centers = [
        (0, 0, 0),
        (3, 1, -2),
        (-4, 2, 5),
        (7, -3, 1),
        (-2, -2, -2),
        (5, 5, 5),
        (1, -6, 3),
        (-7, 4, -4),
    ];
    for (i, (x, y, z)) in centers.iter().enumerate() {
        v.push(Shape::Sphere(Sphere::new(
            Vec3::new(x * ONE, y * ONE, z * ONE),
            ONE + (i as i64) * 7000,
            mat(ONE / 2, ONE / 3, ONE / 4),
        )));
    }
    v.push(Shape::Xy(XyRect::new(
        -3 * ONE,
        3 * ONE,
        -3 * ONE,
        3 * ONE,
        -8 * ONE,
        mat(ONE / 2, 0, 0),
    )));
    v.push(Shape::Xz(XzRect::new(
        -6 * ONE,
        6 * ONE,
        -6 * ONE,
        6 * ONE,
        -9 * ONE,
        mat(0, ONE / 2, 0),
    )));
    v.push(Shape::Yz(YzRect::new(
        -5 * ONE,
        5 * ONE,
        -5 * ONE,
        5 * ONE,
        9 * ONE,
        mat(0, 0, ONE / 2),
    )));
    v.push(Shape::Boxes(Boxes::new(
        Vec3::new(-2 * ONE, -2 * ONE, 6 * ONE),
        Vec3::new(ONE, ONE, 8 * ONE),
        mat(ONE / 3, ONE / 3, ONE / 3),
    )));
    v.push(Shape::Translate(Translate::new(
        Shape::Sphere(Sphere::new(Vec3::zero(), 2 * ONE, mat(ONE / 2, ONE / 2, 0))),
        Vec3::new(-6 * ONE, -6 * ONE, -6 * ONE),
    )));
    v
}

// The hierarchy and the brute-force scan agree on the nearest hit for a
// large sample of random rays over a fixed primitive set.
#[test]
fn bvh_matches_brute_force() {
    let mut build_rng = rng_new(42);
    let bvh = BvhNode::fnew(Hitlist { shapes: scene_shapes() }, 0, ONE, &mut build_rng);
    let flat = Hitlist { shapes: scene_shapes() };

    let mut ray_rng = rng_new(1234);
    let mut hits = 0u32;
    let mut misses = 0u32;
    for _ in 0..400 {
        let org = Vec3::new(
            randfx(&mut ray_rng, -12 * ONE, 12 * ONE),
            randfx(&mut ray_rng, -12 * ONE, 12 * ONE),
            randfx(&mut ray_rng, -12 * ONE, 12 * ONE),
        );
        let dir = Vec3::new(
            randfx(&mut ray_rng, -ONE, ONE),
            randfx(&mut ray_rng, -ONE, ONE),
            randfx(&mut ray_rng, -ONE, ONE),
        );
        let r = Ray::new(org, dir, 0);
        let mut rng_a = rng_new(7);
        let mut rng_b = rng_new(7);
        let via_bvh = bvh.hit(r, 66, FX_MAX, &mut rng_a);
        let via_scan = flat.hit(r, 66, FX_MAX, &mut rng_b);
        match (via_bvh, via_scan) {
            (Some((ra, _)), Some((rb, _))) => {
                assert_eq!(ra.t, rb.t, "nearest-hit parameter must agree");
                hits += 1;
            }
            (None, None) => {
                misses += 1;
            }
            (a, b) => {
                panic!(
                    "hit/no-hit outcome differs: bvh = {:?}, scan = {:?}",
                    a.map(|p| p.0.t),
                    b.map(|p| p.0.t)
                );
            }
        }
    }
    assert!(hits > 20, "the sample must actually exercise hits ({hits})");
    assert!(misses > 20, "the sample must actually exercise misses ({misses})");
}
