use raytracer::fx::{ONE, FX_MAX};
use raytracer::vec3::Vec3;
use raytracer::ray::Ray;
use raytracer::aabb::AABB;
use raytracer::material::{Material, Lamber};
use raytracer::shapes::{Sphere, MovingSphere, XyRect};
use raytracer::bvh::{Shape, Translate, RotateY, ConstantMedium, Hitlist};
use raytracer::rng::rng_new;

fn gray() -> Material {
    Material::Lamber(Lamber::cnew(Vec3::new(ONE / 2, ONE / 2, ONE / 2)))
}

// A ray from (0,0,-5) along +z against the unit sphere at the origin hits at
// t = 4, on the front face, with the normal pointing back at the ray.
#[test]
fn sphere_hit_orientation_outside() {
    let s = Sphere::new(Vec3::zero(), ONE, gray());
    let r = Ray::new(Vec3::new(0, 0, -5 * ONE), Vec3::new(0, 0, ONE), 0);
    let rec = s.hit(r, 66, FX_MAX).expect("must hit");
    assert_eq!(rec.t, 4 * ONE);
    assert!(rec.front_face);
    assert_eq!(rec.nf, Vec3::new(0, 0, -ONE));
    assert_eq!(rec.p, Vec3::new(0, 0, -ONE));
}

// A ray starting inside the sphere reports a back-face hit.
#[test]
fn sphere_hit_orientation_inside() {
    let s = Sphere::new(Vec3::zero(), ONE, gray());
    let r = Ray::new(Vec3::zero(), Vec3::new(0, 0, ONE), 0);
    let rec = s.hit(r, 66, FX_MAX).expect("must hit");
    assert_eq!(rec.t, ONE);
    assert!(!rec.front_face);
}

#[test]
fn sphere_miss() {
    let s = Sphere::new(Vec3::zero(), ONE, gray());
    let r = Ray::new(Vec3::new(0, 3 * ONE, -5 * ONE), Vec3::new(0, 0, ONE), 0);
    assert!(s.hit(r, 66, FX_MAX).is_none());
}

#[test]
fn rect_hit_and_bounds() {
    let rect = XyRect::new(-ONE, ONE, -ONE, ONE, 2 * ONE, gray());
    let hit = rect.hit(Ray::new(Vec3::zero(), Vec3::new(0, 0, ONE), 0), 66, FX_MAX);
    let rec = hit.expect("center ray must hit the plane");
    assert_eq!(rec.t, 2 * ONE);
    // outside the declared bounds the plane crossing is rejected
    let miss = rect.hit(
        Ray::new(Vec3::new(3 * ONE, 0, 0), Vec3::new(0, 0, ONE), 0),
        66,
        FX_MAX,
    );
    assert!(miss.is_none());
}

#[test]
fn moving_sphere_center_interpolates() {
    let s = MovingSphere::new(
        Vec3::zero(),
        Vec3::new(10 * ONE, 0, 0),
        0,
        ONE,
        ONE,
        gray(),
    );
    assert_eq!(s.ct(0), Vec3::zero());
    assert_eq!(s.ct(ONE), Vec3::new(10 * ONE, 0, 0));
    assert_eq!(s.ct(ONE / 2), Vec3::new(5 * ONE, 0, 0));
}

#[test]
fn aabb_slab_test() {
    let b = AABB::new(Vec3::new(-ONE, -ONE, -ONE), Vec3::new(ONE, ONE, ONE));
    let toward = Ray::new(Vec3::new(0, 0, -5 * ONE), Vec3::new(0, 0, ONE), 0);
    assert!(b.hit(toward, 1, FX_MAX));
    let away = Ray::new(Vec3::new(0, 0, -5 * ONE), Vec3::new(0, 0, -ONE), 0);
    assert!(!b.hit(away, 1, FX_MAX));
    let sideways = Ray::new(Vec3::new(0, 5 * ONE, -5 * ONE), Vec3::new(0, 0, ONE), 0);
    assert!(!b.hit(sideways, 1, FX_MAX));
}

// Translating a sphere shifts where it is hit.
#[test]
fn translate_shifts_hits() {
    let mut rng = rng_new(7);
    let inner = Shape::Sphere(Sphere::new(Vec3::zero(), ONE, gray()));
    let moved = Shape::Translate(Translate::new(inner, Vec3::new(0, 0, 10 * ONE)));
    let r = Ray::new(Vec3::new(0, 0, -5 * ONE), Vec3::new(0, 0, ONE), 0);
    let (rec, _) = moved.hit(r, 66, FX_MAX, &mut rng).expect("must hit shifted sphere");
    assert_eq!(rec.t, 14 * ONE);
    assert_eq!(rec.p, Vec3::new(0, 0, 9 * ONE));
}

// Rotating a quarter turn about y carries +z to +x: a ray along -x hits the
// rotated rectangle that originally faced +z.
#[test]
fn rotate_y_carries_axes() {
    let mut rng = rng_new(23);
    let rect = Shape::Xy(XyRect::new(-ONE, ONE, -ONE, ONE, 0, gray()));
    let turned = Shape::Rotate(RotateY::new(rect, 90 * ONE));
    let r = Ray::new(Vec3::new(5 * ONE, 0, 0), Vec3::new(-ONE, 0, 0), 0);
    let hit = turned.hit(r, 66, FX_MAX, &mut rng);
    assert!(hit.is_some(), "the rotated plane must face the x axis");
}

// A dense fog inside a large sphere scatters almost every ray that crosses
// it; the reported event lies strictly inside the query window.
#[test]
fn constant_medium_scatters_inside() {
    let mut rng = rng_new(29);
    let boundary = Shape::Sphere(Sphere::new(Vec3::zero(), 4 * ONE, gray()));
    let fog = Shape::Medium(ConstantMedium::cnew(
        boundary,
        40 * ONE,
        Vec3::new(ONE / 2, ONE / 2, ONE / 2),
    ));
    let mut inside = 0u32;
    for i in 0..50i64 {
        let r = Ray::new(
            Vec3::new(-10 * ONE, i * 100, 0),
            Vec3::new(ONE, 0, 0),
            0,
        );
        if let Some((rec, _)) = fog.hit(r, 66, FX_MAX, &mut rng) {
            assert!(66 < rec.t && rec.t < FX_MAX);
            inside += 1;
        }
    }
    assert!(inside > 25, "dense fog must scatter most crossing rays");
}

// An empty list has no box; a filled one merges its members' boxes.
#[test]
fn list_bounding_box() {
    let mut list = Hitlist::new();
    assert!(list.bebox(0, 0).is_none());
    list.add(Shape::Sphere(Sphere::new(Vec3::zero(), ONE, gray())));
    list.add(Shape::Sphere(Sphere::new(Vec3::new(5 * ONE, 0, 0), ONE, gray())));
    let b = list.bebox(0, 0).expect("two spheres are boxed");
    assert_eq!(b.min(), Vec3::new(-ONE, -ONE, -ONE));
    assert_eq!(b.max(), Vec3::new(6 * ONE, ONE, ONE));
}
