use raytracer::fx::{fadd, fdiv, fmul, fsqrt, clamp, ONE};
use raytracer::vec3::Vec3;
use raytracer::aabb::AABB;
use raytracer::render::{World, out_color, band_bounds};

// Reflection involution on exactly representable inputs: reflecting about an
// axis normal flips one component, and doing it twice restores the vector.
#[test]
fn reflect_involution_axis_normal() {
    let n = Vec3::new(0, 0, ONE);
    let v = Vec3::new(3 * ONE, -2 * ONE, 5 * ONE + 12345);
    let r1 = Vec3::reflect(v, n);
    assert_eq!(r1, Vec3::new(3 * ONE, -2 * ONE, -(5 * ONE + 12345)));
    let r2 = Vec3::reflect(r1, n);
    assert_eq!(r2, v);
}

#[test]
fn reflect_involution_y_normal() {
    let n = Vec3::new(0, -ONE, 0);
    let v = Vec3::new(-7 * ONE, 9 * ONE + 77, 4 * ONE);
    let r2 = Vec3::reflect(Vec3::reflect(v, n), n);
    assert_eq!(r2, v);
}

// Merge containment: the merge of two boxes contains every corner of each.
#[test]
fn merge_contains_both() {
    let a = AABB::new(Vec3::new(-ONE, 0, 0), Vec3::new(ONE, 2 * ONE, ONE));
    let b = AABB::new(Vec3::new(0, -3 * ONE, -ONE), Vec3::new(4 * ONE, ONE, 2 * ONE));
    let m = AABB::merge(a, b);
    for bx in [a, b] {
        for cx in [bx.min().x, bx.max().x] {
            for cy in [bx.min().y, bx.max().y] {
                for cz in [bx.min().z, bx.max().z] {
                    assert!(m.min().x <= cx && cx <= m.max().x);
                    assert!(m.min().y <= cy && cy <= m.max().y);
                    assert!(m.min().z <= cz && cz <= m.max().z);
                }
            }
        }
    }
}

#[test]
fn merge_commutative_and_associative() {
    let a = AABB::new(Vec3::new(-ONE, 0, 0), Vec3::new(ONE, ONE, ONE));
    let b = AABB::new(Vec3::new(-5 * ONE, -ONE, 2), Vec3::new(0, 3 * ONE, 9 * ONE));
    let c = AABB::new(Vec3::new(2 * ONE, 2 * ONE, -8 * ONE), Vec3::new(3 * ONE, 7 * ONE, 0));
    assert_eq!(AABB::merge(a, b), AABB::merge(b, a));
    assert_eq!(
        AABB::merge(a, AABB::merge(b, c)),
        AABB::merge(AABB::merge(a, b), c)
    );
}

#[test]
fn scalar_ops_exact() {
    assert_eq!(fadd(ONE, ONE), 2 * ONE);
    assert_eq!(fmul(2 * ONE, 3 * ONE), 6 * ONE);
    assert_eq!(fdiv(6 * ONE, 3 * ONE), 2 * ONE);
    assert_eq!(fsqrt(4 * ONE), 2 * ONE);
    assert_eq!(fsqrt(0), 0);
    assert_eq!(clamp(5, 0, 10), 5);
    assert_eq!(clamp(-5, 0, 10), 0);
    assert_eq!(clamp(50, 0, 10), 10);
}

#[test]
fn world_gradient() {
    let w = World::new(256);
    assert_eq!(w.color(0, 0), 0);
    assert_eq!(w.color(3, 128), 128);
    assert_eq!(w.color(0, 255), 255);
}

// A sample sum of `samples * 0.25` averages to a quarter, gamma-corrects to
// one half, and quantizes to 128.
#[test]
fn out_color_gamma_exact() {
    let samples = 8i32;
    let c = Vec3::new(8 * (ONE / 4), 8 * ONE, 0);
    let o = out_color(c, samples);
    assert_eq!(o.x, 128);
    // full intensity clamps just below one before quantizing
    assert_eq!(o.y, 255);
    assert_eq!(o.z, 0);
}

// The row bands are adjacent, ordered and cover the whole image.
#[test]
fn bands_partition_rows() {
    let n_jobs = 7usize;
    let height = 100usize;
    let mut prev_end = 0usize;
    for i in 0..n_jobs {
        let (a, b) = band_bounds(i, n_jobs, height);
        assert_eq!(a, prev_end);
        assert!(a <= b && b <= height);
        prev_end = b;
    }
    assert_eq!(prev_end, height);
}

#[test]
fn dot_cross_and_unit_exact() {
    let a = Vec3::new(3 * ONE, 0, 4 * ONE);
    let b = Vec3::new(ONE, 2 * ONE, -ONE);
    assert_eq!(a.vdot(&b), 3 * ONE - 4 * ONE);
    let c = Vec3::cross(Vec3::new(ONE, 0, 0), Vec3::new(0, ONE, 0));
    assert_eq!(c, Vec3::new(0, 0, ONE));
    assert_eq!(a.length(), 5 * ONE);
    let u = a.unit();
    assert_eq!(u, Vec3::new(3 * ONE * ONE / (5 * ONE), 0, 4 * ONE * ONE / (5 * ONE)));
}

// Straight-on refraction with matched indices passes the direction through
// unchanged.
#[test]
fn refract_straight_through() {
    let uv = Vec3::new(0, 0, ONE);
    let n = Vec3::new(0, 0, -ONE);
    let out = Vec3::refract(uv, n, ONE);
    assert_eq!(out, Vec3::new(0, 0, ONE));
}
