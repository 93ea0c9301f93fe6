use raytracer::fx::ONE;
use raytracer::vec3::Vec3;
use raytracer::ray::Ray;
use raytracer::material::{Material, Lamber, Dielectric};
use raytracer::shapes::Sphere;
use raytracer::bvh::{Shape, Hitlist, BvhNode};
use raytracer::camera::Camera;
use raytracer::render::{ray_color, render_band, band_bounds};
use raytracer::rng::rng_new;

fn two_sphere_scene(rng: &mut rand::rngs::SmallRng) -> BvhNode {
    let ground = Shape::Sphere(Sphere::new(
        Vec3::new(0, -1000 * ONE, 0),
        1000 * ONE,
        Material::Lamber(Lamber::cnew(Vec3::new(ONE / 2, ONE / 2, 0))),
    ));
    let glass = Shape::Sphere(Sphere::new(
        Vec3::zero(),
        ONE,
        Material::Dielectric(Dielectric::new(3 * ONE / 2)),
    ));
    BvhNode::fnew(Hitlist { shapes: vec![ground, glass] }, 0, ONE, rng)
}

// Recursion termination: at depth zero the estimate is black for any ray.
#[test]
fn ray_color_depth_zero_is_black() {
    let mut rng = rng_new(3);
    let scene = two_sphere_scene(&mut rng);
    let background = Vec3::new(45875, 52428, ONE);
    let rays = [
        Ray::new(Vec3::new(13 * ONE, 2 * ONE, 3 * ONE), Vec3::new(-ONE, 0, 0), 0),
        Ray::new(Vec3::zero(), Vec3::new(0, ONE, 0), 0),
        Ray::new(Vec3::new(0, 5 * ONE, 0), Vec3::new(ONE / 3, -ONE, ONE / 7), 0),
    ];
    for r in rays {
        assert_eq!(
            ray_color(r, &background, &scene, 0, &mut rng),
            Vec3::new(0, 0, 0)
        );
        assert_eq!(
            ray_color(r, &background, &scene, -3, &mut rng),
            Vec3::new(0, 0, 0)
        );
    }
}

// Zero aperture: every generated ray starts exactly at the eye point.
#[test]
fn zero_aperture_rays_share_origin() {
    let eye = Vec3::new(13 * ONE, 2 * ONE, 3 * ONE);
    let cam = Camera::new(
        eye,
        Vec3::zero(),
        Vec3::new(0, ONE, 0),
        20 * ONE,
        113778, // 16:9
        0,
        10 * ONE,
        0,
        ONE,
    );
    let mut rng = rng_new(21);
    for i in 0..50i64 {
        let s = (i * 1311) % ONE;
        let t = (i * 2731) % ONE;
        let r = cam.get_ray(s, t, &mut rng);
        assert_eq!(r.origin(), eye);
        assert!(0 <= r.time() && r.time() <= ONE);
    }
}

// End-to-end: a ground sphere and a glass sphere at the origin, viewed from
// (13,2,3).  The image center shows the scene; the upper corners show the
// declared background.
#[test]
fn small_render_center_and_sky() {
    let mut rng = rng_new(99);
    let scene = two_sphere_scene(&mut rng);
    let background = Vec3::new(45875, 52428, ONE);
    let cam = Camera::new(
        Vec3::new(13 * ONE, 2 * ONE, 3 * ONE),
        Vec3::zero(),
        Vec3::new(0, ONE, 0),
        20 * ONE,
        113778,
        0,
        10 * ONE,
        0,
        0,
    );
    let width = 32usize;
    let height = 18usize;
    let (rb, re) = band_bounds(0, 1, height);
    let img = render_band(&scene, &cam, &background, width, rb, re, height, 4, 8, 7);
    assert_eq!(img.len(), width * height);
    // the background quantizes to a fixed sky color
    let sky = {
        let mut rng2 = rng_new(1);
        let empty = BvhNode::fnew(
            Hitlist {
                shapes: vec![Shape::Sphere(Sphere::new(
                    Vec3::new(0, -30000 * ONE, 0),
                    ONE,
                    Material::Lamber(Lamber::cnew(Vec3::new(ONE / 2, ONE / 2, ONE / 2))),
                ))],
            },
            0,
            ONE,
            &mut rng2,
        );
        let r = ray_color(
            Ray::new(Vec3::zero(), Vec3::new(0, ONE, 0), 0),
            &background,
            &empty,
            8,
            &mut rng2,
        );
        assert_eq!(r, background);
        raytracer::render::out_color(
            Vec3::new(4 * background.x, 4 * background.y, 4 * background.z),
            4,
        )
    };
    let sky_pix = (sky.x as u8, sky.y as u8, sky.z as u8);
    let top_left = img[0];
    let top_right = img[width - 1];
    let center = img[(height / 2) * width + width / 2];
    assert_eq!(top_left, sky_pix, "upper corners see the sky");
    assert_eq!(top_right, sky_pix, "upper corners see the sky");
    assert_ne!(center, sky_pix, "the centered sphere is not background");
}
