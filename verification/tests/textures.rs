use raytracer::fx::ONE;
use raytracer::vec3::Vec3;
use raytracer::texture::{Texture, SolidColor, CheckerTexture, NoiseTexture, ImageTexture};
use raytracer::perlin::Perlin;
use raytracer::rng::rng_new;

#[test]
fn solid_color_ignores_inputs() {
    let c = Vec3::new(ONE / 5, ONE / 7, ONE / 9);
    let t = Texture::Solid(SolidColor::new(c));
    assert_eq!(t.value(0, 0, &Vec3::zero()), c);
    assert_eq!(t.value(ONE, ONE / 2, &Vec3::new(ONE, -ONE, 3 * ONE)), c);
}

// Missing image data degrades to the cyan sentinel instead of failing.
#[test]
fn empty_image_yields_cyan() {
    let t = Texture::Image(ImageTexture::emnew());
    assert_eq!(t.value(ONE / 2, ONE / 2, &Vec3::zero()), Vec3::new(0, ONE, ONE));
}

// Nearest-pixel lookup with the vertical flip: the top image row is v = 1.
#[test]
fn image_lookup_flips_v() {
    // 1x2 image: top pixel red, bottom pixel blue
    let data: Vec<u8> = vec![255, 0, 0, 0, 0, 255];
    let t = Texture::Image(ImageTexture::new(data, 1, 2));
    let top = t.value(0, ONE, &Vec3::zero());
    let bottom = t.value(0, 0, &Vec3::zero());
    assert_eq!(top, Vec3::new(ONE, 0, 0));
    assert_eq!(bottom, Vec3::new(0, 0, ONE));
}

#[test]
fn checker_picks_one_of_two() {
    let c1 = Vec3::new(ONE, 0, 0);
    let c2 = Vec3::new(0, ONE, 0);
    let t = Texture::Checker(CheckerTexture::cnew(c1, c2));
    let mut seen1 = false;
    let mut seen2 = false;
    for i in -8i64..8 {
        let p = Vec3::new(i * ONE / 2 + 3000, ONE / 3, 7 * ONE / 5);
        let v = t.value(0, 0, &p);
        assert!(v == c1 || v == c2, "checker must pick a child color");
        if v == c1 {
            seen1 = true;
        }
        if v == c2 {
            seen2 = true;
        }
    }
    assert!(seen1 && seen2, "the pattern must alternate over world space");
}

#[test]
fn noise_texture_is_bounded_gray() {
    let mut rng = rng_new(5);
    let t = Texture::Noise(NoiseTexture::new(4 * ONE, &mut rng));
    for i in 0..20i64 {
        let p = Vec3::new(i * 1234, -i * 987, i * 555);
        let v = t.value(0, 0, &p);
        assert!(v.x == v.y && v.y == v.z);
        assert!(0 <= v.x && v.x <= ONE);
    }
}

#[test]
fn perlin_tables_are_well_formed() {
    let mut rng = rng_new(9);
    let p = Perlin::new(&mut rng);
    assert_eq!(p.ranvec.len(), 256);
    assert_eq!(p.perm_x.len(), 256);
    assert_eq!(p.perm_y.len(), 256);
    assert_eq!(p.perm_z.len(), 256);
    for &i in p.perm_x.iter() {
        assert!(i < 256);
    }
    let q = Vec3::new(3 * ONE / 2, ONE / 3, -5 * ONE / 4);
    let n = p.noise(&q);
    // the noise field is a pure function of the tables and the point
    assert_eq!(n, p.noise(&q));
    let t = p.turb(&Vec3::new(ONE, ONE, ONE), 7);
    assert!(t >= 0);
}
