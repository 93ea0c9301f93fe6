use raytracer::fx::{ONE, FX_MAX};
use raytracer::vec3::Vec3;
use raytracer::ray::Ray;
use raytracer::material::{Material, Lamber, Metal, Dielectric, DiffuseLight, Neg, schlick};
use raytracer::shapes::Sphere;
use raytracer::rng::rng_new;

// Metal with heavy fuzz: every accepted scatter leaves the surface, and
// grazing fuzzy reflections are sometimes absorbed.
#[test]
fn metal_fuzz_rejection() {
    let mut rng = rng_new(11);
    let metal = Material::Metal(Metal::new(Vec3::new(ONE / 2, ONE / 2, ONE / 2), 8 * ONE));
    let sphere = Sphere::new(Vec3::zero(), ONE, Material::Neg(Neg::new()));
    // grazing incidence on the top of the sphere
    let r_in = Ray::new(
        Vec3::new(-5 * ONE, ONE - 40, 0),
        Vec3::new(ONE, 0, 0),
        0,
    );
    let rec = sphere.hit(r_in, 66, FX_MAX).expect("grazing ray must hit");
    let mut rejected = 0u32;
    let mut accepted = 0u32;
    for _ in 0..200 {
        let mut att = Vec3::zero();
        let mut scat = Ray::new(Vec3::zero(), Vec3::zero(), 0);
        if metal.scatter(&mut rng, &r_in, &rec, &mut att, &mut scat) {
            accepted += 1;
            // the contract: an accepted metal scatter points off the surface
            let d = scat.diraction().vdot(&rec.nf());
            assert!(d > 0);
            assert_eq!(att, Vec3::new(ONE / 2, ONE / 2, ONE / 2));
        } else {
            rejected += 1;
        }
    }
    assert!(rejected > 0, "huge fuzz at grazing incidence must reject some scatters");
    assert!(accepted > 0);
}

// Dielectric never absorbs: always a scatter, always white attenuation.
#[test]
fn dielectric_always_scatters_white() {
    let mut rng = rng_new(13);
    let glass = Material::Dielectric(Dielectric::new(3 * ONE / 2));
    let sphere = Sphere::new(Vec3::zero(), ONE, Material::Neg(Neg::new()));
    let dirs = [
        Vec3::new(0, 0, ONE),
        Vec3::new(ONE / 3, -ONE / 5, ONE),
        Vec3::new(-ONE / 2, ONE / 2, ONE),
    ];
    for d in dirs {
        let r_in = Ray::new(Vec3::new(0, 0, -5 * ONE), d, 0);
        if let Some(rec) = sphere.hit(r_in, 66, FX_MAX) {
            for _ in 0..20 {
                let mut att = Vec3::zero();
                let mut scat = Ray::new(Vec3::zero(), Vec3::zero(), 0);
                let b = glass.scatter(&mut rng, &r_in, &rec, &mut att, &mut scat);
                assert!(b, "dielectric must always scatter");
                assert_eq!(att, Vec3::new(ONE, ONE, ONE));
            }
        }
    }
}

#[test]
fn lambertian_attenuates_by_albedo() {
    let mut rng = rng_new(17);
    let albedo = Vec3::new(ONE / 4, ONE / 2, 3 * ONE / 4);
    let mat = Material::Lamber(Lamber::cnew(albedo));
    let sphere = Sphere::new(Vec3::zero(), ONE, Material::Neg(Neg::new()));
    let r_in = Ray::new(Vec3::new(0, 0, -5 * ONE), Vec3::new(0, 0, ONE), 0);
    let rec = sphere.hit(r_in, 66, FX_MAX).expect("must hit");
    let mut att = Vec3::zero();
    let mut scat = Ray::new(Vec3::zero(), Vec3::zero(), 0);
    assert!(mat.scatter(&mut rng, &r_in, &rec, &mut att, &mut scat));
    assert_eq!(att, albedo);
    assert_eq!(scat.origin(), rec.p());
}

#[test]
fn emission_only_from_lights() {
    let light = Material::DiffuseLight(DiffuseLight::cnew(Vec3::new(4 * ONE, 4 * ONE, 4 * ONE)));
    let dark = Material::Lamber(Lamber::cnew(Vec3::new(ONE / 2, 0, 0)));
    let p = Vec3::zero();
    assert_eq!(light.emitted(0, 0, &p), Vec3::new(4 * ONE, 4 * ONE, 4 * ONE));
    assert_eq!(dark.emitted(0, 0, &p), Vec3::zero());
    // lights never scatter
    let mut rng = rng_new(19);
    let sphere = Sphere::new(Vec3::zero(), ONE, Material::Neg(Neg::new()));
    let r_in = Ray::new(Vec3::new(0, 0, -5 * ONE), Vec3::new(0, 0, ONE), 0);
    let rec = sphere.hit(r_in, 66, FX_MAX).expect("must hit");
    let mut att = Vec3::zero();
    let mut scat = Ray::new(Vec3::zero(), Vec3::zero(), 0);
    assert!(!light.scatter(&mut rng, &r_in, &rec, &mut att, &mut scat));
}

#[test]
fn schlick_normal_incidence() {
    // at ref_idx 1 the normal-incidence reflectance is zero and stays zero
    // at cos = 1 where (1 - cos)^5 vanishes
    let r = schlick(ONE, ONE);
    assert_eq!(r, 0);
    // reflectance grows toward grazing incidence
    let grazing = schlick(0, 3 * ONE / 2);
    let normal = schlick(ONE, 3 * ONE / 2);
    assert!(grazing > normal);
}
