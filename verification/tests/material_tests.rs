use raytracer::geom::hit::Hit;
use raytracer::material::{
    DiffuseLambert, Emissive, Material, MaterialBase, Reflective, Surface, Translucent,
};
use raytracer::math::{Rand, Scalar};
use raytracer::vec::colors;
use raytracer::vec::{ColorRGB, Point3, Ray, Vec3};

fn s(x: f64) -> Scalar {
    Scalar::from_raw((x * 1_000_000.0).round() as i64)
}

fn source() -> Rand {
    Rand::new()
}

fn floor_hit(material: Surface, outer: bool) -> Hit {
    Hit::new(Point3::o(), Vec3::j(), s(1.0), outer, material)
}

fn takes_material<M: Material>(material: &M) -> ColorRGB {
    *material.attenuation()
}

#[test]
fn constructors_clamp_their_arguments() {
    let metal = Reflective::new(colors::white(), s(1.5));
    // With the roughness clamped to one, a bend of the full normal counts in full.
    let hit = floor_hit(Surface::Reflective(metal), true);
    let down = Ray::new(&Point3::new(s(0.0), s(1.0), s(0.0)), &-Vec3::j());
    let out = metal.scatter_with(&down, &hit, Vec3::j()).unwrap();
    assert_eq!(out.dir, Vec3::j());
    let smooth = Reflective::new(colors::white(), s(-2.0));
    let out = smooth.scatter_with(&down, &hit, Vec3::i()).unwrap();
    assert_eq!(out.dir, Vec3::j());
    assert_eq!(Translucent::new(colors::white(), s(0.0), s(0.0)).get_refractive_index(), s(1.0));
    assert_eq!(Translucent::new(colors::white(), s(1.52), s(0.0)).get_refractive_index(), s(1.52));
    let dark = Emissive::new(colors::white(), s(-3.0));
    assert_eq!(dark.emit().0, s(0.0));
    let light = Emissive::new(colors::white(), s(16.3));
    let glow = light.emit();
    assert_eq!((glow.0, glow.1, glow.2), (s(16.3), s(16.3), s(16.3)));
}

#[test]
fn attenuation_is_the_albedo() {
    let albedo = ColorRGB::new(s(0.3), s(0.5), s(0.8));
    assert_eq!(*DiffuseLambert::new(albedo).attenuation(), albedo);
    assert_eq!(*Reflective::new(albedo, s(0.3)).attenuation(), albedo);
    assert_eq!(*Translucent::new(albedo, s(1.5), s(0.0)).attenuation(), albedo);
    assert_eq!(*Emissive::new(albedo, s(1.0)).attenuation(), albedo);
    assert_eq!(takes_material(&DiffuseLambert::new(albedo)), albedo);
    assert_eq!(*Surface::Diffuse(DiffuseLambert::new(albedo)).attenuation(), albedo);
    assert_eq!(DiffuseLambert::new(albedo).emit().1, s(0.0));
    assert_eq!(MaterialBase::emit(&Reflective::new(albedo, s(0.0))).2, s(0.0));
}

#[test]
fn diffuse_scatters_about_the_normal() {
    let mut rand = source();
    let matte = DiffuseLambert::new(colors::white());
    let hit = floor_hit(Surface::Diffuse(matte), true);
    let out = DiffuseLambert::scatter_with(&hit, Vec3::i()).unwrap();
    assert_eq!(out.origin, Point3::o());
    assert_eq!(out.dir, Vec3::new(s(0.5_f64.sqrt()), s(0.5_f64.sqrt()), s(0.0)));
    let down = Ray::new(&Point3::new(s(0.0), s(1.0), s(0.0)), &-Vec3::j());
    for _ in 0..20 {
        let ray = matte.scatter(&down, &hit, &mut rand).unwrap();
        assert!(ray.dir.dot(&hit.normal).raw >= 0);
    }
}

#[test]
fn metal_mirrors_and_absorbs_what_would_enter() {
    let mut rand = source();
    let mirror = Reflective::new(colors::white(), s(0.0));
    let hit = floor_hit(Surface::Reflective(mirror), true);
    let slanted = Ray::new(&Point3::new(s(-1.0), s(1.0), s(0.0)), &(Vec3::i() - Vec3::j()));
    let out = mirror.scatter(&slanted, &hit, &mut rand).unwrap();
    assert_eq!(out.dir, (Vec3::i() + Vec3::j()).unit());
    // A ray that leaves along the surface or below it is absorbed.
    let rough = Reflective::new(colors::white(), s(1.0));
    assert!(rough.scatter_with(&slanted, &hit, s(2.0) * -Vec3::j()).is_none());
    let along = Ray::new(&Point3::o(), &Vec3::i());
    assert!(mirror.scatter_with(&along, &hit, Vec3::o()).is_none());
}

#[test]
fn glass_refracts_by_the_side_the_ray_came_from() {
    let glass = Translucent::new(colors::white(), s(1.5), s(0.0));
    let hit = floor_hit(Surface::Translucent(glass), true);
    let out = glass.scatter_with(&hit, Vec3::new(s(0.5), s(-1.0), s(0.0)), Vec3::i()).unwrap();
    // Without roughness the bend does not count.
    assert_eq!(out.dir, Vec3::new(s(0.5), s(-1.0), s(0.0)).unit());
    let frosted = Translucent::new(colors::white(), s(1.5), s(1.0));
    let out = frosted.scatter_with(&hit, -Vec3::j(), Vec3::i()).unwrap();
    assert_eq!(out.dir, (Vec3::i() + Vec3::j()).unit());
    let mut rand = source();
    let down = Ray::new(&Point3::new(s(0.0), s(1.0), s(0.0)), &-Vec3::j());
    // Straight down, a ray goes straight on or straight back.
    for _ in 0..20 {
        let ray = glass.scatter(&down, &hit, &mut rand).unwrap();
        assert_eq!(ray.dir.0, s(0.0));
        assert_eq!(ray.dir.2, s(0.0));
    }
}

#[test]
fn lights_scatter_nothing() {
    let mut rand = source();
    let light = Emissive::new(colors::white(), s(7.0));
    let hit = floor_hit(Surface::Emissive(light), true);
    let down = Ray::new(&Point3::new(s(0.0), s(1.0), s(0.0)), &-Vec3::j());
    assert!(light.scatter(&down, &hit, &mut rand).is_none());
    assert!(Surface::Emissive(light).scatter(&down, &hit, &mut rand).is_none());
    assert_eq!(Surface::Emissive(light).emit().0, s(7.0));
    assert_eq!(Surface::Diffuse(DiffuseLambert::new(colors::white())).emit().0, s(0.0));
}

#[test]
fn named_colours() {
    let sky = colors::skyblue();
    assert_eq!((sky.0, sky.1, sky.2), (s(0.5), s(0.7), s(1.0)));
    let black = colors::black();
    assert_eq!((black.0, black.1, black.2), (s(0.0), s(0.0), s(0.0)));
    let white = colors::white();
    assert_eq!((white.0, white.1, white.2), (s(1.0), s(1.0), s(1.0)));
}
