use raytracer::camera::Camera;
use raytracer::geom::hit::{Hit, HittableGroup};
use raytracer::geom::primitives::Sphere;
use raytracer::geom::{Shape, World};
use raytracer::integrator::{met, shade, Bounce};
use raytracer::material::{DiffuseLambert, Emissive, Surface};
use raytracer::math::{lerp, Rand, Scalar};
use raytracer::vec::colors;
use raytracer::vec::{ColorRGB, Point3, Ray, Vec3};
use raytracer::{create_ppm, render_pixel, render_row, ImageConfig};

fn s(x: f64) -> Scalar {
    Scalar::from_raw((x * 1_000_000.0).round() as i64)
}

fn source() -> Rand {
    Rand::new()
}

fn sky(t: Scalar) -> ColorRGB {
    Vec3::lerp(colors::skyblue(), colors::white(), t)
}

fn lamp_above() -> World {
    let lamp = Emissive::new(ColorRGB::new(s(1.0), s(0.5), s(0.25)), s(4.0));
    HittableGroup::new(vec![Shape::Sphere(Sphere::new(
        Point3::new(s(0.0), s(5.0), s(0.0)),
        s(1.0),
        Surface::Emissive(lamp),
    ))])
}

#[test]
fn shading_of_given_paths() {
    let none = shade(&vec![]);
    assert_eq!((none.0, none.1, none.2), (s(0.0), s(0.0), s(0.0)));
    let sky_only = shade(&vec![Bounce::Miss { background: ColorRGB::new(s(0.2), s(0.4), s(0.6)) }]);
    assert_eq!((sky_only.0, sky_only.1, sky_only.2), (s(0.2), s(0.4), s(0.6)));
    // One grey bounce halves what the sky gives.
    let grey = ColorRGB::new(s(0.5), s(0.5), s(0.5));
    let bounced = shade(&vec![
        Bounce::Hit { attenuation: grey, emission: colors::black(), scattered: true },
        Bounce::Miss { background: ColorRGB::new(s(0.2), s(0.4), s(0.6)) },
    ]);
    assert_eq!((bounced.0, bounced.1, bounced.2), (s(0.1), s(0.2), s(0.3)));
    // A light adds its emission times its attenuation times the throughput.
    let lit = shade(&vec![
        Bounce::Hit { attenuation: grey, emission: colors::black(), scattered: true },
        Bounce::Hit {
            attenuation: ColorRGB::new(s(1.0), s(0.5), s(0.0)),
            emission: ColorRGB::new(s(4.0), s(4.0), s(4.0)),
            scattered: false,
        },
    ]);
    assert_eq!((lit.0, lit.1, lit.2), (s(2.0), s(1.0), s(0.0)));
    // A path that is cut off brings nothing.
    let cut = shade(&vec![
        Bounce::Hit { attenuation: grey, emission: colors::black(), scattered: true },
        Bounce::Hit { attenuation: grey, emission: colors::black(), scattered: true },
    ]);
    assert_eq!((cut.0, cut.1, cut.2), (s(0.0), s(0.0), s(0.0)));
}

#[test]
fn a_ray_that_leaves_sees_the_background() {
    let mut rand = source();
    let world: World = HittableGroup::new(vec![]);
    let up = Ray::new(&Point3::o(), &Vec3::j());
    let color = up.get_color(&world, &sky, 50, &mut rand);
    // Straight up the background is at its start.
    assert_eq!((color.0, color.1, color.2), (s(0.5), s(0.7), s(1.0)));
    let level = Ray::new(&Point3::o(), &Vec3::i());
    let color = level.get_color(&world, &sky, 50, &mut rand);
    assert_eq!((color.0, color.1, color.2), (s(0.75), s(0.85), s(1.0)));
    let path = up.walk(&world, &sky, 50, &mut rand);
    assert_eq!(path.len(), 1);
    assert!(matches!(path[0], Bounce::Miss { .. }));
}

#[test]
fn no_bounces_bring_no_light() {
    let mut rand = source();
    let world = lamp_above();
    let up = Ray::new(&Point3::o(), &Vec3::j());
    let color = up.get_color(&world, &sky, 0, &mut rand);
    assert_eq!((color.0, color.1, color.2), (s(0.0), s(0.0), s(0.0)));
    assert!(up.walk(&world, &sky, 0, &mut rand).is_empty());
}

#[test]
fn a_light_ends_the_path() {
    let mut rand = source();
    let world = lamp_above();
    let up = Ray::new(&Point3::o(), &Vec3::j());
    let path = up.walk(&world, &sky, 50, &mut rand);
    assert_eq!(path.len(), 1);
    assert!(matches!(path[0], Bounce::Hit { scattered: false, .. }));
    let color = up.get_color(&world, &sky, 50, &mut rand);
    assert_eq!((color.0, color.1, color.2), (s(4.0), s(2.0), s(1.0)));
}

#[test]
fn paths_are_no_longer_than_the_depth() {
    let mut rand = source();
    // Inside a matte ball every bounce is followed by another.
    let shell = Sphere::new(
        Point3::o(),
        s(10.0),
        Surface::Diffuse(DiffuseLambert::new(ColorRGB::new(s(0.9), s(0.9), s(0.9)))),
    );
    let world: World = HittableGroup::new(vec![Shape::Sphere(shell)]);
    let ray = Ray::new(&Point3::o(), &Vec3::i());
    for depth in [1u32, 2, 7, 50] {
        let path = ray.walk(&world, &sky, depth, &mut rand);
        assert!(path.len() <= depth as usize);
        for bounce in &path[..path.len().saturating_sub(1)] {
            assert!(matches!(bounce, Bounce::Hit { scattered: true, .. }));
        }
    }
}

#[test]
fn camera_looks_at_its_target() {
    let mut rand = source();
    let camera = Camera::new(
        Point3::new(s(0.0), s(0.0), s(3.0)),
        &Point3::new(s(0.0), s(0.0), s(-1.0)),
        s((15.0_f64).to_radians().tan()),
        s(0.0),
        640,
        480,
    );
    let middle = camera.ray(s(0.5), s(0.5), &mut rand);
    assert_eq!(middle.origin, Point3::new(s(0.0), s(0.0), s(3.0)));
    assert_eq!(middle.dir, -Vec3::k());
    let corner = camera.ray_with(s(0.0), s(0.0), Vec3::o());
    assert!(corner.dir.0.raw < 0 && corner.dir.1.raw > 0 && corner.dir.2.raw < 0);
    // The viewport is four by three.
    assert!((3 * corner.dir.0.raw + 4 * corner.dir.1.raw).abs() < 40);
    let lens = Camera::new(
        Point3::new(s(0.0), s(0.0), s(3.0)),
        &Point3::new(s(0.0), s(0.0), s(-1.0)),
        s((15.0_f64).to_radians().tan()),
        s(0.2),
        640,
        480,
    );
    let off = lens.ray_with(s(0.5), s(0.5), Vec3::i());
    assert_eq!(off.origin, Point3::new(s(0.1), s(0.0), s(3.0)));
}

#[test]
fn an_empty_scene_renders_as_its_background() {
    let mut rand = source();
    let world: World = HittableGroup::new(vec![]);
    let camera = Camera::new(
        Point3::new(s(0.0), s(0.0), s(3.0)),
        &Point3::new(s(0.0), s(0.0), s(-1.0)),
        s(0.25),
        s(0.0),
        4,
        2,
    );
    let config = ImageConfig {
        width: 4,
        height: 2,
        samples: 3,
        max_depth: 5,
        background: |_t: Scalar| ColorRGB::new(s(1.0), s(0.25), s(0.0)),
    };
    let shown = render_pixel(&world, &camera, &config, 1, 1, &mut rand);
    assert!(shown.close(&ColorRGB::new(s(1.0), s(0.5), s(0.0))));
    let rows: Vec<Vec<ColorRGB>> = (0..2)
        .map(|y| render_row(&world, &camera, &config, y, &mut rand))
        .collect();
    assert!(rows.iter().all(|row| row.len() == 4));
    let ppm = create_ppm(&rows, 4, 2, 255);
    assert!(ppm.starts_with("P3\n4 2\n255\n"));
    assert_eq!(ppm.lines().count(), 3 + 8);
    for line in ppm.lines().skip(3) {
        assert!(line == "255 127 0" || line == "255 128 0", "{}", line);
    }
    assert_eq!(lerp(s(0.0), s(10.0), s(0.25)), s(2.5));
}

#[test]
fn the_record_of_a_hit_holds_what_the_material_gives() {
    let lamp = Surface::Emissive(Emissive::new(ColorRGB::new(s(1.0), s(0.5), s(0.25)), s(4.0)));
    let hit = Hit::new(Point3::new(s(0.0), s(1.0), s(0.0)), -Vec3::j(), s(1.0), true, lamp);
    match met(&hit, &None) {
        Bounce::Hit { attenuation, emission, scattered } => {
            assert_eq!(attenuation, ColorRGB::new(s(1.0), s(0.5), s(0.25)));
            assert_eq!(emission, ColorRGB::new(s(4.0), s(4.0), s(4.0)));
            assert!(!scattered);
        },
        Bounce::Miss { .. } => panic!(),
    }
    let on = Ray::new(&hit.point, &Vec3::i());
    assert!(matches!(met(&hit, &Some(on)), Bounce::Hit { scattered: true, .. }));
    // One hit that sends nothing on brings its emission times its attenuation.
    let light = shade(&vec![met(&hit, &None)]);
    assert_eq!((light.0, light.1, light.2), (s(4.0), s(2.0), s(1.0)));
}
