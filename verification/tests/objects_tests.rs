use raytracer::geom::hit::{Bounded, Hit, Hittable};
use raytracer::geom::objects::{Icosahedron, Object, Prism, Rotation, Volume};
use raytracer::geom::primitives::Sphere;
use raytracer::geom::Shape;
use raytracer::loader::Loader;
use raytracer::material::{DiffuseLambert, Surface};
use raytracer::math::{f_eq, Rand, Scalar};
use raytracer::vec::colors;
use raytracer::vec::{Point3, Ray, Vec3};

fn s(x: f64) -> Scalar {
    Scalar::from_raw((x * 1_000_000.0).round() as i64)
}

fn units(x: Scalar) -> f64 {
    x.raw as f64 / 1_000_000.0
}

fn source() -> Rand {
    Rand::new()
}

fn white() -> Surface {
    Surface::Diffuse(DiffuseLambert::new(colors::white()))
}

fn cube() -> Prism {
    Prism::new(Point3::new(s(0.0), s(0.0), s(-5.0)), (Vec3::i(), Vec3::j(), Vec3::k()), white())
}

#[test]
fn prism_is_hit_on_its_near_face() {
    let mut rand = source();
    let prism = cube();
    let ray = Ray::new(&Point3::o(), &-Vec3::k());
    let hit = prism.is_hit(&ray, s(0.001), Scalar::infinity(), &mut rand).unwrap();
    assert!(f_eq(hit.t, s(4.0)));
    assert_eq!(hit.normal, Vec3::k());
    let beside = Ray::new(&Point3::new(s(3.0), s(0.0), s(0.0)), &-Vec3::k());
    assert!(prism.is_hit(&beside, s(0.001), Scalar::infinity(), &mut rand).is_none());
    // Six faces of two by two.
    assert_eq!(prism.surface_area(), s(6.0));
    // The box holds the boxes of the faces, which are padded where they are flat.
    let bound = prism.bounding_box();
    assert_eq!(bound.ftr_corner().0, s(1.01));
    assert_eq!(bound.ftr_corner().2, s(-3.99));
    assert_eq!(bound.bbl_corner().1, s(-1.01));
    assert_eq!(bound.bbl_corner().2, s(-6.01));
    assert_eq!(prism.centroid(), Point3::new(s(0.0), s(0.0), s(-5.0)));
}

#[test]
fn icosahedron_has_its_vertices_on_a_sphere() {
    let mut rand = source();
    let ico = Icosahedron::new(Point3::new(s(0.0), s(0.0), s(-5.0)), s(2.0), white());
    let bound = ico.bounding_box();
    for corner in [bound.ftr_corner(), bound.bbl_corner()] {
        let reach = corner - Point3::new(s(0.0), s(0.0), s(-5.0));
        for extent in [reach.0, reach.1, reach.2] {
            // Each axis reaches out to phi / sqrt(phi + 2) of the radius.
            assert!((units(extent).abs() - 2.0 * 0.850651).abs() < 1e-4);
        }
    }
    let ray = Ray::new(&Point3::o(), &-Vec3::k());
    let hit = ico.is_hit(&ray, s(0.001), Scalar::infinity(), &mut rand).unwrap();
    assert!(units(hit.t) > 3.0 && units(hit.t) < 3.5);
    // Twenty faces of edge 2 r / sqrt(phi + 2) each.
    let edge: f64 = 2.0 * 2.0 * 0.525731;
    let area = 20.0 * 3.0_f64.sqrt() / 4.0 * edge * edge;
    assert!((units(ico.surface_area()) - area).abs() < 1e-3);
}

#[test]
fn mesh_is_scaled_turned_and_centred() {
    let mut rand = source();
    let model = Loader::load_obj(b"v 0 0 0\nv 1 0 0\nv 0 1 0\nv 0 0 1\nf 1 2 3\nf 1 4 2\nf 1 3 4\nf 2 4 3\n")
        .ok()
        .unwrap();
    let center = Point3::new(s(0.0), s(0.0), s(-10.0));
    let mesh = Object::new(center, s(2.0), vec![], &model, white());
    let bound = mesh.bounding_box();
    // The box of the scaled model is centred on the centre that was asked for.
    assert_eq!(bound.ftr_corner(), Point3::new(s(1.0), s(1.0), s(-9.0)));
    assert_eq!(bound.bbl_corner(), Point3::new(s(-1.0), s(-1.0), s(-11.0)));
    let ray = Ray::new(&Point3::new(s(-0.5), s(-0.5), s(0.0)), &-Vec3::k());
    assert!(mesh.is_hit(&ray, s(0.001), Scalar::infinity(), &mut rand).is_some());
    let half = std::f64::consts::FRAC_PI_2;
    let turned = Object::new(
        center,
        s(2.0),
        vec![Rotation { half_cos: s(half.cos()), half_sin: s(half.sin()), axis: Vec3::k() }],
        &model,
        white(),
    );
    // Half a turn about the third axis: the model is mirrored in the first two.
    let beside = Ray::new(&Point3::new(s(-0.5), s(-0.5), s(0.0)), &-Vec3::k());
    let across = Ray::new(&Point3::new(s(0.5), s(0.5), s(0.0)), &-Vec3::k());
    let before = mesh.is_hit(&across, s(0.001), Scalar::infinity(), &mut rand).map(|h| h.t);
    let after = turned.is_hit(&beside, s(0.001), Scalar::infinity(), &mut rand).map(|h| h.t);
    assert_eq!(before.is_some(), after.is_some());
    assert!((units(mesh.surface_area()) - units(turned.surface_area())).abs() < 1e-3);
}

#[test]
fn medium_scatters_along_the_way_through() {
    let ball = Sphere::new(Point3::new(s(0.0), s(0.0), s(-5.0)), s(1.0), white());
    let fog = Volume::new(ball, s(0.5), white());
    let ray = Ray::new(&Point3::o(), &-Vec3::k());
    let entry = ball.is_hit(&ray, Scalar::neg_infinity(), Scalar::infinity()).unwrap();
    let exit = ball.is_hit(&ray, entry.t + s(0.001), Scalar::infinity());
    assert!(f_eq(entry.t, s(4.0)));
    // The flight is the inverse density times the sampled length.
    let hit = fog.pass(&ray, s(0.001), Scalar::infinity(), entry, exit, s(0.5)).unwrap();
    assert!(f_eq(hit.t, s(5.0)));
    assert!(hit.outer);
    assert_eq!(hit.normal, Vec3::o());
    assert_eq!(hit.point, Point3::new(s(0.0), s(0.0), s(-5.0)));
    // A flight longer than the way through passes.
    assert!(fog.pass(&ray, s(0.001), Scalar::infinity(), entry, exit, s(1.5)).is_none());
    // A window that ends before the medium leaves nothing of the way.
    assert!(fog.pass(&ray, s(0.001), s(3.0), entry, exit, s(0.1)).is_none());
    // A ray that does not leave again is on its way out where it entered.
    let leaving: Hit = fog.pass(&ray, s(0.001), Scalar::infinity(), entry, None, s(0.1)).unwrap();
    assert_eq!(leaving.t, entry.t);
    let mut rand = source();
    let outside = Ray::new(&Point3::o(), &Vec3::j());
    assert!(fog.is_hit(&outside, s(0.001), Scalar::infinity(), &mut rand).is_none());
    for _ in 0..20 {
        if let Some(hit) = fog.is_hit(&ray, s(0.001), Scalar::infinity(), &mut rand) {
            assert!(units(hit.t) >= 3.999 && units(hit.t) <= 6.001);
        }
    }
    assert_eq!(fog.surface_area(), ball.surface_area());
    assert_eq!(fog.centroid(), ball.centroid());
}

#[test]
fn shapes_answer_as_what_they_hold() {
    let mut rand = source();
    let ball = Sphere::new(Point3::new(s(0.0), s(0.0), s(-5.0)), s(1.0), white());
    let shape = Shape::Sphere(ball);
    let ray = Ray::new(&Point3::o(), &-Vec3::k());
    let hit = shape.is_hit(&ray, s(0.001), Scalar::infinity(), &mut rand).unwrap();
    assert!(f_eq(hit.t, s(4.0)));
    assert_eq!(shape.surface_area(), ball.surface_area());
    assert_eq!(Bounded::centroid(&shape), ball.centroid());
    assert_eq!(Hittable::surface_area(&Shape::Prism(cube())), s(6.0));
    let fog = Shape::SphereVolume(Volume::new(ball, s(0.5), white()));
    assert_eq!(fog.bounding_box().ftr_corner(), ball.bounding_box().ftr_corner());
}

#[test]
fn medium_answers_alike_as_a_thing_and_as_a_shape() {
    let mut rand = source();
    let ball = Sphere::new(Point3::new(s(0.0), s(0.0), s(-5.0)), s(1.0), white());
    let fog = Volume::new(ball, s(0.5), white());
    let shape = Shape::SphereVolume(Volume::new(ball, s(0.5), white()));
    let past = Ray::new(&Point3::o(), &Vec3::j());
    assert!(Hittable::is_hit(&fog, &past, s(0.001), Scalar::infinity(), &mut rand).is_none());
    assert!(shape.is_hit(&past, s(0.001), Scalar::infinity(), &mut rand).is_none());
    let through = Ray::new(&Point3::o(), &-Vec3::k());
    let mut met = 0;
    for _ in 0..200 {
        for hit in [
            Hittable::is_hit(&fog, &through, s(0.001), Scalar::infinity(), &mut rand),
            shape.is_hit(&through, s(0.001), Scalar::infinity(), &mut rand),
        ] {
            if let Some(hit) = hit {
                met += 1;
                assert!(units(hit.t) >= 3.999 && units(hit.t) <= 6.001);
                assert!(hit.outer);
                assert_eq!(hit.normal, Vec3::o());
            }
        }
    }
    assert!(met > 0);
}
