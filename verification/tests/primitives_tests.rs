use raytracer::geom::hit::{Bounded, Hit, Hittable};
use raytracer::geom::primitives::{Plane, Sphere, Triangle};
use raytracer::material::{DiffuseLambert, Surface};
use raytracer::math::{f_eq, Scalar};
use raytracer::vec::colors;
use raytracer::vec::{Point3, Ray, Vec3};

fn s(x: f64) -> Scalar {
    Scalar::from_raw((x * 1_000_000.0).round() as i64)
}

fn units(x: Scalar) -> f64 {
    x.raw as f64 / 1_000_000.0
}

fn white() -> Surface {
    Surface::Diffuse(DiffuseLambert::new(colors::white()))
}

#[test]
fn geom_sphere_hit() {
    let sphere = Sphere::new(Point3::new(s(0.0), s(0.0), s(-1.0)), s(0.5), white());
    let ray = Ray::new(&Vec3::o(), &-Vec3::k());
    assert!(
        sphere.is_hit(&ray, s(0.0), Scalar::infinity()).is_some(),
        "Ray should have hit sphere but didn't."
    )
}

#[test]
fn geom_sphere_miss() {
    let sphere = Sphere::new(Point3::new(s(0.0), s(0.0), s(-1.0)), s(0.5), white());
    let ray = Ray::new(&Vec3::o(), &Vec3::j());
    assert!(
        sphere.is_hit(&ray, s(0.0), Scalar::infinity()).is_none(),
        "Ray shouldn't have hit sphere but did."
    )
}

#[test]
fn geom_sphere_inside_hit() {
    let sphere = Sphere::new(Point3::new(s(0.0), s(0.0), s(-0.3)), s(0.5), white());
    let ray = Ray::new(&Vec3::o(), &-Vec3::k());
    assert!(
        sphere.is_hit(&ray, s(0.0), Scalar::infinity()).is_some(),
        "Ray should have hit sphere but didn't."
    )
}

#[test]
fn geom_plane_hit() {
    let plane = Plane::new(Point3::new(s(0.0), s(1.0), s(0.0)), (Vec3::i(), -Vec3::k()), white());
    let ray = Ray::new(&Vec3::o(), &Vec3::j());
    assert!(
        plane.is_hit(&ray, s(0.0), Scalar::infinity()).is_some(),
        "Ray should have hit plane but didn't."
    )
}

#[test]
fn geom_plane_miss() {
    let plane = Plane::new(
        Point3::new(s(0.0), s(1.0), s(0.0)),
        (s(0.5) * Vec3::i(), s(-0.5) * Vec3::k()),
        white(),
    );
    let ray = Ray::new(&Vec3::o(), &(Vec3::j() + Vec3::i()));
    assert!(
        plane.is_hit(&ray, s(0.0), Scalar::infinity()).is_none(),
        "Ray shouldn't have hit plane but did."
    )
}

#[test]
fn primitives_sphere_hit() {
    let sphere = Sphere::new(Point3::new(s(0.0), s(0.0), s(-1.0)), s(0.5), white());
    let ray = Ray::new(&Vec3::o(), &-Vec3::k());
    assert!(
        sphere.is_hit(&ray, s(0.0), Scalar::infinity()).is_some(),
        "Ray should have hit sphere but didn't."
    )
}

#[test]
fn primitives_sphere_miss() {
    let sphere = Sphere::new(Point3::new(s(0.0), s(0.0), s(-1.0)), s(0.5), white());
    let ray = Ray::new(&Vec3::o(), &Vec3::j());
    assert!(
        sphere.is_hit(&ray, s(0.0), Scalar::infinity()).is_none(),
        "Ray shouldn't have hit sphere but did."
    )
}

#[test]
fn primitives_sphere_inside_hit() {
    let sphere = Sphere::new(Point3::new(s(0.0), s(0.0), s(-0.3)), s(0.5), white());
    let ray = Ray::new(&Vec3::o(), &-Vec3::k());
    assert!(
        sphere.is_hit(&ray, s(0.0), Scalar::infinity()).is_some(),
        "Ray should have hit sphere but didn't."
    )
}

#[test]
fn primitives_plane_hit() {
    let plane = Plane::new(Point3::new(s(0.0), s(1.0), s(0.0)), (Vec3::i(), -Vec3::k()), white());
    let ray = Ray::new(&Vec3::o(), &Vec3::j());
    assert!(
        plane.is_hit(&ray, s(0.0), Scalar::infinity()).is_some(),
        "Ray should have hit plane but didn't."
    )
}

#[test]
fn primitives_plane_miss() {
    let plane = Plane::new(
        Point3::new(s(0.0), s(1.0), s(0.0)),
        (s(0.5) * Vec3::i(), s(-0.5) * Vec3::k()),
        white(),
    );
    let ray = Ray::new(&Vec3::o(), &(Vec3::j() + Vec3::i()));
    assert!(
        plane.is_hit(&ray, s(0.0), Scalar::infinity()).is_none(),
        "Ray shouldn't have hit plane but did."
    )
}

#[test]
fn tri_hit() {
    let tri = Triangle::new(
        (
            Point3::new(s(-0.5), s(-0.5), s(-0.5)),
            Point3::new(s(0.5), s(-0.5), s(-0.5)),
            Point3::new(s(0.), s(0.0), s(-0.5)),
        ),
        white(),
    );
    let ray = Ray::new(&Vec3::o(), &-Vec3::k());
    assert!(
        tri.is_hit(&ray, s(0.0), Scalar::infinity()).is_some(),
        "Ray should have hit triangle but didn't."
    )
}

#[test]
fn tri_miss() {
    let tri = Triangle::new(
        (
            Point3::new(s(-0.5), s(-0.5), s(-0.5)),
            Point3::new(s(0.5), s(-0.5), s(-0.5)),
            Point3::new(s(0.), s(0.0), s(-0.5)),
        ),
        white(),
    );
    let ray = Ray::new(&Vec3::o(), &(Vec3::j() - Vec3::k()));
    assert!(
        tri.is_hit(&ray, s(0.0), Scalar::infinity()).is_none(),
        "Ray shouldn't have hit triangle but did."
    )
}

fn faces_ray(ray: &Ray, hit: &Hit) -> bool {
    ray.dir.dot(&hit.normal).raw <= 0
}

#[test]
fn sphere_hit_from_outside_is_the_near_root() {
    let sphere = Sphere::new(Point3::new(s(0.0), s(0.0), s(-1.0)), s(0.5), white());
    let ray = Ray::new(&Vec3::o(), &-Vec3::k());
    let hit = sphere.is_hit(&ray, s(0.0), Scalar::infinity()).unwrap();
    assert!(f_eq(hit.t, s(0.5)));
    assert_eq!(hit.point, Point3::new(s(0.0), s(0.0), s(-0.5)));
    assert!(hit.outer);
    assert_eq!(hit.normal, Vec3::k());
    assert!(faces_ray(&ray, &hit));
}

#[test]
fn sphere_hit_from_inside_is_the_far_root() {
    let sphere = Sphere::new(Point3::new(s(0.0), s(0.0), s(-0.3)), s(0.5), white());
    let ray = Ray::new(&Vec3::o(), &-Vec3::k());
    let hit = sphere.is_hit(&ray, s(0.0), Scalar::infinity()).unwrap();
    assert!(f_eq(hit.t, s(0.8)));
    assert!(!hit.outer);
    assert_eq!(hit.normal, Vec3::k());
    assert!(faces_ray(&ray, &hit));
}

#[test]
fn sphere_hit_respects_the_window() {
    let sphere = Sphere::new(Point3::new(s(0.0), s(0.0), s(-1.0)), s(0.5), white());
    let ray = Ray::new(&Vec3::o(), &-Vec3::k());
    // The near root is outside the window, the far one inside.
    let far = sphere.is_hit(&ray, s(1.0), Scalar::infinity()).unwrap();
    assert!(f_eq(far.t, s(1.5)));
    assert!(sphere.is_hit(&ray, s(0.0), s(0.4)).is_none());
    assert!(sphere.is_hit(&ray, s(2.0), Scalar::infinity()).is_none());
}

#[test]
fn sphere_measures() {
    let sphere = Sphere::new(Point3::new(s(1.0), s(2.0), s(3.0)), s(0.5), white());
    assert_eq!(sphere.surface_area(), Scalar::from_raw(3_141_592));
    let bound = sphere.bounding_box();
    assert_eq!(bound.ftr_corner(), Point3::new(s(1.5), s(2.5), s(3.5)));
    assert_eq!(bound.bbl_corner(), Point3::new(s(0.5), s(1.5), s(2.5)));
    assert_eq!(sphere.centroid(), Point3::new(s(1.0), s(2.0), s(3.0)));
    assert_eq!(Bounded::centroid(&sphere), Point3::new(s(1.0), s(2.0), s(3.0)));
    assert_eq!(Hittable::surface_area(&sphere), Scalar::from_raw(3_141_592));
}

#[test]
fn plane_hit_and_measures() {
    let plane = Plane::new(
        Point3::new(s(0.0), s(1.0), s(0.0)),
        (s(2.0) * Vec3::i(), s(-3.0) * Vec3::k()),
        white(),
    );
    let ray = Ray::new(&Vec3::o(), &Vec3::j());
    let hit = plane.is_hit(&ray, s(0.0), Scalar::infinity()).unwrap();
    assert!(f_eq(hit.t, s(1.0)));
    assert!(faces_ray(&ray, &hit));
    assert_eq!(plane.surface_area(), s(6.0));
    let bound = plane.bounding_box();
    // Along the axis without extent the box is padded.
    assert_eq!(bound.ftr_corner(), Point3::new(s(2.0), s(1.01), s(3.0)));
    assert_eq!(bound.bbl_corner(), Point3::new(s(-2.0), s(0.99), s(-3.0)));
}

#[test]
fn plane_squares_up_its_second_vector() {
    let plane = Plane::new(
        Point3::o(),
        (Vec3::i(), Vec3::new(s(1.0), s(1.0), s(0.0))),
        white(),
    );
    // The parallelogram of (1,0,0) and the squared-up (0,1,0) has area one.
    assert!((units(plane.surface_area()) - 1.0).abs() < 1e-3);
}

#[test]
fn triangle_hit_and_measures() {
    let tri = Triangle::new(
        (
            Point3::new(s(-0.5), s(-0.5), s(-0.5)),
            Point3::new(s(0.5), s(-0.5), s(-0.5)),
            Point3::new(s(0.), s(0.0), s(-0.5)),
        ),
        white(),
    );
    let ray = Ray::new(&Vec3::o(), &-Vec3::k());
    let hit = tri.is_hit(&ray, s(0.0), Scalar::infinity()).unwrap();
    assert!(f_eq(hit.t, s(0.5)));
    assert!(faces_ray(&ray, &hit));
    assert_eq!(tri.surface_area(), s(0.25));
    assert_eq!(*tri.a(), Point3::new(s(-0.5), s(-0.5), s(-0.5)));
    assert_eq!(*tri.b(), Point3::new(s(0.5), s(-0.5), s(-0.5)));
    assert_eq!(*tri.c(), Point3::new(s(0.0), s(0.0), s(-0.5)));
    let bound = tri.bounding_box();
    assert_eq!(bound.ftr_corner(), Point3::new(s(0.5), s(0.0), s(-0.5)));
    assert_eq!(bound.bbl_corner(), Point3::new(s(-0.5), s(-0.5), s(-0.5)));
    assert!(tri.is_hit(&ray, s(0.6), Scalar::infinity()).is_none());
}

#[test]
fn hit_normal_is_turned_to_the_ray() {
    let from_inside = Hit::new(Point3::o(), s(2.0) * Vec3::k(), s(1.0), false, white());
    assert_eq!(from_inside.normal, -Vec3::k());
    let from_outside = Hit::new(Point3::o(), s(2.0) * Vec3::k(), s(1.0), true, white());
    assert_eq!(from_outside.normal, Vec3::k());
    assert_eq!(Hit::fp_offset(), s(0.001));
}

#[test]
fn hits_face_the_ray_exactly() {
    let ball = Sphere::new(Point3::new(s(0.3), s(-0.2), s(-3.0)), s(1.25), white());
    let tri = Triangle::new(
        (
            Point3::new(s(-2.0), s(-1.0), s(-4.0)),
            Point3::new(s(2.0), s(-1.5), s(-3.0)),
            Point3::new(s(0.1), s(2.0), s(-5.0)),
        ),
        white(),
    );
    let origins = [Point3::o(), Point3::new(s(0.3), s(-0.2), s(-3.0)), Point3::new(s(0.0), s(0.0), s(-9.0))];
    let dirs = [(0.0, 0.0, -1.0), (0.1, -0.05, -1.0), (-0.2, 0.1, 1.0), (0.3, 0.2, -0.9), (0.0, 0.0, 1.0)];
    for origin in origins {
        for (x, y, z) in dirs {
            let ray = Ray::new(&origin, &Vec3::new(s(x), s(y), s(z)));
            if let Some(h) = ball.is_hit(&ray, s(0.001), Scalar::infinity()) {
                assert!(ray.dir.dot(&h.normal).raw <= 0);
            }
            if let Some(h) = tri.is_hit(&ray, s(0.001), Scalar::infinity()) {
                assert!(ray.dir.dot(&h.normal).raw <= 0);
            }
        }
    }
}
