use raytracer::geom::hit::AxisAlignedBoundingBox;
use raytracer::math::{f_eq, Scalar};
use raytracer::vec::{Coord, Point3, Ray, Vec3};

fn s(x: f64) -> Scalar {
    Scalar::from_raw((x * 1_000_000.0).round() as i64)
}

fn units(x: Scalar) -> f64 {
    x.raw as f64 / 1_000_000.0
}

#[test]
fn box_surface_area() {
    let bound = AxisAlignedBoundingBox::new(Point3::o(), Point3::new(s(-1.0), s(-2.3), s(-4.2)));
    assert!(f_eq(bound.surface_area(), s(32.32)));
}

#[test]
fn box_volume() {
    let bound = AxisAlignedBoundingBox::new(Point3::o(), Point3::new(s(-1.0), s(-2.3), s(-4.2)));
    assert!(f_eq(bound.volume(), s(9.66)));
}

#[test]
fn boxes_overlap() {
    let bounds = (
        AxisAlignedBoundingBox::new(Point3::o(), Point3::new(s(-1.0), s(-2.3), s(-4.2))),
        AxisAlignedBoundingBox::new(
            Point3::new(s(0.5), s(1.0), s(0.2)),
            Point3::new(s(-0.5), s(-3.1), s(-1.0)),
        ),
    );

    assert!(bounds.0.box_intersects(bounds.1));
}

#[test]
fn boxes_no_overlap() {
    let bounds = (
        AxisAlignedBoundingBox::new(Point3::o(), Point3::new(s(-1.0), s(-2.3), s(-4.2))),
        AxisAlignedBoundingBox::new(
            Point3::new(s(1.0), s(2.3), s(4.2)),
            Point3::new(s(0.1), s(1.0), s(1.0)),
        ),
    );

    assert!(!bounds.0.box_intersects(bounds.1));
}

#[test]
fn ray_intersects_box() {
    let bound = AxisAlignedBoundingBox::new(Point3::o(), Point3::new(s(-1.0), s(-2.3), s(-4.2)));
    let ray = Ray::new(
        &Point3::new(s(1.0), s(2.0), s(2.0)),
        &Vec3::new(s(-1.0), s(-2.3), s(-4.2)),
    );
    let dir_inverse = Vec3::new(
        s(1.0) / ray.dir[Coord::X],
        s(1.0) / ray.dir[Coord::Y],
        s(1.0) / ray.dir[Coord::Z],
    );

    assert!(bound
        .ray_intersects(&ray, &dir_inverse, s(0.01), Scalar::infinity())
        .is_some());
}

#[test]
fn ray_no_intersects_box() {
    let bound = AxisAlignedBoundingBox::new(Point3::o(), Point3::new(s(-1.0), s(-2.3), s(-4.2)));
    let ray = Ray::new(&Point3::new(s(3.0), s(2.0), s(4.0)), &Vec3::new(s(0.8), s(3.0), s(4.0)));
    let dir_inverse = Vec3::new(
        s(1.0) / ray.dir[Coord::X],
        s(1.0) / ray.dir[Coord::Y],
        s(1.0) / ray.dir[Coord::Z],
    );

    assert!(bound
        .ray_intersects(&ray, &dir_inverse, s(0.01), Scalar::infinity())
        .is_none());
}

#[test]
fn box_measures_have_exact_values() {
    let bound = AxisAlignedBoundingBox::new(
        Point3::new(s(2.0), s(3.0), s(4.0)),
        Point3::new(s(0.0), s(0.0), s(0.0)),
    );
    assert_eq!(bound.surface_area(), s(52.0));
    assert_eq!(bound.volume(), s(24.0));
    assert_eq!(*bound.center(), Point3::new(s(1.0), s(1.5), s(2.0)));
    assert_eq!(bound.ftr_corner().2, s(4.0));
    assert_eq!(bound.bbl_corner().0, s(0.0));
    assert_eq!(bound.largest_extent_axis(), Coord::Z);
    let offset = bound.point_offset(&Point3::new(s(1.0), s(3.0), s(1.0)));
    assert_eq!((offset.0, offset.1, offset.2), (s(0.5), s(1.0), s(0.25)));
    let flat = AxisAlignedBoundingBox::new(
        Point3::new(s(2.0), s(2.00005), s(0.0)),
        Point3::new(s(0.0), s(0.0), s(0.0)),
    );
    // Two axes equally long to within the threshold: the earlier one wins.
    assert_eq!(flat.largest_extent_axis(), Coord::X);
    let tall = AxisAlignedBoundingBox::new(
        Point3::new(s(1.0), s(5.0), s(2.0)),
        Point3::new(s(0.0), s(0.0), s(0.0)),
    );
    assert_eq!(tall.largest_extent_axis(), Coord::Y);
}

#[test]
fn union_holds_its_boxes_and_forgets_their_order() {
    let a = AxisAlignedBoundingBox::new(
        Point3::new(s(1.0), s(1.0), s(1.0)),
        Point3::new(s(0.0), s(0.0), s(0.0)),
    );
    let b = AxisAlignedBoundingBox::new(
        Point3::new(s(3.0), s(0.5), s(2.0)),
        Point3::new(s(2.0), s(-1.0), s(-2.0)),
    );
    let c = AxisAlignedBoundingBox::new(
        Point3::new(s(-4.0), s(9.0), s(0.0)),
        Point3::new(s(-5.0), s(8.0), s(-1.0)),
    );
    let ab = AxisAlignedBoundingBox::union(vec![&a, &b]);
    let ba = AxisAlignedBoundingBox::union(vec![&b, &a]);
    assert_eq!(ab.ftr_corner(), Point3::new(s(3.0), s(1.0), s(2.0)));
    assert_eq!(ab.bbl_corner(), Point3::new(s(0.0), s(-1.0), s(-2.0)));
    assert_eq!(
        (ab.ftr_corner().0, ab.ftr_corner().1, ab.ftr_corner().2),
        (ba.ftr_corner().0, ba.ftr_corner().1, ba.ftr_corner().2)
    );
    assert_eq!(
        (ab.bbl_corner().0, ab.bbl_corner().1, ab.bbl_corner().2),
        (ba.bbl_corner().0, ba.bbl_corner().1, ba.bbl_corner().2)
    );
    let left = ab.join(&c);
    let right = a.join(&b.join(&c));
    assert_eq!(
        (left.ftr_corner().0, left.ftr_corner().1, left.ftr_corner().2),
        (right.ftr_corner().0, right.ftr_corner().1, right.ftr_corner().2)
    );
    assert_eq!(
        (left.bbl_corner().0, left.bbl_corner().1, left.bbl_corner().2),
        (right.bbl_corner().0, right.bbl_corner().1, right.bbl_corner().2)
    );
    // The empty box is neutral, and the union of nothing is the origin.
    let with_empty = AxisAlignedBoundingBox::empty().join(&a);
    assert_eq!(with_empty.ftr_corner().0, s(1.0));
    assert_eq!(with_empty.bbl_corner().0, s(0.0));
    let nothing = AxisAlignedBoundingBox::union(vec![]);
    assert_eq!(nothing.ftr_corner().0, s(0.0));
    assert_eq!(nothing.bbl_corner().0, s(0.0));
    let points = AxisAlignedBoundingBox::union_from_points(&vec![
        Point3::new(s(1.0), s(-1.0), s(0.0)),
        Point3::new(s(-2.0), s(4.0), s(0.5)),
    ]);
    assert_eq!(
        (points.ftr_corner().0, points.ftr_corner().1, points.ftr_corner().2),
        (s(1.0), s(4.0), s(0.5))
    );
    assert_eq!(
        (points.bbl_corner().0, points.bbl_corner().1, points.bbl_corner().2),
        (s(-2.0), s(-1.0), s(0.0))
    );
}

#[test]
fn slab_test_gives_the_interval_inside() {
    let bound = AxisAlignedBoundingBox::new(
        Point3::new(s(1.0), s(1.0), s(1.0)),
        Point3::new(s(-1.0), s(-1.0), s(-1.0)),
    );
    let ray = Ray::new(&Point3::new(s(-3.0), s(0.0), s(0.0)), &Vec3::i());
    let window = bound.ray_intersects(&ray, &ray.dir_inverse(), s(0.0), Scalar::infinity());
    let (enter, exit) = window.unwrap();
    assert!((units(enter) - 2.0).abs() < 1e-5);
    assert!((units(exit) - 4.0).abs() < 1e-5);
    // A ray parallel to a slab and outside of it misses.
    let beside = Ray::new(&Point3::new(s(-3.0), s(2.0), s(0.0)), &Vec3::i());
    assert!(bound
        .ray_intersects(&beside, &beside.dir_inverse(), s(0.0), Scalar::infinity())
        .is_none());
    // A window that ends before the box misses it.
    assert!(bound.ray_intersects(&ray, &ray.dir_inverse(), s(0.0), s(1.5)).is_none());
}

#[test]
fn a_ray_from_well_inside_meets_the_box() {
    let bound = AxisAlignedBoundingBox::new(
        Point3::new(s(1.0), s(1.0), s(1.0)),
        Point3::new(s(-1.0), s(-1.0), s(-1.0)),
    );
    for (x, y, z) in [(0.0, 0.0, 0.0), (0.999, -0.999, 0.5), (-0.5, 0.25, -0.999)] {
        for dir in [Vec3::i(), -Vec3::j(), Vec3::new(s(1.0), s(-2.0), s(0.5)), Vec3::k()] {
            let ray = Ray::new(&Point3::new(s(x), s(y), s(z)), &dir);
            let window = bound.ray_intersects(&ray, &ray.dir_inverse(), s(0.0), Scalar::infinity());
            let (enter, exit) = window.unwrap();
            assert_eq!(enter, s(0.0));
            assert!(exit.raw >= 1_000);
        }
    }
}

#[test]
fn a_ray_along_a_wall_keeps_its_window() {
    let b = AxisAlignedBoundingBox::new(
        Point3::new(s(1.0), s(0.0), s(-1.0)),
        Point3::new(s(-1.0), s(-1.0), s(-2.0)),
    );
    // The ray runs along the wall y = 0 and does not move along x or y.
    let ray = Ray::new(&Point3::o(), &-Vec3::k());
    let inv = ray.dir_inverse();
    assert_eq!(inv.0, Scalar::infinity());
    let w = b.ray_intersects(&ray, &inv, s(0.001), Scalar::infinity()).unwrap();
    assert_eq!((w.0, w.1), (s(1.0), s(2.0)));
    // Beside the box it has none.
    let beside = Ray::new(&Point3::new(s(0.0), s(0.5), s(0.0)), &-Vec3::k());
    assert!(b.ray_intersects(&beside, &beside.dir_inverse(), s(0.001), Scalar::infinity()).is_none());
    // A box without depth is met in an interval without length.
    let flat = AxisAlignedBoundingBox::new(
        Point3::new(s(1.0), s(1.0), s(-1.0)),
        Point3::new(s(-1.0), s(-1.0), s(-1.0)),
    );
    let w = flat.ray_intersects(&ray, &inv, s(0.001), Scalar::infinity()).unwrap();
    assert_eq!((w.0, w.1), (s(1.0), s(1.0)));
}

#[test]
fn a_ray_from_a_point_of_a_box_meets_the_box() {
    let b = AxisAlignedBoundingBox::new(
        Point3::new(s(1.0), s(1.0), s(1.0)),
        Point3::new(s(-1.0), s(-1.0), s(-1.0)),
    );
    let corner = Point3::new(s(1.0), s(1.0), s(1.0));
    for dir in [Vec3::i(), -Vec3::i(), Vec3::new(s(-1.0), s(-2.0), s(-3.0)), Vec3::new(s(1.0), s(1.0), s(1.0))] {
        let ray = Ray::new(&corner, &dir);
        let w = b.ray_intersects(&ray, &ray.dir_inverse(), Scalar::zero(), Scalar::infinity()).unwrap();
        assert_eq!(w.0, Scalar::zero());
        assert!(w.1.raw >= 0);
    }
}
