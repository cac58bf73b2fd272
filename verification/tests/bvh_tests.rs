use raytracer::accel::bvh::BVH;
use raytracer::geom::hit::{Bounded, HittableGroup};
use raytracer::geom::primitives::{Sphere, Triangle};
use raytracer::geom::{Shape, World};
use raytracer::material::{DiffuseLambert, Surface};
use raytracer::math::{f_eq, Rand, Scalar};
use raytracer::vec::colors;
use raytracer::vec::{Coord, Point3, Ray, Vec3};

fn s(x: f64) -> Scalar {
    Scalar::from_raw((x * 1_000_000.0).round() as i64)
}

fn source() -> Rand {
    Rand::new()
}

fn white() -> Surface {
    Surface::Diffuse(DiffuseLambert::new(colors::white()))
}

fn ball(x: f64, y: f64, z: f64, radius: f64) -> Sphere {
    Sphere::new(Point3::new(s(x), s(y), s(z)), s(radius), white())
}

/// A grid of balls in the plane z = 0, `side` along each axis.
fn grid(side: usize) -> Vec<Sphere> {
    let mut balls = vec![];
    for i in 0..side {
        for j in 0..side {
            balls.push(ball(3.0 * i as f64, 2.0 * j as f64 + 0.25 * i as f64, (i * j) as f64, 0.5));
        }
    }
    balls
}

/// The leaves of the hierarchy, as ranges, and whether every interior node
/// holds the boxes of its children.
fn leaves_and_cover(bvh: &BVH<Sphere>) -> (Vec<(usize, usize)>, bool) {
    let mut leaves = vec![];
    let mut covered = true;
    let mut index = 0;
    while let Some(node) = bvh.get_node(index) {
        match node.children_indices() {
            Some((left, right)) => {
                assert!(left < index && right < index);
                assert!(node.object_indices().is_none());
                assert!(node.split_axis().is_some());
                for child in [left, right] {
                    let inner = bvh.get_node(child).unwrap().bounding_box();
                    let outer = node.bounding_box();
                    for c in [Coord::X, Coord::Y, Coord::Z] {
                        covered &= outer.bbl_corner().get(c).raw <= inner.bbl_corner().get(c).raw;
                        covered &= inner.ftr_corner().get(c).raw <= outer.ftr_corner().get(c).raw;
                    }
                }
            }
            None => {
                assert!(node.split_axis().is_none());
                leaves.push(node.object_indices().unwrap());
            }
        }
        index += 1;
    }
    assert_eq!(bvh.root() + 1, index);
    (leaves, covered)
}

#[test]
fn leaves_tile_the_list_and_boxes_cover_children() {
    for side in [0usize, 1, 2, 3, 5, 8] {
        let bvh = BVH::new(grid(side));
        assert_eq!(bvh.objects().len(), side * side);
        let (mut leaves, covered) = leaves_and_cover(&bvh);
        assert!(covered);
        leaves.sort();
        let mut next = 0;
        for (start, end) in leaves {
            assert_eq!(start, next);
            assert!(start <= end);
            next = end;
        }
        assert_eq!(next, side * side);
    }
}

#[test]
fn every_thing_is_kept() {
    let bvh = BVH::new(grid(6));
    let mut centers: Vec<(i64, i64, i64)> = bvh
        .objects()
        .iter()
        .map(|ball| {
            let c = ball.centroid();
            (c.0.raw, c.1.raw, c.2.raw)
        })
        .collect();
    let mut expected: Vec<(i64, i64, i64)> = grid(6)
        .iter()
        .map(|ball| {
            let c = ball.centroid();
            (c.0.raw, c.1.raw, c.2.raw)
        })
        .collect();
    centers.sort();
    expected.sort();
    assert_eq!(centers, expected);
}

#[test]
fn a_single_thing_is_a_single_leaf() {
    let bvh = BVH::new(vec![ball(0.0, 0.0, 0.0, 1.0)]);
    let (leaves, _) = leaves_and_cover(&bvh);
    assert_eq!(leaves, vec![(0, 1)]);
    let root = bvh.get_node(bvh.root()).unwrap();
    assert_eq!(root.bounding_box().ftr_corner(), Point3::new(s(1.0), s(1.0), s(1.0)));
    assert!(bvh.get_node(1).is_none());
}

#[test]
fn things_with_one_centroid_stay_together() {
    // The box of the centroids has no volume, so there is nothing to split by.
    let bvh = BVH::new(vec![
        ball(0.0, 0.0, 0.0, 1.0),
        ball(0.0, 0.0, 0.0, 2.0),
        ball(0.0, 0.0, 0.0, 3.0),
    ]);
    let (leaves, _) = leaves_and_cover(&bvh);
    assert_eq!(leaves, vec![(0, 3)]);
}

#[test]
fn a_short_range_is_halved_at_the_median() {
    // Four things spread along all axes: ordered along x, the longest, and halved.
    let bvh = BVH::new(vec![
        ball(9.0, 1.0, 0.5, 0.5),
        ball(0.0, 0.0, 0.0, 0.5),
        ball(6.0, 2.0, 1.0, 0.5),
        ball(3.0, 3.0, 1.5, 0.5),
    ]);
    let xs: Vec<i64> = bvh.objects().iter().map(|b| b.centroid().0.raw).collect();
    assert_eq!(xs, vec![0, 3_000_000, 6_000_000, 9_000_000]);
    let root = bvh.get_node(bvh.root()).unwrap();
    assert_eq!(root.split_axis(), Some(Coord::X));
    let (mut leaves, _) = leaves_and_cover(&bvh);
    leaves.sort();
    assert_eq!(leaves, vec![(0, 1), (1, 2), (2, 3), (3, 4)]);
}

#[test]
fn a_long_range_is_split_where_it_is_cheapest() {
    // Two clusters far apart along x: the split parts them.
    let mut balls = vec![];
    for i in 0..4 {
        balls.push(ball(100.0 + i as f64, i as f64, 0.5 * i as f64, 0.5));
        balls.push(ball(i as f64, 0.5 * i as f64, i as f64, 0.5));
    }
    let bvh = BVH::new(balls);
    let root = bvh.get_node(bvh.root()).unwrap();
    assert_eq!(root.split_axis(), Some(Coord::X));
    let (left, right) = root.children_indices().unwrap();
    let low = bvh.get_node(left).unwrap().bounding_box();
    let high = bvh.get_node(right).unwrap().bounding_box();
    assert!(low.ftr_corner().0.raw < high.bbl_corner().0.raw);
    let xs: Vec<i64> = bvh.objects().iter().map(|b| b.centroid().0.raw).collect();
    assert!(xs[..4].iter().all(|x| *x < 50_000_000));
    assert!(xs[4..].iter().all(|x| *x > 50_000_000));
}

#[test]
fn traversal_finds_the_nearest_hit() {
    let mut rand = source();
    let balls = vec![
        ball(0.0, 0.0, -9.0, 1.0),
        ball(0.0, 0.0, -3.0, 1.0),
        ball(0.0, 0.0, -6.0, 1.0),
        ball(5.0, 0.0, -3.0, 1.0),
        ball(-5.0, 0.0, -3.0, 1.0),
        ball(0.0, 5.0, -3.0, 1.0),
    ];
    let bvh = BVH::new(balls);
    let ray = Ray::new(&Point3::o(), &-Vec3::k());
    let hit = bvh.is_hit(&ray, s(0.001), Scalar::infinity(), &mut rand).unwrap();
    assert!(f_eq(hit.t, s(2.0)));
    // With the nearest cut off by the window, the next one is found.
    let next = bvh.is_hit(&ray, s(4.5), Scalar::infinity(), &mut rand).unwrap();
    assert!(f_eq(next.t, s(5.0)));
    let up = Ray::new(&Point3::o(), &Vec3::new(s(0.0), s(-1.0), s(0.0)));
    assert!(bvh.is_hit(&up, s(0.001), Scalar::infinity(), &mut rand).is_none());
}

#[test]
fn traversal_agrees_with_asking_every_thing() {
    let mut rand = source();
    let bvh = BVH::new(grid(7));
    for k in 0..40 {
        let target = Point3::new(s(0.5 * k as f64), s(0.3 * k as f64), s(0.1 * k as f64));
        let origin = Point3::new(s(9.0), s(6.0), s(-30.0));
        let ray = Ray::new(&origin, &(target - origin));
        let found = bvh.is_hit(&ray, s(0.001), Scalar::infinity(), &mut rand);
        let mut nearest: Option<Scalar> = None;
        for ball in bvh.objects() {
            if let Some(hit) = ball.is_hit(&ray, s(0.001), Scalar::infinity()) {
                if nearest.map_or(true, |t| hit.t.raw < t.raw) {
                    nearest = Some(hit.t);
                }
            }
        }
        assert_eq!(found.map(|hit| hit.t), nearest);
    }
}

#[test]
fn group_measures() {
    let group = HittableGroup::new(vec![ball(0.0, 0.0, 0.0, 0.5), ball(4.0, 0.0, 0.0, 0.5)]);
    assert_eq!(group.hittables().len(), 2);
    assert_eq!(group.surface_area(), Scalar::from_raw(6_283_184));
    let bound = group.bounding_box();
    assert_eq!(bound.ftr_corner(), Point3::new(s(4.5), s(0.5), s(0.5)));
    assert_eq!(bound.bbl_corner(), Point3::new(s(-0.5), s(-0.5), s(-0.5)));
    assert_eq!(group.centroid(), Point3::new(s(2.0), s(0.0), s(0.0)));
}

#[test]
fn world_of_shapes() {
    let mut rand = source();
    let world: World = HittableGroup::new(vec![
        Shape::Sphere(ball(0.0, 0.0, -3.0, 1.0)),
        Shape::Sphere(ball(0.0, 0.0, -9.0, 1.0)),
    ]);
    let ray = Ray::new(&Point3::o(), &-Vec3::k());
    let hit = world.is_hit(&ray, s(0.001), Scalar::infinity(), &mut rand).unwrap();
    assert!(f_eq(hit.t, s(2.0)));
    let empty: World = HittableGroup::new(vec![]);
    assert!(empty.is_hit(&ray, s(0.001), Scalar::infinity(), &mut rand).is_none());
    assert_eq!(empty.surface_area(), s(0.0));
}

#[test]
fn a_flat_box_across_the_ray_hides_nothing() {
    let mut rand = source();
    let corners = (
        Point3::new(s(-0.5), s(-0.5), s(-0.5)),
        Point3::new(s(0.5), s(-0.5), s(-0.5)),
        Point3::new(s(0.0), s(0.0), s(-0.5)),
    );
    let tri = Triangle::new(corners, white());
    let ray = Ray::new(&Point3::o(), &-Vec3::k());
    let alone = tri.is_hit(&ray, s(0.001), Scalar::infinity()).unwrap();
    let bvh = BVH::new(vec![Triangle::new(corners, white())]);
    let hit = bvh.is_hit(&ray, s(0.001), Scalar::infinity(), &mut rand).unwrap();
    assert_eq!(hit.t, s(0.5));
    assert_eq!(hit.point, Point3::new(s(0.0), s(0.0), s(-0.5)));
    assert_eq!((hit.t, hit.point, hit.normal, hit.outer), (alone.t, alone.point, alone.normal, alone.outer));
}

#[test]
fn the_arena_has_fewer_than_two_nodes_for_every_thing() {
    for side in [1usize, 2, 3, 5, 8] {
        let bvh = BVH::new(grid(side));
        let mut nodes = 0;
        while bvh.get_node(nodes).is_some() {
            nodes += 1;
        }
        assert!(nodes >= 1 && nodes <= 2 * side * side - 1, "{nodes}");
        assert_eq!(bvh.root() + 1, nodes);
    }
}

#[test]
fn the_hierarchy_answers_as_asking_every_thing_in_turn() {
    let mut rand = source();
    let balls = grid(6);
    let bvh = BVH::new(grid(6));
    let origin = Point3::new(s(-4.0), s(-3.0), s(9.0));
    for i in 0..6 {
        for j in 0..6 {
            let aim = Point3::new(s(3.0 * i as f64), s(2.0 * j as f64), s(0.5 * (i + j) as f64));
            let ray = Ray::new(&origin, &(aim - origin));
            let mut nearest: Option<Scalar> = None;
            for b in &balls {
                if let Some(h) = b.is_hit(&ray, s(0.001), Scalar::infinity()) {
                    if nearest.map_or(true, |t| h.t.raw < t.raw) {
                        nearest = Some(h.t);
                    }
                }
            }
            let found = bvh.is_hit(&ray, s(0.001), Scalar::infinity(), &mut rand).map(|h| h.t);
            assert_eq!(found, nearest);
        }
    }
}
