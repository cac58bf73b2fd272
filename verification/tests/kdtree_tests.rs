use raytracer::accel::KDTreeMemoryArena;
use raytracer::geom::primitives::Sphere;
use raytracer::material::{DiffuseLambert, Surface};
use raytracer::math::{f_eq, Rand, Scalar};
use raytracer::vec::colors;
use raytracer::vec::{Point3, Ray, Vec3};

fn s(x: f64) -> Scalar {
    Scalar::from_raw((x * 1_000_000.0).round() as i64)
}

fn source() -> Rand {
    Rand::new()
}

fn ball(x: f64, y: f64, z: f64) -> Sphere {
    Sphere::new(
        Point3::new(s(x), s(y), s(z)),
        s(0.5),
        Surface::Diffuse(DiffuseLambert::new(colors::white())),
    )
}

fn row(count: usize) -> Vec<Sphere> {
    (0..count).map(|i| ball(0.0, 0.0, -3.0 * (i as f64 + 1.0))).collect()
}

#[test]
fn few_things_make_a_leaf() {
    let arena = KDTreeMemoryArena::new(&row(4));
    assert_eq!(arena.len(), 1);
    let leaf = arena.get_node(0).unwrap();
    assert_eq!(leaf.hittables().unwrap().len(), 4);
    assert_eq!(leaf.children(), (None, None));
    assert_eq!(leaf.bounding_box().ftr_corner(), Point3::new(s(0.5), s(0.5), s(-2.5)));
    assert_eq!(leaf.bounding_box().bbl_corner(), Point3::new(s(-0.5), s(-0.5), s(-12.5)));
    assert!(arena.get_node(1).is_none());
    let empty = KDTreeMemoryArena::new(&Vec::<Sphere>::new());
    assert_eq!(empty.len(), 0);
}

#[test]
fn many_things_are_parted_about_the_median() {
    let arena = KDTreeMemoryArena::new(&row(9));
    let root = arena.get_node(arena.len() - 1).unwrap();
    assert!(root.hittables().is_none());
    let (left, right) = root.children();
    let left = arena.get_node(left.unwrap()).unwrap();
    let right = arena.get_node(right.unwrap()).unwrap();
    // Along the third axis the five farthest lie low, the median among them.
    assert!(left.bounding_box().ftr_corner().2.raw <= s(-14.5).raw);
    assert!(right.bounding_box().bbl_corner().2.raw >= s(-12.5).raw);
}

#[test]
fn search_finds_a_hit_and_respects_the_window() {
    let mut rand = source();
    let arena = KDTreeMemoryArena::new(&row(3));
    let ray = Ray::new(&Point3::o(), &-Vec3::k());
    let hit = arena.is_hit(&ray, s(0.001), Scalar::infinity(), &mut rand).unwrap();
    assert!(f_eq(hit.t, s(2.5)));
    let next = arena.is_hit(&ray, s(4.0), Scalar::infinity(), &mut rand).unwrap();
    assert!(f_eq(next.t, s(5.5)));
    let away = Ray::new(&Point3::o(), &Vec3::k());
    assert!(arena.is_hit(&away, s(0.001), Scalar::infinity(), &mut rand).is_none());
    let empty = KDTreeMemoryArena::new(&Vec::<Sphere>::new());
    assert!(empty.is_hit(&ray, s(0.001), Scalar::infinity(), &mut rand).is_none());
    // A tree that is built behind another one takes its place.
    let both = arena.construct_tree(&vec![ball(0.0, 0.0, -1.0)]);
    let hit = both.is_hit(&ray, s(0.001), Scalar::infinity(), &mut rand).unwrap();
    assert!(f_eq(hit.t, s(0.5)));
    assert_eq!(both.len(), 2);
    let same = both.construct_tree(&vec![]);
    assert_eq!(same.len(), 2);
}

#[test]
fn search_of_a_deep_tree_finds_only_what_is_there() {
    let mut rand = source();
    let mut balls = vec![];
    for i in 0..6 {
        for j in 0..6 {
            balls.push(ball(2.0 * i as f64, 2.0 * j as f64, -5.0 - (i + j) as f64));
        }
    }
    let arena = KDTreeMemoryArena::new(&balls);
    let mut found = 0;
    for i in 0..6 {
        for j in 0..6 {
            let origin = Point3::new(s(2.0 * i as f64), s(2.0 * j as f64), s(0.0));
            let ray = Ray::new(&origin, &-Vec3::k());
            // Parting sets a thing aside at every node, so not every ball is in the tree.
            if let Some(hit) = arena.is_hit(&ray, s(0.001), Scalar::infinity(), &mut rand) {
                assert!(f_eq(hit.t, s(4.5 + (i + j) as f64)));
                found += 1;
            }
        }
    }
    assert!(found >= 18 && found < 36);
}
