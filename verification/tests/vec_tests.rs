use raytracer::math::{f_eq, Rand, Scalar};
use raytracer::vec::{Color, ColorRGB, Coord, Point3, Quaternion, Ray, Vec3};

fn s(x: f64) -> Scalar {
    Scalar::from_raw((x * 1_000_000.0).round() as i64)
}

fn units(x: Scalar) -> f64 {
    x.raw as f64 / 1_000_000.0
}

fn source(low: f64, high: f64) -> Rand {
    Rand::within(s(low), s(high))
}

#[test]
fn add() {
    let v1 = Vec3::new(s(1.0), s(2.0), s(3.0));
    let v2 = Vec3::new(s(3.0), s(2.0), s(1.0));
    let v3 = &v1 + &v2;
    assert_eq!(v3, Vec3::new(s(4.0), s(4.0), s(4.0)));
}

#[test]
fn add_assign() {
    let mut v1 = Vec3::new(s(1.0), s(2.0), s(3.0));
    let v2 = Vec3::new(s(3.0), s(2.0), s(1.0));
    v1 += v2;
    assert_eq!(v1, Vec3::new(s(4.0), s(4.0), s(4.0)));
}

#[test]
fn mul() {
    let v1 = Vec3::new(s(1.0), s(2.0), s(3.0));
    let k = s(4.0);
    let v3 = &v1 * k;
    assert_eq!(v3, Vec3::new(s(4.0), s(8.0), s(12.0)));
}

#[test]
fn mul_assign() {
    let mut v1 = Vec3::new(s(1.0), s(2.0), s(3.0));
    let k = s(4.0);
    v1 *= k;
    assert_eq!(v1, Vec3::new(s(4.0), s(8.0), s(12.0)));
}

#[test]
fn sub() {
    let v1 = Vec3::new(s(1.0), s(2.0), s(3.0));
    let v2 = Vec3::new(s(3.0), s(2.0), s(1.0));
    let v3 = &v1 - &v2;
    assert_eq!(v3, Vec3::new(s(-2.0), s(0.0), s(2.0)));
}

#[test]
fn sub_assign() {
    let mut v1 = Vec3::new(s(1.0), s(2.0), s(3.0));
    let v2 = Vec3::new(s(3.0), s(2.0), s(1.0));
    v1 -= v2;
    assert_eq!(v1, Vec3::new(s(-2.0), s(0.0), s(2.0)));
}

#[test]
fn norm() {
    let v = Vec3::new(
        s(1.0 / 3.0_f64.sqrt()),
        s(1.0 / 3.0_f64.sqrt()),
        s(1.0 / 3.0_f64.sqrt()),
    );
    let norm = v.norm();
    assert_eq!(norm, s(1.0));
}

#[test]
fn unit() {
    let v = Vec3::new(s(1.0), s(1.0), s(1.0));
    let unit = v.unit();
    assert_eq!(
        unit,
        Vec3::new(
            s(1.0 / 3.0_f64.sqrt()),
            s(1.0 / 3.0_f64.sqrt()),
            s(1.0 / 3.0_f64.sqrt())
        )
    );
}

#[test]
fn index_as_color() {
    let mut col = ColorRGB::new(s(1.0), s(0.0), s(2.0));
    assert_eq!(col[Color::R], s(1.0));
    assert_eq!(col[Color::G], s(0.0));
    assert_eq!(col[Color::B], s(2.0));
    col[Color::G] = s(3.0);
    assert_eq!(col[Color::G], s(3.0));
}

#[test]
fn index_as_point() {
    let mut pt = Point3::new(s(1.0), s(0.0), s(2.0));
    assert_eq!(pt[Coord::X], s(1.0));
    assert_eq!(pt[Coord::Y], s(0.0));
    assert_eq!(pt[Coord::Z], s(2.0));
    pt[Coord::Y] = s(3.0);
    assert_eq!(pt[Coord::Y], s(3.0));
}

#[test]
fn vec_ray_at_t() {
    let ray = Ray::new(&Point3::new(s(0.0), s(1.0), s(2.0)), &Vec3::new(s(3.0), s(4.0), s(0.0)));
    assert_eq!(ray.at(s(5.0)), Vec3::new(s(3.0), s(5.0), s(2.0)));
}

#[test]
fn ray_ray_at_t() {
    let ray = Ray::new(&Point3::new(s(0.0), s(1.0), s(2.0)), &Vec3::new(s(3.0), s(4.0), s(0.0)));
    assert_eq!(ray.at(s(5.0)), Vec3::new(s(3.0), s(5.0), s(2.0)));
}

#[test]
fn project_vec() {
    let vector = Vec3::new(s(1.0), s(1.0), s(0.0));
    let onto = Vec3::i();
    let along = Vec3::j();

    assert_eq!(vector.projections(&onto, &along), (Vec3::i(), Vec3::j()));
}

#[test]
fn reflect_vec() {
    let incident = Vec3::i() - Vec3::j();
    let normal = Vec3::j();
    assert_eq!(incident.reflect(&normal), Vec3::i() + Vec3::j());
}

#[test]
fn reflect_normal() {
    let incident = Vec3::i();
    let normal = -Vec3::i();
    assert_eq!(incident.reflect(&normal), -Vec3::i());
}

#[test]
fn refract_vec() {
    let mut rand = source(0.9, 1.0);

    let normal = Vec3::j();
    let incident = Vec3::new(s(1.0), s(-1.0), s(0.0));
    let refracted = incident.refract(&normal, s(1.0), s(1.5), &mut rand);
    assert!(f_eq(
        s(units(refracted.unit().dot(&-normal)).acos()),
        s((std::f64::consts::SQRT_2 / 3.0).asin())
    ));
}

#[test]
fn refract_another_vec() {
    let mut rand = source(0.9, 1.0);

    let normal = Vec3::new(s(0.5), s(0.4), s(0.3)).unit();
    let incident = Vec3::new(s(0.7), s(0.9), s(1.0));
    let refracted = incident.refract(&normal, s(1.0), s(1.52), &mut rand);
    let expected_angle = ((1.01 * (2.0_f64 / 2.3_f64).sqrt()).acos().sin() / 1.52).asin();

    assert!(f_eq(s(units(refracted.unit().dot(&-normal)).acos()), s(expected_angle)));
}

#[test]
fn total_internal_reflection() {
    let mut rand = source(0.9, 1.0);

    let normal = Vec3::j();
    let incident = Vec3::new(s(1.0), s(-1.0), s(0.0));
    let refracted = incident.refract(&normal, s(1.5), s(1.0), &mut rand);
    assert_eq!(refracted, incident.reflect(&normal));
}

#[test]
fn schlick() {
    let mut rand = source(0.0, 1.0);

    let normal = Vec3::j();
    let incident = Vec3::i();
    let refracted = incident.refract(&normal, s(1.0), s(1.5), &mut rand);
    assert_eq!(refracted, incident.reflect(&normal));
}

#[test]
fn dot_and_cross_have_exact_values() {
    let a = Vec3::new(s(1.0), s(2.0), s(3.0));
    let b = Vec3::new(s(4.0), s(-5.0), s(6.0));
    assert_eq!(a.dot(&b), s(12.0));
    let c = a.cross(&b);
    assert_eq!(c.0, s(27.0));
    assert_eq!(c.1, s(6.0));
    assert_eq!(c.2, s(-13.0));
    assert!(Vec3::orthogonal(&a, &c));
    assert!(!Vec3::orthogonal(&a, &b));
}

#[test]
fn norm_is_rounded_to_nearest() {
    assert_eq!(Vec3::new(s(3.0), s(4.0), s(0.0)).norm(), s(5.0));
    assert_eq!(Vec3::new(s(1.0), s(1.0), s(0.0)).norm(), Scalar::from_raw(1_414_214));
    assert_eq!(Vec3::o().unit().0, s(0.0));
}

#[test]
fn refraction_with_a_given_sample() {
    let normal = Vec3::j();
    let incident = Vec3::new(s(1.0), s(-1.0), s(0.0));
    // A sample below the Schlick reflectance reflects.
    let reflected = incident.refract_with(&normal, s(1.0), s(1.5), s(0.0));
    assert_eq!(reflected, incident.reflect(&normal));
    // A sample above it refracts: the direction leaves the mirror image.
    let refracted = incident.refract_with(&normal, s(1.0), s(1.5), s(0.95));
    assert!(units(refracted.1) < 0.0);
    assert!(Vec3::total_reflection(s(0.8), s(1.5), s(1.0)));
    assert!(!Vec3::total_reflection(s(0.5), s(1.5), s(1.0)));
    assert!(!Vec3::total_reflection(s(0.99), s(1.0), s(1.5)));
}

#[test]
fn random_vectors_have_unit_length() {
    let mut rand = source(0.0, 1.0);
    for _ in 0..50 {
        let v = Vec3::random_unit(&mut rand);
        let n = units(v.norm());
        assert!(n == 0.0 || (n - 1.0).abs() < 1e-4);
        let d = Vec3::random_in_unit_disc(&mut rand);
        assert_eq!(d.2, s(0.0));
    }
    assert_eq!(Vec3::unit_from_samples(s(1.0), s(0.5), s(0.5)), Vec3::i());
    assert_eq!(Vec3::disc_from_samples(s(0.5), s(0.0)), -Vec3::j());
}

#[test]
fn quaternion_turns_a_vector() {
    let half = std::f64::consts::FRAC_PI_4;
    let turned = Vec3::i().rotate(s(half.cos()), s(half.sin()), &Vec3::k());
    assert_eq!(turned, Vec3::j());
    let same = Vec3::i().rotate(s(1.0), s(0.0), &Vec3::k());
    assert_eq!(same, Vec3::i());
    let q = Quaternion::new(s(2.0), &Vec3::i());
    assert_eq!(q.angle(), s(2.0));
    assert_eq!(*q.axis(), Vec3::i());
    assert_eq!(q.conj().1, -Vec3::i());
    let unit = Quaternion::from(Vec3::i()) * Quaternion::from(Vec3::j());
    assert_eq!(unit.1, Vec3::k());
    assert_eq!(unit.0, s(0.0));
}

#[test]
fn lerp_of_vectors() {
    let mid = Vec3::lerp(Vec3::o(), Vec3::new(s(2.0), s(4.0), s(-6.0)), s(0.5));
    assert_eq!(mid.0, s(1.0));
    assert_eq!(mid.1, s(2.0));
    assert_eq!(mid.2, s(-3.0));
}

#[test]
fn componentwise_operations() {
    let a = Vec3::new(s(1.0), s(-2.0), s(3.0));
    let b = Vec3::new(s(0.5), s(4.0), s(-1.0));
    let p = a * b;
    assert_eq!((p.0, p.1, p.2), (s(0.5), s(-8.0), s(-3.0)));
    let q = s(2.0) * a;
    assert_eq!((q.0, q.1, q.2), (s(2.0), s(-4.0), s(6.0)));
    let lo = a.lowest(&b);
    let hi = a.highest(&b);
    assert_eq!((lo.0, lo.1, lo.2), (s(0.5), s(-2.0), s(-1.0)));
    assert_eq!((hi.0, hi.1, hi.2), (s(1.0), s(4.0), s(3.0)));
    let mut c = a;
    c.set(Coord::Z, s(9.0));
    assert_eq!(c.get(Coord::Z), s(9.0));
    assert_eq!(c.get(Coord::X), s(1.0));
    let mut m = a;
    m *= b;
    assert_eq!(m.1, s(-8.0));
    assert!(a.close(&Vec3::new(s(1.00005), s(-2.0), s(3.0))));
    assert!(!a.close(&Vec3::new(s(1.001), s(-2.0), s(3.0))));
}

#[test]
fn ray_direction_is_normalized() {
    let ray = Ray::new(&Point3::o(), &Vec3::new(s(0.0), s(3.0), s(4.0)));
    assert_eq!(ray.dir.1, s(0.6));
    assert_eq!(ray.dir.2, s(0.8));
    assert!((units(ray.dir.norm()) - 1.0).abs() < 1e-6);
    let inv = ray.dir_inverse();
    assert_eq!(inv.0, Scalar::infinity());
    assert_eq!(inv.2, s(1.25));
}

#[test]
fn ray_direction_is_within_three_steps_of_one() {
    let dirs = [(1.0, 1.0, 1.0), (-7.3, 2.9, 11.0), (1.0, 0.0, 0.000_001), (123456.0, -654321.0, 0.5)];
    for (x, y, z) in dirs {
        let ray = Ray::new(&Point3::o(), &Vec3::new(s(x), s(y), s(z)));
        let raw = ray.dir.norm().raw();
        assert!(999_997 <= raw && raw <= 1_000_000, "{raw}");
    }
}

#[test]
fn reflection_reverses_the_part_along_the_normal() {
    let normals = [(1.0, 1.0, 0.0), (-1.0, 2.0, 3.0), (0.3, -0.2, 0.9)];
    let dirs = [(0.6, -0.8, 0.0), (-0.267, -0.534, -0.802), (1.0, -1.0, 1.0)];
    for (a, b, c) in normals {
        let n = Vec3::new(s(a), s(b), s(c)).unit();
        for (x, y, z) in dirs {
            let d = Vec3::new(s(x), s(y), s(z));
            let r = d.reflect(&n);
            assert!(f_eq(r.dot(&n), -d.dot(&n)));
        }
    }
}

#[test]
fn refraction_between_equal_indices_goes_straight_on() {
    let past = s(0.999_999);
    let normals = [
        Vec3::i(),
        Vec3::j(),
        Vec3::k(),
        -Vec3::i(),
        -Vec3::j(),
        -Vec3::k(),
        Vec3::new(s(0.6), s(0.0), s(0.8)),
        Vec3::new(s(1.0), s(-2.0), s(3.0)).unit(),
        Vec3::new(s(-0.3), s(0.2), s(0.1)),
    ];
    for n in normals {
        let d = -n;
        let r = d.refract_with(&n, s(1.3), s(1.3), past);
        assert_eq!((r.0, r.1, r.2), (d.0, d.1, d.2));
    }
    let normal = Vec3::j();
    let incident = Vec3::new(s(0.6), s(-0.8), s(0.0));
    let refracted = incident.refract_with(&normal, s(1.5), s(1.5), past).unit();
    assert!(refracted.close(&incident));
}

#[test]
fn unit_vectors_of_short_vectors_are_less_exact() {
    let dirs = [(0.001, 0.002, -0.002), (0.0003, 0.0, 0.0004), (0.5, -0.5, 0.1), (0.000_101, 0.0, 0.0)];
    for (x, y, z) in dirs {
        let v = Vec3::new(s(x), s(y), s(z));
        let n = v.norm().raw();
        assert!(n > 100);
        let r = v.unit().norm().raw();
        assert!(2 * n * (r - 1_000_000) <= 1_000_000 + 2 * n, "{r}");
        assert!(n * (1_000_000 - r) <= 1_000_000 + 9 * n, "{r}");
    }
    // At the threshold and below it the unit vector is the zero vector.
    let tiny = Vec3::new(s(0.0001), s(0.0), s(0.0));
    assert_eq!(tiny.unit(), Vec3::o());
}
