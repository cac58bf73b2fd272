use raytracer::loader::{parse_int, parse_scalar, Loader, LoaderError, Polygon};
use raytracer::math::Scalar;
use raytracer::vec::Point3;

fn s(x: f64) -> Scalar {
    Scalar::from_raw((x * 1_000_000.0).round() as i64)
}

fn scalar(text: &str) -> Option<Scalar> {
    parse_scalar(&text.as_bytes().to_vec())
}

fn whole(text: &str) -> Option<i64> {
    parse_int(&text.as_bytes().to_vec())
}

#[test]
fn loads_vertices_and_faces() {
    let source = b"# a square of two triangles\nv 0 0 0\nv 1.5 0 -2\nv 1 1 0.25\n\nv 0 1 0\r\nvn 0 0 1\nf 1 2 3\nf 1 3 4\n";
    let obj = Loader::load_obj(source).ok().unwrap();
    assert_eq!(obj.vertices.len(), 4);
    assert_eq!(obj.vertices[1], Point3::new(s(1.5), s(0.0), s(-2.0)));
    assert_eq!(obj.vertices[2], Point3::new(s(1.0), s(1.0), s(0.25)));
    assert_eq!(obj.indices.len(), 2);
    assert_eq!(obj.indices[0].0, Polygon::Tri);
    // The second and the third index of a face change places.
    assert_eq!(obj.indices[0].1, vec![0, 2, 1]);
    assert_eq!(obj.indices[1].1, vec![0, 3, 2]);
}

#[test]
fn tokens_are_cut_at_blanks_alone() {
    let obj = Loader::load_obj(b"  v   1  2   3  \nv\t1 2 3\nv").ok().unwrap();
    assert_eq!(obj.vertices.len(), 1);
    // More than three coordinates: the first three count.
    let obj = Loader::load_obj(b"v 1 2 3 4 5").ok().unwrap();
    assert_eq!(obj.vertices[0], Point3::new(s(1.0), s(2.0), s(3.0)));
    let empty = Loader::load_obj(b"").ok().unwrap();
    assert!(empty.vertices.is_empty() && empty.indices.is_empty());
}

#[test]
fn negative_indices_count_from_the_end() {
    let obj = Loader::load_obj(b"v 0 0 0\nv 1 0 0\nv 0 1 0\nf -3 -2 -1\n").ok().unwrap();
    assert_eq!(obj.indices[0].1, vec![0, 2, 1]);
    let later = Loader::load_obj(b"v 0 0 0\nv 1 0 0\nv 0 1 0\nf -1 -2 -3\nv 2 2 2\nf -1 1 2\n");
    let later = later.ok().unwrap();
    assert_eq!(later.indices[0].1, vec![2, 0, 1]);
    assert_eq!(later.indices[1].1, vec![3, 1, 0]);
    assert!(Loader::load_obj(b"v 0 0 0\nv 1 0 0\nv 0 1 0\nf -4 -3 -2\n").is_err());
}

#[test]
fn vertex_with_few_coordinates_is_an_error() {
    match Loader::load_obj(b"v 1 2\n") {
        Err(LoaderError::Vert(msg)) => assert_eq!(msg, "Received fewer than three coordinates"),
        _ => panic!(),
    }
}

#[test]
fn face_errors() {
    match Loader::load_obj(b"v 0 0 0\nf 1 1\n") {
        Err(LoaderError::Face(msg)) => assert_eq!(msg, "Received fewer than three indices"),
        _ => panic!(),
    }
    for source in [
        &b"v 0 0 0\nf 1 1 2\n"[..],
        &b"v 0 0 0\nf 0 1 1\n"[..],
        &b"v 0 0 0\nf 1 1 -2\n"[..],
        &b"v 0 0 0\nf 1 1 -3\n"[..],
        &b"f 1 2 3\nv 0 0 0\nv 0 0 0\nv 0 0 0\n"[..],
    ] {
        match Loader::load_obj(source) {
            Err(LoaderError::Face(msg)) => {
                assert_eq!(msg, "An index refers to a vertex outside of the current range")
            }
            _ => panic!(),
        }
    }
    match Loader::load_obj(b"v 0 0 0\nf 1 1 1 1\n") {
        Err(LoaderError::Face(msg)) => assert_eq!(msg, "Faces of four vertices are not supported"),
        _ => panic!(),
    }
    match Loader::load_obj(b"v 0 0 0\nf 1 1 1 1 1\n") {
        Err(LoaderError::Face(msg)) => assert_eq!(msg, "Too many indices"),
        _ => panic!(),
    }
}

#[test]
fn numbers_that_are_none() {
    match Loader::load_obj(b"v 1 two 3\n") {
        Err(LoaderError::ParseFloat(token)) => assert_eq!(token, b"two"),
        _ => panic!(),
    }
    match Loader::load_obj(b"v 0 0 0\nf 1 1.5 1\n") {
        Err(LoaderError::ParseInt(token)) => assert_eq!(token, b"1.5"),
        _ => panic!(),
    }
    // The first line that is wrong decides.
    match Loader::load_obj(b"v x 0 0\nf 1 1\n") {
        Err(LoaderError::ParseFloat(token)) => assert_eq!(token, b"x"),
        _ => panic!(),
    }
}

#[test]
fn error_messages() {
    assert_eq!(
        LoaderError::Vert(String::from("few")).message(),
        "Could not read vertex from file: few"
    );
    assert_eq!(
        LoaderError::Face(String::from("many")).message(),
        "Could not read face from file: many"
    );
    assert_eq!(LoaderError::Io(String::from("gone")).message(), "Could not load file: gone");
    assert_eq!(LoaderError::ParseFloat(vec![]).message(), "Could not parse float in file");
    assert_eq!(LoaderError::ParseInt(vec![]).message(), "Could not parse int in file");
}

#[test]
fn scalars_are_read_to_six_places() {
    assert_eq!(scalar("0"), Some(s(0.0)));
    assert_eq!(scalar("-2.3"), Some(s(-2.3)));
    assert_eq!(scalar("+4.25"), Some(s(4.25)));
    assert_eq!(scalar(".5"), Some(s(0.5)));
    assert_eq!(scalar("7."), Some(s(7.0)));
    assert_eq!(scalar("0.1234567"), Some(Scalar::from_raw(123_456)));
    assert_eq!(scalar("-0.0000019"), Some(Scalar::from_raw(-1)));
    assert_eq!(scalar("123456789.000001"), Some(Scalar::from_raw(123_456_789_000_001)));
    assert_eq!(scalar("99999999999999999999"), Some(Scalar::infinity()));
    assert_eq!(scalar("-99999999999999999999999999999999"), Some(Scalar::neg_infinity()));
    assert_eq!(scalar(""), None);
    assert_eq!(scalar("-"), None);
    assert_eq!(scalar("."), None);
    assert_eq!(scalar("1.2.3"), None);
    assert_eq!(scalar("1e5"), Some(s(100_000.0)));
    assert_eq!(scalar("1x5"), None);
    assert_eq!(scalar("--1"), None);
    assert_eq!(scalar("1 "), None);
}

#[test]
fn whole_numbers_are_read_within_their_range() {
    assert_eq!(whole("0"), Some(0));
    assert_eq!(whole("-17"), Some(-17));
    assert_eq!(whole("+17"), Some(17));
    assert_eq!(whole("007"), Some(7));
    assert_eq!(whole("9223372036854775807"), Some(i64::MAX));
    assert_eq!(whole("-9223372036854775808"), Some(i64::MIN));
    assert_eq!(whole("9223372036854775808"), None);
    assert_eq!(whole("-9223372036854775809"), None);
    assert_eq!(whole("123456789012345678901234567890"), None);
    assert_eq!(whole(""), None);
    assert_eq!(whole("-"), None);
    assert_eq!(whole("1.0"), None);
    assert_eq!(whole("1a"), None);
}

#[test]
fn numerals_with_an_exponent_are_scaled() {
    assert_eq!(scalar("1e-3"), Some(s(0.001)));
    assert_eq!(scalar("2.5E2"), Some(s(250.0)));
    assert_eq!(scalar("-1.5e+1"), Some(s(-15.0)));
    assert_eq!(scalar("1.234567e0"), Some(s(1.234567)));
    assert_eq!(scalar("-9.87e-1"), Some(s(-0.987)));
    assert_eq!(scalar("7e-7"), Some(s(0.0)));
    assert_eq!(scalar("-7e-7"), Some(s(0.0)));
    assert_eq!(scalar("1e-30"), Some(s(0.0)));
    assert_eq!(scalar("1e30"), Some(Scalar::infinity()));
    assert_eq!(scalar("-1e30"), Some(Scalar::neg_infinity()));
    assert_eq!(scalar("0e30"), Some(s(0.0)));
    for bad in ["e5", "1e", "1e+", "1e2e3", "1e2.5", "1.e", "-e1"] {
        assert_eq!(scalar(bad), None, "{bad}");
    }
    let obj = Loader::load_obj(b"v 1e-1 -2.5e0 3E1\nv 0 0 0\nv 1 1 1\nf 1 2 3\n").ok().unwrap();
    assert_eq!(obj.vertices[0], Point3::new(s(0.1), s(-2.5), s(30.0)));
    match Loader::load_obj(b"v 1e 0 0\n") {
        Err(LoaderError::ParseFloat(token)) => assert_eq!(token, b"1e".to_vec()),
        _ => panic!(),
    }
}
