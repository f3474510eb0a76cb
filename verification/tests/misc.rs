use wallfacer::cli::FacesFilter;
use wallfacer::faces::Face;
use wallfacer::geometry::Geometry;
use wallfacer::text::{chars_of, parse_u32, write_decimal};
use wallfacer::{Bbox, FaceJson};

#[test]
fn boxes_become_faces() {
    let b = Bbox { xmin: 10, xmax: 30, ymin: 5, ymax: 45 };
    assert_eq!(b.to_face(), Geometry { w: 20, h: 40, x: 10, y: 5 });
    let j = FaceJson { xmin: 1, xmax: 2, ymin: 3, ymax: 4 };
    assert_eq!(j.to_face(), Face { xmin: 1, xmax: 2, ymin: 3, ymax: 4 });
}

#[test]
fn faces_filter() {
    assert!(FacesFilter::All.keeps(0) && FacesFilter::All.keeps(5));
    assert!(FacesFilter::Zero.keeps(0) && !FacesFilter::Zero.keeps(1));
    assert!(FacesFilter::NoFaces.keeps(0) && !FacesFilter::NoFaces.keeps(2));
    assert!(FacesFilter::One.keeps(1) && !FacesFilter::One.keeps(2));
    assert!(FacesFilter::Single.keeps(1) && !FacesFilter::Single.keeps(0));
    assert!(FacesFilter::Many.keeps(2) && !FacesFilter::Many.keeps(1));
    assert!(FacesFilter::Multiple.keeps(3) && !FacesFilter::Multiple.keeps(0));
}

#[test]
fn numbers_as_text() {
    assert_eq!(parse_u32(&chars_of("42")), Some(42));
    assert_eq!(parse_u32(&chars_of("+7")), Some(7));
    assert_eq!(parse_u32(&chars_of("4294967295")), Some(u32::MAX));
    assert_eq!(parse_u32(&chars_of("4294967296")), None);
    assert_eq!(parse_u32(&chars_of("")), None);
    assert_eq!(parse_u32(&chars_of("+")), None);
    assert_eq!(parse_u32(&chars_of("-1")), None);
    assert_eq!(parse_u32(&chars_of("1a")), None);
    let mut s = String::from("n=");
    write_decimal(&mut s, 1080);
    assert_eq!(s, "n=1080");
    let mut z = String::new();
    write_decimal(&mut z, 0);
    assert_eq!(z, "0");
}
