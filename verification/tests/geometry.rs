use std::cmp::Ordering;
use wallfacer::cropper::Direction;
use wallfacer::geometry::{Geometry, GeometryError};

#[test]
fn geometry_reads_and_writes_text() {
    let g = Geometry::try_from("1920x1080+10+20").unwrap();
    assert_eq!(g, Geometry { w: 1920, h: 1080, x: 10, y: 20 });
    assert_eq!(g.to_string(), "1920x1080+10+20");
    assert_eq!(Geometry::try_from(g.to_string().as_str()).unwrap(), g);
    let zero = Geometry::default();
    assert_eq!(zero.to_string(), "0x0+0+0");
    assert_eq!(Geometry::try_from("0x0+0+0").unwrap(), zero);
}

#[test]
fn geometry_rejects_bad_text() {
    assert_eq!(Geometry::try_from("1x2+3"), Err(GeometryError::InvalidCoordinate));
    assert_eq!(Geometry::try_from("axb+c+d"), Err(GeometryError::InvalidCoordinate));
    assert_eq!(Geometry::try_from("1x2+3+4+5"), Err(GeometryError::InvalidCoordinate));
    assert_eq!(Geometry::try_from(""), Err(GeometryError::InvalidCoordinate));
    // pieces that are not numbers are skipped
    assert_eq!(Geometry::try_from("1x2+a+3+4").unwrap(), Geometry { w: 1, h: 2, x: 3, y: 4 });
}

#[test]
fn geometry_bounds_and_area() {
    let g = Geometry { w: 30, h: 20, x: 5, y: 7 };
    assert_eq!(g.xmax(), 35);
    assert_eq!(g.ymax(), 27);
    assert_eq!(g.area(), 600);
    assert_eq!(g.direction_bounds(Direction::X), (5, 35));
    assert_eq!(g.direction_bounds(Direction::Y), (7, 27));
}

#[test]
fn geometry_alignment() {
    // spans the full height: aligned horizontally
    let g = Geometry { w: 100, h: 200, x: 30, y: 0 };
    assert_eq!(g.align_start(400, 200), Geometry { x: 0, y: 0, ..g });
    assert_eq!(g.align_center(400, 200), Geometry { x: 150, y: 0, ..g });
    assert_eq!(g.align_end(400, 200), Geometry { x: 300, y: 0, ..g });
    // spans the full width: aligned vertically
    let v = Geometry { w: 400, h: 100, x: 0, y: 30 };
    assert_eq!(v.align_center(400, 301), Geometry { x: 0, y: 100, ..v });
    assert_eq!(v.align_end(400, 301), Geometry { x: 0, y: 201, ..v });
}

#[test]
fn geometry_orders_by_position() {
    let a = Geometry { w: 1, h: 1, x: 1, y: 5 };
    let b = Geometry { w: 9, h: 9, x: 2, y: 0 };
    let c = Geometry { w: 3, h: 3, x: 1, y: 6 };
    assert_eq!(a.compare(&b), Ordering::Less);
    assert_eq!(b.compare(&a), Ordering::Greater);
    assert_eq!(a.compare(&c), Ordering::Less);
    assert_eq!(a.compare(&Geometry { w: 7, h: 7, x: 1, y: 5 }), Ordering::Equal);
}
