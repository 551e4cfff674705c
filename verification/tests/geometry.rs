use charon::geometry::{rect_contains, rect_intersects_line, GeoPoint, Point, Size};

#[test]
fn rect_intersection() {
    let rect_point = Point::new(0, 0);
    let rect_size = Size::new(10, 10);

    let line_start = Point::new(3, 3);
    let line_end = Point::new(5, 5);
    assert!(rect_intersects_line(rect_point, rect_size, line_start, line_end));

    let line_start = Point::new(0, 3);
    let line_end = Point::new(0, 5);
    assert!(rect_intersects_line(rect_point, rect_size, line_start, line_end));

    let line_start = Point::new(3, 10);
    let line_end = Point::new(5, 10);
    assert!(rect_intersects_line(rect_point, rect_size, line_start, line_end));

    let line_start = Point::new(-5, 3);
    let line_end = Point::new(15, 3);
    assert!(rect_intersects_line(rect_point, rect_size, line_start, line_end));

    let line_start = Point::new(3, -5);
    let line_end = Point::new(3, 15);
    assert!(rect_intersects_line(rect_point, rect_size, line_start, line_end));

    let line_start = Point::new(-2, 5);
    let line_end = Point::new(5, 12);
    assert!(rect_intersects_line(rect_point, rect_size, line_start, line_end));

    let line_start = Point::new(-2, -1);
    let line_end = Point::new(12, -1);
    assert!(!rect_intersects_line(rect_point, rect_size, line_start, line_end));

    let line_start = Point::new(12, -2);
    let line_end = Point::new(12, 12);
    assert!(!rect_intersects_line(rect_point, rect_size, line_start, line_end));

    let line_start = Point::new(-2, 1);
    let line_end = Point::new(1, -2);
    assert!(!rect_intersects_line(rect_point, rect_size, line_start, line_end));
}

#[test]
fn rectangles() {
    let point = Point::new(5, 5);
    let size = Size::new(10, 20);
    assert!(rect_contains(point, size, Point::new(5, 5)));
    assert!(rect_contains(point, size, Point::new(14, 24)));
    assert!(!rect_contains(point, size, Point::new(15, 24)));
    assert!(!rect_contains(point, size, Point::new(14, 25)));
    assert!(!rect_contains(point, size, Point::new(4, 5)));
    assert!(rect_contains(Point::new(0.5, 0.5), Size::new(1., 1.), Point::new(1.4, 0.5)));
    assert!(!rect_contains(Point::new(0.5, 0.5), Size::new(1., 1.), Point::new(1.5, 0.5)));
}

#[test]
fn point_arithmetic() {
    assert_eq!(Point::new(1, 2) + Point::new(3, 4), Point::new(4, 6));
    assert_eq!(Point::new(1, 2) - Point::new(3, 5), Point::new(-2, -3));
    assert_eq!(Size::new(7u32, 8) - Size::new(3, 4), Size::new(4, 4));
    assert_eq!(GeoPoint::new(1, 2), GeoPoint { lat: 1, lon: 2 });
}
