//! Shared geometry types.

use core::ops::{Add, Sub};

use vstd::prelude::*;
use vstd::std_specs::cmp::{PartialOrdIs, PartialOrdSpec};
use vstd::std_specs::ops::{AddSpec, AddSpecImpl, SubSpec, SubSpecImpl};

verus! {

/// 2D object position.
#[derive(Copy, Clone, Debug, PartialEq, Eq, Structural)]
pub struct Point<T = i32> {
    pub x: T,
    pub y: T,
}

impl<T> Point<T> {
    pub fn new(x: T, y: T) -> (point: Self)
        ensures
            point == (Point { x, y }),
    {
        Self { x, y }
    }
}

impl<T: Add<Output = T>> Add<Point<T>> for Point<T> {
    type Output = Point<T>;

    fn add(self, other: Point<T>) -> (sum: Point<T>) {
        Point { x: self.x + other.x, y: self.y + other.y }
    }
}

impl<T: Add<Output = T>> AddSpecImpl<Point<T>> for Point<T> {
    open spec fn obeys_add_spec() -> bool {
        T::obeys_add_spec()
    }

    open spec fn add_req(self, other: Point<T>) -> bool {
        self.x.add_req(other.x) && self.y.add_req(other.y)
    }

    open spec fn add_spec(self, other: Point<T>) -> Point<T> {
        Point { x: self.x.add_spec(other.x), y: self.y.add_spec(other.y) }
    }
}

impl<T: Sub<Output = T>> Sub<Point<T>> for Point<T> {
    type Output = Point<T>;

    fn sub(self, other: Point<T>) -> (difference: Point<T>) {
        Point { x: self.x - other.x, y: self.y - other.y }
    }
}

impl<T: Sub<Output = T>> SubSpecImpl<Point<T>> for Point<T> {
    open spec fn obeys_sub_spec() -> bool {
        T::obeys_sub_spec()
    }

    open spec fn sub_req(self, other: Point<T>) -> bool {
        self.x.sub_req(other.x) && self.y.sub_req(other.y)
    }

    open spec fn sub_spec(self, other: Point<T>) -> Point<T> {
        Point { x: self.x.sub_spec(other.x), y: self.y.sub_spec(other.y) }
    }
}

/// 2D object size.
#[derive(Copy, Clone, Debug, PartialEq, Eq, Hash, Structural)]
pub struct Size<T = u32> {
    pub width: T,
    pub height: T,
}

impl<T> Size<T> {
    pub fn new(width: T, height: T) -> (size: Self)
        ensures
            size == (Size { width, height }),
    {
        Self { width, height }
    }
}

impl<T: Sub<Output = T>> Sub<Size<T>> for Size<T> {
    type Output = Size<T>;

    fn sub(self, other: Size<T>) -> (difference: Size<T>) {
        Size { width: self.width - other.width, height: self.height - other.height }
    }
}

impl<T: Sub<Output = T>> SubSpecImpl<Size<T>> for Size<T> {
    open spec fn obeys_sub_spec() -> bool {
        T::obeys_sub_spec()
    }

    open spec fn sub_req(self, other: Size<T>) -> bool {
        self.width.sub_req(other.width) && self.height.sub_req(other.height)
    }

    open spec fn sub_spec(self, other: Size<T>) -> Size<T> {
        Size {
            width: self.width.sub_spec(other.width),
            height: self.height.sub_spec(other.height),
        }
    }
}

/// Point in geographical space.
///
/// Latitude and longitude are kept as the bits of their floating point value.
#[derive(Copy, Clone, Debug, PartialEq, Eq, Structural)]
pub struct GeoPoint {
    pub lat: u64,
    pub lon: u64,
}

impl GeoPoint {
    pub fn new(lat: u64, long: u64) -> (point: Self)
        ensures
            point == (GeoPoint { lat, lon: long }),
    {
        Self { lon: long, lat }
    }
}

/// Half-open rectangle membership.
pub open spec fn in_rect<T: PartialOrd + Add<Output = T>>(
    rect_point: Point<T>,
    rect_size: Size<T>,
    point: Point<T>,
) -> bool {
    &&& point.x.is_ge(&rect_point.x)
    &&& point.y.is_ge(&rect_point.y)
    &&& point.x.is_lt(&rect_point.x.add_spec(rect_size.width))
    &&& point.y.is_lt(&rect_point.y.add_spec(rect_size.height))
}

/// Check if a rectangle contains a point.
pub fn rect_contains<T>(rect_point: Point<T>, rect_size: Size<T>, point: Point<T>) -> (inside: bool)
    where T: PartialOrd + Add<Output = T>
    requires
        (T::obeys_partial_cmp_spec() ==> point.x.is_ge(&rect_point.x) && point.y.is_ge(
            &rect_point.y,
        )) ==> rect_point.x.add_req(rect_size.width),
        (T::obeys_partial_cmp_spec() && T::obeys_add_spec() ==> point.x.is_ge(&rect_point.x)
            && point.y.is_ge(&rect_point.y) && point.x.is_lt(
            &rect_point.x.add_spec(rect_size.width),
        )) ==> rect_point.y.add_req(rect_size.height),
    ensures
        T::obeys_partial_cmp_spec() && T::obeys_add_spec() ==> inside == in_rect(
            rect_point,
            rect_size,
            point,
        ),
{
    point.x >= rect_point.x && point.y >= rect_point.y && point.x < rect_point.x + rect_size.width
        && point.y < rect_point.y + rect_size.height
}

/// The bounds of a line contain a point.
pub open spec fn in_bounds(start: Point, end: Point, point: Point) -> bool {
    &&& point.x <= start.x || point.x <= end.x
    &&& point.x >= start.x || point.x >= end.x
    &&& point.y <= start.y || point.y <= end.y
    &&& point.y >= start.y || point.y >= end.y
}

/// Cross product of two vectors.
pub open spec fn cross(a_x: int, a_y: int, b_x: int, b_y: int) -> int {
    a_x * b_y - b_x * a_y
}

/// A fraction is between zero and one.
pub open spec fn is_part(numerator: int, denominator: int) -> bool {
    if denominator > 0 {
        0 <= numerator <= denominator
    } else {
        denominator <= numerator <= 0
    }
}

/// Two lines have a point in common.
///
/// The intersection of lines which are not parallel is a fraction of both lines.
/// Parallel lines are compared by their bounds.
pub open spec fn cross_each_other(a_start: Point, a_end: Point, b_start: Point, b_end: Point) -> bool {
    let a_width = a_end.x - a_start.x;
    let a_height = a_end.y - a_start.y;
    let b_width = b_end.x - b_start.x;
    let b_height = b_end.y - b_start.y;
    let x = a_start.x - b_start.x;
    let y = a_start.y - b_start.y;
    let det = cross(a_width, a_height, b_width, b_height);
    if det == 0 {
        in_bounds(a_start, a_end, b_start) || in_bounds(a_start, a_end, b_end) || in_bounds(
            b_start,
            b_end,
            a_start,
        )
    } else {
        is_part(cross(a_width, a_height, x, y), det) && is_part(
            cross(b_width, b_height, x, y),
            det,
        )
    }
}

/// Check if two lines intersect
fn lines_intersect(a_start: Point, a_end: Point, b_start: Point, b_end: Point) -> (result: bool)
    ensures
        result == cross_each_other(a_start, a_end, b_start, b_end),
{
    let a_width: i128 = a_end.x as i128 - a_start.x as i128;
    let a_height: i128 = a_end.y as i128 - a_start.y as i128;
    let b_width: i128 = b_end.x as i128 - b_start.x as i128;
    let b_height: i128 = b_end.y as i128 - b_start.y as i128;

    // Check if lines are parallel.
    let det: i128 = cross_product(a_width, a_height, b_width, b_height);
    if det == 0 {
        // Check if parallel lines intersect.
        return line_contains(a_start, a_end, b_start) || line_contains(a_start, a_end, b_end)
            || line_contains(b_start, b_end, a_start);
    }

    // Calculate intersection.
    let x: i128 = a_start.x as i128 - b_start.x as i128;
    let y: i128 = a_start.y as i128 - b_start.y as i128;
    let s: i128 = cross_product(a_width, a_height, x, y);
    let t: i128 = cross_product(b_width, b_height, x, y);

    check_part(s, det) && check_part(t, det)
}

/// Calculate the cross product of two vectors.
fn cross_product(a_x: i128, a_y: i128, b_x: i128, b_y: i128) -> (product: i128)
    requires
        -0x1_0000_0000 < a_x < 0x1_0000_0000,
        -0x1_0000_0000 < a_y < 0x1_0000_0000,
        -0x1_0000_0000 < b_x < 0x1_0000_0000,
        -0x1_0000_0000 < b_y < 0x1_0000_0000,
    ensures
        product == cross(a_x as int, a_y as int, b_x as int, b_y as int),
{
    proof {
        lemma_product_bound(a_x as int, b_y as int);
        lemma_product_bound(b_x as int, a_y as int);
    }
    a_x * b_y - b_x * a_y
}

proof fn lemma_product_bound(a: int, b: int)
    requires
        -0x1_0000_0000 < a < 0x1_0000_0000,
        -0x1_0000_0000 < b < 0x1_0000_0000,
    ensures
        -0x1_0000_0000_0000_0000 <= a * b <= 0x1_0000_0000_0000_0000,
{
    assert(-0x1_0000_0000_0000_0000 <= a * b <= 0x1_0000_0000_0000_0000) by (nonlinear_arith)
        requires
            -0x1_0000_0000 < a < 0x1_0000_0000,
            -0x1_0000_0000 < b < 0x1_0000_0000,
    ;
}

/// Check whether a fraction is between zero and one.
fn check_part(numerator: i128, denominator: i128) -> (result: bool)
    ensures
        result == is_part(numerator as int, denominator as int),
{
    if denominator > 0 {
        0 <= numerator && numerator <= denominator
    } else {
        denominator <= numerator && numerator <= 0
    }
}

/// Check if a line contains a point.
fn line_contains(line_start: Point, line_end: Point, point: Point) -> (result: bool)
    ensures
        result == in_bounds(line_start, line_end, point),
{
    (point.x <= line_start.x || point.x <= line_end.x) && (point.x >= line_start.x || point.x
        >= line_end.x) && (point.y <= line_start.y || point.y <= line_end.y) && (point.y
        >= line_start.y || point.y >= line_end.y)
}

/// A line starts inside of a rectangle or crosses any of its sides.
pub open spec fn line_in_rect(
    rect_point: Point,
    rect_size: Size<i32>,
    line_start: Point,
    line_end: Point,
) -> bool {
    let max = Point {
        x: (rect_point.x + rect_size.width) as i32,
        y: (rect_point.y + rect_size.height) as i32,
    };
    let top_right = Point { x: max.x, y: rect_point.y };
    let bottom_left = Point { x: rect_point.x, y: max.y };
    ||| rect_point.x <= line_start.x < max.x && rect_point.y <= line_start.y < max.y
    ||| cross_each_other(rect_point, top_right, line_start, line_end)
    ||| cross_each_other(rect_point, bottom_left, line_start, line_end)
    ||| cross_each_other(top_right, max, line_start, line_end)
    ||| cross_each_other(bottom_left, max, line_start, line_end)
}

/// Check if any point of a line lies within a rectangle.
pub fn rect_intersects_line(
    rect_point: Point,
    rect_size: Size<i32>,
    line_start: Point,
    line_end: Point,
) -> (result: bool)
    requires
        i32::MIN <= rect_point.x + rect_size.width <= i32::MAX,
        i32::MIN <= rect_point.y + rect_size.height <= i32::MAX,
    ensures
        result == line_in_rect(rect_point, rect_size, line_start, line_end),
{
    let max_point = Point::new(rect_point.x + rect_size.width, rect_point.y + rect_size.height);
    let top_right = Point::new(max_point.x, rect_point.y);
    let bottom_left = Point::new(rect_point.x, max_point.y);

    // Handle case where entire line lies within the rectangle.
    rect_contains(rect_point, rect_size, line_start)
    // Check all four sides for intersection with the line.
     || lines_intersect(rect_point, top_right, line_start, line_end) || lines_intersect(
        rect_point,
        bottom_left,
        line_start,
        line_end,
    ) || lines_intersect(top_right, max_point, line_start, line_end) || lines_intersect(
        bottom_left,
        max_point,
        line_start,
        line_end,
    )
}

/// Position at a fraction of a line, multiplied with the fraction's
/// denominator.
pub open spec fn point_along(start: int, end: int, part: int, whole: int) -> int {
    start * whole + part * (end - start)
}

/// A fraction of a line lies within a rectangle.
pub open spec fn part_in_rect(
    rect_point: Point,
    rect_size: Size<i32>,
    line_start: Point,
    line_end: Point,
    part: int,
    whole: int,
) -> bool {
    let x = point_along(line_start.x as int, line_end.x as int, part, whole);
    let y = point_along(line_start.y as int, line_end.y as int, part, whole);
    &&& 0 <= part <= whole
    &&& 0 < whole
    &&& rect_point.x * whole <= x <= (rect_point.x + rect_size.width) * whole
    &&& rect_point.y * whole <= y <= (rect_point.y + rect_size.height) * whole
}

/// Fraction of a line which lies on a side of a rectangle that is crossed by it.
proof fn lemma_side_crossing(
    rect_point: Point,
    rect_size: Size<i32>,
    a_start: Point,
    a_end: Point,
    b_start: Point,
    b_end: Point,
) -> (fraction: (int, int))
    requires
        cross_each_other(a_start, a_end, b_start, b_end),
        a_start.x == a_end.x || a_start.y == a_end.y,
        a_start != a_end,
        rect_point.x <= a_start.x <= rect_point.x + rect_size.width,
        rect_point.y <= a_start.y <= rect_point.y + rect_size.height,
        rect_point.x <= a_end.x <= rect_point.x + rect_size.width,
        rect_point.y <= a_end.y <= rect_point.y + rect_size.height,
    ensures
        part_in_rect(rect_point, rect_size, b_start, b_end, fraction.0, fraction.1),
{
    let a_width = a_end.x - a_start.x;
    let a_height = a_end.y - a_start.y;
    let b_width = b_end.x - b_start.x;
    let b_height = b_end.y - b_start.y;
    let x = a_start.x - b_start.x;
    let y = a_start.y - b_start.y;
    let det = cross(a_width, a_height, b_width, b_height);
    if det == 0 {
        lemma_parallel_crossing(rect_point, rect_size, a_start, a_end, b_start, b_end)
    } else {
        let s = cross(a_width, a_height, x, y);
        let t = cross(b_width, b_height, x, y);
        assert(x * det == s * b_width - t * a_width) by (nonlinear_arith)
            requires
                det == a_width * b_height - b_width * a_height,
                s == a_width * y - x * a_height,
                t == b_width * y - x * b_height,
        ;
        assert(y * det == s * b_height - t * a_height) by (nonlinear_arith)
            requires
                det == a_width * b_height - b_width * a_height,
                s == a_width * y - x * a_height,
                t == b_width * y - x * b_height,
        ;
        let (part, whole, along) = if det > 0 {
            (s, det, t)
        } else {
            (-s, -det, -t)
        };
        assert(x * whole == part * b_width - along * a_width && y * whole == part * b_height
            - along * a_height) by (nonlinear_arith)
            requires
                x * det == s * b_width - t * a_width,
                y * det == s * b_height - t * a_height,
                (part == s && whole == det && along == t) || (part == -s && whole == -det && along
                    == -t),
        ;
        lemma_between(a_start.x as int, a_end.x as int, along, whole, rect_point.x as int, rect_point.x
            + rect_size.width);
        lemma_between(a_start.y as int, a_end.y as int, along, whole, rect_point.y as int, rect_point.y
            + rect_size.height);
        assert((a_start.x - b_start.x) * whole == a_start.x * whole - b_start.x * whole)
            by (nonlinear_arith);
        assert((a_start.y - b_start.y) * whole == a_start.y * whole - b_start.y * whole)
            by (nonlinear_arith);
        (part, whole)
    }
}

/// Any fraction of a line is between its ends.
proof fn lemma_between(start: int, end: int, part: int, whole: int, min: int, max: int)
    requires
        0 <= part <= whole,
        min <= start <= max,
        min <= end <= max,
    ensures
        min * whole <= start * whole + part * (end - start) <= max * whole,
{
    assert(start * whole + part * (end - start) == start * (whole - part) + end * part)
        by (nonlinear_arith);
    assert(min * (whole - part) <= start * (whole - part) <= max * (whole - part))
        by (nonlinear_arith)
        requires
            min <= start <= max,
            0 <= whole - part,
    ;
    assert(min * part <= end * part <= max * part) by (nonlinear_arith)
        requires
            min <= end <= max,
            0 <= part,
    ;
    assert(min * (whole - part) + min * part == min * whole) by (nonlinear_arith);
    assert(max * (whole - part) + max * part == max * whole) by (nonlinear_arith);
}

/// Fraction of a line which lies on a parallel side of a rectangle.
proof fn lemma_parallel_crossing(
    rect_point: Point,
    rect_size: Size<i32>,
    a_start: Point,
    a_end: Point,
    b_start: Point,
    b_end: Point,
) -> (fraction: (int, int))
    requires
        cross(
            a_end.x - a_start.x,
            a_end.y - a_start.y,
            b_end.x - b_start.x,
            b_end.y - b_start.y,
        ) == 0,
        in_bounds(a_start, a_end, b_start) || in_bounds(a_start, a_end, b_end) || in_bounds(
            b_start,
            b_end,
            a_start,
        ),
        a_start.x == a_end.x || a_start.y == a_end.y,
        a_start != a_end,
        rect_point.x <= a_start.x <= rect_point.x + rect_size.width,
        rect_point.y <= a_start.y <= rect_point.y + rect_size.height,
        rect_point.x <= a_end.x <= rect_point.x + rect_size.width,
        rect_point.y <= a_end.y <= rect_point.y + rect_size.height,
    ensures
        part_in_rect(rect_point, rect_size, b_start, b_end, fraction.0, fraction.1),
{
    let b_width = b_end.x - b_start.x;
    let b_height = b_end.y - b_start.y;
    if in_bounds(a_start, a_end, b_start) {
        (0, 1)
    } else if in_bounds(a_start, a_end, b_end) {
        (1, 1)
    } else if a_start.y == a_end.y {
        let a_width = a_end.x - a_start.x;
        assert(b_height == 0) by (nonlinear_arith)
            requires
                a_width * b_height - b_width * 0 == 0,
                a_width != 0,
        ;
        let distance = a_start.x - b_start.x;
        let fraction = if b_width > 0 {
            (distance, b_width)
        } else {
            (-distance, -b_width)
        };
        assert(b_width != 0);
        lemma_reach(b_start.x as int, b_end.x as int, a_start.x as int, fraction.0, fraction.1);
        lemma_flat(b_start.y as int, b_end.y as int, fraction.0, fraction.1);
        lemma_scale(rect_point.x as int, a_start.x as int, fraction.1);
        lemma_scale(a_start.x as int, rect_point.x + rect_size.width, fraction.1);
        lemma_scale(rect_point.y as int, b_start.y as int, fraction.1);
        lemma_scale(b_start.y as int, rect_point.y + rect_size.height, fraction.1);
        fraction
    } else {
        let a_height = a_end.y - a_start.y;
        assert(b_width == 0) by (nonlinear_arith)
            requires
                0 * b_height - b_width * a_height == 0,
                a_height != 0,
        ;
        let distance = a_start.y - b_start.y;
        let fraction = if b_height > 0 {
            (distance, b_height)
        } else {
            (-distance, -b_height)
        };
        assert(b_height != 0);
        lemma_reach(b_start.y as int, b_end.y as int, a_start.y as int, fraction.0, fraction.1);
        lemma_flat(b_start.x as int, b_end.x as int, fraction.0, fraction.1);
        lemma_scale(rect_point.y as int, a_start.y as int, fraction.1);
        lemma_scale(a_start.y as int, rect_point.y + rect_size.height, fraction.1);
        lemma_scale(rect_point.x as int, b_start.x as int, fraction.1);
        lemma_scale(b_start.x as int, rect_point.x + rect_size.width, fraction.1);
        fraction
    }
}

proof fn lemma_reach(start: int, end: int, target: int, part: int, whole: int)
    requires
        (part == target - start && whole == end - start) || (part == start - target && whole == start
            - end),
    ensures
        point_along(start, end, part, whole) == target * whole,
{
    assert(start * whole + part * (end - start) == target * whole) by (nonlinear_arith)
        requires
            (part == target - start && whole == end - start) || (part == start - target && whole
                == start - end),
    ;
}

proof fn lemma_flat(start: int, end: int, part: int, whole: int)
    requires
        start == end,
    ensures
        point_along(start, end, part, whole) == start * whole,
{
    assert(part * (end - start) == 0) by (nonlinear_arith)
        requires
            start == end,
    ;
}

proof fn lemma_scale(a: int, b: int, whole: int)
    requires
        a <= b,
        0 <= whole,
    ensures
        a * whole <= b * whole,
{
    assert(a * whole <= b * whole) by (nonlinear_arith)
        requires
            a <= b,
            0 <= whole,
    ;
}

/// Every line which intersects a rectangle has a point that lies within it.
pub proof fn law_intersecting_line_has_point_in_rect(
    rect_point: Point,
    rect_size: Size<i32>,
    line_start: Point,
    line_end: Point,
)
    requires
        0 < rect_size.width,
        0 < rect_size.height,
        rect_point.x + rect_size.width <= i32::MAX,
        rect_point.y + rect_size.height <= i32::MAX,
        line_in_rect(rect_point, rect_size, line_start, line_end),
    ensures
        exists|part: int, whole: int|
            part_in_rect(rect_point, rect_size, line_start, line_end, part, whole),
{
    let max = Point {
        x: (rect_point.x + rect_size.width) as i32,
        y: (rect_point.y + rect_size.height) as i32,
    };
    let top_right = Point { x: max.x, y: rect_point.y };
    let bottom_left = Point { x: rect_point.x, y: max.y };
    if rect_point.x <= line_start.x < max.x && rect_point.y <= line_start.y < max.y {
        assert(part_in_rect(rect_point, rect_size, line_start, line_end, 0, 1));
    } else {
        let (start, end) = if cross_each_other(rect_point, top_right, line_start, line_end) {
            (rect_point, top_right)
        } else if cross_each_other(rect_point, bottom_left, line_start, line_end) {
            (rect_point, bottom_left)
        } else if cross_each_other(top_right, max, line_start, line_end) {
            (top_right, max)
        } else {
            (bottom_left, max)
        };
        let fraction = lemma_side_crossing(
            rect_point,
            rect_size,
            start,
            end,
            line_start,
            line_end,
        );
        assert(part_in_rect(
            rect_point,
            rect_size,
            line_start,
            line_end,
            fraction.0,
            fraction.1,
        ));
    }
}

/// Bounds on one axis at the fraction of a line where it enters a rectangle on the
/// other axis.
///
/// The line starts inside of the bounds or has entered them already, and a later
/// point of it is inside of the bounds.
proof fn lemma_enters_within(
    start: int,
    delta: int,
    min: int,
    max: int,
    entry: int,
    speed: int,
    part: int,
    whole: int,
)
    requires
        0 < whole,
        0 <= entry,
        0 < speed,
        entry * whole <= part * speed,
        min * whole <= start * whole + part * delta <= max * whole,
        start < min ==> (min - start) * speed <= entry * delta,
        start > max ==> (start - max) * speed <= entry * -delta,
    ensures
        min * speed <= start * speed + entry * delta <= max * speed,
{
    let position = start * speed + entry * delta;
    let later = start * whole + part * delta;
    assert(position * whole - later * speed == (entry * whole - part * speed) * delta)
        by (nonlinear_arith)
        requires
            position == start * speed + entry * delta,
            later == start * whole + part * delta,
    ;
    if delta >= 0 {
        assert((entry * whole - part * speed) * delta <= 0) by (nonlinear_arith)
            requires
                entry * whole - part * speed <= 0,
                delta >= 0,
        ;
        lemma_scale(later, max * whole, speed);
        lemma_divide(position, max, whole, speed);
        if start < min {
            assert((min - start) * speed == min * speed - start * speed) by (nonlinear_arith);
        } else {
            lemma_scale(min, start, speed);
            assert(entry * delta >= 0) by (nonlinear_arith)
                requires
                    entry >= 0,
                    delta >= 0,
            ;
        }
    } else {
        assert((entry * whole - part * speed) * delta >= 0) by (nonlinear_arith)
            requires
                entry * whole - part * speed <= 0,
                delta < 0,
        ;
        lemma_scale(min * whole, later, speed);
        lemma_divide_lower(position, min, whole, speed);
        if start > max {
            assert((start - max) * speed == start * speed - max * speed) by (nonlinear_arith);
            assert(entry * -delta == -(entry * delta)) by (nonlinear_arith);
        } else {
            lemma_scale(start, max, speed);
            assert(entry * delta <= 0) by (nonlinear_arith)
                requires
                    entry >= 0,
                    delta < 0,
            ;
        }
    }
}

/// Remove a common factor from both sides of an inequality.
proof fn lemma_divide(position: int, bound: int, whole: int, speed: int)
    requires
        0 < whole,
        position * whole <= bound * whole * speed,
    ensures
        position <= bound * speed,
{
    assert(position <= bound * speed) by (nonlinear_arith)
        requires
            0 < whole,
            position * whole <= bound * whole * speed,
    ;
}

/// Remove a common factor from both sides of an inequality.
proof fn lemma_divide_lower(position: int, bound: int, whole: int, speed: int)
    requires
        0 < whole,
        bound * whole * speed <= position * whole,
    ensures
        bound * speed <= position,
{
    assert(bound * speed <= position) by (nonlinear_arith)
        requires
            0 < whole,
            bound * whole * speed <= position * whole,
    ;
}

/// Distance of a position to its closest bound.
spec fn outside(position: int, min: int, max: int) -> int {
    if position < min {
        min - position
    } else if position > max {
        position - max
    } else {
        0
    }
}

/// Absolute value.
spec fn magnitude(value: int) -> int {
    if value < 0 {
        -value
    } else {
        value
    }
}

/// A line which gets inside of bounds moves towards them, and has reached them by
/// then.
proof fn lemma_reaches(start: int, delta: int, min: int, max: int, part: int, whole: int)
    requires
        min <= max,
        0 <= part <= whole,
        0 < whole,
        min * whole <= start * whole + part * delta <= max * whole,
    ensures
        outside(start, min, max) * whole <= part * magnitude(delta),
        outside(start, min, max) > 0 ==> magnitude(delta) > 0,
        outside(start, min, max) <= magnitude(delta),
        start < min ==> delta > 0,
        start > max ==> delta < 0,
{
    let distance = outside(start, min, max);
    if start < min {
        assert((min - start) * whole == min * whole - start * whole) by (nonlinear_arith);
        assert((min - start) * whole > 0) by (nonlinear_arith)
            requires
                start < min,
                whole > 0,
        ;
        assert(delta > 0) by (nonlinear_arith)
            requires
                part * delta > 0,
                part >= 0,
        ;
    } else if start > max {
        assert((start - max) * whole == start * whole - max * whole) by (nonlinear_arith);
        assert((start - max) * whole > 0) by (nonlinear_arith)
            requires
                start > max,
                whole > 0,
        ;
        assert(delta < 0) by (nonlinear_arith)
            requires
                part * delta < 0,
                part >= 0,
        ;
        assert(part * -delta == -(part * delta)) by (nonlinear_arith);
    } else {
        assert(part * magnitude(delta) >= 0) by (nonlinear_arith)
            requires
                part >= 0,
                magnitude(delta) >= 0,
        ;
        assert(0 * whole == 0) by (nonlinear_arith);
    }
    let speed = magnitude(delta);
    assert(distance <= speed) by (nonlinear_arith)
        requires
            distance * whole <= part * speed,
            0 <= part <= whole,
            0 < whole,
            0 <= speed,
    ;
}

/// A line crosses the vertical side through which it enters a rectangle.
proof fn lemma_enters_side(
    side_x: int,
    min_y: int,
    max_y: int,
    start: Point,
    end: Point,
    a_start: Point,
    a_end: Point,
)
    requires
        a_start.x == side_x,
        a_end.x == side_x,
        a_start.y == min_y,
        a_end.y == max_y,
        min_y < max_y,
        start.x < side_x ==> end.x > start.x && side_x - start.x <= end.x - start.x,
        start.x > side_x ==> end.x < start.x && start.x - side_x <= start.x - end.x,
        start.x != side_x,
        ({
            let entry = magnitude(side_x - start.x);
            let speed = magnitude(end.x - start.x);
            min_y * speed <= start.y * speed + entry * (end.y - start.y) <= max_y * speed
        }),
    ensures
        cross_each_other(a_start, a_end, start, end),
{
    let d_x = end.x - start.x;
    let d_y = end.y - start.y;
    let h = max_y - min_y;
    let entry = magnitude(side_x - start.x);
    let speed = magnitude(d_x);
    let det = cross(0, h, d_x, d_y);
    let s = cross(0, h, side_x - start.x, min_y - start.y);
    let t = cross(d_x, d_y, side_x - start.x, min_y - start.y);
    assert(det == -(d_x * h)) by (nonlinear_arith)
        requires
            det == 0 * d_y - d_x * h,
    ;
    assert(s == -((side_x - start.x) * h)) by (nonlinear_arith)
        requires
            s == 0 * (min_y - start.y) - (side_x - start.x) * h,
    ;
    assert(entry * h <= speed * h && 0 <= entry * h && 0 < speed * h) by (nonlinear_arith)
        requires
            0 <= entry <= speed,
            0 < speed,
            0 < h,
    ;
    assert(speed * h == max_y * speed - min_y * speed) by (nonlinear_arith)
        requires
            h == max_y - min_y,
    ;
    if start.x < side_x {
        assert(d_x * h == speed * h && (side_x - start.x) * h == entry * h);
        assert(t == min_y * speed - (start.y * speed + entry * d_y)) by (nonlinear_arith)
            requires
                t == d_x * (min_y - start.y) - (side_x - start.x) * d_y,
                speed == d_x,
                entry == side_x - start.x,
        ;
    } else {
        assert(d_x * h == -(speed * h) && (side_x - start.x) * h == -(entry * h))
            by (nonlinear_arith)
            requires
                speed == -d_x,
                entry == -(side_x - start.x),
        ;
        assert(t == (start.y * speed + entry * d_y) - min_y * speed) by (nonlinear_arith)
            requires
                t == d_x * (min_y - start.y) - (side_x - start.x) * d_y,
                speed == -d_x,
                entry == -(side_x - start.x),
        ;
    }
}

/// A line crosses the horizontal side through which it enters a rectangle.
proof fn lemma_enters_end(
    side_y: int,
    min_x: int,
    max_x: int,
    start: Point,
    end: Point,
    a_start: Point,
    a_end: Point,
)
    requires
        a_start.y == side_y,
        a_end.y == side_y,
        a_start.x == min_x,
        a_end.x == max_x,
        min_x < max_x,
        start.y < side_y ==> end.y > start.y && side_y - start.y <= end.y - start.y,
        start.y > side_y ==> end.y < start.y && start.y - side_y <= start.y - end.y,
        start.y != side_y,
        ({
            let entry = magnitude(side_y - start.y);
            let speed = magnitude(end.y - start.y);
            min_x * speed <= start.x * speed + entry * (end.x - start.x) <= max_x * speed
        }),
    ensures
        cross_each_other(a_start, a_end, start, end),
{
    let d_x = end.x - start.x;
    let d_y = end.y - start.y;
    let w = max_x - min_x;
    let entry = magnitude(side_y - start.y);
    let speed = magnitude(d_y);
    let det = cross(w, 0, d_x, d_y);
    let s = cross(w, 0, min_x - start.x, side_y - start.y);
    let t = cross(d_x, d_y, min_x - start.x, side_y - start.y);
    assert(det == w * d_y) by (nonlinear_arith)
        requires
            det == w * d_y - d_x * 0,
    ;
    assert(s == w * (side_y - start.y)) by (nonlinear_arith)
        requires
            s == w * (side_y - start.y) - (min_x - start.x) * 0,
    ;
    assert(w * entry <= w * speed && 0 <= w * entry && 0 < w * speed) by (nonlinear_arith)
        requires
            0 <= entry <= speed,
            0 < speed,
            0 < w,
    ;
    assert(w * speed == max_x * speed - min_x * speed) by (nonlinear_arith)
        requires
            w == max_x - min_x,
    ;
    if start.y < side_y {
        assert(t == (start.x * speed + entry * d_x) - min_x * speed) by (nonlinear_arith)
            requires
                t == d_x * (side_y - start.y) - (min_x - start.x) * d_y,
                speed == d_y,
                entry == side_y - start.y,
        ;
    } else {
        assert(w * d_y == -(w * speed) && w * (side_y - start.y) == -(w * entry))
            by (nonlinear_arith)
            requires
                speed == -d_y,
                entry == -(side_y - start.y),
        ;
        assert(t == min_x * speed - (start.x * speed + entry * d_x)) by (nonlinear_arith)
            requires
                t == d_x * (side_y - start.y) - (min_x - start.x) * d_y,
                speed == -d_y,
                entry == -(side_y - start.y),
        ;
    }
}

/// A line which starts on a vertical side crosses it.
proof fn lemma_starts_on_side(start: Point, end: Point, a_start: Point, a_end: Point)
    requires
        a_start.x == start.x,
        a_end.x == start.x,
        a_start.y <= start.y <= a_end.y,
    ensures
        cross_each_other(a_start, a_end, start, end),
{
    let d_x = end.x - start.x;
    let d_y = end.y - start.y;
    let h = a_end.y - a_start.y;
    let y = a_start.y - start.y;
    assert(0 * d_y - d_x * h == -(d_x * h)) by (nonlinear_arith);
    assert(0 * y - 0 * h == 0) by (nonlinear_arith);
    assert(d_x * y - 0 * d_y == d_x * y) by (nonlinear_arith);
    if d_x > 0 {
        assert(-(d_x * h) <= d_x * y <= 0) by (nonlinear_arith)
            requires
                d_x > 0,
                -h <= y <= 0,
        ;
    } else {
        assert(0 <= d_x * y <= -(d_x * h)) by (nonlinear_arith)
            requires
                d_x <= 0,
                -h <= y <= 0,
        ;
    }
}

/// A line which starts on a horizontal side crosses it.
proof fn lemma_starts_on_end(start: Point, end: Point, a_start: Point, a_end: Point)
    requires
        a_start.y == start.y,
        a_end.y == start.y,
        a_start.x <= start.x <= a_end.x,
    ensures
        cross_each_other(a_start, a_end, start, end),
{
    let d_x = end.x - start.x;
    let d_y = end.y - start.y;
    let w = a_end.x - a_start.x;
    let x = a_start.x - start.x;
    assert(w * d_y - d_x * 0 == w * d_y) by (nonlinear_arith);
    assert(w * 0 - x * 0 == 0) by (nonlinear_arith);
    assert(d_x * 0 - x * d_y == -(x * d_y)) by (nonlinear_arith);
    if d_y > 0 {
        assert(0 <= -(x * d_y) <= w * d_y) by (nonlinear_arith)
            requires
                d_y > 0,
                -w <= x <= 0,
        ;
    } else {
        assert(w * d_y <= -(x * d_y) <= 0) by (nonlinear_arith)
            requires
                d_y <= 0,
                -w <= x <= 0,
        ;
    }
}

/// Every line with a point that lies within a rectangle intersects it.
pub proof fn law_line_with_point_in_rect_intersects(
    rect_point: Point,
    rect_size: Size<i32>,
    line_start: Point,
    line_end: Point,
    part: int,
    whole: int,
)
    requires
        0 < rect_size.width,
        0 < rect_size.height,
        rect_point.x + rect_size.width <= i32::MAX,
        rect_point.y + rect_size.height <= i32::MAX,
        part_in_rect(rect_point, rect_size, line_start, line_end, part, whole),
    ensures
        line_in_rect(rect_point, rect_size, line_start, line_end),
{
    let min = rect_point;
    let max = Point {
        x: (rect_point.x + rect_size.width) as i32,
        y: (rect_point.y + rect_size.height) as i32,
    };
    let top_right = Point { x: max.x, y: min.y };
    let bottom_left = Point { x: min.x, y: max.y };
    let start = line_start;
    let d_x = line_end.x - start.x;
    let d_y = line_end.y - start.y;
    let entry_x = outside(start.x as int, min.x as int, max.x as int);
    let entry_y = outside(start.y as int, min.y as int, max.y as int);
    let speed_x = magnitude(d_x);
    let speed_y = magnitude(d_y);
    lemma_reaches(start.x as int, d_x, min.x as int, max.x as int, part, whole);
    lemma_reaches(start.y as int, d_y, min.y as int, max.y as int, part, whole);
    if entry_x == 0 && entry_y == 0 {
        if start.x == max.x {
            lemma_starts_on_side(start, line_end, top_right, max);
        } else if start.y == max.y {
            lemma_starts_on_end(start, line_end, bottom_left, max);
        }
    } else if entry_x > 0 && entry_y * speed_x <= entry_x * speed_y {
        lemma_enters_within(
            start.y as int,
            d_y,
            min.y as int,
            max.y as int,
            entry_x,
            speed_x,
            part,
            whole,
        );
        if start.x < min.x {
            lemma_enters_side(
                min.x as int,
                min.y as int,
                max.y as int,
                start,
                line_end,
                min,
                bottom_left,
            );
        } else {
            lemma_enters_side(
                max.x as int,
                min.y as int,
                max.y as int,
                start,
                line_end,
                top_right,
                max,
            );
        }
    } else {
        assert(entry_y > 0 && entry_x * speed_y <= entry_y * speed_x) by (nonlinear_arith)
            requires
                entry_x > 0 || entry_y > 0,
                entry_x >= 0,
                entry_y >= 0,
                speed_x >= 0,
                speed_y >= 0,
                !(entry_x > 0 && entry_y * speed_x <= entry_x * speed_y),
        ;
        lemma_enters_within(
            start.x as int,
            d_x,
            min.x as int,
            max.x as int,
            entry_y,
            speed_y,
            part,
            whole,
        );
        if start.y < min.y {
            lemma_enters_end(
                min.y as int,
                min.x as int,
                max.x as int,
                start,
                line_end,
                min,
                top_right,
            );
        } else {
            lemma_enters_end(
                max.y as int,
                min.x as int,
                max.x as int,
                start,
                line_end,
                bottom_left,
                max,
            );
        }
    }
}

} // verus!
