//! Visible route path.

use vstd::prelude::*;

use crate::geometry::{line_in_rect, rect_intersects_line, Point, Size};

verus! {

/// Square of the minimum physical distance between a route's path segments.
pub const ROUTE_RESOLUTION: i64 = 15;

/// Part of a path on the screen.
#[derive(Copy, Clone, Debug, PartialEq, Eq, Structural)]
pub enum RouteVerb {
    MoveTo(Point),
    LineTo(Point),
}

/// Square of the distance between two points.
pub open spec fn squared_distance(a: Point, b: Point) -> int {
    (a.x - b.x) * (a.x - b.x) + (a.y - b.y) * (a.y - b.y)
}

/// A point is too close to the previous one to be drawn, and is not the final
/// point.
pub open spec fn is_omitted(nodes: Seq<Point>, last: Point, i: int) -> bool {
    i + 1 < nodes.len() && squared_distance(last, nodes[i]) < ROUTE_RESOLUTION
}

/// Path of the visible route sections, starting with a node.
///
/// The path is interrupted by sections outside of the screen.
pub open spec fn visible_path(
    nodes: Seq<Point>,
    size: Size<i32>,
    i: int,
    last: Point,
    skipped: bool,
) -> Seq<RouteVerb>
    decreases nodes.len() - i,
{
    if i < 0 || i >= nodes.len() {
        Seq::empty()
    } else if is_omitted(nodes, last, i) {
        visible_path(nodes, size, i + 1, last, skipped)
    } else if line_in_rect(Point { x: 0, y: 0 }, size, last, nodes[i]) {
        (if skipped {
            seq![RouteVerb::MoveTo(last)]
        } else {
            Seq::empty()
        }) + seq![RouteVerb::LineTo(nodes[i])] + visible_path(
            nodes,
            size,
            i + 1,
            nodes[i],
            false,
        )
    } else {
        visible_path(nodes, size, i + 1, nodes[i], true)
    }
}

/// Path of all visible route sections.
pub open spec fn route_path_of(nodes: Seq<Point>, size: Size<i32>) -> Seq<RouteVerb> {
    if nodes.len() == 0 {
        Seq::empty()
    } else {
        visible_path(nodes, size, 1, nodes[0], true)
    }
}

/// Get the path of all visible route sections.
///
/// The nodes are in physical screen coordinates.
pub fn route_path(nodes: &Vec<Point>, size: Size<i32>) -> (path: Vec<RouteVerb>)
    requires
        0 <= size.width,
        0 <= size.height,
    ensures
        path@ == route_path_of(nodes@, size),
{
    let mut path: Vec<RouteVerb> = Vec::new();
    if nodes.len() == 0 {
        return path;
    }

    let ghost all = route_path_of(nodes@, size);
    let origin = Point::new(0, 0);
    let mut last = nodes[0];
    let mut skipped = true;
    let mut i: usize = 1;
    proof {
        assert(path@ + all =~= all);
    }
    while i < nodes.len()
        invariant
            1 <= i <= nodes.len(),
            0 <= size.width,
            0 <= size.height,
            origin == (Point { x: 0i32, y: 0i32 }),
            path@ + visible_path(nodes@, size, i as int, last, skipped) == all,
        decreases nodes.len() - i,
    {
        let end = nodes[i];
        let ghost before = path@;
        let ghost rest = visible_path(nodes@, size, i as int, last, skipped);

        // Omit point if it is too close to the last one, unless it's the final point.
        // This also skips the `last` update, to ensure the path is consistent.
        if i + 1 < nodes.len() && is_close(last, end) {
            i += 1;
            continue ;
        }

        // Draw visible route segments, or break the path.
        if rect_intersects_line(origin, size, last, end) {
            if skipped {
                path.push(RouteVerb::MoveTo(last));
                skipped = false;
            }
            path.push(RouteVerb::LineTo(end));
        } else {
            skipped = true;
        }

        last = end;
        i += 1;
        proof {
            assert(before + rest =~= path@ + visible_path(nodes@, size, i as int, last, skipped));
        }
    }
    proof {
        assert(path@ =~= all);
    }
    path
}

/// Check whether two points are too close for drawing a line between them.
fn is_close(a: Point, b: Point) -> (close: bool)
    ensures
        close == (squared_distance(a, b) < ROUTE_RESOLUTION),
{
    let x: i64 = a.x as i64 - b.x as i64;
    let y: i64 = a.y as i64 - b.y as i64;
    if x <= -4 || x >= 4 || y <= -4 || y >= 4 {
        proof {
            lemma_far(x as int, y as int);
        }
        false
    } else {
        proof {
            assert(0 <= x * x <= 9) by (nonlinear_arith)
                requires
                    -4 < x < 4,
            ;
            assert(0 <= y * y <= 9) by (nonlinear_arith)
                requires
                    -4 < y < 4,
            ;
        }
        x * x + y * y < ROUTE_RESOLUTION
    }
}

proof fn lemma_far(x: int, y: int)
    requires
        x <= -4 || x >= 4 || y <= -4 || y >= 4,
    ensures
        x * x + y * y >= 16,
{
    assert(x * x >= 0 && y * y >= 0) by (nonlinear_arith);
    if x <= -4 || x >= 4 {
        assert(x * x >= 16) by (nonlinear_arith)
            requires
                x <= -4 || x >= 4,
        ;
    } else {
        assert(y * y >= 16) by (nonlinear_arith)
            requires
                y <= -4 || y >= 4,
        ;
    }
}

/// Lines of a path always continue from a point on the screen's path: every path
/// starts by moving to its first point.
pub proof fn law_path_starts_with_move(nodes: Seq<Point>, size: Size<i32>, i: int, last: Point)
    ensures
        visible_path(nodes, size, i, last, true).len() > 0 ==> visible_path(
            nodes,
            size,
            i,
            last,
            true,
        )[0] is MoveTo,
    decreases nodes.len() - i,
{
    if 0 <= i < nodes.len() {
        if is_omitted(nodes, last, i) {
            law_path_starts_with_move(nodes, size, i + 1, last);
        } else {
            law_path_starts_with_move(nodes, size, i + 1, nodes[i]);
        }
    }
}

/// Last one of the first `n` nodes which is not omitted.
pub open spec fn last_kept(nodes: Seq<Point>, n: int) -> int
    decreases n,
{
    if n <= 1 {
        0
    } else {
        let last = last_kept(nodes, n - 1);
        let dx = nodes[last].x - nodes[n - 1].x;
        let dy = nodes[last].y - nodes[n - 1].y;
        if n < nodes.len() && dx * dx + dy * dy < 15 {
            last
        } else {
            n - 1
        }
    }
}

/// End of a part of a path.
pub open spec fn verb_end(verb: RouteVerb) -> Point {
    match verb {
        RouteVerb::MoveTo(point) | RouteVerb::LineTo(point) => point,
    }
}

proof fn lemma_last_kept(nodes: Seq<Point>, n: int)
    requires
        0 < n <= nodes.len(),
    ensures
        0 <= last_kept(nodes, n) < n,
    decreases n,
{
    if n > 1 {
        lemma_last_kept(nodes, n - 1);
    }
}

proof fn lemma_section_is_drawn(
    nodes: Seq<Point>,
    size: Size<i32>,
    i: int,
    last: Point,
    skipped: bool,
    j: int,
)
    requires
        1 <= i <= j < nodes.len(),
        last == nodes[last_kept(nodes, i)],
        last_kept(nodes, j + 1) == j,
        line_in_rect(Point { x: 0, y: 0 }, size, nodes[last_kept(nodes, j)], nodes[j]),
    ensures
        ({
            let path = visible_path(nodes, size, i, last, skipped);
            exists|k: int|
                {
                    &&& 0 <= k < path.len()
                    &&& #[trigger] path[k] == RouteVerb::LineTo(nodes[j])
                    &&& k > 0 ==> verb_end(path[k - 1]) == nodes[last_kept(nodes, j)]
                    &&& k == 0 ==> !skipped && last == nodes[last_kept(nodes, j)]
                }
        }),
    decreases j - i,
{
    let path = visible_path(nodes, size, i, last, skipped);
    lemma_last_kept(nodes, i);
    if i == j {
        let k: int = if skipped {
            1
        } else {
            0
        };
        assert(path[k] == RouteVerb::LineTo(nodes[j]));
    } else if is_omitted(nodes, last, i) {
        lemma_section_is_drawn(nodes, size, i + 1, last, skipped, j);
    } else {
        let visible = line_in_rect(Point { x: 0, y: 0 }, size, last, nodes[i]);
        lemma_section_is_drawn(nodes, size, i + 1, nodes[i], !visible, j);
        let rest = visible_path(nodes, size, i + 1, nodes[i], !visible);
        let k = choose|k: int|
            {
                &&& 0 <= k < rest.len()
                &&& #[trigger] rest[k] == RouteVerb::LineTo(nodes[j])
                &&& k > 0 ==> verb_end(rest[k - 1]) == nodes[last_kept(nodes, j)]
                &&& k == 0 ==> visible && nodes[i] == nodes[last_kept(nodes, j)]
            };
        let head = path.len() - rest.len();
        assert(path[head + k] == rest[k]);
        if k > 0 {
            assert(path[head + k - 1] == rest[k - 1]);
        } else {
            assert(path[head - 1] == RouteVerb::LineTo(nodes[i]));
        }
    }
}

/// Every route section on the screen is drawn as a line from the previous node,
/// skipping only nodes which are too close to the one before. The last node is
/// never skipped.
pub proof fn law_visible_sections_are_drawn(nodes: Seq<Point>, size: Size<i32>, j: int)
    requires
        1 <= j < nodes.len(),
        j + 1 == nodes.len() || last_kept(nodes, j + 1) == j,
        line_in_rect(Point { x: 0, y: 0 }, size, nodes[last_kept(nodes, j)], nodes[j]),
    ensures
        ({
            let path = route_path_of(nodes, size);
            exists|k: int|
                {
                    &&& 0 < k < path.len()
                    &&& #[trigger] path[k] == RouteVerb::LineTo(nodes[j])
                    &&& verb_end(path[k - 1]) == nodes[last_kept(nodes, j)]
                }
        }),
{
    assert(last_kept(nodes, j + 1) == j);
    lemma_section_is_drawn(nodes, size, 1, nodes[0], true, j);
    let path = visible_path(nodes, size, 1, nodes[0], true);
    let k = choose|k: int|
        {
            &&& 0 <= k < path.len()
            &&& #[trigger] path[k] == RouteVerb::LineTo(nodes[j])
            &&& k > 0 ==> verb_end(path[k - 1]) == nodes[last_kept(nodes, j)]
            &&& k > 0
        };
    assert(route_path_of(nodes, size)[k] == RouteVerb::LineTo(nodes[j]));
}

proof fn lemma_drawn_is_visible(
    nodes: Seq<Point>,
    size: Size<i32>,
    i: int,
    last: Point,
    skipped: bool,
    k: int,
)
    requires
        0 <= k < visible_path(nodes, size, i, last, skipped).len(),
        visible_path(nodes, size, i, last, skipped)[k] is LineTo,
    ensures
        ({
            let path = visible_path(nodes, size, i, last, skipped);
            let start = if k > 0 {
                verb_end(path[k - 1])
            } else {
                last
            };
            &&& line_in_rect(Point { x: 0, y: 0 }, size, start, verb_end(path[k]))
            &&& k == 0 ==> !skipped
        }),
    decreases nodes.len() - i,
{
    let path = visible_path(nodes, size, i, last, skipped);
    if 0 <= i < nodes.len() {
        if is_omitted(nodes, last, i) {
            lemma_drawn_is_visible(nodes, size, i + 1, last, skipped, k);
        } else {
            let visible = line_in_rect(Point { x: 0, y: 0 }, size, last, nodes[i]);
            let rest = visible_path(nodes, size, i + 1, nodes[i], !visible);
            let head = path.len() - rest.len();
            if k >= head {
                assert(path[k] == rest[k - head]);
                if k > head {
                    assert(path[k - 1] == rest[k - head - 1]);
                }
                lemma_drawn_is_visible(nodes, size, i + 1, nodes[i], !visible, k - head);
            }
        }
    }
}

/// Only lines on the screen are drawn.
pub proof fn law_drawn_lines_are_visible(nodes: Seq<Point>, size: Size<i32>, k: int)
    requires
        0 <= k < route_path_of(nodes, size).len(),
        route_path_of(nodes, size)[k] is LineTo,
    ensures
        k > 0,
        line_in_rect(
            Point { x: 0, y: 0 },
            size,
            verb_end(route_path_of(nodes, size)[k - 1]),
            verb_end(route_path_of(nodes, size)[k]),
        ),
{
    lemma_drawn_is_visible(nodes, size, 1, nodes[0], true, k);
}

} // verus!
