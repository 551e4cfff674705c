//! Route displayed on the map.

use vstd::prelude::*;

use crate::geometry::GeoPoint;
use crate::router::{Mode, Route, Segment};
use crate::ui::view::map::cursor::Cursor;

verus! {

/// Geographic point with a tile location cache.
#[derive(Copy, Clone, Debug, PartialEq, Eq, Structural)]
pub struct RenderGeoPoint {
    pub point: GeoPoint,
    pub cached: Option<Cursor>,
}

impl RenderGeoPoint {
    /// Point without a tile location.
    pub open spec fn uncached(point: GeoPoint) -> Self {
        RenderGeoPoint { point, cached: None }
    }

    /// Create a point without a tile location.
    pub fn new(point: GeoPoint) -> (point_: Self)
        ensures
            point_ == Self::uncached(point),
    {
        RenderGeoPoint { point, cached: None }
    }

    /// Get the tile index and offset for this point, if these are known.
    pub fn tile(&self, z: u8) -> (tile: Option<Cursor>)
        ensures
            tile == (match self.cached {
                Some(cached) if cached.tile.z == z => Some(cached),
                _ => None,
            }),
    {
        match self.cached {
            Some(cached) => {
                if cached.tile.z == z {
                    Some(cached)
                } else {
                    None
                }
            },
            None => None,
        }
    }

    /// Remember the tile index and offset for this point.
    pub fn set_tile(&mut self, tile: Cursor)
        ensures
            *final(self) == (RenderGeoPoint { cached: Some(tile), ..*old(self) }),
    {
        self.cached = Some(tile);
    }

    /// Check whether two points are identical.
    pub fn same(&self, other: &RenderGeoPoint) -> (same: bool)
        ensures
            same == (*self == *other),
    {
        if self.point != other.point {
            return false;
        }
        match (self.cached, other.cached) {
            (Some(a), Some(b)) => a == b,
            (None, None) => true,
            _ => false,
        }
    }
}

/// Navigation instruction details.
#[derive(Debug)]
pub struct Instruction {
    pub text: String,
    /// Segment time in seconds.
    pub time: u64,
    /// Segment length in meters.
    pub length: u32,
}

impl Instruction {
    pub fn new(text: String, time: u64, length: u32) -> (instruction: Self)
        ensures
            instruction == (Instruction { text, time, length }),
    {
        Instruction { text, time, length }
    }
}

/// Instruction text, time, and length.
pub struct InstructionView {
    pub text: Seq<char>,
    pub time: u64,
    pub length: u32,
}

impl View for Instruction {
    type V = InstructionView;

    open spec fn view(&self) -> InstructionView {
        InstructionView { text: self.text@, time: self.time, length: self.length }
    }
}

/// Instruction for the current position on a route.
#[derive(Debug)]
pub struct CurrentInstruction {
    /// Text of the instruction, with time and length of the current segment.
    pub instruction: Instruction,
    /// Traveled and total nodes of the current segment, unless it is the last one.
    ///
    /// Time and length are reduced by the traveled part of the segment.
    pub traveled: Option<(usize, usize)>,
}

/// Text used for routes without instructions.
pub const NO_INSTRUCTION: &'static str = "Error: No Instruction Found";

/// All points in the first `n` segments.
pub open spec fn segment_points(segments: Seq<Segment>, n: int) -> Seq<GeoPoint>
    decreases n,
{
    if n <= 0 {
        Seq::empty()
    } else {
        segment_points(segments, n - 1) + segments[n - 1].points@
    }
}

/// Instructions of the first `n` segments, with the index of their first node.
pub open spec fn segment_instructions(segments: Seq<Segment>, n: int) -> Seq<(int, InstructionView)>
    decreases n,
{
    if n <= 0 {
        Seq::empty()
    } else {
        let segment = segments[n - 1];
        segment_instructions(segments, n - 1).push(
            (
                segment_points(segments, n - 1).len() as int,
                InstructionView {
                    text: segment.instruction@,
                    time: segment.time,
                    length: segment.length,
                },
            ),
        )
    }
}

/// Geographic points without tile locations.
pub open spec fn geo_points(points: Seq<RenderGeoPoint>) -> Seq<GeoPoint> {
    points.map_values(|point: RenderGeoPoint| point.point)
}

/// Instructions of a route.
pub open spec fn instruction_views(instructions: Seq<(usize, Instruction)>) -> Seq<
    (int, InstructionView),
> {
    instructions.map_values(
        |instruction: (usize, Instruction)| (instruction.0 as int, instruction.1@),
    )
}

/// Map route details.
pub struct MapRoute {
    points: Vec<RenderGeoPoint>,
    instructions: Vec<(usize, Instruction)>,
    has_gps_origin: bool,
    mode: Mode,
    offset: usize,
}

/// Map route model.
pub struct MapRouteView {
    pub points: Seq<RenderGeoPoint>,
    pub instructions: Seq<(int, InstructionView)>,
    pub has_gps_origin: bool,
    pub mode: Mode,
    /// Number of traveled nodes.
    pub offset: int,
}

/// Number of traveled nodes after traveling some more.
pub open spec fn advanced(points: int, offset: int, nodes: int) -> int {
    if offset + nodes <= points {
        offset + nodes
    } else {
        points
    }
}

/// Number of instructions which start no later than a node, until one is found
/// that starts later.
pub open spec fn started(instructions: Seq<(int, InstructionView)>, offset: int, n: int) -> int
    decreases instructions.len() - n,
{
    if 0 <= n < instructions.len() && instructions[n].0 <= offset {
        started(instructions, offset, n + 1)
    } else {
        n
    }
}

impl MapRouteView {
    /// Nodes which have not been traveled yet.
    pub open spec fn remaining(self) -> Seq<RenderGeoPoint> {
        self.points.skip(self.offset)
    }

    /// Number of instructions which were started already.
    pub open spec fn started(self) -> int {
        started(self.instructions, self.offset, 0)
    }

    /// Instruction for the current position.
    ///
    /// The text is from the next instruction if available, since time and
    /// length are measured until its first node.
    pub open spec fn current_instruction(self) -> InstructionView {
        let n = self.started();
        InstructionView {
            text: if n < self.instructions.len() {
                self.instructions[n].1.text
            } else if n > 0 {
                self.instructions[n - 1].1.text
            } else {
                NO_INSTRUCTION@
            },
            time: if n > 0 {
                self.instructions[n - 1].1.time
            } else {
                0
            },
            length: if n > 0 {
                self.instructions[n - 1].1.length
            } else {
                0
            },
        }
    }

    /// First node of the current segment.
    pub open spec fn segment_start(self) -> int {
        if self.started() > 0 {
            self.instructions[self.started() - 1].0
        } else {
            0
        }
    }

    /// Traveled and total nodes of the current segment.
    pub open spec fn traveled(self) -> Option<(int, int)> {
        if self.started() < self.instructions.len() {
            Some(
                (
                    self.offset - self.segment_start(),
                    self.instructions[self.started()].0 - self.segment_start(),
                ),
            )
        } else {
            None
        }
    }
}

impl View for MapRoute {
    type V = MapRouteView;

    closed spec fn view(&self) -> MapRouteView {
        MapRouteView {
            points: self.points@,
            instructions: instruction_views(self.instructions@),
            has_gps_origin: self.has_gps_origin,
            mode: self.mode,
            offset: self.offset as int,
        }
    }
}

impl MapRoute {
    /// The route is not traveled beyond its end.
    pub open spec fn well_formed(&self) -> bool {
        0 <= self@.offset <= self@.points.len()
    }

    pub fn new() -> (route: Self)
        ensures
            route.well_formed(),
            route@ == (MapRouteView {
                points: Seq::empty(),
                instructions: Seq::empty(),
                has_gps_origin: false,
                mode: Mode::Auto,
                offset: 0,
            }),
    {
        let route = MapRoute {
            points: Vec::new(),
            instructions: Vec::new(),
            has_gps_origin: false,
            mode: Mode::Auto,
            offset: 0,
        };
        proof {
            assert(route@.instructions =~= Seq::empty());
        }
        route
    }

    /// Update this route.
    pub fn set_route(&mut self, route: &Route, is_gps_route: bool)
        ensures
            final(self).well_formed(),
            geo_points(final(self)@.points) == segment_points(
                route.segments@,
                route.segments@.len() as int,
            ),
            forall|i: int|
                0 <= i < final(self)@.points.len() ==> (
                #[trigger] final(self)@.points[i]).cached is None,
            final(self)@.instructions == segment_instructions(
                route.segments@,
                route.segments@.len() as int,
            ),
            final(self)@.has_gps_origin == is_gps_route,
            final(self)@.mode == route.mode,
            final(self)@.offset == 0,
    {
        self.has_gps_origin = is_gps_route;
        self.mode = route.mode;
        self.offset = 0;
        self.instructions.clear();
        self.points.clear();
        proof {
            assert(instruction_views(self.instructions@) =~= Seq::empty());
            assert(geo_points(self.points@) =~= Seq::empty());
        }

        // Convert route from segments to renderable geographic points.
        let mut i: usize = 0;
        while i < route.segments.len()
            invariant
                i <= route.segments.len(),
                geo_points(self.points@) == segment_points(route.segments@, i as int),
                forall|j: int|
                    0 <= j < self.points@.len() ==> (#[trigger] self.points@[j]).cached is None,
                instruction_views(self.instructions@) == segment_instructions(
                    route.segments@,
                    i as int,
                ),
                self.has_gps_origin == is_gps_route,
                self.mode == route.mode,
                self.offset == 0,
            decreases route.segments.len() - i,
        {
            let segment = &route.segments[i];

            // Add instruction with its starting point index.
            let instruction = Instruction::new(
                segment.instruction.clone(),
                segment.time,
                segment.length,
            );
            let ghost instructions = self.instructions@;
            let entry = (self.points.len(), instruction);
            self.instructions.push(entry);
            proof {
                assert(geo_points(self.points@).len() == self.points@.len());
                assert(instruction_views(self.instructions@) =~= instruction_views(
                    instructions,
                ).push((entry.0 as int, entry.1@)));
            }

            // Add all points for this segment.
            let mut j: usize = 0;
            proof {
                assert(segment.points@.take(0) =~= Seq::empty());
                assert(geo_points(self.points@) =~= segment_points(route.segments@, i as int)
                    + segment.points@.take(0));
            }
            while j < segment.points.len()
                invariant
                    i < route.segments.len(),
                    *segment == route.segments@[i as int],
                    j <= segment.points.len(),
                    geo_points(self.points@) == segment_points(route.segments@, i as int)
                        + segment.points@.take(j as int),
                    forall|j: int|
                        0 <= j < self.points@.len() ==> (#[trigger] self.points@[j]).cached is None,
                    instruction_views(self.instructions@) == segment_instructions(
                        route.segments@,
                        i + 1,
                    ),
                    self.has_gps_origin == is_gps_route,
                    self.mode == route.mode,
                    self.offset == 0,
                decreases segment.points.len() - j,
            {
                let ghost points = self.points@;
                self.points.push(RenderGeoPoint::new(segment.points[j]));
                proof {
                    assert(geo_points(self.points@) =~= geo_points(points).push(
                        segment.points@[j as int],
                    ));
                    assert(segment.points@.take(j + 1) =~= segment.points@.take(j as int).push(
                        segment.points@[j as int],
                    ));
                    assert(geo_points(self.points@) =~= segment_points(route.segments@, i as int)
                        + segment.points@.take(j + 1));
                }
                j += 1;
            }
            proof {
                assert(segment.points@.take(j as int) =~= segment.points@);
            }
            i += 1;
        }
    }

    /// Advance this route by `offset` points.
    pub fn truncate_start(&mut self, offset: usize)
        requires
            old(self).well_formed(),
            old(self)@.offset + offset <= usize::MAX,
        ensures
            final(self).well_formed(),
            final(self)@ == (MapRouteView {
                offset: advanced(old(self)@.points.len() as int, old(self)@.offset, offset as int),
                ..old(self)@
            }),
    {
        let advanced: usize = self.offset + offset;
        self.offset = if advanced < self.points.len() {
            advanced
        } else {
            self.points.len()
        };
    }

    /// Check whether this route's origin was the user's GPS coordinate.
    pub fn has_gps_origin(&self) -> (has_gps_origin: bool)
        ensures
            has_gps_origin == self@.has_gps_origin,
    {
        self.has_gps_origin
    }

    /// Get the current route segment's instruction.
    pub fn instruction(&self) -> (current: CurrentInstruction)
        requires
            self.well_formed(),
        ensures
            current.instruction@ == self@.current_instruction(),
            match current.traveled {
                Some((traveled, total)) => self@.traveled() == Some((traveled as int, total as int))
                    && traveled < total,
                None => self@.traveled() is None,
            },
    {
        let mut start_index: usize = 0;
        let mut length: u32 = 0;
        let mut time: u64 = 0;
        let mut i: usize = 0;
        while i < self.instructions.len()
            invariant
                i <= self.instructions.len(),
                started(self@.instructions, self@.offset, i as int) == self@.started(),
                start_index == (if i > 0 {
                    self@.instructions[i - 1].0
                } else {
                    0
                }),
                start_index <= self.offset,
                length == (if i > 0 {
                    self@.instructions[i - 1].1.length
                } else {
                    0
                }),
                time == (if i > 0 {
                    self@.instructions[i - 1].1.time
                } else {
                    0
                }),
            decreases self.instructions.len() - i,
        {
            let (index, instruction) = &self.instructions[i];
            assert(self@.instructions[i as int] == (*index as int, instruction@));
            if *index <= self.offset {
                // Use time and length from the current segment.
                length = instruction.length;
                time = instruction.time;
                start_index = *index;
            } else {
                // Use instruction text from the next segment if available.
                let traveled: usize = self.offset - start_index;
                let total: usize = *index - start_index;
                return CurrentInstruction {
                    instruction: Instruction::new(instruction.text.clone(), time, length),
                    traveled: Some((traveled, total)),
                };
            }
            i += 1;
        }

        // Ensure instruction text is set if there is no next segment.
        let text = if i > 0 {
            let (_, instruction) = &self.instructions[i - 1];
            assert(self@.instructions[i - 1].1 == instruction@);
            instruction.text.clone()
        } else {
            // Provide fallback error text, which should never happen.
            NO_INSTRUCTION.to_string()
        };
        CurrentInstruction { instruction: Instruction::new(text, time, length), traveled: None }
    }

    /// Get the current progress in the route.
    ///
    /// Progress is defined as the number of traveled nodes.
    pub fn progress(&self) -> (progress: usize)
        ensures
            progress == self@.offset,
    {
        self.offset
    }

    /// Get the start of the route.
    pub fn start(&self) -> (start: Option<GeoPoint>)
        requires
            self.well_formed(),
        ensures
            start == (if self@.remaining().len() > 0 {
                Some(self@.remaining().first().point)
            } else {
                None
            }),
    {
        if self.offset < self.points.len() {
            Some(self.points[self.offset].point)
        } else {
            None
        }
    }

    /// Get the end of the route.
    pub fn end(&self) -> (end: Option<GeoPoint>)
        requires
            self.well_formed(),
        ensures
            end == (if self@.remaining().len() > 0 {
                Some(self@.remaining().last().point)
            } else {
                None
            }),
    {
        if self.offset < self.points.len() {
            Some(self.points[self.points.len() - 1].point)
        } else {
            None
        }
    }

    /// Get immutable access to all points in the route.
    pub fn points(&self) -> (points: &[RenderGeoPoint])
        requires
            self.well_formed(),
        ensures
            points@ == self@.remaining(),
    {
        vstd::slice::slice_subrange(self.points.as_slice(), self.offset, self.points.len())
    }

    /// Get mutable access to a point in the route.
    pub fn point_mut(&mut self, index: usize) -> (point: &mut RenderGeoPoint)
        requires
            old(self).well_formed(),
            index < old(self)@.remaining().len(),
        ensures
            *point == old(self)@.remaining()[index as int],
            final(self).well_formed(),
            final(self)@ == (MapRouteView {
                points: old(self)@.points.update(old(self)@.offset + index, *final(point)),
                ..old(self)@
            }),
    {
        let len: usize = self.points.len();
        assert(self.offset + index < len);
        &mut self.points[self.offset + index]
    }

    /// Get the route's transportation mode.
    pub fn mode(&self) -> (mode: Mode)
        ensures
            mode == self@.mode,
    {
        self.mode
    }

    /// Get points remaining in this route.
    pub fn len(&self) -> (len: usize)
        requires
            self.well_formed(),
        ensures
            len == self@.remaining().len(),
    {
        self.points.len() - self.offset
    }
}

/// Progress is the sum of all traveled nodes, until the route's end is reached.
pub proof fn law_progress_adds_up(points: int, offset: int, a: int, b: int)
    requires
        0 <= offset <= points,
        0 <= a,
        0 <= b,
    ensures
        offset <= advanced(points, offset, a) <= points,
        advanced(points, advanced(points, offset, a), b) == advanced(points, offset, a + b),
{
}

/// Instructions are ordered by their first node, which never is beyond the
/// route's end.
pub proof fn law_instructions_follow_route(segments: Seq<Segment>, n: int, i: int, j: int)
    requires
        0 <= i <= j < n <= segments.len(),
    ensures
        segment_instructions(segments, n).len() == n,
        0 <= segment_instructions(segments, n)[i].0 <= segment_instructions(segments, n)[j].0
            <= segment_points(segments, n).len(),
    decreases n,
{
    lemma_instruction_count(segments, n);
    if j < n - 1 {
        law_instructions_follow_route(segments, n - 1, i, j);
    } else if i < j {
        law_instructions_follow_route(segments, n - 1, i, i);
    }
}

proof fn lemma_instruction_count(segments: Seq<Segment>, n: int)
    requires
        0 <= n,
    ensures
        segment_instructions(segments, n).len() == n,
    decreases n,
{
    if n > 0 {
        lemma_instruction_count(segments, n - 1);
    }
}

/// Every segment contributes its points to the route, and an instruction with its
/// text, time, and length which belongs to the first of these points.
pub proof fn law_segments_are_part_of_route(segments: Seq<Segment>, n: int, i: int, k: int)
    requires
        0 <= i < n <= segments.len(),
    ensures
        ({
            let (start, instruction) = segment_instructions(segments, n)[i];
            let points = segment_points(segments, n);
            &&& instruction.text == segments[i].instruction@
            &&& instruction.time == segments[i].time
            &&& instruction.length == segments[i].length
            &&& 0 <= start && start + segments[i].points.len() <= points.len()
            &&& 0 <= k < segments[i].points.len() ==> points[start + k] == segments[i].points[k]
            &&& i == 0 ==> start == 0
            &&& i + 1 < n ==> segment_instructions(segments, n)[i + 1].0 == start
                + segments[i].points.len()
            &&& i + 1 == n ==> points.len() == start + segments[i].points.len()
        }),
    decreases n,
{
    lemma_instruction_count(segments, n);
    lemma_instruction_count(segments, n - 1);
    if i < n - 1 {
        law_segments_are_part_of_route(segments, n - 1, i, k);
        if i + 1 == n - 1 {
            lemma_points_before(segments, i);
        }
    } else if n == 1 {
        assert(segment_points(segments, 0).len() == 0);
    }
}

proof fn lemma_points_before(segments: Seq<Segment>, i: int)
    requires
        0 <= i < segments.len(),
    ensures
        segment_points(segments, i + 1).len() == segment_points(segments, i).len()
            + segments[i].points.len(),
{
}

/// Instructions before the current position have been started, all others are
/// still to come.
pub proof fn law_started_instructions(
    instructions: Seq<(int, InstructionView)>,
    offset: int,
    n: int,
    i: int,
)
    requires
        0 <= n <= instructions.len(),
        forall|a: int, b: int|
            0 <= a <= b < instructions.len() ==> (#[trigger] instructions[a]).0 <= (
            #[trigger] instructions[b]).0,
        n <= i < instructions.len(),
    ensures
        n <= started(instructions, offset, n) <= instructions.len(),
        i < started(instructions, offset, n) <==> instructions[i].0 <= offset,
    decreases instructions.len() - n,
{
    if instructions[n].0 <= offset {
        if n + 1 < instructions.len() {
            law_started_instructions(
                instructions,
                offset,
                n + 1,
                if i > n {
                    i
                } else {
                    n + 1
                },
            );
        } else {
            assert(started(instructions, offset, n + 1) == n + 1);
        }
    } else {
        assert(instructions[n].0 <= instructions[i].0);
    }
}

/// The current instruction announces the next maneuver, with the time and length
/// of the segment leading to it, and is shown from the segment's first node until
/// the maneuver's node.
pub proof fn law_next_maneuver_is_announced(route: MapRouteView, i: int)
    requires
        forall|a: int, b: int|
            0 <= a <= b < route.instructions.len() ==> (#[trigger] route.instructions[a]).0 <= (
            #[trigger] route.instructions[b]).0,
        0 <= i < route.instructions.len(),
        route.instructions[i].0 <= route.offset,
        i + 1 < route.instructions.len() ==> route.offset < route.instructions[i + 1].0,
    ensures
        ({
            let current = route.current_instruction();
            &&& current.time == route.instructions[i].1.time
            &&& current.length == route.instructions[i].1.length
            &&& i + 1 < route.instructions.len() ==> {
                &&& current.text == route.instructions[i + 1].1.text
                &&& route.traveled() matches Some((traveled, total)) && 0 <= traveled < total
                    && route.instructions[i].0 + traveled == route.offset
                    && route.instructions[i].0 + total == route.instructions[i + 1].0
            }
            &&& i + 1 == route.instructions.len() ==> current.text == route.instructions[i].1.text
                && route.traveled() is None
        }),
{
    law_started_instructions(route.instructions, route.offset, 0, i);
    if i + 1 < route.instructions.len() {
        law_started_instructions(route.instructions, route.offset, 0, i + 1);
    }
}

/// Traveling along a route removes the traveled nodes from its start.
pub proof fn law_traveled_nodes_are_removed(route: MapRouteView, nodes: int)
    requires
        0 <= route.offset <= route.points.len(),
        0 <= nodes,
    ensures
        ({
            let after = MapRouteView {
                offset: advanced(route.points.len() as int, route.offset, nodes),
                ..route
            };
            &&& nodes <= route.remaining().len() ==> after.remaining() == route.remaining().skip(
                nodes,
            )
            &&& nodes > route.remaining().len() ==> after.remaining().len() == 0
        }),
{
    let after = MapRouteView {
        offset: advanced(route.points.len() as int, route.offset, nodes),
        ..route
    };
    if nodes <= route.remaining().len() {
        assert(after.remaining() =~= route.remaining().skip(nodes));
    }
}

} // verus!
