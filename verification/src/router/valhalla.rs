//! Valhalla routing responses.

use vstd::prelude::*;

use crate::geometry::GeoPoint;
use crate::router::{Mode, Route, Segment};
use crate::text::{chars_of, string_of};

verus! {

/// Routed Valhalla trip.
#[derive(Debug)]
pub struct Trip {
    pub legs: Vec<Leg>,
    pub summary: Summary,
    pub status: i32,
    pub status_message: String,
}

/// Leg in a Valhalla trip.
#[derive(Debug)]
pub struct Leg {
    pub maneuvers: Vec<Maneuver>,
    pub shape: Vec<GeoPoint>,
}

/// Maneuver in a Valhalla leg.
#[derive(Debug)]
pub struct Maneuver {
    /// Length in meters.
    pub length: u32,
    pub instruction: String,
    /// Estimated travel time in seconds.
    pub time: u64,
    pub begin_shape_index: usize,
    pub end_shape_index: usize,
}

/// Valhalla route (section) metadata.
#[derive(Debug)]
pub struct Summary {
    /// Length in meters.
    pub length: u32,
    /// Estimated travel time in seconds.
    pub time: u64,
}

/// Instruction without its trailing full stop.
pub open spec fn trimmed_instruction(instruction: Seq<char>) -> Seq<char> {
    if instruction.len() > 0 && instruction.last() == '.' {
        instruction.drop_last()
    } else {
        instruction
    }
}

/// Contents of a segment.
pub struct SegmentView {
    pub points: Seq<GeoPoint>,
    pub instruction: Seq<char>,
    pub time: u64,
    pub length: u32,
}

impl View for Segment {
    type V = SegmentView;

    open spec fn view(&self) -> SegmentView {
        SegmentView {
            points: self.points@,
            instruction: self.instruction@,
            time: self.time,
            length: self.length,
        }
    }
}

impl Maneuver {
    /// All points of the maneuver are part of the shape.
    pub open spec fn in_shape(&self, shape: Seq<GeoPoint>) -> bool {
        self.begin_shape_index < shape.len() && self.end_shape_index < shape.len()
    }

    /// The maneuver does not end before it begins.
    pub open spec fn is_forward(&self, shape: Seq<GeoPoint>) -> bool {
        self.in_shape(shape) ==> self.begin_shape_index <= self.end_shape_index + 1
    }

    /// Segment of this maneuver.
    pub open spec fn spec_segment(&self, shape: Seq<GeoPoint>) -> Option<SegmentView> {
        if self.in_shape(shape) {
            Some(
                SegmentView {
                    points: shape.subrange(
                        self.begin_shape_index as int,
                        self.end_shape_index + 1,
                    ),
                    instruction: trimmed_instruction(self.instruction@),
                    time: self.time,
                    length: self.length,
                },
            )
        } else {
            None
        }
    }

    /// Convert this maneuver to a segment.
    pub fn segment(&self, shape: &Vec<GeoPoint>) -> (segment: Option<Segment>)
        requires
            self.is_forward(shape@),
        ensures
            match segment {
                Some(segment) => self.spec_segment(shape@) == Some(segment@),
                None => self.spec_segment(shape@) is None,
            },
    {
        if self.begin_shape_index >= shape.len() || self.end_shape_index >= shape.len() {
            return None;
        }

        // Trim trailing full stop from Valhalla instructions, since it looks odd.
        let chars = chars_of(self.instruction.as_str());
        let end: usize = if chars.len() > 0 && chars[chars.len() - 1] == '.' {
            chars.len() - 1
        } else {
            chars.len()
        };
        let instruction = string_of(&chars, 0, end);
        proof {
            assert(instruction@ =~= trimmed_instruction(self.instruction@));
        }

        let mut points: Vec<GeoPoint> = Vec::new();
        let mut i: usize = self.begin_shape_index;
        while i <= self.end_shape_index
            invariant
                self.begin_shape_index <= i <= self.end_shape_index + 1,
                self.end_shape_index < shape.len(),
                points@ == shape@.subrange(self.begin_shape_index as int, i as int),
            decreases self.end_shape_index + 1 - i,
        {
            points.push(shape[i]);
            i += 1;
            proof {
                assert(points@ =~= shape@.subrange(self.begin_shape_index as int, i as int));
            }
        }

        Some(Segment { points, instruction, time: self.time, length: self.length })
    }
}

/// Contents of a list of segments.
pub open spec fn segment_views(segments: Seq<Segment>) -> Seq<SegmentView> {
    segments.map_values(|segment: Segment| segment@)
}

/// Segments of the first `n` maneuvers of a leg.
pub open spec fn leg_segments(leg: Leg, n: int) -> Seq<SegmentView>
    decreases n,
{
    if n <= 0 {
        Seq::empty()
    } else {
        match leg.maneuvers[n - 1].spec_segment(leg.shape@) {
            Some(segment) => leg_segments(leg, n - 1).push(segment),
            None => leg_segments(leg, n - 1),
        }
    }
}

/// Segments of the first `n` legs of a trip.
pub open spec fn trip_segments(legs: Seq<Leg>, n: int) -> Seq<SegmentView>
    decreases n,
{
    if n <= 0 {
        Seq::empty()
    } else {
        trip_segments(legs, n - 1) + leg_segments(
            legs[n - 1],
            legs[n - 1].maneuvers.len() as int,
        )
    }
}

/// No maneuver of a leg ends before it begins.
pub open spec fn leg_is_forward(leg: Leg) -> bool {
    forall|i: int|
        0 <= i < leg.maneuvers.len() ==> (#[trigger] leg.maneuvers[i]).is_forward(leg.shape@)
}

impl Trip {
    /// No maneuver of the trip ends before it begins.
    pub open spec fn is_forward(&self) -> bool {
        forall|i: int| 0 <= i < self.legs.len() ==> leg_is_forward(#[trigger] self.legs[i])
    }

    /// Check that no maneuver of the trip ends before it begins.
    pub fn check_forward(&self) -> (result: bool)
        ensures
            result == self.is_forward(),
    {
        let mut i: usize = 0;
        while i < self.legs.len()
            invariant
                i <= self.legs.len(),
                forall|j: int| 0 <= j < i ==> leg_is_forward(#[trigger] self.legs[j]),
            decreases self.legs.len() - i,
        {
            let leg = &self.legs[i];
            let mut j: usize = 0;
            while j < leg.maneuvers.len()
                invariant
                    i < self.legs.len(),
                    leg == self.legs[i as int],
                    j <= leg.maneuvers.len(),
                    forall|k: int|
                        0 <= k < j ==> (#[trigger] leg.maneuvers[k]).is_forward(leg.shape@),
                decreases leg.maneuvers.len() - j,
            {
                let maneuver = &leg.maneuvers[j];
                if maneuver.begin_shape_index < leg.shape.len() && maneuver.end_shape_index
                    < leg.shape.len() && maneuver.begin_shape_index > maneuver.end_shape_index
                    && maneuver.begin_shape_index - maneuver.end_shape_index > 1 {
                    proof {
                        assert(!leg.maneuvers[j as int].is_forward(leg.shape@));
                        assert(!leg_is_forward(self.legs[i as int]));
                    }
                    return false;
                }
                j += 1;
            }
            i += 1;
        }
        true
    }

    /// Transform Valhalla response into a route.
    ///
    /// There is no route if routing failed.
    pub fn route(&self, mode: Mode) -> (route: Option<Route>)
        requires
            self.is_forward(),
        ensures
            match route {
                Some(route) => {
                    &&& self.status == 0
                    &&& route.time == self.summary.time
                    &&& route.length == self.summary.length
                    &&& route.mode == mode
                    &&& segment_views(route.segments@) == trip_segments(
                        self.legs@,
                        self.legs.len() as int,
                    )
                },
                None => self.status != 0,
            },
    {
        // Skip results if routing failed.
        if self.status != 0 {
            return None;
        }

        let mut segments: Vec<Segment> = Vec::new();
        let mut i: usize = 0;
        proof {
            assert(segment_views(segments@) =~= Seq::<SegmentView>::empty());
        }
        while i < self.legs.len()
            invariant
                i <= self.legs.len(),
                self.is_forward(),
                segment_views(segments@) == trip_segments(self.legs@, i as int),
            decreases self.legs.len() - i,
        {
            let leg = &self.legs[i];
            assert(leg_is_forward(self.legs[i as int]));
            let ghost start = trip_segments(self.legs@, i as int);
            let mut j: usize = 0;
            proof {
                assert(start + leg_segments(*leg, 0) =~= start);
            }
            while j < leg.maneuvers.len()
                invariant
                    j <= leg.maneuvers.len(),
                    leg_is_forward(*leg),
                    segment_views(segments@) == start + leg_segments(*leg, j as int),
                decreases leg.maneuvers.len() - j,
            {
                let ghost before = segments@;
                assert(leg.maneuvers[j as int].is_forward(leg.shape@));
                if let Some(segment) = leg.maneuvers[j].segment(&leg.shape) {
                    segments.push(segment);
                    proof {
                        assert(segment_views(segments@) =~= segment_views(before).push(segment@));
                    }
                }
                j += 1;
                proof {
                    assert(segment_views(segments@) =~= start + leg_segments(*leg, j as int));
                }
            }
            i += 1;
        }

        Some(Route { segments, time: self.summary.time, length: self.summary.length, mode })
    }
}

/// URL of a Valhalla routing request.
pub fn route_url(url: &str, data: &str) -> (request: String)
    ensures
        request@ == url@ + "/route?json="@ + data@,
{
    let mut request = url.to_owned();
    request.append("/route?json=");
    request.append(data);
    request
}

/// Number of maneuvers in the first `n` of a leg with both ends inside of the
/// leg's shape.
pub open spec fn maneuver_count(leg: Leg, n: int) -> int
    decreases n,
{
    if n <= 0 {
        0
    } else {
        let maneuver = leg.maneuvers[n - 1];
        maneuver_count(leg, n - 1) + (if maneuver.begin_shape_index < leg.shape.len()
            && maneuver.end_shape_index < leg.shape.len() {
            1int
        } else {
            0
        })
    }
}

/// Number of maneuvers in the first `n` legs with both ends inside of their
/// leg's shape.
pub open spec fn trip_maneuver_count(legs: Seq<Leg>, n: int) -> int
    decreases n,
{
    if n <= 0 {
        0
    } else {
        trip_maneuver_count(legs, n - 1) + maneuver_count(
            legs[n - 1],
            legs[n - 1].maneuvers.len() as int,
        )
    }
}

/// A segment belongs to a maneuver: it has all points from the first to the last
/// one of the maneuver, and its instruction without full stop.
pub open spec fn is_segment_of(segment: SegmentView, maneuver: Maneuver, shape: Seq<GeoPoint>) -> bool {
    let begin = maneuver.begin_shape_index as int;
    let end = maneuver.end_shape_index as int;
    let instruction = maneuver.instruction@;
    &&& segment.points.len() == end - begin + 1
    &&& forall|i: int| begin <= i <= end ==> #[trigger] segment.points[i - begin] == shape[i]
    &&& begin <= end ==> segment.points.first() == shape[begin] && segment.points.last()
        == shape[end]
    &&& instruction.len() > 0 && instruction.last() == '.' ==> segment.instruction.push('.')
        == instruction
    &&& instruction.len() == 0 || instruction.last() != '.' ==> segment.instruction == instruction
    &&& segment.time == maneuver.time
    &&& segment.length == maneuver.length
}

proof fn lemma_leg_segments(leg: Leg, n: int, m: int)
    requires
        0 <= m < n <= leg.maneuvers.len(),
    ensures
        leg_segments(leg, n).len() == maneuver_count(leg, n),
        0 <= maneuver_count(leg, m) <= maneuver_count(leg, n),
        ({
            let maneuver = leg.maneuvers[m];
            maneuver.begin_shape_index < leg.shape.len() && maneuver.end_shape_index
                < leg.shape.len() && maneuver.begin_shape_index <= maneuver.end_shape_index + 1 ==> {
                &&& maneuver_count(leg, m) < maneuver_count(leg, n)
                &&& is_segment_of(
                    leg_segments(leg, n)[maneuver_count(leg, m)],
                    maneuver,
                    leg.shape@,
                )
            }
        }),
    decreases n,
{
    if m < n - 1 {
        lemma_leg_segments(leg, n - 1, m);
    } else if m > 0 {
        lemma_leg_segments(leg, n - 1, m - 1);
    } else {
        assert(leg_segments(leg, 0).len() == 0);
        assert(maneuver_count(leg, 0) == 0);
    }
    let maneuver = leg.maneuvers[m];
    if m == n - 1 && maneuver.begin_shape_index < leg.shape.len() && maneuver.end_shape_index
        < leg.shape.len() && maneuver.begin_shape_index <= maneuver.end_shape_index + 1 {
        let segment = leg_segments(leg, n)[maneuver_count(leg, m)];
        let instruction = maneuver.instruction@;
        if instruction.len() > 0 && instruction.last() == '.' {
            assert(segment.instruction.push('.') =~= instruction);
        }
    }
}

proof fn lemma_trip_segments(legs: Seq<Leg>, n: int)
    requires
        0 <= n <= legs.len(),
    ensures
        trip_segments(legs, n).len() == trip_maneuver_count(legs, n),
    decreases n,
{
    if n > 0 {
        lemma_trip_segments(legs, n - 1);
        let leg = legs[n - 1];
        if leg.maneuvers.len() > 0 {
            lemma_leg_segments(leg, leg.maneuvers.len() as int, 0);
        }
    }
}

proof fn lemma_trip_prefix(legs: Seq<Leg>, l: int, n: int, i: int)
    requires
        0 <= l <= n <= legs.len(),
        0 <= i < trip_segments(legs, l).len(),
    ensures
        i < trip_segments(legs, n).len(),
        trip_segments(legs, n)[i] == trip_segments(legs, l)[i],
    decreases n,
{
    if l < n {
        lemma_trip_prefix(legs, l, n - 1, i);
    }
}

/// Routes have exactly one segment for each maneuver of the trip, in the order of
/// the trip. Only maneuvers which refer to points outside of their leg's shape
/// are skipped.
pub proof fn law_maneuvers_become_segments(legs: Seq<Leg>, l: int, m: int)
    requires
        0 <= l < legs.len(),
        0 <= m < legs[l].maneuvers.len(),
    ensures
        ({
            let segments = trip_segments(legs, legs.len() as int);
            let maneuver = legs[l].maneuvers[m];
            let k = trip_maneuver_count(legs, l) + maneuver_count(legs[l], m);
            &&& segments.len() == trip_maneuver_count(legs, legs.len() as int)
            &&& maneuver.begin_shape_index < legs[l].shape.len() && maneuver.end_shape_index
                < legs[l].shape.len() && maneuver.begin_shape_index <= maneuver.end_shape_index + 1
                ==> 0 <= k < segments.len() && is_segment_of(segments[k], maneuver, legs[l].shape@)
        }),
{
    let leg = legs[l];
    lemma_trip_segments(legs, legs.len() as int);
    lemma_trip_segments(legs, l);
    lemma_trip_segments(legs, l + 1);
    lemma_leg_segments(leg, leg.maneuvers.len() as int, m);
    let maneuver = leg.maneuvers[m];
    if maneuver.begin_shape_index < leg.shape.len() && maneuver.end_shape_index < leg.shape.len()
        && maneuver.begin_shape_index <= maneuver.end_shape_index + 1 {
        let k = trip_maneuver_count(legs, l) + maneuver_count(leg, m);
        lemma_trip_prefix(legs, l + 1, legs.len() as int, k);
    }
}

/// No maneuver of a leg is skipped if all of them have both ends inside of the
/// leg's shape.
pub proof fn law_complete_legs_have_all_segments(leg: Leg)
    requires
        forall|i: int|
            0 <= i < leg.maneuvers.len() ==> {
                &&& (#[trigger] leg.maneuvers[i]).begin_shape_index < leg.shape.len()
                &&& leg.maneuvers[i].end_shape_index < leg.shape.len()
            },
    ensures
        leg_segments(leg, leg.maneuvers.len() as int).len() == leg.maneuvers.len(),
{
    lemma_complete_leg(leg, leg.maneuvers.len() as int);
}

proof fn lemma_complete_leg(leg: Leg, n: int)
    requires
        0 <= n <= leg.maneuvers.len(),
        forall|i: int|
            0 <= i < leg.maneuvers.len() ==> {
                &&& (#[trigger] leg.maneuvers[i]).begin_shape_index < leg.shape.len()
                &&& leg.maneuvers[i].end_shape_index < leg.shape.len()
            },
    ensures
        leg_segments(leg, n).len() == n,
    decreases n,
{
    if n > 0 {
        lemma_complete_leg(leg, n - 1);
    }
}

/// A trip only goes forward if none of its maneuvers inside of a shape ends more than
/// one point in front of its start.
pub proof fn law_backward_maneuvers_are_found(trip: Trip, l: int, m: int)
    requires
        0 <= l < trip.legs.len(),
        0 <= m < trip.legs[l].maneuvers.len(),
        ({
            let maneuver = trip.legs[l].maneuvers[m];
            &&& maneuver.begin_shape_index < trip.legs[l].shape.len()
            &&& maneuver.end_shape_index < trip.legs[l].shape.len()
            &&& maneuver.end_shape_index + 1 < maneuver.begin_shape_index
        }),
    ensures
        !trip.is_forward(),
{
    assert(!trip.legs[l].maneuvers[m].is_forward(trip.legs[l].shape@));
    assert(!leg_is_forward(trip.legs[l]));
}

} // verus!
