//! Polyline decoding.
//!
//! See <https://developers.google.com/maps/documentation/utilities/polylinealgorithm>.
//! See <https://valhalla.github.io/valhalla/decoding/>.

use vstd::arithmetic::power2::*;
use vstd::prelude::*;

use crate::text::chars_of;
use crate::tiles::vector::command::{
    decode_parameter, law_parameter_round_trip, parameter_of, parameter_value,
};

verus! {

/// Maximum number of characters in a coordinate.
pub const MAX_GROUPS: usize = 7;

/// Five bits encoded by a character.
pub open spec fn group_bits(c: char) -> int {
    (c as u32 - 63) % 32
}

/// A character is followed by more bits of the same coordinate.
pub open spec fn group_continues(c: char) -> bool {
    c as u32 - 63 >= 0x20
}

/// Number of characters of the coordinate at a position, unless the text ends
/// within it.
pub open spec fn group_count(s: Seq<char>, index: int) -> Option<int>
    decreases s.len() - index,
{
    if index < 0 || index >= s.len() {
        None
    } else if group_continues(s[index]) {
        match group_count(s, index + 1) {
            Some(count) => Some(count + 1),
            None => None,
        }
    } else {
        Some(1)
    }
}

/// Combined value of `count` groups of five bits, starting with the lowest.
pub open spec fn groups_value(s: Seq<char>, index: int, count: int) -> int
    decreases count,
{
    if count <= 0 {
        0
    } else {
        groups_value(s, index, count - 1) + group_bits(s[index + count - 1]) * pow2(
            (5 * (count - 1)) as nat,
        )
    }
}

/// Difference to the previous coordinate.
pub open spec fn coordinate_delta(s: Seq<char>, index: int, count: int) -> int {
    parameter_value((groups_value(s, index, count) % 0x1_0000_0000) as u32)
}

/// Coordinate at a position and the position behind it.
pub open spec fn coordinate(s: Seq<char>, index: int, previous: int) -> Option<(int, int)> {
    match group_count(s, index) {
        Some(count) => Some((previous + coordinate_delta(s, index, count), index + count)),
        None => None,
    }
}

/// The text at a position never has too many characters for a coordinate, and
/// the coordinate can be represented.
pub open spec fn coordinate_fits(s: Seq<char>, index: int, previous: int) -> bool {
    &&& groups_limited(s, index, 0)
    &&& coordinate(s, index, previous) matches Some((value, _)) ==> i32::MIN <= value <= i32::MAX
}

/// The coordinate at a position has at most as many characters as allowed.
pub open spec fn groups_limited(s: Seq<char>, index: int, count: int) -> bool
    decreases s.len() - index,
{
    if index < 0 || index >= s.len() {
        true
    } else {
        count < MAX_GROUPS && (group_continues(s[index]) ==> groups_limited(
            s,
            index + 1,
            count + 1,
        ))
    }
}

/// Points of a polyline, starting at a position.
///
/// Each point is the difference to the previous one. Decoding ends with the
/// last complete point.
pub open spec fn polyline_points(s: Seq<char>, index: int, lat: int, lon: int) -> Seq<(int, int)>
    decreases s.len() - index,
{
    match coordinate(s, index, lat) {
        Some((lat, middle)) => match coordinate(s, middle, lon) {
            Some((lon, end)) => if index < middle < end <= s.len() {
                seq![(lat, lon)] + polyline_points(s, end, lat, lon)
            } else {
                Seq::empty()
            },
            None => Seq::empty(),
        },
        None => Seq::empty(),
    }
}

/// All coordinates of a polyline can be decoded.
pub open spec fn polyline_fits(s: Seq<char>, index: int, lat: int, lon: int) -> bool
    decreases s.len() - index,
{
    &&& coordinate_fits(s, index, lat)
    &&& match coordinate(s, index, lat) {
        Some((lat, middle)) => {
            &&& coordinate_fits(s, middle, lon)
            &&& match coordinate(s, middle, lon) {
                Some((lon, end)) => index < middle < end <= s.len() ==> polyline_fits(
                    s,
                    end,
                    lat,
                    lon,
                ),
                None => true,
            }
        },
        None => true,
    }
}

/// Outcome of parsing a coordinate.
#[derive(Copy, Clone, Debug, PartialEq, Eq, Structural)]
pub enum Coordinate {
    /// Coordinate and the position behind it.
    Value(i32, usize),
    /// The text ended before the coordinate was complete.
    End,
    /// The coordinate is too long or cannot be represented.
    Invalid,
}

/// Parse the next latitude or longitude in the polyline string.
pub fn parse_polyline_coordinate(chars: &Vec<char>, index: usize, previous: i32) -> (result: Coordinate)
    requires
        index <= chars.len(),
    ensures
        match result {
            Coordinate::Value(value, end) => {
                &&& coordinate_fits(chars@, index as int, previous as int)
                &&& coordinate(chars@, index as int, previous as int) == Some(
                    (value as int, end as int),
                )
                &&& index < end <= chars.len()
            },
            Coordinate::End => {
                &&& coordinate_fits(chars@, index as int, previous as int)
                &&& coordinate(chars@, index as int, previous as int) is None
            },
            Coordinate::Invalid => !coordinate_fits(chars@, index as int, previous as int),
        },
{
    let mut value: u64 = 0;
    let mut scale: u64 = 1;
    let mut count: usize = 0;
    let ghost s = chars@;
    proof {
        lemma2_to64();
    }
    loop
        invariant
            s == chars@,
            index + count <= chars.len(),
            count <= MAX_GROUPS,
            value == groups_value(s, index as int, count as int),
            scale == pow2((5 * count) as nat),
            value < scale <= 0x8_0000_0000,
            groups_limited(s, index as int, 0) == groups_limited(s, index + count, count as int),
            match group_count(s, index + count) {
                Some(rest) => group_count(s, index as int) == Some(rest + count),
                None => group_count(s, index as int) is None,
            },
        decreases chars.len() - index - count,
    {
        if index + count >= chars.len() {
            return Coordinate::End;
        }
        if count >= MAX_GROUPS {
            return Coordinate::Invalid;
        }
        let c = chars[index + count];
        let bits: u64 = group_value(c);
        proof {
            lemma_next_group(s, index as int, count as int, value as int, scale as int, bits as int);
        }
        value = value + bits * scale;
        scale = scale * 32;
        count += 1;
        if (c as u32) < 63 + 0x20 {
            let delta = decode_parameter((value % 0x1_0000_0000) as u32);
            assert(group_count(s, index as int) == Some(count as int));
            return match previous.checked_add(delta) {
                Some(value) => Coordinate::Value(value, index + count),
                None => Coordinate::Invalid,
            };
        }
    }
}

/// Get the five bits encoded by a character.
fn group_value(c: char) -> (bits: u64)
    ensures
        bits == group_bits(c),
        bits < 32,
{
    let code: u32 = c as u32;
    ((code as u64 + 1) % 32) as u64
}

/// Reading one more group.
proof fn lemma_next_group(s: Seq<char>, index: int, count: int, value: int, scale: int, bits: int)
    requires
        0 <= count < MAX_GROUPS,
        value == groups_value(s, index, count),
        scale == pow2((5 * count) as nat),
        0 <= value < scale <= 0x8_0000_0000,
        bits == group_bits(s[index + count]),
        0 <= bits < 32,
    ensures
        value + bits * scale == groups_value(s, index, count + 1),
        scale * 32 == pow2((5 * (count + 1)) as nat),
        value + bits * scale < scale * 32 <= 0x8_0000_0000,
        0 <= bits * scale,
{
    lemma2_to64();
    lemma_pow2_adds((5 * count) as nat, 5);
    assert(pow2(5) == 32);
    if count < 6 {
        lemma_pow2_strictly_increases((5 * (count + 1)) as nat, 35);
    }
    lemma2_to64_rest();
    assert(pow2(35) == 0x8_0000_0000);
    assert(value + bits * scale < scale * 32 && 0 <= bits * scale) by (nonlinear_arith)
        requires
            0 <= value < scale,
            0 <= bits <= 31,
    ;
}

/// Contents of a list of points.
pub open spec fn point_views(points: Seq<(i32, i32)>) -> Seq<(int, int)> {
    points.map_values(|point: (i32, i32)| (point.0 as int, point.1 as int))
}

/// Decode a polyline string, unless it is malformed.
///
/// Latitude and longitude of the points are in multiples of the polyline's
/// precision.
pub fn try_decode_polyline(polyline: &str) -> (shape: Option<Vec<(i32, i32)>>)
    ensures
        match shape {
            Some(shape) => {
                &&& polyline_fits(polyline@, 0, 0, 0)
                &&& point_views(shape@) == polyline_points(polyline@, 0, 0, 0)
            },
            None => !polyline_fits(polyline@, 0, 0, 0),
        },
{
    let chars = chars_of(polyline);
    let mut shape: Vec<(i32, i32)> = Vec::new();
    let mut last_lat: i32 = 0;
    let mut last_lon: i32 = 0;
    let mut index: usize = 0;
    let ghost all = polyline_points(polyline@, 0, 0, 0);
    proof {
        assert(point_views(shape@) + all =~= all);
    }
    loop
        invariant
            chars@ == polyline@,
            index <= chars.len(),
            all == polyline_points(polyline@, 0, 0, 0),
            point_views(shape@) + polyline_points(
                polyline@,
                index as int,
                last_lat as int,
                last_lon as int,
            ) == all,
            polyline_fits(polyline@, 0, 0, 0) == polyline_fits(
                polyline@,
                index as int,
                last_lat as int,
                last_lon as int,
            ),
        decreases chars.len() - index,
    {
        // Get the next latitude/longitude tuple.
        let (lat, middle): (i32, usize) = match parse_polyline_coordinate(&chars, index, last_lat) {
            Coordinate::Value(lat, middle) => (lat, middle),
            Coordinate::End => {
                proof {
                    assert(point_views(shape@) =~= all);
                }
                return Some(shape);
            },
            Coordinate::Invalid => return None,
        };
        let (lon, end): (i32, usize) = match parse_polyline_coordinate(&chars, middle, last_lon) {
            Coordinate::Value(lon, end) => (lon, end),
            Coordinate::End => {
                proof {
                    assert(point_views(shape@) =~= all);
                }
                return Some(shape);
            },
            Coordinate::Invalid => return None,
        };
        let ghost before = shape@;
        shape.push((lat, lon));
        proof {
            assert(point_views(shape@) =~= point_views(before).push((lat as int, lon as int)));
            assert(point_views(before) + polyline_points(
                polyline@,
                index as int,
                last_lat as int,
                last_lon as int,
            ) =~= point_views(shape@) + polyline_points(
                polyline@,
                end as int,
                lat as int,
                lon as int,
            ));
        }
        last_lat = lat;
        last_lon = lon;
        index = end;
    }
}

/// Decode a polyline string.
///
/// Latitude and longitude of the points are in multiples of the polyline's
/// precision.
pub fn decode_polyline(polyline: &str) -> (shape: Vec<(i32, i32)>)
    requires
        polyline_fits(polyline@, 0, 0, 0),
    ensures
        point_views(shape@) == polyline_points(polyline@, 0, 0, 0),
{
    match try_decode_polyline(polyline) {
        Some(shape) => shape,
        None => Vec::new(),
    }
}

/// Characters encoding a number, starting with its lowest five bits.
pub open spec fn encoded_number(number: int) -> Seq<char>
    decreases number,
{
    if number < 32 {
        seq![(63 + number) as u8 as char]
    } else {
        seq![(95 + number % 32) as u8 as char] + encoded_number(number / 32)
    }
}

/// Polyline through all points, starting with the point at an index.
///
/// Each coordinate is encoded as the difference to the previous point.
pub open spec fn encoded_polyline(points: Seq<(int, int)>, i: int, lat: int, lon: int) -> Seq<char>
    decreases points.len() - i,
{
    if i < 0 || i >= points.len() {
        Seq::empty()
    } else {
        encoded_number(parameter_of(points[i].0 - lat) as int) + encoded_number(
            parameter_of(points[i].1 - lon) as int,
        ) + encoded_polyline(points, i + 1, points[i].0, points[i].1)
    }
}

/// A coordinate can be encoded as the difference to the previous one.
pub open spec fn encodable(value: int, previous: int) -> bool {
    i32::MIN <= value <= i32::MAX && -0x4000_0000 <= value - previous < 0x4000_0000
}

/// All points behind some index can be encoded.
pub open spec fn encodable_points(points: Seq<(int, int)>, i: int, lat: int, lon: int) -> bool
    decreases points.len() - i,
{
    if i < 0 || i >= points.len() {
        true
    } else {
        &&& encodable(points[i].0, lat)
        &&& encodable(points[i].1, lon)
        &&& encodable_points(points, i + 1, points[i].0, points[i].1)
    }
}

/// The first group holds the lowest five bits.
proof fn lemma_first_group(s: Seq<char>, index: int, count: int)
    requires
        0 < count,
    ensures
        groups_value(s, index, count) == group_bits(s[index]) + 32 * groups_value(
            s,
            index + 1,
            count - 1,
        ),
    decreases count,
{
    lemma2_to64();
    assert(groups_value(s, index, 0) == 0);
    if count > 1 {
        lemma_first_group(s, index, count - 1);
        let scale = pow2((5 * (count - 2)) as nat);
        let bits = group_bits(s[index + count - 1]);
        lemma_pow2_adds((5 * (count - 2)) as nat, 5);
        assert(pow2(5) == 32);
        assert(pow2((5 * (count - 1)) as nat) == scale * 32);
        assert(bits * (scale * 32) == 32 * (bits * scale)) by (nonlinear_arith);
    } else {
        assert(groups_value(s, index, 1) == groups_value(s, index, 0) + group_bits(s[index])
            * pow2(0));
        assert(groups_value(s, index + 1, 0) == 0);
    }
}

/// Encoded numbers are read back completely.
proof fn lemma_number_decoded(
    before: Seq<char>,
    number: int,
    behind: Seq<char>,
    limit: int,
    skipped: int,
)
    requires
        0 <= number < pow2((5 * limit) as nat),
        0 < limit,
        0 <= skipped,
        skipped + limit <= MAX_GROUPS,
    ensures
        ({
            let s = before + encoded_number(number) + behind;
            let index = before.len() as int;
            let count = encoded_number(number).len() as int;
            &&& 0 < count <= limit
            &&& group_count(s, index) == Some(count)
            &&& groups_value(s, index, count) == number
            &&& groups_limited(s, index, skipped)
        }),
    decreases number,
{
    let s = before + encoded_number(number) + behind;
    let index = before.len() as int;
    lemma2_to64();
    if number < 32 {
        assert(s[index] == (63 + number) as u8 as char);
        assert(groups_value(s, index, 0) == 0);
        lemma_first_group(s, index, 1);
        assert(groups_value(s, index + 1, 0) == 0);
    } else {
        let c = (95 + number % 32) as u8 as char;
        let rest = encoded_number(number / 32);
        assert(s[index] == c);
        assert(limit > 1) by {
            if limit == 1 {
                assert(pow2(5) == 32);
            }
        }
        lemma_pow2_adds((5 * (limit - 1)) as nat, 5);
        assert(pow2(5) == 32);
        let scale = pow2((5 * (limit - 1)) as nat) as int;
        assert(number / 32 < scale) by (nonlinear_arith)
            requires
                number < scale * 32,
        ;
        lemma_number_decoded(before.push(c), number / 32, behind, limit - 1, skipped + 1);
        assert(before.push(c) + rest + behind =~= s);
        let count = encoded_number(number).len() as int;
        lemma_first_group(s, index, count);
    }
}

proof fn lemma_coordinate_decoded(before: Seq<char>, delta: int, behind: Seq<char>, previous: int)
    requires
        encodable(previous + delta, previous),
    ensures
        ({
            let number = encoded_number(parameter_of(delta) as int);
            let s = before + number + behind;
            let index = before.len() as int;
            &&& number.len() > 0
            &&& coordinate(s, index, previous) == Some((previous + delta, index + number.len()))
            &&& coordinate_fits(s, index, previous)
        }),
{
    let parameter = parameter_of(delta) as int;
    lemma2_to64();
    lemma2_to64_rest();
    assert(pow2(35) == 0x8_0000_0000);
    lemma_number_decoded(before, parameter, behind, 7, 0);
    law_parameter_round_trip(delta);
}

proof fn lemma_polyline_decoded(
    before: Seq<char>,
    points: Seq<(int, int)>,
    i: int,
    lat: int,
    lon: int,
)
    requires
        0 <= i <= points.len(),
        encodable_points(points, i, lat, lon),
    ensures
        ({
            let s = before + encoded_polyline(points, i, lat, lon);
            let index = before.len() as int;
            &&& polyline_points(s, index, lat, lon) == points.skip(i)
            &&& polyline_fits(s, index, lat, lon)
        }),
    decreases points.len() - i,
{
    let s = before + encoded_polyline(points, i, lat, lon);
    let index = before.len() as int;
    if i < points.len() {
        let (next_lat, next_lon) = points[i];
        let first = encoded_number(parameter_of(next_lat - lat) as int);
        let second = encoded_number(parameter_of(next_lon - lon) as int);
        let rest = encoded_polyline(points, i + 1, next_lat, next_lon);
        lemma_coordinate_decoded(before, next_lat - lat, second + rest, lat);
        assert(before + first + (second + rest) =~= s);
        lemma_coordinate_decoded(before + first, next_lon - lon, rest, lon);
        assert(before + first + second + rest =~= s);
        lemma_polyline_decoded(before + first + second, points, i + 1, next_lat, next_lon);
        assert(seq![points[i]] + points.skip(i + 1) =~= points.skip(i));
    } else {
        assert(s =~= before);
        assert(group_count(s, index) is None);
        assert(polyline_points(s, index, lat, lon) =~= points.skip(i));
    }
}

/// Decoding a polyline gives back all points from which it was encoded, in their
/// order.
pub proof fn law_polyline_round_trip(points: Seq<(int, int)>)
    requires
        encodable_points(points, 0, 0, 0),
    ensures
        polyline_points(encoded_polyline(points, 0, 0, 0), 0, 0, 0) == points,
        polyline_fits(encoded_polyline(points, 0, 0, 0), 0, 0, 0),
{
    lemma_polyline_decoded(Seq::empty(), points, 0, 0, 0);
    assert(Seq::<char>::empty() + encoded_polyline(points, 0, 0, 0) =~= encoded_polyline(
        points,
        0,
        0,
        0,
    ));
    assert(points.skip(0) =~= points);
}

} // verus!
