//! Closest segment of a route.

use vstd::prelude::*;

verus! {

/// Distance which no segment exceeds.
///
/// Distances are the bits of non-negative floating point numbers, which have
/// the same order as these numbers. This is the largest finite one.
pub const MAX_DISTANCE: u64 = 0x7fef_ffff_ffff_ffff;

/// Number of segments after which the search is aborted if it does not find
/// any closer segments.
pub const MAX_BAD_SEGMENTS: usize = 15;

/// Smallest distance of the first `n` segments.
pub open spec fn smallest(distances: Seq<u64>, n: int) -> u64
    decreases n,
{
    if n <= 0 {
        MAX_DISTANCE
    } else if distances[n - 1] <= smallest(distances, n - 1) {
        distances[n - 1]
    } else {
        smallest(distances, n - 1)
    }
}

/// A segment is further away than any previous one.
pub open spec fn is_bad(distances: Seq<u64>, i: int) -> bool {
    distances[i] > smallest(distances, i)
}

/// Number of bad segments in the first `n` segments.
pub open spec fn bad_count(distances: Seq<u64>, n: int) -> int
    decreases n,
{
    if n <= 0 {
        0
    } else if is_bad(distances, n - 1) {
        bad_count(distances, n - 1) + 1
    } else {
        bad_count(distances, n - 1)
    }
}

/// Number of segments searched, starting behind the first `n` segments.
pub open spec fn searched(distances: Seq<u64>, n: int) -> int
    decreases distances.len() - n,
{
    if n >= distances.len() {
        distances.len() as int
    } else if bad_count(distances, n + 1) > MAX_BAD_SEGMENTS {
        n + 1
    } else {
        searched(distances, n + 1)
    }
}

/// Last one of the first `n` segments which is not bad.
pub open spec fn closest(distances: Seq<u64>, n: int) -> Option<int>
    decreases n,
{
    if n <= 0 {
        None
    } else if is_bad(distances, n - 1) {
        closest(distances, n - 1)
    } else {
        Some(n - 1)
    }
}

/// Find the segment in a route closest to a point.
///
/// A segment is defined as two consecutive nodes. The first and last node are
/// part of one segment, all other nodes are part of two segments.
///
/// When multiple solutions have identical distances, this will always return
/// the segment with the highest indices.
pub fn nearest_route_segment(distances: &Vec<u64>) -> (segment: Option<usize>)
    ensures
        match segment {
            Some(segment) => {
                &&& closest(distances@, searched(distances@, 0)) == Some(segment as int)
                &&& segment < distances.len()
            },
            None => closest(distances@, searched(distances@, 0)) is None,
        },
{
    let mut min: u64 = MAX_DISTANCE;
    let mut segment: Option<usize> = None;
    let mut bad_segments: usize = 0;
    let mut i: usize = 0;

    // Find segment with smallest distance.
    while i < distances.len()
        invariant
            i <= distances.len(),
            min == smallest(distances@, i as int),
            bad_segments == bad_count(distances@, i as int),
            bad_segments <= MAX_BAD_SEGMENTS,
            searched(distances@, i as int) == searched(distances@, 0),
            match segment {
                Some(segment) => {
                    &&& closest(distances@, i as int) == Some(segment as int)
                    &&& segment < i
                },
                None => closest(distances@, i as int) is None,
            },
        decreases distances.len() - i,
    {
        // Update smallest found segment.
        let distance: u64 = distances[i];
        if distance <= min {
            min = distance;
            segment = Some(i);
        } else {
            bad_segments += 1;
        }
        i += 1;

        // Abort search if we're no longer finding any closer nodes.
        if bad_segments > MAX_BAD_SEGMENTS {
            return segment;
        }
    }
    segment
}

/// The smallest distance is not larger than any distance.
proof fn lemma_smallest(distances: Seq<u64>, n: int, i: int)
    requires
        0 <= i < n <= distances.len(),
    ensures
        smallest(distances, n) <= distances[i],
        smallest(distances, n) <= smallest(distances, i),
    decreases n,
{
    if i < n - 1 {
        lemma_smallest(distances, n - 1, i);
    }
}

/// The closest segment has the smallest distance.
proof fn lemma_closest(distances: Seq<u64>, n: int)
    requires
        0 <= n <= distances.len(),
    ensures
        closest(distances, n) matches Some(i) ==> 0 <= i < n && distances[i] == smallest(
            distances,
            n,
        ) && forall|j: int| i < j < n ==> #[trigger] is_bad(distances, j),
        closest(distances, n) is None ==> smallest(distances, n) == MAX_DISTANCE && forall|j: int|
            0 <= j < n ==> #[trigger] is_bad(distances, j),
    decreases n,
{
    if n > 0 {
        lemma_closest(distances, n - 1);
    }
}

/// None of the searched segments is closer than the one which is found, and all
/// behind it are further away.
pub proof fn law_nearest_segment(distances: Seq<u64>, i: int)
    requires
        closest(distances, searched(distances, 0)) == Some(i),
    ensures
        0 <= i < distances.len(),
        forall|j: int|
            0 <= j < searched(distances, 0) ==> distances[i] <= #[trigger] distances[j],
        forall|j: int|
            i < j < searched(distances, 0) ==> distances[i] < #[trigger] distances[j],
{
    let n = searched(distances, 0);
    lemma_searched(distances, 0);
    lemma_closest(distances, n);
    assert forall|j: int| 0 <= j < n implies distances[i] <= #[trigger] distances[j] by {
        lemma_smallest(distances, n, j);
    }
    assert forall|j: int| i < j < n implies distances[i] < #[trigger] distances[j] by {
        assert(is_bad(distances, j));
        lemma_smallest(distances, j, i);
        lemma_smallest(distances, n, j);
    }
}

proof fn lemma_searched(distances: Seq<u64>, n: int)
    requires
        0 <= n <= distances.len(),
    ensures
        n <= searched(distances, n) <= distances.len(),
    decreases distances.len() - n,
{
    if n < distances.len() && bad_count(distances, n + 1) <= MAX_BAD_SEGMENTS {
        lemma_searched(distances, n + 1);
    }
}

/// Routes without many segments are searched completely.
///
/// The search ends behind the segment which exceeds the number of bad segments,
/// and the first segment is only bad without a finite distance.
pub proof fn law_short_routes_are_searched_completely(distances: Seq<u64>)
    requires
        distances.len() <= MAX_BAD_SEGMENTS + 1 || distances.len() == MAX_BAD_SEGMENTS + 2
            && distances[0] <= MAX_DISTANCE,
    ensures
        searched(distances, 0) == distances.len(),
{
    lemma_short_search(distances, 0);
}

proof fn lemma_short_search(distances: Seq<u64>, n: int)
    requires
        0 <= n <= distances.len(),
        distances.len() <= MAX_BAD_SEGMENTS + 1 || distances.len() == MAX_BAD_SEGMENTS + 2
            && distances[0] <= MAX_DISTANCE,
    ensures
        searched(distances, n) == distances.len(),
    decreases distances.len() - n,
{
    if n < distances.len() {
        lemma_bad_count(distances, n + 1);
        lemma_short_search(distances, n + 1);
    }
}

proof fn lemma_bad_count(distances: Seq<u64>, n: int)
    requires
        0 < n,
    ensures
        bad_count(distances, n) <= n,
        distances[0] <= MAX_DISTANCE ==> bad_count(distances, n) < n,
    decreases n,
{
    if n > 1 {
        lemma_bad_count(distances, n - 1);
    } else {
        assert(bad_count(distances, 0) == 0);
        assert(smallest(distances, 0) == MAX_DISTANCE);
    }
}

} // verus!
