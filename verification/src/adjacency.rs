//! The proximity test that decides whether two rings touch.

use vstd::prelude::*;
use crate::geometry::GeoPoint;

verus! {

/// Square of the Euclidean distance between two points, in squared
/// coordinate units.
pub open spec fn squared_distance(a: GeoPoint, b: GeoPoint) -> int {
    (a.lat - b.lat) * (a.lat - b.lat) + (a.lon - b.lon) * (a.lon - b.lon)
}

/// Two points are close when their Euclidean distance is strictly below the
/// threshold. Comparing squares keeps the test exact.
pub open spec fn within_threshold(a: GeoPoint, b: GeoPoint, threshold: int) -> bool {
    squared_distance(a, b) < threshold * threshold
}

/// Two rings are adjacent when some point of the first is close to some
/// point of the second.
pub open spec fn adjacent(first: Seq<GeoPoint>, second: Seq<GeoPoint>, threshold: int) -> bool {
    exists|i: int, j: int|
        0 <= i < first.len() && 0 <= j < second.len() && #[trigger] within_threshold(
            first[i],
            second[j],
            threshold,
        )
}

proof fn lemma_square_bound(d: int)
    requires
        -0x1_0000_0000 < d < 0x1_0000_0000,
    ensures
        0 <= d * d <= 0x1_0000_0000 * 0x1_0000_0000,
{
    assert(0 <= d * d <= 0x1_0000_0000 * 0x1_0000_0000) by (nonlinear_arith)
        requires
            -0x1_0000_0000 < d < 0x1_0000_0000,
    ;
}

/// Decides whether two points lie strictly closer together than `threshold`.
pub fn points_within(a: GeoPoint, b: GeoPoint, threshold: u32) -> (close: bool)
    ensures
        close == within_threshold(a, b, threshold as int),
{
    let dx: i128 = a.lat as i128 - b.lat as i128;
    let dy: i128 = a.lon as i128 - b.lon as i128;
    let t: i128 = threshold as i128;
    proof {
        lemma_square_bound(dx as int);
        lemma_square_bound(dy as int);
        lemma_square_bound(t as int);
    }
    dx * dx + dy * dy < t * t
}

/// Decides whether any point of `first` lies strictly closer than
/// `threshold` to any point of `second`.
pub fn are_adjacent(first: &Vec<GeoPoint>, second: &Vec<GeoPoint>, threshold: u32) -> (touching:
    bool)
    ensures
        touching == adjacent(first@, second@, threshold as int),
{
    let mut i: usize = 0;
    while i < first.len()
        invariant
            i <= first.len(),
            forall|a: int, b: int|
                0 <= a < i && 0 <= b < second.len() ==> !#[trigger] within_threshold(
                    first@[a],
                    second@[b],
                    threshold as int,
                ),
        decreases first.len() - i,
    {
        let mut j: usize = 0;
        while j < second.len()
            invariant
                i < first.len(),
                j <= second.len(),
                forall|a: int, b: int|
                    0 <= a < i && 0 <= b < second.len() ==> !#[trigger] within_threshold(
                        first@[a],
                        second@[b],
                        threshold as int,
                    ),
                forall|b: int|
                    0 <= b < j ==> !#[trigger] within_threshold(
                        first@[i as int],
                        second@[b],
                        threshold as int,
                    ),
            decreases second.len() - j,
        {
            if points_within(first[i], second[j], threshold) {
                return true;
            }
            j += 1;
        }
        i += 1;
    }
    false
}

/// Closeness does not depend on the order of the two points.
pub proof fn lemma_within_threshold_symmetric(a: GeoPoint, b: GeoPoint, threshold: int)
    ensures
        within_threshold(a, b, threshold) == within_threshold(b, a, threshold),
{
    assert(squared_distance(a, b) == squared_distance(b, a)) by (nonlinear_arith)
        requires
            squared_distance(a, b) == (a.lat - b.lat) * (a.lat - b.lat) + (a.lon - b.lon) * (a.lon
                - b.lon),
            squared_distance(b, a) == (b.lat - a.lat) * (b.lat - a.lat) + (b.lon - a.lon) * (b.lon
                - a.lon),
    ;
}

/// Adjacency does not depend on the order of the two rings.
pub proof fn lemma_adjacent_symmetric(first: Seq<GeoPoint>, second: Seq<GeoPoint>, threshold: int)
    requires
        adjacent(first, second, threshold),
    ensures
        adjacent(second, first, threshold),
{
    let w = choose|i: int, j: int|
        0 <= i < first.len() && 0 <= j < second.len() && #[trigger] within_threshold(
            first[i],
            second[j],
            threshold,
        );
    lemma_within_threshold_symmetric(first[w.0], second[w.1], threshold);
    assert(within_threshold(second[w.1], first[w.0], threshold));
}

/// With a threshold of zero nothing is adjacent.
pub proof fn lemma_zero_threshold_never_adjacent(first: Seq<GeoPoint>, second: Seq<GeoPoint>)
    ensures
        !adjacent(first, second, 0),
{
    assert forall|i: int, j: int| 0 <= i < first.len() && 0 <= j < second.len() implies !#[trigger] within_threshold(
        first[i],
        second[j],
        0,
    ) by {
        let a = first[i];
        let b = second[j];
        assert(squared_distance(a, b) >= 0) by (nonlinear_arith)
            requires
                squared_distance(a, b) == (a.lat - b.lat) * (a.lat - b.lat) + (a.lon - b.lon) * (
                a.lon - b.lon),
        ;
    }
}

} // verus!
