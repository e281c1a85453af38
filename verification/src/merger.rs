//! Fuses neighbouring polygons of one surface category into regions.

use vstd::prelude::*;
use crate::adjacency::{adjacent, are_adjacent, lemma_adjacent_symmetric, within_threshold};
use crate::geometry::{copy_points, polygon_views, GeoPoint, Polygon, RegionView};

verus! {

/// A region of one surface category: a polygon, or several polygons fused
/// because they touch. It lives for one rendering pass only.
#[derive(Clone, Debug, PartialEq, Eq)]
pub struct MergedRegion {
    pub category: String,
    pub points: Vec<GeoPoint>,
}

impl View for MergedRegion {
    type V = RegionView;

    open spec fn view(&self) -> RegionView {
        RegionView { category: self.category@, points: self.points@ }
    }
}

/// The models of a sequence of regions, in order.
pub open spec fn region_views(regions: Seq<MergedRegion>) -> Seq<RegionView> {
    regions.map_values(|r: MergedRegion| r@)
}

/// Some two regions are adjacent.
pub open spec fn has_adjacent_pair(regions: Seq<RegionView>, threshold: int) -> bool {
    exists|i: int, j: int|
        0 <= i < j < regions.len() && adjacent(
            #[trigger] regions[i].points,
            #[trigger] regions[j].points,
            threshold,
        )
}

/// `(i, j)` comes before `(a, b)` in the order in which pairs are scanned.
pub open spec fn scanned_before(a: int, b: int, i: int, j: int) -> bool {
    a < i || (a == i && b < j)
}

/// `(i, j)` is the adjacent pair that a scan by rising `i`, then rising `j`,
/// meets first.
pub open spec fn is_first_adjacent_pair(
    regions: Seq<RegionView>,
    threshold: int,
    i: int,
    j: int,
) -> bool {
    &&& 0 <= i < j < regions.len()
    &&& adjacent(regions[i].points, regions[j].points, threshold)
    &&& forall|a: int, b: int|
        0 <= a < b < regions.len() && scanned_before(a, b, i, j) ==> !adjacent(
            #[trigger] regions[a].points,
            #[trigger] regions[b].points,
            threshold,
        )
}

/// Region `j` is fused onto region `i`: its points follow those of `i`, which
/// keeps its place and category, and `j` leaves the sequence.
pub open spec fn absorb(regions: Seq<RegionView>, i: int, j: int) -> Seq<RegionView> {
    regions.update(
        i,
        RegionView {
            category: regions[i].category,
            points: regions[i].points + regions[j].points,
        },
    ).remove(j)
}

/// The regions that remain once no two of them are adjacent: as long as an
/// adjacent pair exists, the first one in scan order is fused and the scan
/// starts over.
pub open spec fn merged(regions: Seq<RegionView>, threshold: int) -> Seq<RegionView>
    decreases regions.len(),
{
    let pair = choose|p: (int, int)| is_first_adjacent_pair(regions, threshold, p.0, p.1);
    if is_first_adjacent_pair(regions, threshold, pair.0, pair.1) {
        merged(absorb(regions, pair.0, pair.1), threshold)
    } else {
        regions
    }
}

/// The first adjacent pair is unique.
pub proof fn lemma_first_pair_unique(
    regions: Seq<RegionView>,
    threshold: int,
    i: int,
    j: int,
    a: int,
    b: int,
)
    requires
        is_first_adjacent_pair(regions, threshold, i, j),
        is_first_adjacent_pair(regions, threshold, a, b),
    ensures
        i == a,
        j == b,
{
    if scanned_before(a, b, i, j) {
        assert(!adjacent(regions[a].points, regions[b].points, threshold));
    }
    if scanned_before(i, j, a, b) {
        assert(!adjacent(regions[i].points, regions[j].points, threshold));
    }
}

/// One step of the merge: fusing the first adjacent pair does not change
/// the final result.
pub proof fn lemma_merged_step(regions: Seq<RegionView>, threshold: int, i: int, j: int)
    requires
        is_first_adjacent_pair(regions, threshold, i, j),
    ensures
        merged(regions, threshold) == merged(absorb(regions, i, j), threshold),
{
    let pair = choose|p: (int, int)| is_first_adjacent_pair(regions, threshold, p.0, p.1);
    assert(is_first_adjacent_pair(regions, threshold, (i, j).0, (i, j).1));
    lemma_first_pair_unique(regions, threshold, i, j, pair.0, pair.1);
}

/// Where no two regions are adjacent, merging changes nothing.
pub proof fn lemma_merged_fixed(regions: Seq<RegionView>, threshold: int)
    requires
        !has_adjacent_pair(regions, threshold),
    ensures
        merged(regions, threshold) == regions,
{
    let pair = choose|p: (int, int)| is_first_adjacent_pair(regions, threshold, p.0, p.1);
    if is_first_adjacent_pair(regions, threshold, pair.0, pair.1) {
        assert(adjacent(regions[pair.0].points, regions[pair.1].points, threshold));
    }
}

/// Finds the adjacent pair that comes first in scan order, if there is one.
pub fn find_adjacent_pair(regions: &Vec<MergedRegion>, threshold: u32) -> (found: Option<
    (usize, usize),
>)
    ensures
        match found {
            Some((i, j)) => is_first_adjacent_pair(
                region_views(regions@),
                threshold as int,
                i as int,
                j as int,
            ),
            None => !has_adjacent_pair(region_views(regions@), threshold as int),
        },
{
    let ghost views = region_views(regions@);
    let mut i: usize = 0;
    while i < regions.len()
        invariant
            i <= regions.len(),
            views == region_views(regions@),
            forall|a: int, b: int|
                0 <= a < b < views.len() && a < i ==> !adjacent(
                    #[trigger] views[a].points,
                    #[trigger] views[b].points,
                    threshold as int,
                ),
        decreases regions.len() - i,
    {
        let mut j: usize = i + 1;
        while j < regions.len()
            invariant
                i < regions.len(),
                i < j <= regions.len(),
                views == region_views(regions@),
                forall|a: int, b: int|
                    0 <= a < b < views.len() && scanned_before(a, b, i as int, j as int)
                        ==> !adjacent(
                        #[trigger] views[a].points,
                        #[trigger] views[b].points,
                        threshold as int,
                    ),
            decreases regions.len() - j,
        {
            if are_adjacent(&regions[i].points, &regions[j].points, threshold) {
                return Some((i, j));
            }
            j += 1;
        }
        i += 1;
    }
    None
}

/// Merges the polygons of one surface category: whenever two regions are
/// adjacent, the later one is appended to the earlier one, until no two
/// regions are adjacent. The caller groups by category beforehand.
pub fn merge(polygons: &Vec<Polygon>, threshold: u32) -> (regions: Vec<MergedRegion>)
    ensures
        region_views(regions@) == merged(polygon_views(polygons@), threshold as int),
{
    let mut regions: Vec<MergedRegion> = Vec::new();
    let mut k: usize = 0;
    while k < polygons.len()
        invariant
            k <= polygons.len(),
            region_views(regions@) == polygon_views(polygons@).take(k as int),
        decreases polygons.len() - k,
    {
        let ghost before = region_views(regions@);
        regions.push(
            MergedRegion {
                category: polygons[k].category.clone(),
                points: copy_points(&polygons[k].points),
            },
        );
        assert(region_views(regions@) =~= before.push(polygons@[k as int]@));
        assert(polygon_views(polygons@).take(k + 1) =~= polygon_views(polygons@).take(
            k as int,
        ).push(polygons@[k as int]@));
        k += 1;
    }
    assert(polygon_views(polygons@).take(polygons.len() as int) =~= polygon_views(polygons@));
    loop
        invariant
            merged(region_views(regions@), threshold as int) == merged(
                polygon_views(polygons@),
                threshold as int,
            ),
        ensures
            region_views(regions@) == merged(polygon_views(polygons@), threshold as int),
        decreases regions.len(),
    {
        match find_adjacent_pair(&regions, threshold) {
            None => {
                proof {
                    lemma_merged_fixed(region_views(regions@), threshold as int);
                }
                break ;
            },
            Some((i, j)) => {
                let ghost before = region_views(regions@);
                proof {
                    lemma_merged_step(before, threshold as int, i as int, j as int);
                }
                let mut absorbed = regions.remove(j);
                let keeper = regions.remove(i);
                let mut points = keeper.points;
                points.append(&mut absorbed.points);
                regions.insert(i, MergedRegion { category: keeper.category, points });
                assert(region_views(regions@) =~= absorb(before, i as int, j as int));
            },
        }
    }
    regions
}

/// Every point of `ring` occurs in `region`.
pub open spec fn covers(region: Seq<GeoPoint>, ring: Seq<GeoPoint>) -> bool {
    forall|k: int| 0 <= k < ring.len() ==> region.contains(#[trigger] ring[k])
}

/// Some region holds every point of `ring`.
pub open spec fn covered_by_some(regions: Seq<RegionView>, ring: Seq<GeoPoint>) -> bool {
    exists|k: int| 0 <= k < regions.len() && covers(#[trigger] regions[k].points, ring)
}

/// Some single region holds every point of both rings.
pub open spec fn share_a_region(
    regions: Seq<RegionView>,
    first: Seq<GeoPoint>,
    second: Seq<GeoPoint>,
) -> bool {
    exists|k: int|
        0 <= k < regions.len() && covers(#[trigger] regions[k].points, first) && covers(
            regions[k].points,
            second,
        )
}

/// Scans on from `(i, j)`; every pair before it is known not to be adjacent.
proof fn lemma_scan_finds_first(regions: Seq<RegionView>, threshold: int, i: int, j: int) -> (pair:
    (int, int))
    requires
        has_adjacent_pair(regions, threshold),
        0 <= i < j <= regions.len(),
        forall|a: int, b: int|
            0 <= a < b < regions.len() && scanned_before(a, b, i, j) ==> !adjacent(
                #[trigger] regions[a].points,
                #[trigger] regions[b].points,
                threshold,
            ),
    ensures
        is_first_adjacent_pair(regions, threshold, pair.0, pair.1),
    decreases regions.len() - i, regions.len() - j,
{
    if j == regions.len() {
        if i + 2 < regions.len() {
            lemma_scan_finds_first(regions, threshold, i + 1, i + 2)
        } else {
            let w = choose|a: int, b: int|
                0 <= a < b < regions.len() && adjacent(
                    #[trigger] regions[a].points,
                    #[trigger] regions[b].points,
                    threshold,
                );
            assert(scanned_before(w.0, w.1, i, j));
            assert(false);
            (0, 0)
        }
    } else if adjacent(regions[i].points, regions[j].points, threshold) {
        (i, j)
    } else {
        lemma_scan_finds_first(regions, threshold, i, j + 1)
    }
}

/// Where some pair is adjacent, one adjacent pair comes first in scan order.
pub proof fn lemma_first_pair_exists(regions: Seq<RegionView>, threshold: int) -> (pair: (int, int))
    requires
        has_adjacent_pair(regions, threshold),
    ensures
        is_first_adjacent_pair(regions, threshold, pair.0, pair.1),
{
    lemma_scan_finds_first(regions, threshold, 0, 1)
}

/// Merging ends in a state in which no two regions are adjacent.
pub proof fn lemma_merged_has_no_adjacent_pair(regions: Seq<RegionView>, threshold: int)
    ensures
        !has_adjacent_pair(merged(regions, threshold), threshold),
    decreases regions.len(),
{
    if has_adjacent_pair(regions, threshold) {
        let pair = lemma_first_pair_exists(regions, threshold);
        lemma_merged_step(regions, threshold, pair.0, pair.1);
        lemma_merged_has_no_adjacent_pair(absorb(regions, pair.0, pair.1), threshold);
    } else {
        lemma_merged_fixed(regions, threshold);
    }
}

/// Merging what has been merged changes nothing.
pub proof fn lemma_merged_idempotent(regions: Seq<RegionView>, threshold: int)
    ensures
        merged(merged(regions, threshold), threshold) == merged(regions, threshold),
{
    lemma_merged_has_no_adjacent_pair(regions, threshold);
    lemma_merged_fixed(merged(regions, threshold), threshold);
}

/// Two outcomes of merging the same polygons with the same threshold have
/// the same regions, in the same order, with the same points.
pub proof fn lemma_merge_repeatable(
    polygons: Seq<RegionView>,
    threshold: int,
    first: Seq<RegionView>,
    second: Seq<RegionView>,
)
    requires
        first == merged(polygons, threshold),
        second == merged(polygons, threshold),
    ensures
        first == second,
{
}

/// Merging never grows the number of regions, and keeps at least one
/// region where there was one.
pub proof fn lemma_merged_len(regions: Seq<RegionView>, threshold: int)
    ensures
        merged(regions, threshold).len() <= regions.len(),
        regions.len() > 0 ==> merged(regions, threshold).len() > 0,
    decreases regions.len(),
{
    if has_adjacent_pair(regions, threshold) {
        let pair = lemma_first_pair_exists(regions, threshold);
        lemma_merged_step(regions, threshold, pair.0, pair.1);
        lemma_merged_len(absorb(regions, pair.0, pair.1), threshold);
    } else {
        lemma_merged_fixed(regions, threshold);
    }
}

/// A single polygon is its own region.
pub proof fn lemma_merged_single(regions: Seq<RegionView>, threshold: int)
    requires
        regions.len() <= 1,
    ensures
        merged(regions, threshold) == regions,
{
    lemma_merged_fixed(regions, threshold);
}

/// Two polygons become one region, the points of the second after those of
/// the first, exactly when they are adjacent; otherwise both stay as they
/// are.
pub proof fn lemma_merged_two(first: RegionView, second: RegionView, threshold: int)
    ensures
        merged(seq![first, second], threshold) == if adjacent(
            first.points,
            second.points,
            threshold,
        ) {
            seq![RegionView { category: first.category, points: first.points + second.points }]
        } else {
            seq![first, second]
        },
{
    let regions = seq![first, second];
    if adjacent(first.points, second.points, threshold) {
        assert(is_first_adjacent_pair(regions, threshold, 0, 1));
        lemma_merged_step(regions, threshold, 0, 1);
        let fused = seq![
            RegionView { category: first.category, points: first.points + second.points },
        ];
        assert(absorb(regions, 0, 1) =~= fused);
        lemma_merged_single(fused, threshold);
    } else {
        lemma_merged_fixed(regions, threshold);
    }
}

/// Where every polygon has the same category, so has every region.
pub proof fn lemma_merged_keeps_category(
    regions: Seq<RegionView>,
    threshold: int,
    category: Seq<char>,
)
    requires
        forall|k: int| 0 <= k < regions.len() ==> (#[trigger] regions[k]).category == category,
    ensures
        forall|k: int|
            0 <= k < merged(regions, threshold).len() ==> (#[trigger] merged(
                regions,
                threshold,
            )[k]).category == category,
    decreases regions.len(),
{
    if has_adjacent_pair(regions, threshold) {
        let pair = lemma_first_pair_exists(regions, threshold);
        lemma_merged_step(regions, threshold, pair.0, pair.1);
        lemma_merged_keeps_category(absorb(regions, pair.0, pair.1), threshold, category);
    } else {
        lemma_merged_fixed(regions, threshold);
    }
}

/// Fusing a pair loses no point: a ring that some region covered is still
/// covered by some region.
proof fn lemma_absorb_keeps_covered(regions: Seq<RegionView>, i: int, j: int, ring: Seq<GeoPoint>)
    requires
        0 <= i < j < regions.len(),
        covered_by_some(regions, ring),
    ensures
        covered_by_some(absorb(regions, i, j), ring),
{
    let k = choose|k: int| 0 <= k < regions.len() && covers(#[trigger] regions[k].points, ring);
    let after = absorb(regions, i, j);
    let fused = regions[i].points + regions[j].points;
    let target = if k == j || k == i {
        i
    } else if k < j {
        k
    } else {
        k - 1
    };
    assert(after[i].points == fused);
    if k == i || k == j {
        assert forall|n: int| 0 <= n < ring.len() implies fused.contains(#[trigger] ring[n]) by {
            let at = choose|at: int| 0 <= at < regions[k].points.len() && regions[k].points[at] == ring[n];
            if k == i {
                assert(fused[at] == ring[n]);
            } else {
                assert(fused[regions[i].points.len() + at] == ring[n]);
            }
        }
    } else {
        assert(after[target] == regions[k]);
    }
    assert(covers(after[target].points, ring));
}

/// Merging loses no point: a ring that some polygon covered is covered by
/// some region of the result.
pub proof fn lemma_merged_keeps_covered(
    regions: Seq<RegionView>,
    threshold: int,
    ring: Seq<GeoPoint>,
)
    requires
        covered_by_some(regions, ring),
    ensures
        covered_by_some(merged(regions, threshold), ring),
    decreases regions.len(),
{
    if has_adjacent_pair(regions, threshold) {
        let pair = lemma_first_pair_exists(regions, threshold);
        lemma_merged_step(regions, threshold, pair.0, pair.1);
        lemma_absorb_keeps_covered(regions, pair.0, pair.1, ring);
        lemma_merged_keeps_covered(absorb(regions, pair.0, pair.1), threshold, ring);
    } else {
        lemma_merged_fixed(regions, threshold);
    }
}

/// Regions that cover adjacent rings are themselves adjacent.
proof fn lemma_covering_regions_adjacent(
    first_region: Seq<GeoPoint>,
    second_region: Seq<GeoPoint>,
    first: Seq<GeoPoint>,
    second: Seq<GeoPoint>,
    threshold: int,
)
    requires
        covers(first_region, first),
        covers(second_region, second),
        adjacent(first, second, threshold),
    ensures
        adjacent(first_region, second_region, threshold),
{
    let w = choose|i: int, j: int|
        0 <= i < first.len() && 0 <= j < second.len() && #[trigger] within_threshold(
            first[i],
            second[j],
            threshold,
        );
    assert(first_region.contains(first[w.0]));
    assert(second_region.contains(second[w.1]));
    let m = choose|m: int| 0 <= m < first_region.len() && first_region[m] == first[w.0];
    let n = choose|n: int| 0 <= n < second_region.len() && second_region[n] == second[w.1];
    assert(within_threshold(first_region[m], second_region[n], threshold));
}

/// Two polygons that are adjacent end up in one region.
pub proof fn lemma_adjacent_polygons_share_region(
    polygons: Seq<RegionView>,
    threshold: int,
    a: int,
    b: int,
)
    requires
        0 <= a < polygons.len(),
        0 <= b < polygons.len(),
        adjacent(polygons[a].points, polygons[b].points, threshold),
    ensures
        share_a_region(merged(polygons, threshold), polygons[a].points, polygons[b].points),
{
    let result = merged(polygons, threshold);
    let first = polygons[a].points;
    let second = polygons[b].points;
    assert(covers(polygons[a].points, first)) by {
        assert forall|k: int| 0 <= k < first.len() implies polygons[a].points.contains(
            #[trigger] first[k],
        ) by {
            assert(polygons[a].points[k] == first[k]);
        }
    }
    assert(covers(polygons[b].points, second)) by {
        assert forall|k: int| 0 <= k < second.len() implies polygons[b].points.contains(
            #[trigger] second[k],
        ) by {
            assert(polygons[b].points[k] == second[k]);
        }
    }
    lemma_merged_keeps_covered(polygons, threshold, first);
    lemma_merged_keeps_covered(polygons, threshold, second);
    lemma_merged_has_no_adjacent_pair(polygons, threshold);
    let m = choose|k: int| 0 <= k < result.len() && covers(#[trigger] result[k].points, first);
    let n = choose|k: int| 0 <= k < result.len() && covers(#[trigger] result[k].points, second);
    if m != n {
        lemma_covering_regions_adjacent(
            result[m].points,
            result[n].points,
            first,
            second,
            threshold,
        );
        if m < n {
            assert(has_adjacent_pair(result, threshold));
        } else {
            lemma_adjacent_symmetric(result[m].points, result[n].points, threshold);
            assert(has_adjacent_pair(result, threshold));
        }
    }
}

/// The point occurs in some region.
pub open spec fn occurs_in(regions: Seq<RegionView>, p: GeoPoint) -> bool {
    exists|k: int| 0 <= k < regions.len() && (#[trigger] regions[k]).points.contains(p)
}

/// Fusing a pair neither loses nor invents a point.
proof fn lemma_absorb_same_points(regions: Seq<RegionView>, i: int, j: int, p: GeoPoint)
    requires
        0 <= i < j < regions.len(),
    ensures
        occurs_in(absorb(regions, i, j), p) == occurs_in(regions, p),
{
    let after = absorb(regions, i, j);
    let fused = regions[i].points + regions[j].points;
    assert(after[i].points == fused);
    if occurs_in(regions, p) {
        let k = choose|k: int| 0 <= k < regions.len() && (#[trigger] regions[k]).points.contains(p);
        let at = choose|at: int| 0 <= at < regions[k].points.len() && regions[k].points[at] == p;
        if k == i {
            assert(fused[at] == p);
            assert(after[i].points.contains(p));
        } else if k == j {
            assert(fused[regions[i].points.len() + at] == p);
            assert(after[i].points.contains(p));
        } else if k < j {
            assert(after[k] == regions[k]);
            assert(after[k].points.contains(p));
        } else {
            assert(after[k - 1] == regions[k]);
            assert(after[k - 1].points.contains(p));
        }
    }
    if occurs_in(after, p) {
        let k = choose|k: int| 0 <= k < after.len() && (#[trigger] after[k]).points.contains(p);
        if k == i {
            let at = choose|at: int| 0 <= at < fused.len() && fused[at] == p;
            if at < regions[i].points.len() {
                assert(regions[i].points[at] == p);
                assert(regions[i].points.contains(p));
            } else {
                assert(regions[j].points[at - regions[i].points.len()] == p);
                assert(regions[j].points.contains(p));
            }
        } else if k < j {
            assert(after[k] == regions[k]);
            assert(regions[k].points.contains(p));
        } else {
            assert(after[k] == regions[k + 1]);
            assert(regions[k + 1].points.contains(p));
        }
    }
}

/// Merging neither loses nor invents a point: a point occurs in a region
/// of the result exactly when it occurs in a polygon.
pub proof fn lemma_merged_same_points(regions: Seq<RegionView>, threshold: int, p: GeoPoint)
    ensures
        occurs_in(merged(regions, threshold), p) == occurs_in(regions, p),
    decreases regions.len(),
{
    if has_adjacent_pair(regions, threshold) {
        let pair = lemma_first_pair_exists(regions, threshold);
        lemma_merged_step(regions, threshold, pair.0, pair.1);
        lemma_absorb_same_points(regions, pair.0, pair.1, p);
        lemma_merged_same_points(absorb(regions, pair.0, pair.1), threshold, p);
    } else {
        lemma_merged_fixed(regions, threshold);
    }
}

} // verus!
