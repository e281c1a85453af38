//! Value types for the survey data of one hole.

use vstd::prelude::*;

verus! {

/// A surveyed position. Both axes are fixed-point integers in the same unit
/// (by convention 1e-7 degree, which a 32-bit integer holds for the whole
/// globe); the library treats them as plain Cartesian coordinates.
#[derive(Clone, Copy, Debug, PartialEq, Eq, Structural)]
pub struct GeoPoint {
    pub lat: i32,
    pub lon: i32,
}

/// Mathematical model of a category and the points that belong to it, in
/// order. Both surveyed polygons and merged regions are viewed as one.
#[verifier::ext_equal]
pub struct RegionView {
    pub category: Seq<char>,
    pub points: Seq<GeoPoint>,
}

/// Mathematical model of a labelled point.
pub struct VectorView {
    pub category: Seq<char>,
    pub point: GeoPoint,
}

/// One surveyed ring of points and the surface it outlines. A polygon
/// without points is legal; it is never drawn.
#[derive(Clone, Debug, PartialEq, Eq)]
pub struct Polygon {
    pub category: String,
    pub points: Vec<GeoPoint>,
}

impl View for Polygon {
    type V = RegionView;

    open spec fn view(&self) -> RegionView {
        RegionView { category: self.category@, points: self.points@ }
    }
}

/// A single labelled point, such as the flag or a tee marker.
#[derive(Clone, Debug, PartialEq, Eq)]
pub struct VectorPoint {
    pub category: String,
    pub point: GeoPoint,
}

impl View for VectorPoint {
    type V = VectorView;

    open spec fn view(&self) -> VectorView {
        VectorView { category: self.category@, point: self.point }
    }
}

/// Mathematical model of everything known about one hole.
pub struct HoleView {
    pub hole_id: int,
    pub polygons: Seq<RegionView>,
    pub vectors: Seq<VectorView>,
}

/// Everything needed to draw one hole.
#[derive(Clone, Debug, PartialEq, Eq)]
pub struct HoleGeometry {
    pub hole_id: i32,
    pub polygons: Vec<Polygon>,
    pub vectors: Vec<VectorPoint>,
}

impl View for HoleGeometry {
    type V = HoleView;

    open spec fn view(&self) -> HoleView {
        HoleView {
            hole_id: self.hole_id as int,
            polygons: polygon_views(self.polygons@),
            vectors: vector_views(self.vectors@),
        }
    }
}

/// The models of a sequence of polygons, in order.
pub open spec fn polygon_views(polygons: Seq<Polygon>) -> Seq<RegionView> {
    polygons.map_values(|p: Polygon| p@)
}

/// The models of a sequence of labelled points, in order.
pub open spec fn vector_views(vectors: Seq<VectorPoint>) -> Seq<VectorView> {
    vectors.map_values(|v: VectorPoint| v@)
}

/// Copies a point sequence.
pub fn copy_points(points: &Vec<GeoPoint>) -> (copy: Vec<GeoPoint>)
    ensures
        copy@ == points@,
{
    let mut copy: Vec<GeoPoint> = Vec::new();
    let mut k: usize = 0;
    while k < points.len()
        invariant
            k <= points.len(),
            copy@ == points@.take(k as int),
        decreases points.len() - k,
    {
        copy.push(points[k]);
        assert(points@.take(k + 1) =~= points@.take(k as int).push(points@[k as int]));
        k += 1;
    }
    assert(points@.take(points.len() as int) =~= points@);
    copy
}

} // verus!
