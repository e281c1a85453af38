//! Turns stored survey rows into the geometry of a hole.
//!
//! The survey store keeps one row for each surveyed point, with the
//! category of the polygon or marker it belongs to; any of the three
//! fields may be missing. A row without both coordinates is dropped. A row
//! without a category is filed under `Unknown`.
//!
//! Rows do not say where one polygon ends and the next begins. In a
//! category that is merged, each row becomes a polygon of its own, and
//! merging finds out which points belong together. In any other category
//! all rows form one polygon, in the order of the rows.

use vstd::prelude::*;
use crate::geometry::{GeoPoint, HoleGeometry, Polygon, RegionView, VectorPoint, VectorView, polygon_views, vector_views};
use crate::prefix::lemma_take_step;
use crate::render::{policy, policy_for, ConfigView, MergePolicy, RenderConfig};
use crate::text::str_eq;

verus! {

/// One stored row: a surveyed point, as far as it is known.
#[derive(Clone, Debug, PartialEq, Eq)]
pub struct SurveyRow {
    pub category: Option<String>,
    pub lat: Option<i32>,
    pub lon: Option<i32>,
}

/// Mathematical model of a stored row.
pub struct RowView {
    pub category: Option<Seq<char>>,
    pub lat: Option<i32>,
    pub lon: Option<i32>,
}

impl View for SurveyRow {
    type V = RowView;

    open spec fn view(&self) -> RowView {
        RowView {
            category: match self.category {
                Some(c) => Some(c@),
                None => None,
            },
            lat: self.lat,
            lon: self.lon,
        }
    }
}

/// The models of a sequence of rows, in order.
pub open spec fn row_views(rows: Seq<SurveyRow>) -> Seq<RowView> {
    rows.map_values(|r: SurveyRow| r@)
}

/// The category of a row; `Unknown` where none is stored.
pub open spec fn row_category(row: RowView) -> Seq<char> {
    match row.category {
        Some(c) => c,
        None => "Unknown"@,
    }
}

/// The point of a row, where both coordinates are stored.
pub open spec fn row_point(row: RowView) -> Option<GeoPoint> {
    if row.lat is Some && row.lon is Some {
        Some(GeoPoint { lat: row.lat->0, lon: row.lon->0 })
    } else {
        None
    }
}

/// Polygon `k` is the first one of the category.
pub open spec fn is_first_of_category(polygons: Seq<RegionView>, category: Seq<char>, k: int) -> bool {
    &&& 0 <= k < polygons.len()
    &&& polygons[k].category == category
    &&& forall|j: int| 0 <= j < k ==> (#[trigger] polygons[j]).category != category
}

/// Some polygon has the category.
pub open spec fn has_category(polygons: Seq<RegionView>, category: Seq<char>) -> bool {
    exists|k: int| 0 <= k < polygons.len() && (#[trigger] polygons[k]).category == category
}

/// A polygon that holds one point.
pub open spec fn single_point_polygon(category: Seq<char>, p: GeoPoint) -> RegionView {
    RegionView { category, points: seq![p] }
}

/// The point is appended to the first polygon of its category; where there
/// is none, a new polygon is added at the end.
pub open spec fn with_point(polygons: Seq<RegionView>, category: Seq<char>, p: GeoPoint) -> Seq<
    RegionView,
> {
    if has_category(polygons, category) {
        let k = choose|k: int| is_first_of_category(polygons, category, k);
        polygons.update(k, RegionView { category, points: polygons[k].points.push(p) })
    } else {
        polygons.push(single_point_polygon(category, p))
    }
}

/// The polygons that the rows stand for.
pub open spec fn polygons_of(rows: Seq<RowView>, config: ConfigView) -> Seq<RegionView>
    decreases rows.len(),
{
    if rows.len() == 0 {
        Seq::empty()
    } else {
        let earlier = polygons_of(rows.drop_last(), config);
        let category = row_category(rows.last());
        match row_point(rows.last()) {
            None => earlier,
            Some(p) => match policy(category, config) {
                MergePolicy::MergeAdjacent => earlier.push(single_point_polygon(category, p)),
                MergePolicy::ConcatenateAll => with_point(earlier, category, p),
            },
        }
    }
}

/// The labelled points that the rows stand for.
pub open spec fn vectors_of(rows: Seq<RowView>) -> Seq<VectorView>
    decreases rows.len(),
{
    if rows.len() == 0 {
        Seq::empty()
    } else {
        let earlier = vectors_of(rows.drop_last());
        match row_point(rows.last()) {
            None => earlier,
            Some(p) => earlier.push(VectorView { category: row_category(rows.last()), point: p }),
        }
    }
}

/// Reads the point of a row, where both coordinates are stored.
pub fn point_of_row(row: &SurveyRow) -> (point: Option<GeoPoint>)
    ensures
        point == row_point(row@),
{
    match (row.lat, row.lon) {
        (Some(lat), Some(lon)) => Some(GeoPoint { lat, lon }),
        _ => None,
    }
}

/// Reads the category of a row; `Unknown` where none is stored.
pub fn category_of_row(row: &SurveyRow) -> (category: String)
    ensures
        category@ == row_category(row@),
{
    match &row.category {
        Some(c) => c.clone(),
        None => "Unknown".to_owned(),
    }
}

/// Finds the first polygon of a category.
pub fn find_category(polygons: &Vec<Polygon>, category: &str) -> (found: Option<usize>)
    ensures
        match found {
            Some(k) => is_first_of_category(polygon_views(polygons@), category@, k as int),
            None => !has_category(polygon_views(polygons@), category@),
        },
{
    let ghost views = polygon_views(polygons@);
    let mut k: usize = 0;
    while k < polygons.len()
        invariant
            k <= polygons.len(),
            views == polygon_views(polygons@),
            forall|j: int| 0 <= j < k ==> (#[trigger] views[j]).category != category@,
        decreases polygons.len() - k,
    {
        if str_eq(polygons[k].category.as_str(), category) {
            return Some(k);
        }
        k += 1;
    }
    None
}

/// Appends a point to the first polygon of its category, or adds a new
/// polygon at the end where there is none.
pub fn add_point(polygons: &mut Vec<Polygon>, category: String, p: GeoPoint)
    ensures
        polygon_views(final(polygons)@) == with_point(polygon_views(old(polygons)@), category@, p),
{
    let ghost before = polygon_views(polygons@);
    match find_category(polygons, category.as_str()) {
        Some(k) => {
            proof {
                let chosen = choose|k: int| is_first_of_category(before, category@, k);
                assert(before[k as int].category == category@);
                assert(is_first_of_category(before, category@, chosen));
            }
            let mut polygon = polygons.remove(k);
            polygon.points.push(p);
            polygons.insert(k, polygon);
            assert(polygon_views(polygons@) =~= with_point(before, category@, p));
        },
        None => {
            let mut points: Vec<GeoPoint> = Vec::new();
            points.push(p);
            polygons.push(Polygon { category, points });
            assert(polygon_views(polygons@) =~= with_point(before, category@, p));
        },
    }
}

/// Builds the polygons that the rows stand for.
pub fn polygons_from_rows(rows: &Vec<SurveyRow>, config: &RenderConfig) -> (polygons: Vec<Polygon>)
    ensures
        polygon_views(polygons@) == polygons_of(row_views(rows@), config@),
{
    let ghost views = row_views(rows@);
    let mut polygons: Vec<Polygon> = Vec::new();
    let mut k: usize = 0;
    while k < rows.len()
        invariant
            k <= rows.len(),
            views == row_views(rows@),
            polygon_views(polygons@) == polygons_of(views.take(k as int), config@),
        decreases rows.len() - k,
    {
        proof {
            lemma_take_step(views, k as int);
        }
        match point_of_row(&rows[k]) {
            None => {},
            Some(p) => {
                let category = category_of_row(&rows[k]);
                match policy_for(category.as_str(), config) {
                    MergePolicy::MergeAdjacent => {
                        let ghost before = polygon_views(polygons@);
                        let mut points: Vec<GeoPoint> = Vec::new();
                        points.push(p);
                        polygons.push(Polygon { category, points });
                        assert(polygon_views(polygons@) =~= before.push(
                            single_point_polygon(category@, p),
                        ));
                    },
                    MergePolicy::ConcatenateAll => {
                        add_point(&mut polygons, category, p);
                    },
                }
            },
        }
        k += 1;
    }
    assert(views.take(rows.len() as int) =~= views);
    polygons
}

/// Builds the labelled points that the rows stand for.
pub fn vectors_from_rows(rows: &Vec<SurveyRow>) -> (vectors: Vec<VectorPoint>)
    ensures
        vector_views(vectors@) == vectors_of(row_views(rows@)),
{
    let ghost views = row_views(rows@);
    let mut vectors: Vec<VectorPoint> = Vec::new();
    let mut k: usize = 0;
    while k < rows.len()
        invariant
            k <= rows.len(),
            views == row_views(rows@),
            vector_views(vectors@) == vectors_of(views.take(k as int)),
        decreases rows.len() - k,
    {
        proof {
            lemma_take_step(views, k as int);
        }
        match point_of_row(&rows[k]) {
            None => {},
            Some(p) => {
                let ghost before = vector_views(vectors@);
                let vector = VectorPoint { category: category_of_row(&rows[k]), point: p };
                vectors.push(vector);
                assert(vector_views(vectors@) =~= before.push(vector@));
            },
        }
        k += 1;
    }
    assert(views.take(rows.len() as int) =~= views);
    vectors
}

/// Builds the geometry of a hole from its stored rows.
pub fn hole_from_rows(
    hole_id: i32,
    polygon_rows: &Vec<SurveyRow>,
    vector_rows: &Vec<SurveyRow>,
    config: &RenderConfig,
) -> (hole: HoleGeometry)
    ensures
        hole@.hole_id == hole_id,
        hole@.polygons == polygons_of(row_views(polygon_rows@), config@),
        hole@.vectors == vectors_of(row_views(vector_rows@)),
{
    HoleGeometry {
        hole_id,
        polygons: polygons_from_rows(polygon_rows, config),
        vectors: vectors_from_rows(vector_rows),
    }
}

/// No polygon built from rows is without points.
pub proof fn lemma_row_polygons_have_points(rows: Seq<RowView>, config: ConfigView)
    ensures
        forall|k: int|
            0 <= k < polygons_of(rows, config).len() ==> (#[trigger] polygons_of(
                rows,
                config,
            )[k]).points.len() >= 1,
    decreases rows.len(),
{
    if rows.len() > 0 {
        lemma_row_polygons_have_points(rows.drop_last(), config);
        let earlier = polygons_of(rows.drop_last(), config);
        let category = row_category(rows.last());
        if has_category(earlier, category) {
            let witness = choose|k: int|
                0 <= k < earlier.len() && (#[trigger] earlier[k]).category == category;
            lemma_first_of_category_exists(earlier, category, witness);
        }
    }
}

/// Where some polygon has the category, one of them is the first.
pub proof fn lemma_first_of_category_exists(polygons: Seq<RegionView>, category: Seq<char>, k: int)
    requires
        0 <= k < polygons.len(),
        polygons[k].category == category,
    ensures
        exists|first: int| is_first_of_category(polygons, category, first),
    decreases k,
{
    if exists|j: int| 0 <= j < k && (#[trigger] polygons[j]).category == category {
        let j = choose|j: int| 0 <= j < k && (#[trigger] polygons[j]).category == category;
        lemma_first_of_category_exists(polygons, category, j);
    } else {
        assert(is_first_of_category(polygons, category, k));
    }
}

} // verus!
