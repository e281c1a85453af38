//! Assembles the drawing of one hole.
//!
//! Regions come first, category by category in the order in which the
//! categories first appear among the polygons; markers follow in the order
//! of the labelled points. Later primitives are painted over earlier ones.
//!
//! A ring is drawn only if it has at least two points. In a category that
//! is merged, each region that is left after merging becomes a primitive of
//! its own with one ring. In any other category all polygons share one
//! primitive, in which each drawable polygon keeps its own closed ring.

use vstd::prelude::*;
use crate::geometry::{
    copy_points, polygon_views, vector_views, GeoPoint, HoleGeometry, HoleView, Polygon,
    RegionView, VectorPoint, VectorView,
};
use crate::merger::{merge, merged, region_views, MergedRegion};
use crate::prefix::lemma_take_step;
use crate::style::{
    marker_style, marker_style_for, region_style, style_for, MarkerStyle, MarkerStyleView,
    RegionStyle, RegionStyleView,
};
use crate::text::{str_eq, string_views};
use crate::transform::{
    bounds_of, degenerate, fitted, mapped, mapped_ring, CanvasPoint, RenderError, Transform,
    TransformView,
};

verus! {

/// What happens to the polygons of one category before they are drawn.
#[derive(Clone, Copy, Debug, PartialEq, Eq, Structural)]
pub enum MergePolicy {
    /// Adjacent polygons are fused into regions.
    MergeAdjacent,
    /// The polygons are kept as they are and drawn together.
    ConcatenateAll,
}

/// The settings of a rendering pass.
#[derive(Clone, Debug, PartialEq, Eq)]
pub struct RenderConfig {
    /// Width of the canvas, in canvas units.
    pub canvas_width: u16,
    /// Height of the canvas, in canvas units.
    pub canvas_height: u16,
    /// Share of the available room that the drawing fills, in percent.
    pub margin_percent: u8,
    /// The categories whose adjacent polygons are fused.
    pub merge_categories: Vec<String>,
    /// Distance below which two points count as touching, in coordinate
    /// units.
    pub adjacency_threshold: u32,
}

/// Mathematical model of the settings.
#[verifier::ext_equal]
pub struct ConfigView {
    pub canvas_width: int,
    pub canvas_height: int,
    pub margin_percent: int,
    pub merge_categories: Seq<Seq<char>>,
    pub adjacency_threshold: int,
}

impl View for RenderConfig {
    type V = ConfigView;

    open spec fn view(&self) -> ConfigView {
        ConfigView {
            canvas_width: self.canvas_width as int,
            canvas_height: self.canvas_height as int,
            margin_percent: self.margin_percent as int,
            merge_categories: string_views(self.merge_categories@),
            adjacency_threshold: self.adjacency_threshold as int,
        }
    }
}

/// The usual settings: a canvas of 1000 by 1000 units filled to 90 percent,
/// woods and sand merged, and a threshold of 800 coordinate units (0.00008
/// degree at 1e-7 degree per unit).
pub open spec fn default_config() -> ConfigView {
    ConfigView {
        canvas_width: 1000,
        canvas_height: 1000,
        margin_percent: 90,
        merge_categories: seq!["Woods"@, "Sand"@],
        adjacency_threshold: 800,
    }
}

impl Default for RenderConfig {
    fn default() -> (config: RenderConfig)
        ensures
            config@ == default_config(),
    {
        let mut merge_categories: Vec<String> = Vec::new();
        merge_categories.push("Woods".to_owned());
        merge_categories.push("Sand".to_owned());
        let config = RenderConfig {
            canvas_width: 1000,
            canvas_height: 1000,
            margin_percent: 90,
            merge_categories,
            adjacency_threshold: 800,
        };
        assert(config@.merge_categories =~= default_config().merge_categories);
        config
    }
}

/// A closed, filled shape of one surface category.
#[derive(Clone, Debug, PartialEq, Eq)]
pub struct RegionPrimitive {
    /// The category, which labels the primitive in the drawing.
    pub category: String,
    /// The closed rings of the shape; each has at least two points.
    pub rings: Vec<Vec<CanvasPoint>>,
    pub style: RegionStyle,
}

/// Mathematical model of a region primitive.
#[verifier::ext_equal]
pub struct RegionPrimitiveView {
    pub category: Seq<char>,
    pub rings: Seq<Seq<CanvasPoint>>,
    pub style: RegionStyleView,
}

/// The views of a sequence of rings, in order.
pub open spec fn ring_views(rings: Seq<Vec<CanvasPoint>>) -> Seq<Seq<CanvasPoint>> {
    rings.map_values(|r: Vec<CanvasPoint>| r@)
}

impl View for RegionPrimitive {
    type V = RegionPrimitiveView;

    open spec fn view(&self) -> RegionPrimitiveView {
        RegionPrimitiveView {
            category: self.category@,
            rings: ring_views(self.rings@),
            style: self.style@,
        }
    }
}

/// A filled dot at a labelled point.
#[derive(Clone, Debug, PartialEq, Eq)]
pub struct MarkerPrimitive {
    pub category: String,
    pub center: CanvasPoint,
    pub style: MarkerStyle,
}

/// Mathematical model of a marker primitive.
pub struct MarkerPrimitiveView {
    pub category: Seq<char>,
    pub center: CanvasPoint,
    pub style: MarkerStyleView,
}

impl View for MarkerPrimitive {
    type V = MarkerPrimitiveView;

    open spec fn view(&self) -> MarkerPrimitiveView {
        MarkerPrimitiveView {
            category: self.category@,
            center: self.center,
            style: self.style@,
        }
    }
}

/// The finished drawing: the canvas size and the primitives, bottom layer
/// first.
#[derive(Clone, Debug, PartialEq, Eq)]
pub struct RenderedDocument {
    pub width: u16,
    pub height: u16,
    pub regions: Vec<RegionPrimitive>,
    pub markers: Vec<MarkerPrimitive>,
}

/// Mathematical model of a drawing.
#[verifier::ext_equal]
pub struct DocumentView {
    pub width: int,
    pub height: int,
    pub regions: Seq<RegionPrimitiveView>,
    pub markers: Seq<MarkerPrimitiveView>,
}

/// The models of a sequence of region primitives, in order.
pub open spec fn region_primitive_views(primitives: Seq<RegionPrimitive>) -> Seq<
    RegionPrimitiveView,
> {
    primitives.map_values(|p: RegionPrimitive| p@)
}

/// The models of a sequence of marker primitives, in order.
pub open spec fn marker_primitive_views(primitives: Seq<MarkerPrimitive>) -> Seq<
    MarkerPrimitiveView,
> {
    primitives.map_values(|p: MarkerPrimitive| p@)
}

impl View for RenderedDocument {
    type V = DocumentView;

    open spec fn view(&self) -> DocumentView {
        DocumentView {
            width: self.width as int,
            height: self.height as int,
            regions: region_primitive_views(self.regions@),
            markers: marker_primitive_views(self.markers@),
        }
    }
}

/// The points of all polygons, polygon after polygon.
pub open spec fn all_points(polygons: Seq<RegionView>) -> Seq<GeoPoint>
    decreases polygons.len(),
{
    if polygons.len() == 0 {
        Seq::empty()
    } else {
        all_points(polygons.drop_last()) + polygons.last().points
    }
}

/// The categories of the polygons, each once, in the order of their first
/// appearance.
pub open spec fn categories_in_order(polygons: Seq<RegionView>) -> Seq<Seq<char>>
    decreases polygons.len(),
{
    if polygons.len() == 0 {
        Seq::empty()
    } else {
        let earlier = categories_in_order(polygons.drop_last());
        if earlier.contains(polygons.last().category) {
            earlier
        } else {
            earlier.push(polygons.last().category)
        }
    }
}

/// The polygons of one category, in the order in which they were given.
pub open spec fn group_of(polygons: Seq<RegionView>, category: Seq<char>) -> Seq<RegionView>
    decreases polygons.len(),
{
    if polygons.len() == 0 {
        Seq::empty()
    } else if polygons.last().category == category {
        group_of(polygons.drop_last(), category).push(polygons.last())
    } else {
        group_of(polygons.drop_last(), category)
    }
}

/// The policy that the settings give a category.
pub open spec fn policy(category: Seq<char>, config: ConfigView) -> MergePolicy {
    if config.merge_categories.contains(category) {
        MergePolicy::MergeAdjacent
    } else {
        MergePolicy::ConcatenateAll
    }
}

/// A ring can be drawn as a closed path if it has at least two points.
pub open spec fn drawable(ring: Seq<GeoPoint>) -> bool {
    ring.len() >= 2
}

/// One primitive with one ring for each drawable region, in order.
pub open spec fn merged_primitives(
    category: Seq<char>,
    regions: Seq<RegionView>,
    t: TransformView,
) -> Seq<RegionPrimitiveView>
    decreases regions.len(),
{
    if regions.len() == 0 {
        Seq::empty()
    } else if drawable(regions.last().points) {
        merged_primitives(category, regions.drop_last(), t).push(
            RegionPrimitiveView {
                category,
                rings: seq![mapped_ring(t, regions.last().points)],
                style: region_style(category),
            },
        )
    } else {
        merged_primitives(category, regions.drop_last(), t)
    }
}

/// The canvas rings of the drawable polygons, in order.
pub open spec fn drawable_rings(group: Seq<RegionView>, t: TransformView) -> Seq<
    Seq<CanvasPoint>,
>
    decreases group.len(),
{
    if group.len() == 0 {
        Seq::empty()
    } else if drawable(group.last().points) {
        drawable_rings(group.drop_last(), t).push(mapped_ring(t, group.last().points))
    } else {
        drawable_rings(group.drop_last(), t)
    }
}

/// One primitive that holds the rings of all drawable polygons, or none
/// where no polygon is drawable.
pub open spec fn concatenated_primitives(
    category: Seq<char>,
    group: Seq<RegionView>,
    t: TransformView,
) -> Seq<RegionPrimitiveView> {
    let rings = drawable_rings(group, t);
    if rings.len() > 0 {
        seq![RegionPrimitiveView { category, rings, style: region_style(category) }]
    } else {
        Seq::empty()
    }
}

/// The primitives of one category.
pub open spec fn category_primitives(
    category: Seq<char>,
    polygons: Seq<RegionView>,
    config: ConfigView,
    t: TransformView,
) -> Seq<RegionPrimitiveView> {
    let group = group_of(polygons, category);
    match policy(category, config) {
        MergePolicy::MergeAdjacent => merged_primitives(
            category,
            merged(group, config.adjacency_threshold),
            t,
        ),
        MergePolicy::ConcatenateAll => concatenated_primitives(category, group, t),
    }
}

/// The primitives of the given categories, category after category.
pub open spec fn region_primitives(
    categories: Seq<Seq<char>>,
    polygons: Seq<RegionView>,
    config: ConfigView,
    t: TransformView,
) -> Seq<RegionPrimitiveView>
    decreases categories.len(),
{
    if categories.len() == 0 {
        Seq::empty()
    } else {
        region_primitives(categories.drop_last(), polygons, config, t) + category_primitives(
            categories.last(),
            polygons,
            config,
            t,
        )
    }
}

/// The marker of one labelled point.
pub open spec fn marker_primitive(v: VectorView, t: TransformView) -> MarkerPrimitiveView {
    MarkerPrimitiveView {
        category: v.category,
        center: mapped(t, v.point),
        style: marker_style(v.category),
    }
}

/// The markers of the labelled points, in order.
pub open spec fn marker_primitives(vectors: Seq<VectorView>, t: TransformView) -> Seq<
    MarkerPrimitiveView,
> {
    vectors.map_values(|v: VectorView| marker_primitive(v, t))
}

/// The drawing of a hole, or the reason why there is none. Only polygon
/// points decide the extent that is fitted into the canvas; a labelled
/// point outside it is mapped by the same rule and may leave the canvas.
pub open spec fn rendered(hole: HoleView, config: ConfigView) -> Result<
    DocumentView,
    RenderError,
> {
    let points = all_points(hole.polygons);
    if points.len() == 0 {
        Err(RenderError::EmptyGeometry)
    } else if degenerate(bounds_of(points)) {
        Err(RenderError::DegenerateAxis)
    } else {
        let t = fitted(
            bounds_of(points),
            config.canvas_width,
            config.canvas_height,
            config.margin_percent,
        );
        Ok(
            DocumentView {
                width: config.canvas_width,
                height: config.canvas_height,
                regions: region_primitives(
                    categories_in_order(hole.polygons),
                    hole.polygons,
                    config,
                    t,
                ),
                markers: marker_primitives(hole.vectors, t),
            },
        )
    }
}

/// Collects the points of all polygons, polygon after polygon.
pub fn collect_points(polygons: &Vec<Polygon>) -> (points: Vec<GeoPoint>)
    ensures
        points@ == all_points(polygon_views(polygons@)),
{
    let ghost views = polygon_views(polygons@);
    let mut points: Vec<GeoPoint> = Vec::new();
    let mut k: usize = 0;
    while k < polygons.len()
        invariant
            k <= polygons.len(),
            views == polygon_views(polygons@),
            points@ == all_points(views.take(k as int)),
        decreases polygons.len() - k,
    {
        let ring = &polygons[k].points;
        let ghost before = points@;
        let mut m: usize = 0;
        while m < ring.len()
            invariant
                m <= ring.len(),
                points@ == before + ring@.take(m as int),
            decreases ring.len() - m,
        {
            points.push(ring[m]);
            assert(ring@.take(m + 1) =~= ring@.take(m as int).push(ring@[m as int]));
            assert(points@ =~= before + ring@.take(m + 1));
            m += 1;
        }
        proof {
            assert(ring@.take(ring.len() as int) =~= ring@);
            lemma_take_step(views, k as int);
        }
        k += 1;
    }
    assert(views.take(polygons.len() as int) =~= views);
    points
}

/// Decides whether `category` is one of `list`.
pub fn contains_category(list: &Vec<String>, category: &str) -> (found: bool)
    ensures
        found == string_views(list@).contains(category@),
{
    let ghost views = string_views(list@);
    let mut k: usize = 0;
    while k < list.len()
        invariant
            k <= list.len(),
            views == string_views(list@),
            forall|n: int| 0 <= n < k ==> views[n] != category@,
        decreases list.len() - k,
    {
        if str_eq(list[k].as_str(), category) {
            assert(views[k as int] == category@);
            return true;
        }
        k += 1;
    }
    false
}

/// Looks up the policy that the settings give a category.
pub fn policy_for(category: &str, config: &RenderConfig) -> (chosen: MergePolicy)
    ensures
        chosen == policy(category@, config@),
{
    if contains_category(&config.merge_categories, category) {
        MergePolicy::MergeAdjacent
    } else {
        MergePolicy::ConcatenateAll
    }
}

/// Lists the categories of the polygons, each once, in the order of their
/// first appearance.
pub fn distinct_categories(polygons: &Vec<Polygon>) -> (categories: Vec<String>)
    ensures
        string_views(categories@) == categories_in_order(polygon_views(polygons@)),
{
    let ghost views = polygon_views(polygons@);
    let mut categories: Vec<String> = Vec::new();
    let mut k: usize = 0;
    while k < polygons.len()
        invariant
            k <= polygons.len(),
            views == polygon_views(polygons@),
            string_views(categories@) == categories_in_order(views.take(k as int)),
        decreases polygons.len() - k,
    {
        proof {
            lemma_take_step(views, k as int);
        }
        if !contains_category(&categories, polygons[k].category.as_str()) {
            let ghost before = string_views(categories@);
            categories.push(polygons[k].category.clone());
            assert(string_views(categories@) =~= before.push(polygons@[k as int].category@));
        }
        k += 1;
    }
    assert(views.take(polygons.len() as int) =~= views);
    categories
}

/// Picks the polygons of one category, in the order in which they were given.
pub fn select_group(polygons: &Vec<Polygon>, category: &str) -> (group: Vec<Polygon>)
    ensures
        polygon_views(group@) == group_of(polygon_views(polygons@), category@),
{
    let ghost views = polygon_views(polygons@);
    let mut group: Vec<Polygon> = Vec::new();
    let mut k: usize = 0;
    while k < polygons.len()
        invariant
            k <= polygons.len(),
            views == polygon_views(polygons@),
            polygon_views(group@) == group_of(views.take(k as int), category@),
        decreases polygons.len() - k,
    {
        proof {
            lemma_take_step(views, k as int);
        }
        if str_eq(polygons[k].category.as_str(), category) {
            let ghost before = polygon_views(group@);
            group.push(
                Polygon {
                    category: polygons[k].category.clone(),
                    points: copy_points(&polygons[k].points),
                },
            );
            assert(polygon_views(group@) =~= before.push(polygons@[k as int]@));
        }
        k += 1;
    }
    assert(views.take(polygons.len() as int) =~= views);
    group
}

/// Mapping a sequence of primitives to their models distributes over
/// concatenation.
proof fn lemma_views_of_concatenation(first: Seq<RegionPrimitive>, second: Seq<RegionPrimitive>)
    ensures
        region_primitive_views(first + second) == region_primitive_views(first)
            + region_primitive_views(second),
{
    assert(region_primitive_views(first + second) =~= region_primitive_views(first)
        + region_primitive_views(second));
}

/// Builds one primitive with one ring for each drawable region, in order.
pub fn merged_region_primitives(
    category: &str,
    regions: &Vec<MergedRegion>,
    transform: &Transform,
) -> (primitives: Vec<RegionPrimitive>)
    ensures
        region_primitive_views(primitives@) == merged_primitives(
            category@,
            region_views(regions@),
            transform@,
        ),
{
    let ghost views = region_views(regions@);
    let mut primitives: Vec<RegionPrimitive> = Vec::new();
    let mut k: usize = 0;
    while k < regions.len()
        invariant
            k <= regions.len(),
            views == region_views(regions@),
            region_primitive_views(primitives@) == merged_primitives(
                category@,
                views.take(k as int),
                transform@,
            ),
        decreases regions.len() - k,
    {
        proof {
            lemma_take_step(views, k as int);
        }
        if regions[k].points.len() >= 2 {
            let ghost before = region_primitive_views(primitives@);
            let ring = transform.apply_ring(&regions[k].points);
            let mut rings: Vec<Vec<CanvasPoint>> = Vec::new();
            rings.push(ring);
            let primitive = RegionPrimitive {
                category: category.to_owned(),
                rings,
                style: style_for(category),
            };
            assert(primitive@.rings =~= seq![mapped_ring(transform@, views[k as int].points)]);
            primitives.push(primitive);
            assert(region_primitive_views(primitives@) =~= before.push(primitive@));
        }
        k += 1;
    }
    assert(views.take(regions.len() as int) =~= views);
    primitives
}

/// Maps the drawable polygons of a group to the canvas, in order.
pub fn drawable_polygon_rings(group: &Vec<Polygon>, transform: &Transform) -> (rings: Vec<
    Vec<CanvasPoint>,
>)
    ensures
        ring_views(rings@) == drawable_rings(polygon_views(group@), transform@),
{
    let ghost views = polygon_views(group@);
    let mut rings: Vec<Vec<CanvasPoint>> = Vec::new();
    let mut k: usize = 0;
    while k < group.len()
        invariant
            k <= group.len(),
            views == polygon_views(group@),
            ring_views(rings@) == drawable_rings(views.take(k as int), transform@),
        decreases group.len() - k,
    {
        proof {
            lemma_take_step(views, k as int);
        }
        if group[k].points.len() >= 2 {
            let ghost before = ring_views(rings@);
            let ring = transform.apply_ring(&group[k].points);
            rings.push(ring);
            assert(ring_views(rings@) =~= before.push(ring@));
        }
        k += 1;
    }
    assert(views.take(group.len() as int) =~= views);
    rings
}

/// Builds the one primitive that holds the rings of all drawable polygons
/// of a group; there is none where no polygon is drawable.
pub fn concatenated_region_primitives(
    category: &str,
    group: &Vec<Polygon>,
    transform: &Transform,
) -> (primitives: Vec<RegionPrimitive>)
    ensures
        region_primitive_views(primitives@) == concatenated_primitives(
            category@,
            polygon_views(group@),
            transform@,
        ),
{
    let rings = drawable_polygon_rings(group, transform);
    let mut primitives: Vec<RegionPrimitive> = Vec::new();
    if rings.len() > 0 {
        let primitive = RegionPrimitive {
            category: category.to_owned(),
            rings,
            style: style_for(category),
        };
        primitives.push(primitive);
        assert(region_primitive_views(primitives@) =~= seq![primitive@]);
    } else {
        assert(region_primitive_views(primitives@) =~= Seq::empty());
    }
    primitives
}

/// Builds the primitives of one category.
pub fn category_region_primitives(
    category: &str,
    polygons: &Vec<Polygon>,
    config: &RenderConfig,
    transform: &Transform,
) -> (primitives: Vec<RegionPrimitive>)
    ensures
        region_primitive_views(primitives@) == category_primitives(
            category@,
            polygon_views(polygons@),
            config@,
            transform@,
        ),
{
    let group = select_group(polygons, category);
    match policy_for(category, config) {
        MergePolicy::MergeAdjacent => {
            let regions = merge(&group, config.adjacency_threshold);
            merged_region_primitives(category, &regions, transform)
        },
        MergePolicy::ConcatenateAll => concatenated_region_primitives(category, &group, transform),
    }
}

/// Builds the markers of the labelled points, in order.
pub fn marker_primitives_for(vectors: &Vec<VectorPoint>, transform: &Transform) -> (markers: Vec<
    MarkerPrimitive,
>)
    ensures
        marker_primitive_views(markers@) == marker_primitives(vector_views(vectors@), transform@),
{
    let mut markers: Vec<MarkerPrimitive> = Vec::new();
    let mut k: usize = 0;
    while k < vectors.len()
        invariant
            k <= vectors.len(),
            marker_primitive_views(markers@) == marker_primitives(
                vector_views(vectors@).take(k as int),
                transform@,
            ),
        decreases vectors.len() - k,
    {
        let ghost before = marker_primitive_views(markers@);
        let marker = MarkerPrimitive {
            category: vectors[k].category.clone(),
            center: transform.apply(vectors[k].point),
            style: marker_style_for(vectors[k].category.as_str()),
        };
        markers.push(marker);
        assert(marker_primitive_views(markers@) =~= before.push(marker@));
        assert(marker_primitives(vector_views(vectors@).take(k + 1), transform@)
            =~= marker_primitives(vector_views(vectors@).take(k as int), transform@).push(
            marker_primitive(vectors@[k as int]@, transform@),
        ));
        k += 1;
    }
    assert(vector_views(vectors@).take(vectors.len() as int) =~= vector_views(vectors@));
    markers
}

/// Draws one hole. The result is a complete drawing or an error, never a
/// part of a drawing.
pub fn render(hole: &HoleGeometry, config: &RenderConfig) -> (outcome: Result<
    RenderedDocument,
    RenderError,
>)
    ensures
        match outcome {
            Ok(document) => rendered(hole@, config@) == Ok::<DocumentView, RenderError>(
                document@,
            ),
            Err(error) => rendered(hole@, config@) == Err::<DocumentView, RenderError>(error),
        },
        hole@.polygons.len() == 0 ==> outcome == Err::<RenderedDocument, RenderError>(
            RenderError::EmptyGeometry,
        ),
{
    let points = collect_points(&hole.polygons);
    let built = Transform::build(
        &points,
        config.canvas_width,
        config.canvas_height,
        config.margin_percent,
    );
    let transform = match built {
        Ok(transform) => transform,
        Err(RenderError::EmptyGeometry) => { return Err(RenderError::EmptyGeometry); },
        Err(RenderError::DegenerateAxis) => { return Err(RenderError::DegenerateAxis); },
    };
    let categories = distinct_categories(&hole.polygons);
    let ghost names = string_views(categories@);
    let mut regions: Vec<RegionPrimitive> = Vec::new();
    let mut k: usize = 0;
    while k < categories.len()
        invariant
            k <= categories.len(),
            names == string_views(categories@),
            region_primitive_views(regions@) == region_primitives(
                names.take(k as int),
                polygon_views(hole.polygons@),
                config@,
                transform@,
            ),
        decreases categories.len() - k,
    {
        let ghost before = regions@;
        let mut added = category_region_primitives(
            categories[k].as_str(),
            &hole.polygons,
            config,
            &transform,
        );
        let ghost added_before = added@;
        regions.append(&mut added);
        proof {
            lemma_take_step(names, k as int);
            lemma_views_of_concatenation(before, added_before);
        }
        k += 1;
    }
    assert(names.take(categories.len() as int) =~= names);
    let markers = marker_primitives_for(&hole.vectors, &transform);
    let document = RenderedDocument {
        width: config.canvas_width,
        height: config.canvas_height,
        regions,
        markers,
    };
    Ok(document)
}

/// The number of regions that can be drawn.
pub open spec fn drawable_count(regions: Seq<RegionView>) -> nat
    decreases regions.len(),
{
    if regions.len() == 0 {
        0
    } else if drawable(regions.last().points) {
        drawable_count(regions.drop_last()) + 1
    } else {
        drawable_count(regions.drop_last())
    }
}

/// The regions of one category, once its policy has been applied.
pub open spec fn regions_of(category: Seq<char>, polygons: Seq<RegionView>, config: ConfigView) -> Seq<
    RegionView,
> {
    let group = group_of(polygons, category);
    match policy(category, config) {
        MergePolicy::MergeAdjacent => merged(group, config.adjacency_threshold),
        MergePolicy::ConcatenateAll => group,
    }
}

/// The number of primitives that one category contributes: each drawable
/// region where the category is merged, otherwise one where any polygon is
/// drawable.
pub open spec fn primitive_count(
    category: Seq<char>,
    polygons: Seq<RegionView>,
    config: ConfigView,
) -> nat {
    let count = drawable_count(regions_of(category, polygons, config));
    match policy(category, config) {
        MergePolicy::MergeAdjacent => count,
        MergePolicy::ConcatenateAll => if count > 0 {
            1
        } else {
            0
        },
    }
}

/// The number of primitives that the categories contribute together.
pub open spec fn total_primitive_count(
    categories: Seq<Seq<char>>,
    polygons: Seq<RegionView>,
    config: ConfigView,
) -> nat
    decreases categories.len(),
{
    if categories.len() == 0 {
        0
    } else {
        total_primitive_count(categories.drop_last(), polygons, config) + primitive_count(
            categories.last(),
            polygons,
            config,
        )
    }
}

/// The number of categories that have at least one drawable region once
/// their policy has been applied.
pub open spec fn drawn_category_count(
    categories: Seq<Seq<char>>,
    polygons: Seq<RegionView>,
    config: ConfigView,
) -> nat
    decreases categories.len(),
{
    if categories.len() == 0 {
        0
    } else if drawable_count(regions_of(categories.last(), polygons, config)) > 0 {
        drawn_category_count(categories.drop_last(), polygons, config) + 1
    } else {
        drawn_category_count(categories.drop_last(), polygons, config)
    }
}

/// No merged category is left with more than one drawable region.
pub open spec fn merged_categories_are_connected(
    categories: Seq<Seq<char>>,
    polygons: Seq<RegionView>,
    config: ConfigView,
) -> bool {
    forall|k: int|
        0 <= k < categories.len() && policy(#[trigger] categories[k], config)
            == MergePolicy::MergeAdjacent ==> drawable_count(
            regions_of(categories[k], polygons, config),
        ) <= 1
}

/// Every primitive has a ring, and every ring has at least two points.
pub open spec fn well_drawn(primitives: Seq<RegionPrimitiveView>) -> bool {
    forall|i: int|
        0 <= i < primitives.len() ==> (#[trigger] primitives[i]).rings.len() >= 1 && forall|j: int|
            0 <= j < primitives[i].rings.len() ==> (#[trigger] primitives[i].rings[j]).len() >= 2
}

/// Without a polygon there is nothing to fit, and the hole is refused.
pub proof fn lemma_no_polygons_is_empty_geometry(hole: HoleView, config: ConfigView)
    requires
        hole.polygons.len() == 0,
    ensures
        rendered(hole, config) == Err::<DocumentView, RenderError>(RenderError::EmptyGeometry),
{
}

/// A drawing exists exactly when the polygons have a point and not all
/// their points coincide.
pub proof fn lemma_rendered_outcomes(hole: HoleView, config: ConfigView)
    ensures
        rendered(hole, config) is Ok <==> all_points(hole.polygons).len() > 0 && !degenerate(
            bounds_of(all_points(hole.polygons)),
        ),
        rendered(hole, config) == Err::<DocumentView, RenderError>(RenderError::EmptyGeometry)
            <==> all_points(hole.polygons).len() == 0,
{
}

/// A merged category has one primitive for each drawable region.
pub proof fn lemma_merged_primitives_len(
    category: Seq<char>,
    regions: Seq<RegionView>,
    t: TransformView,
)
    ensures
        merged_primitives(category, regions, t).len() == drawable_count(regions),
    decreases regions.len(),
{
    if regions.len() > 0 {
        lemma_merged_primitives_len(category, regions.drop_last(), t);
    }
}

/// There is one canvas ring for each drawable polygon.
pub proof fn lemma_drawable_rings_len(group: Seq<RegionView>, t: TransformView)
    ensures
        drawable_rings(group, t).len() == drawable_count(group),
    decreases group.len(),
{
    if group.len() > 0 {
        lemma_drawable_rings_len(group.drop_last(), t);
    }
}

/// A region with fewer than two points yields no primitive, whatever the
/// policy of its category.
pub proof fn lemma_degenerate_region_is_skipped(
    category: Seq<char>,
    region: RegionView,
    t: TransformView,
)
    requires
        region.points.len() < 2,
    ensures
        merged_primitives(category, seq![region], t).len() == 0,
        concatenated_primitives(category, seq![region], t).len() == 0,
{
    let single = seq![region];
    assert(single.drop_last() =~= Seq::empty());
    assert(merged_primitives(category, single.drop_last(), t).len() == 0);
    assert(drawable_rings(single.drop_last(), t).len() == 0);
}

/// The number of region primitives of a category.
pub proof fn lemma_category_primitives_len(
    category: Seq<char>,
    polygons: Seq<RegionView>,
    config: ConfigView,
    t: TransformView,
)
    ensures
        category_primitives(category, polygons, config, t).len() == primitive_count(
            category,
            polygons,
            config,
        ),
{
    let group = group_of(polygons, category);
    lemma_merged_primitives_len(category, merged(group, config.adjacency_threshold), t);
    lemma_drawable_rings_len(group, t);
}

/// The number of region primitives: the sum over the categories.
pub proof fn lemma_region_primitives_len(
    categories: Seq<Seq<char>>,
    polygons: Seq<RegionView>,
    config: ConfigView,
    t: TransformView,
)
    ensures
        region_primitives(categories, polygons, config, t).len() == total_primitive_count(
            categories,
            polygons,
            config,
        ),
    decreases categories.len(),
{
    if categories.len() > 0 {
        lemma_region_primitives_len(categories.drop_last(), polygons, config, t);
        lemma_category_primitives_len(categories.last(), polygons, config, t);
    }
}

/// Where no merged category is left with more than one drawable region,
/// each category with a drawable region contributes exactly one primitive.
pub proof fn lemma_one_primitive_per_drawn_category(
    categories: Seq<Seq<char>>,
    polygons: Seq<RegionView>,
    config: ConfigView,
)
    requires
        merged_categories_are_connected(categories, polygons, config),
    ensures
        total_primitive_count(categories, polygons, config) == drawn_category_count(
            categories,
            polygons,
            config,
        ),
    decreases categories.len(),
{
    if categories.len() > 0 {
        let rest = categories.drop_last();
        assert forall|k: int|
            0 <= k < rest.len() && policy(#[trigger] rest[k], config)
                == MergePolicy::MergeAdjacent implies drawable_count(
            regions_of(rest[k], polygons, config),
        ) <= 1 by {
            assert(rest[k] == categories[k]);
        }
        lemma_one_primitive_per_drawn_category(rest, polygons, config);
        assert(categories.last() == categories[categories.len() - 1]);
    }
}

/// The number of regions in a drawing equals the number of categories with
/// at least one drawable region, provided that no merged category is left
/// with more than one drawable region. (A merged category whose polygons
/// fall into several drawable regions contributes one primitive for each.)
pub proof fn lemma_region_count(hole: HoleView, config: ConfigView)
    requires
        rendered(hole, config) is Ok,
        merged_categories_are_connected(
            categories_in_order(hole.polygons),
            hole.polygons,
            config,
        ),
    ensures
        rendered(hole, config)->Ok_0.regions.len() == drawn_category_count(
            categories_in_order(hole.polygons),
            hole.polygons,
            config,
        ),
{
    let points = all_points(hole.polygons);
    let t = fitted(
        bounds_of(points),
        config.canvas_width,
        config.canvas_height,
        config.margin_percent,
    );
    let categories = categories_in_order(hole.polygons);
    lemma_region_primitives_len(categories, hole.polygons, config, t);
    lemma_one_primitive_per_drawn_category(categories, hole.polygons, config);
}

/// In any drawing the regions number as many as the categories contribute
/// together.
pub proof fn lemma_region_count_in_general(hole: HoleView, config: ConfigView)
    requires
        rendered(hole, config) is Ok,
    ensures
        rendered(hole, config)->Ok_0.regions.len() == total_primitive_count(
            categories_in_order(hole.polygons),
            hole.polygons,
            config,
        ),
{
    let points = all_points(hole.polygons);
    let t = fitted(
        bounds_of(points),
        config.canvas_width,
        config.canvas_height,
        config.margin_percent,
    );
    lemma_region_primitives_len(categories_in_order(hole.polygons), hole.polygons, config, t);
}

/// A drawing has one marker for each labelled point, in the same order.
pub proof fn lemma_marker_count(hole: HoleView, config: ConfigView)
    requires
        rendered(hole, config) is Ok,
    ensures
        rendered(hole, config)->Ok_0.markers.len() == hole.vectors.len(),
        forall|k: int|
            0 <= k < hole.vectors.len() ==> (#[trigger] rendered(hole, config)->Ok_0.markers[k]).category
                == hole.vectors[k].category,
{
}

/// The primitives of a merged category are well drawn.
proof fn lemma_merged_primitives_well_drawn(
    category: Seq<char>,
    regions: Seq<RegionView>,
    t: TransformView,
)
    ensures
        well_drawn(merged_primitives(category, regions, t)),
    decreases regions.len(),
{
    if regions.len() > 0 {
        lemma_merged_primitives_well_drawn(category, regions.drop_last(), t);
    }
}

/// Canvas rings of drawable polygons have at least two points each.
proof fn lemma_drawable_rings_have_two_points(group: Seq<RegionView>, t: TransformView)
    ensures
        forall|j: int|
            0 <= j < drawable_rings(group, t).len() ==> (#[trigger] drawable_rings(group, t)[j]).len()
                >= 2,
    decreases group.len(),
{
    if group.len() > 0 {
        lemma_drawable_rings_have_two_points(group.drop_last(), t);
        let rings = drawable_rings(group, t);
        let earlier = drawable_rings(group.drop_last(), t);
        assert forall|j: int| 0 <= j < rings.len() implies (#[trigger] rings[j]).len() >= 2 by {
            if j < earlier.len() {
                assert(rings[j] == earlier[j]);
            } else {
                assert(rings[j] == mapped_ring(t, group.last().points));
            }
        }
    }
}

/// The primitives of any selection of categories are well drawn.
pub proof fn lemma_region_primitives_well_drawn(
    categories: Seq<Seq<char>>,
    polygons: Seq<RegionView>,
    config: ConfigView,
    t: TransformView,
)
    ensures
        well_drawn(region_primitives(categories, polygons, config, t)),
    decreases categories.len(),
{
    if categories.len() > 0 {
        let category = categories.last();
        let group = group_of(polygons, category);
        lemma_region_primitives_well_drawn(categories.drop_last(), polygons, config, t);
        lemma_merged_primitives_well_drawn(
            category,
            merged(group, config.adjacency_threshold),
            t,
        );
        lemma_drawable_rings_have_two_points(group, t);
        assert(well_drawn(category_primitives(category, polygons, config, t)));
    }
}

/// In a drawing every region has a ring and every ring has at least two
/// points: nothing degenerate is ever drawn.
pub proof fn lemma_rendered_is_well_drawn(hole: HoleView, config: ConfigView)
    requires
        rendered(hole, config) is Ok,
    ensures
        well_drawn(rendered(hole, config)->Ok_0.regions),
{
    let points = all_points(hole.polygons);
    let t = fitted(
        bounds_of(points),
        config.canvas_width,
        config.canvas_height,
        config.margin_percent,
    );
    lemma_region_primitives_well_drawn(
        categories_in_order(hole.polygons),
        hole.polygons,
        config,
        t,
    );
}

/// Two outcomes of rendering the same hole with the same settings are the
/// same.
pub proof fn lemma_render_repeatable(
    hole: HoleView,
    config: ConfigView,
    first: Result<DocumentView, RenderError>,
    second: Result<DocumentView, RenderError>,
)
    requires
        first == rendered(hole, config),
        second == rendered(hole, config),
    ensures
        first == second,
{
}

} // verus!
