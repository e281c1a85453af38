use hole_diagram::geometry::{GeoPoint, HoleGeometry, Polygon, VectorPoint};
use hole_diagram::markup::{path_data_of, to_svg, view_box_of};
use hole_diagram::render::{
    collect_points, contains_category, distinct_categories, policy_for, render, select_group,
    MarkerPrimitive, MergePolicy, RegionPrimitive, RenderConfig, RenderedDocument,
};
use hole_diagram::style::{marker_style_for, style_for};
use hole_diagram::text::{format_decimal, format_hundredths};
use hole_diagram::transform::{CanvasPoint, RenderError};

fn pt(lat: i32, lon: i32) -> GeoPoint {
    GeoPoint { lat, lon }
}

fn at(x: i64, y: i64) -> CanvasPoint {
    CanvasPoint { x, y }
}

fn poly(category: &str, points: Vec<GeoPoint>) -> Polygon {
    Polygon { category: category.to_string(), points }
}

fn vector(category: &str, point: GeoPoint) -> VectorPoint {
    VectorPoint { category: category.to_string(), point }
}

fn hole(polygons: Vec<Polygon>, vectors: Vec<VectorPoint>) -> HoleGeometry {
    HoleGeometry { hole_id: 7, polygons, vectors }
}

fn region(category: &str, rings: Vec<Vec<CanvasPoint>>) -> RegionPrimitive {
    RegionPrimitive { category: category.to_string(), rings, style: style_for(category) }
}

fn marker(category: &str, center: CanvasPoint) -> MarkerPrimitive {
    MarkerPrimitive { category: category.to_string(), center, style: marker_style_for(category) }
}

fn sand_green_flag() -> HoleGeometry {
    hole(
        vec![
            poly("Sand", vec![pt(0, 0), pt(1000, 0), pt(1000, 1000)]),
            poly("Green", vec![pt(5000, 5000), pt(10_000, 5000), pt(10_000, 0)]),
            poly("Sand", vec![pt(1500, 1000), pt(2000, 2000)]),
        ],
        vec![vector("Flag", pt(5000, 2500))],
    )
}

#[test]
fn default_config_has_the_usual_settings() {
    let config = RenderConfig::default();
    assert_eq!(config.canvas_width, 1000);
    assert_eq!(config.canvas_height, 1000);
    assert_eq!(config.margin_percent, 90);
    assert_eq!(config.merge_categories, vec!["Woods".to_string(), "Sand".to_string()]);
    assert_eq!(config.adjacency_threshold, 800);
}

#[test]
fn policy_follows_the_merge_list() {
    let config = RenderConfig::default();
    assert_eq!(policy_for("Woods", &config), MergePolicy::MergeAdjacent);
    assert_eq!(policy_for("Sand", &config), MergePolicy::MergeAdjacent);
    assert_eq!(policy_for("Green", &config), MergePolicy::ConcatenateAll);
    assert_eq!(policy_for("sand", &config), MergePolicy::ConcatenateAll);
}

#[test]
fn category_lookup_is_exact() {
    let list = vec!["Woods".to_string(), "Sand".to_string()];
    assert!(contains_category(&list, "Sand"));
    assert!(!contains_category(&list, "San"));
    assert!(!contains_category(&vec![], "Sand"));
}

#[test]
fn categories_are_listed_in_order_of_first_appearance() {
    let h = sand_green_flag();
    assert_eq!(distinct_categories(&h.polygons), vec!["Sand".to_string(), "Green".to_string()]);
    assert_eq!(distinct_categories(&vec![]), Vec::<String>::new());
}

#[test]
fn group_holds_the_polygons_of_one_category_in_order() {
    let h = sand_green_flag();
    assert_eq!(
        select_group(&h.polygons, "Sand"),
        vec![h.polygons[0].clone(), h.polygons[2].clone()]
    );
    assert_eq!(select_group(&h.polygons, "Water"), vec![]);
}

#[test]
fn points_are_collected_polygon_after_polygon() {
    let h = sand_green_flag();
    assert_eq!(
        collect_points(&h.polygons),
        vec![
            pt(0, 0),
            pt(1000, 0),
            pt(1000, 1000),
            pt(5000, 5000),
            pt(10_000, 5000),
            pt(10_000, 0),
            pt(1500, 1000),
            pt(2000, 2000),
        ]
    );
}

#[test]
fn sand_merges_and_green_and_flag_follow() {
    let document = render(&sand_green_flag(), &RenderConfig::default()).unwrap();
    assert_eq!(document.regions.len(), 2);
    assert_eq!(document.markers.len(), 1);
    assert_eq!(
        document,
        RenderedDocument {
            width: 1000,
            height: 1000,
            regions: vec![
                region(
                    "Sand",
                    vec![vec![
                        at(0, 100_000),
                        at(9_000, 100_000),
                        at(9_000, 91_000),
                        at(13_500, 91_000),
                        at(18_000, 82_000),
                    ]],
                ),
                region("Green", vec![vec![at(45_000, 55_000), at(90_000, 55_000), at(90_000, 100_000)]]),
            ],
            markers: vec![marker("Flag", at(45_000, 77_500))],
        }
    );
}

#[test]
fn no_polygons_is_empty_geometry() {
    let outcome = render(&hole(vec![], vec![vector("Flag", pt(1, 1))]), &RenderConfig::default());
    assert_eq!(outcome, Err(RenderError::EmptyGeometry));
}

#[test]
fn polygons_without_points_are_empty_geometry() {
    let outcome = render(&hole(vec![poly("Green", vec![])], vec![]), &RenderConfig::default());
    assert_eq!(outcome, Err(RenderError::EmptyGeometry));
}

#[test]
fn coinciding_points_are_a_degenerate_axis() {
    let outcome = render(
        &hole(vec![poly("Green", vec![pt(5, 5), pt(5, 5)])], vec![]),
        &RenderConfig::default(),
    );
    assert_eq!(outcome, Err(RenderError::DegenerateAxis));
}

#[test]
fn single_point_polygon_is_not_drawn() {
    let h = hole(
        vec![
            poly("Green", vec![pt(0, 0), pt(10, 0), pt(10, 10)]),
            poly("Water", vec![pt(5, 5)]),
            poly("Sand", vec![pt(9000, 9000)]),
        ],
        vec![],
    );
    let document = render(&h, &RenderConfig::default()).unwrap();
    assert_eq!(document.regions.len(), 1);
    assert_eq!(document.regions[0].category, "Green");
}

#[test]
fn single_points_that_merge_are_drawn() {
    let h = hole(
        vec![
            poly("Sand", vec![pt(0, 0)]),
            poly("Sand", vec![pt(500, 0)]),
            poly("Sand", vec![pt(500, 500)]),
            poly("Sand", vec![pt(100_000, 100_000)]),
        ],
        vec![],
    );
    let document = render(&h, &RenderConfig::default()).unwrap();
    assert_eq!(document.regions.len(), 1);
    assert_eq!(document.regions[0].rings.len(), 1);
    assert_eq!(document.regions[0].rings[0].len(), 3);
}

#[test]
fn unmerged_category_shares_one_primitive() {
    let h = hole(
        vec![
            poly("Green", vec![pt(0, 0), pt(10, 0)]),
            poly("Green", vec![pt(5, 5)]),
            poly("Green", vec![pt(10, 10), pt(0, 10)]),
        ],
        vec![],
    );
    let document = render(&h, &RenderConfig::default()).unwrap();
    assert_eq!(
        document.regions,
        vec![region(
            "Green",
            vec![
                vec![at(0, 100_000), at(90_000, 100_000)],
                vec![at(90_000, 10_000), at(0, 10_000)],
            ],
        )]
    );
}

#[test]
fn merged_category_has_one_primitive_per_region() {
    let h = hole(
        vec![
            poly("Woods", vec![pt(0, 0), pt(100, 0)]),
            poly("Woods", vec![pt(100_000, 100_000), pt(100_000, 99_000)]),
        ],
        vec![],
    );
    let document = render(&h, &RenderConfig::default()).unwrap();
    assert_eq!(document.regions.len(), 2);
    assert_eq!(document.regions[0].rings, vec![vec![at(0, 100_000), at(90, 100_000)]]);
    assert_eq!(document.regions[1].rings, vec![vec![at(90_000, 10_000), at(90_000, 10_900)]]);
}

#[test]
fn vectors_do_not_change_the_extent() {
    let polygons = vec![poly("Green", vec![pt(0, 0), pt(10, 5)])];
    let plain = render(&hole(polygons.clone(), vec![]), &RenderConfig::default()).unwrap();
    let flagged = render(&hole(polygons, vec![vector("Flag", pt(100, 100))]), &RenderConfig::default())
        .unwrap();
    assert_eq!(plain.regions, flagged.regions);
    assert_eq!(flagged.markers, vec![marker("Flag", at(900_000, -800_000))]);
}

#[test]
fn markers_keep_the_order_of_the_vectors() {
    let h = hole(
        vec![poly("Green", vec![pt(0, 0), pt(10, 5)])],
        vec![vector("Red", pt(10, 5)), vector("Flag", pt(0, 0)), vector("Tee", pt(5, 0))],
    );
    let document = render(&h, &RenderConfig::default()).unwrap();
    assert_eq!(
        document.markers,
        vec![
            marker("Red", at(90_000, 55_000)),
            marker("Flag", at(0, 100_000)),
            marker("Tee", at(45_000, 100_000)),
        ]
    );
}

#[test]
fn rendering_twice_gives_the_same_document() {
    let h = sand_green_flag();
    let config = RenderConfig::default();
    assert_eq!(render(&h, &config), render(&h, &config));
}

#[test]
fn settings_are_honoured() {
    let config = RenderConfig {
        canvas_width: 200,
        canvas_height: 100,
        margin_percent: 50,
        merge_categories: vec!["Green".to_string()],
        adjacency_threshold: 6,
    };
    let h = hole(
        vec![
            poly("Green", vec![pt(0, 0), pt(10, 0)]),
            poly("Green", vec![pt(15, 0), pt(20, 10)]),
            poly("Sand", vec![pt(0, 10)]),
            poly("Sand", vec![pt(1, 10), pt(2, 10)]),
        ],
        vec![],
    );
    let document = render(&h, &config).unwrap();
    assert_eq!(document.width, 200);
    assert_eq!(document.height, 100);
    // Extent 20 x 10 on 200 x 100: both axes give 10; half of it is 5.
    assert_eq!(
        document.regions,
        vec![
            region(
                "Green",
                vec![vec![at(0, 10_000), at(5_000, 10_000), at(7_500, 10_000), at(10_000, 5_000)]],
            ),
            region("Sand", vec![vec![at(500, 5_000), at(1_000, 5_000)]]),
        ]
    );
}

#[test]
fn decimal_notation() {
    assert_eq!(format_decimal(0), "0");
    assert_eq!(format_decimal(7), "7");
    assert_eq!(format_decimal(10), "10");
    assert_eq!(format_decimal(1000), "1000");
    assert_eq!(format_decimal(u64::MAX), "18446744073709551615");
}

#[test]
fn hundredths_have_two_decimals() {
    assert_eq!(format_hundredths(0), "0.00");
    assert_eq!(format_hundredths(5), "0.05");
    assert_eq!(format_hundredths(50), "0.50");
    assert_eq!(format_hundredths(55_000), "550.00");
    assert_eq!(format_hundredths(12_857), "128.57");
    assert_eq!(format_hundredths(-5), "-0.05");
    assert_eq!(format_hundredths(-9_000), "-90.00");
    assert_eq!(format_hundredths(i64::MAX), "92233720368547758.07");
    assert_eq!(format_hundredths(i64::MIN), "-92233720368547758.08");
}

#[test]
fn path_moves_then_draws_lines_then_closes() {
    assert_eq!(
        path_data_of(&vec![vec![at(0, 100_000), at(90_000, 55_000), at(12_857, -5)]]),
        "M 0.00 1000.00 L 900.00 550.00 L 128.57 -0.05 Z"
    );
}

#[test]
fn rings_of_one_path_are_separated_by_spaces() {
    assert_eq!(
        path_data_of(&vec![vec![at(0, 0), at(100, 0)], vec![at(200, 200), at(300, 300)]]),
        "M 0.00 0.00 L 1.00 0.00 Z M 2.00 2.00 L 3.00 3.00 Z"
    );
    assert_eq!(path_data_of(&vec![]), "");
}

#[test]
fn view_box_starts_at_the_origin() {
    assert_eq!(view_box_of(1000, 1000), "0 0 1000 1000");
    assert_eq!(view_box_of(0, 65_535), "0 0 0 65535");
}

#[test]
fn markup_of_sand_green_flag() {
    let document = render(&sand_green_flag(), &RenderConfig::default()).unwrap();
    let expected = [
        "<svg height=\"100%\" viewBox=\"0 0 1000 1000\" width=\"100%\" xmlns=\"http://www.w3.org/2000/svg\">",
        "<g class=\"Sand\">",
        "<path d=\"M 0.00 1000.00 L 90.00 1000.00 L 90.00 910.00 L 135.00 910.00 L 180.00 820.00 Z\" fill=\"#C2B280\" stroke=\"black\" stroke-width=\"1\"/>",
        "</g>",
        "<g class=\"Green\">",
        "<path d=\"M 450.00 550.00 L 900.00 550.00 L 900.00 1000.00 Z\" fill=\"#228B22\" stroke=\"black\" stroke-width=\"1\"/>",
        "</g>",
        "<circle cx=\"450.00\" cy=\"775.00\" fill=\"#FFD700\" r=\"5\" stroke=\"black\"/>",
        "</svg>",
    ]
    .join("\n");
    assert_eq!(to_svg(&document), expected);
}

#[test]
fn markup_of_an_empty_drawing() {
    let document = RenderedDocument { width: 300, height: 200, regions: vec![], markers: vec![] };
    assert_eq!(
        to_svg(&document),
        "<svg height=\"100%\" viewBox=\"0 0 300 200\" width=\"100%\" xmlns=\"http://www.w3.org/2000/svg\"/>"
    );
}

#[test]
fn markup_escapes_the_category() {
    let document = RenderedDocument {
        width: 10,
        height: 10,
        regions: vec![region("A&B", vec![vec![at(0, 0), at(100, 100)]])],
        markers: vec![],
    };
    let expected = [
        "<svg height=\"100%\" viewBox=\"0 0 10 10\" width=\"100%\" xmlns=\"http://www.w3.org/2000/svg\">",
        "<g class=\"A&amp;B\">",
        "<path d=\"M 0.00 0.00 L 1.00 1.00 Z\" fill=\"#808080\" stroke=\"black\" stroke-width=\"1\"/>",
        "</g>",
        "</svg>",
    ]
    .join("\n");
    assert_eq!(to_svg(&document), expected);
}
