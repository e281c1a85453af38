use hole_diagram::geometry::{GeoPoint, HoleGeometry, Polygon, VectorPoint};
use hole_diagram::render::{render, RenderConfig};
use hole_diagram::survey::{
    add_point, category_of_row, find_category, hole_from_rows, point_of_row, polygons_from_rows,
    vectors_from_rows, SurveyRow,
};

fn pt(lat: i32, lon: i32) -> GeoPoint {
    GeoPoint { lat, lon }
}

fn row(category: Option<&str>, lat: Option<i32>, lon: Option<i32>) -> SurveyRow {
    SurveyRow { category: category.map(|c| c.to_string()), lat, lon }
}

fn poly(category: &str, points: Vec<GeoPoint>) -> Polygon {
    Polygon { category: category.to_string(), points }
}

#[test]
fn row_with_both_coordinates_has_a_point() {
    assert_eq!(point_of_row(&row(Some("Green"), Some(3), Some(-4))), Some(pt(3, -4)));
}

#[test]
fn row_without_a_coordinate_has_no_point() {
    assert_eq!(point_of_row(&row(Some("Green"), None, Some(4))), None);
    assert_eq!(point_of_row(&row(Some("Green"), Some(3), None)), None);
    assert_eq!(point_of_row(&row(Some("Green"), None, None)), None);
}

#[test]
fn row_without_category_is_unknown() {
    assert_eq!(category_of_row(&row(None, Some(1), Some(1))), "Unknown");
    assert_eq!(category_of_row(&row(Some("Water"), Some(1), Some(1))), "Water");
}

#[test]
fn first_polygon_of_a_category_is_found() {
    let polygons = vec![poly("Green", vec![]), poly("Water", vec![]), poly("Water", vec![])];
    assert_eq!(find_category(&polygons, "Water"), Some(1));
    assert_eq!(find_category(&polygons, "Green"), Some(0));
    assert_eq!(find_category(&polygons, "Sand"), None);
}

#[test]
fn point_joins_the_first_polygon_of_its_category() {
    let mut polygons = vec![poly("Green", vec![pt(0, 0)]), poly("Water", vec![pt(1, 1)])];
    add_point(&mut polygons, "Water".to_string(), pt(2, 2));
    add_point(&mut polygons, "Rough".to_string(), pt(3, 3));
    assert_eq!(
        polygons,
        vec![
            poly("Green", vec![pt(0, 0)]),
            poly("Water", vec![pt(1, 1), pt(2, 2)]),
            poly("Rough", vec![pt(3, 3)]),
        ]
    );
}

#[test]
fn rows_of_unmerged_categories_form_one_polygon_each() {
    let rows = vec![
        row(Some("Green"), Some(0), Some(0)),
        row(Some("Fairway"), Some(5), Some(5)),
        row(Some("Green"), Some(10), Some(0)),
        row(Some("Green"), None, Some(7)),
        row(Some("Green"), Some(10), Some(10)),
        row(None, Some(1), Some(2)),
    ];
    assert_eq!(
        polygons_from_rows(&rows, &RenderConfig::default()),
        vec![
            poly("Green", vec![pt(0, 0), pt(10, 0), pt(10, 10)]),
            poly("Fairway", vec![pt(5, 5)]),
            poly("Unknown", vec![pt(1, 2)]),
        ]
    );
}

#[test]
fn rows_of_merged_categories_stay_apart() {
    let rows = vec![
        row(Some("Sand"), Some(0), Some(0)),
        row(Some("Sand"), Some(1), Some(0)),
        row(Some("Woods"), Some(9), Some(9)),
        row(Some("Sand"), Some(2), None),
    ];
    assert_eq!(
        polygons_from_rows(&rows, &RenderConfig::default()),
        vec![poly("Sand", vec![pt(0, 0)]), poly("Sand", vec![pt(1, 0)]), poly("Woods", vec![pt(9, 9)])]
    );
}

#[test]
fn vector_rows_without_coordinates_are_dropped() {
    let rows = vec![
        row(Some("Flag"), Some(1), Some(2)),
        row(Some("Red"), None, Some(2)),
        row(None, Some(3), Some(4)),
    ];
    assert_eq!(
        vectors_from_rows(&rows),
        vec![
            VectorPoint { category: "Flag".to_string(), point: pt(1, 2) },
            VectorPoint { category: "Unknown".to_string(), point: pt(3, 4) },
        ]
    );
}

#[test]
fn hole_is_built_from_rows_and_drawn() {
    let config = RenderConfig::default();
    let polygon_rows = vec![
        row(Some("Sand"), Some(0), Some(0)),
        row(Some("Sand"), Some(500), Some(0)),
        row(Some("Green"), Some(5000), Some(5000)),
        row(Some("Green"), Some(10_000), Some(5000)),
        row(Some("Sand"), Some(500), Some(500)),
        row(Some("Green"), Some(10_000), Some(0)),
    ];
    let vector_rows = vec![row(Some("Flag"), Some(5000), Some(2500))];
    let hole = hole_from_rows(12, &polygon_rows, &vector_rows, &config);
    assert_eq!(
        hole,
        HoleGeometry {
            hole_id: 12,
            polygons: vec![
                poly("Sand", vec![pt(0, 0)]),
                poly("Sand", vec![pt(500, 0)]),
                poly("Green", vec![pt(5000, 5000), pt(10_000, 5000), pt(10_000, 0)]),
                poly("Sand", vec![pt(500, 500)]),
            ],
            vectors: vec![VectorPoint { category: "Flag".to_string(), point: pt(5000, 2500) }],
        }
    );
    let document = render(&hole, &config).unwrap();
    assert_eq!(document.regions.len(), 2);
    assert_eq!(document.regions[0].category, "Sand");
    assert_eq!(document.regions[0].rings[0].len(), 3);
    assert_eq!(document.regions[1].category, "Green");
    assert_eq!(document.markers.len(), 1);
}

#[test]
fn rows_without_points_give_empty_geometry() {
    let config = RenderConfig::default();
    let hole = hole_from_rows(1, &vec![row(Some("Green"), None, None)], &vec![], &config);
    assert_eq!(hole.polygons, vec![]);
    assert!(render(&hole, &config).is_err());
}
