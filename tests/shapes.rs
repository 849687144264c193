use pdf_layout::document::font_size_in_pt;
use pdf_layout::{
    Dimensions, DrawOp, FontMetrics, LineDim, PathPoint, PdfDocumentWrapper, Point, Position, Rectangle,
    TextInfo, TextPositions,
};

fn session() -> PdfDocumentWrapper {
    PdfDocumentWrapper::new("shapes".to_string(), FontMetrics { height_units: 1000, advances: vec![], fallback: 500 })
}

fn pp(x: i128, y: i128, on_curve: bool) -> PathPoint {
    PathPoint { x, y, on_curve }
}

#[test]
fn segment_filter() {
    let mut doc = session();
    let lines = vec![
        LineDim { x: 1_000, y: 2_000, width: 5_000, height: 3_000, thickness: 2 },
        LineDim { x: 1_000, y: 2_000, width: 5_000, height: 0, thickness: 2 },
        LineDim { x: 1_000, y: 2_000, width: 0, height: 5_000, thickness: 3 },
    ];
    doc.draw_lines(&lines);
    assert_eq!(
        doc.ops,
        vec![
            DrawOp::Segment { from: Point { x: 1_000, y: 2_000 }, to: Point { x: 6_000, y: 2_000 }, thickness: 2 },
            DrawOp::Segment { from: Point { x: 1_000, y: 2_000 }, to: Point { x: 1_000, y: 7_000 }, thickness: 3 },
        ]
    );
}

#[test]
fn diagonal_segment_draws_nothing() {
    let mut doc = session();
    doc.draw_lines(&vec![LineDim { x: 0, y: 0, width: 5, height: 3, thickness: 1 }]);
    assert!(doc.ops.is_empty());
}

#[test]
fn rounded_rectangle_points() {
    let mut doc = session();
    // radius 10000 gives handles of 10000 * 0.55228 = 5522 µm, each placed
    // that far from its anchor toward the corner.
    doc.draw_rounded_rectangle(0, 0, 100_000, 50_000, 10_000, 4);
    let expected = vec![
        pp(10_000, 50_000, true),
        pp(4_478, 50_000, true),
        pp(0, 45_522, false),
        pp(0, 40_000, false),
        pp(0, 10_000, true),
        pp(0, 4_478, true),
        pp(4_478, 0, false),
        pp(10_000, 0, false),
        pp(90_000, 0, true),
        pp(95_522, 0, true),
        pp(100_000, 4_478, false),
        pp(100_000, 10_000, false),
        pp(100_000, 40_000, true),
        pp(100_000, 45_522, true),
        pp(95_522, 50_000, false),
        pp(90_000, 50_000, false),
    ];
    assert_eq!(doc.ops, vec![DrawOp::Outline { points: expected, thickness: 4 }]);
}

#[test]
fn zero_radius_is_sharp_rectangle() {
    let mut doc = session();
    doc.draw_rounded_rectangle(5_000, 7_000, 20_000, 10_000, 0, 1);
    let points = match &doc.ops[0] {
        DrawOp::Outline { points, .. } => points.clone(),
        _ => panic!("not an outline"),
    };
    assert_eq!(points.len(), 16);
    let corners = [(5_000, 17_000), (5_000, 7_000), (25_000, 7_000), (25_000, 17_000)];
    for (i, p) in points.iter().enumerate() {
        assert_eq!((p.x, p.y), corners[i / 4]);
    }
}

#[test]
fn rectangles_in_order() {
    let mut doc = session();
    let rects = vec![
        Rectangle {
            border_width: 1,
            dimensions: Dimensions { height: 10_000, width: 20_000 },
            position: Position { x: 0, y: 0 },
            border_radius: 0,
        },
        Rectangle {
            border_width: 2,
            dimensions: Dimensions { height: 5_000, width: 5_000 },
            position: Position { x: 100, y: 200 },
            border_radius: 1_000,
        },
    ];
    doc.draw_rectangles(&rects);
    let mut direct = session();
    direct.draw_rounded_rectangle(0, 0, 20_000, 10_000, 0, 1);
    direct.draw_rounded_rectangle(100, 200, 5_000, 5_000, 1_000, 2);
    assert_eq!(doc.ops, direct.ops);
}

#[test]
fn free_texts_convert_size() {
    assert_eq!(font_size_in_pt(1_000), 2_834);
    assert_eq!(font_size_in_pt(4_233), 11_999);
    let mut doc = session();
    let texts = vec![TextInfo { position: TextPositions { x: 20_000, y: 280_000 }, text: "Faktura ść".to_string(), font_size: 10_000 }];
    doc.draw_texts(&texts);
    assert_eq!(
        doc.ops,
        vec![DrawOp::Text { text: "Faktura ść".chars().collect(), size_mpt: 28_346, x: 20_000, y: 280_000 }]
    );
}

#[test]
fn new_session_is_blank() {
    let doc = session();
    assert_eq!(doc.title, "shapes");
    assert!(doc.ops.is_empty());
}

#[test]
fn push_all_appends() {
    let mut v = vec!['a'];
    pdf_layout::words::push_all(&mut v, &vec!['b', 'c']);
    assert_eq!(v, vec!['a', 'b', 'c']);
}
