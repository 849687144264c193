use pdf_layout::{
    Dimensions, DrawOp, FontMetrics, LineDim, PdfDocumentWrapper, Position, Rectangle, TextAlignment, TextInfo,
    TextPositions, WrappedTextParams,
};

fn session() -> PdfDocumentWrapper {
    PdfDocumentWrapper::new("grid".to_string(), FontMetrics { height_units: 1000, advances: vec![], fallback: 500 })
}

fn item(text: &str) -> WrappedTextParams {
    WrappedTextParams {
        text: text.to_string(),
        max_width: 50_000,
        font_size: 12_000,
        line_height: 5_000,
        alignment: TextAlignment::Left,
    }
}

fn origins(doc: &PdfDocumentWrapper) -> Vec<(String, i128, i128)> {
    doc.ops
        .iter()
        .map(|op| match op {
            DrawOp::Text { text, x, y, .. } => (text.iter().collect(), *x, *y),
            _ => panic!("not a text op"),
        })
        .collect()
}

#[test]
fn grid_layout_two_by_two() {
    let short = item("To jest krótki tekst.");
    let long = item("To jest dłuższy tekst, który zostanie zawinięty.");
    let mut probe = session();
    let long_lines = probe.draw_wrapped_text(&long, 0, 0).len() as i128;
    assert!(long_lines > 1);
    let rows = vec![vec![short.clone(), long.clone()], vec![short.clone(), long.clone()]];
    let mut doc = session();
    assert_eq!(doc.draw_items(rows, 4_000, 10_000, 100_000), Ok(()));
    let ops = origins(&doc);
    assert_eq!(ops.len() as i128, 2 * (1 + long_lines));
    // Row 1: item (0,0) at x0, item (0,1) at 10 + 50 + 4 = 64 mm.
    assert_eq!((ops[0].1, ops[0].2), (10_000, 100_000));
    assert_eq!((ops[1].1, ops[1].2), (64_000, 100_000));
    assert_eq!((ops[2].1, ops[2].2), (64_000, 95_000));
    // Row 2 starts the tallest item's height plus the spacing lower.
    let row2 = 100_000 - long_lines * 5_000 - 4_000;
    let first_of_row2 = (1 + long_lines) as usize;
    assert_eq!((ops[first_of_row2].1, ops[first_of_row2].2), (10_000, row2));
    assert_eq!((ops[first_of_row2 + 1].1, ops[first_of_row2 + 1].2), (64_000, row2));
}

#[test]
fn grid_empty_rows_still_advance() {
    let mut doc = session();
    let rows = vec![vec![], vec![item("a")]];
    assert_eq!(doc.draw_items(rows, 4_000, 0, 100_000), Ok(()));
    assert_eq!(origins(&doc), vec![("a".to_string(), 0, 96_000)]);
}

#[test]
fn grid_negative_line_height_counts_as_zero_height() {
    let mut doc = session();
    let mut up = item("a");
    up.line_height = -5_000;
    let rows = vec![vec![up], vec![item("b")]];
    assert_eq!(doc.draw_items(rows, 1_000, 0, 0), Ok(()));
    assert_eq!(origins(&doc), vec![("a".to_string(), 0, 0), ("b".to_string(), 0, -1_000)]);
}

#[test]
fn page_draws_grid_then_texts_rectangles_lines() {
    let texts = vec![TextInfo { position: TextPositions { x: 1, y: 2 }, text: "t".to_string(), font_size: 1_000 }];
    let rects = vec![Rectangle {
        border_width: 1,
        dimensions: Dimensions { height: 10, width: 10 },
        position: Position { x: 0, y: 0 },
        border_radius: 0,
    }];
    let lines = vec![LineDim { x: 0, y: 0, width: 5, height: 0, thickness: 1 }];
    let mut doc = session();
    assert_eq!(doc.render_page(vec![vec![item("a")]], 4_000, 0, 100_000, &texts, &rects, &lines), Ok(()));
    let kinds: Vec<&str> = doc
        .ops
        .iter()
        .map(|op| match op {
            DrawOp::Text { size_mpt: 12_000, .. } => "grid",
            DrawOp::Text { .. } => "text",
            DrawOp::Outline { .. } => "outline",
            DrawOp::Segment { .. } => "segment",
        })
        .collect();
    assert_eq!(kinds, vec!["grid", "text", "outline", "segment"]);
}
