use pdf_layout::words::{is_space, split_words};
use pdf_layout::wrap::line_start_x;
use pdf_layout::{DrawOp, FontMetrics, PdfDocumentWrapper, TextAlignment, WrappedTextParams};

// Every character advances 500 of 1000 height units, so at 12 pt
// (12000 millipoints) each character is 500 * 12000 * 127 / 360000 = 2116 µm.
fn uniform_metrics() -> FontMetrics {
    FontMetrics { height_units: 1000, advances: vec![], fallback: 500 }
}

fn session() -> PdfDocumentWrapper {
    PdfDocumentWrapper::new("test".to_string(), uniform_metrics())
}

fn params(text: &str, max_width: i32, alignment: TextAlignment) -> WrappedTextParams {
    WrappedTextParams {
        text: text.to_string(),
        max_width,
        font_size: 12000,
        line_height: 5000,
        alignment,
    }
}

fn chars(s: &str) -> Vec<char> {
    s.chars().collect()
}

fn text_ops(doc: &PdfDocumentWrapper) -> Vec<(String, i128, i128)> {
    doc.ops
        .iter()
        .map(|op| match op {
            DrawOp::Text { text, x, y, .. } => (text.iter().collect(), *x, *y),
            _ => panic!("not a text op"),
        })
        .collect()
}

#[test]
fn glyph_width_exact() {
    let m = uniform_metrics();
    assert_eq!(m.glyph_width('a', 12000), 2116);
    assert_eq!(m.calculate_text_width(&chars("abc"), 12000), 3 * 2116);
    assert_eq!(m.calculate_text_width(&chars(""), 12000), 0);
}

#[test]
fn glyph_table_later_entry_wins() {
    let m = FontMetrics { height_units: 2048, advances: vec![('a', 100), ('b', 300), ('a', 700)], fallback: 50 };
    assert_eq!(m.advance_units('a'), 700);
    assert_eq!(m.advance_units('b'), 300);
    assert_eq!(m.advance_units('z'), 50);
    // 700 * 10000 * 127 / (360 * 2048) = 1205.8...
    assert_eq!(m.glyph_width('a', 10000), 1205);
}

#[test]
fn whitespace_matches_std() {
    for c in (0u32..=0x10ffff).filter_map(char::from_u32) {
        assert_eq!(is_space(c), c.is_whitespace(), "{:?}", c);
    }
}

#[test]
fn split_collapses_whitespace() {
    let words = split_words(&chars("  To  jest\t\nkrótki\u{3000}tekst. "));
    let words: Vec<String> = words.iter().map(|w| w.iter().collect()).collect();
    assert_eq!(words, vec!["To", "jest", "krótki", "tekst."]);
    assert!(split_words(&chars(" \t ")).is_empty());
}

#[test]
fn wide_column_gives_one_normalized_line() {
    let mut doc = session();
    let p = params("  To   jest\tkrótki tekst. ", 200_000, TextAlignment::Left);
    let lines = doc.draw_wrapped_text(&p, 10_000, 100_000);
    assert_eq!(lines, vec!["To jest krótki tekst.".to_string()]);
    assert_eq!(text_ops(&doc), vec![("To jest krótki tekst.".to_string(), 10_000, 100_000)]);
}

#[test]
fn empty_text_draws_nothing() {
    let mut doc = session();
    let lines = doc.draw_wrapped_text(&params("   ", 50_000, TextAlignment::Left), 0, 0);
    assert!(lines.is_empty());
    assert!(doc.ops.is_empty());
}

#[test]
fn greedy_breaks_and_line_height() {
    // "aa bb cc": with max_width 20000, "aa" costs 4232 + 2116; "aa bb" is
    // 5 chars = 10580, adding "cc" would reach 10580 + 4232 + 2116 = 16928 < 20000.
    // With max_width 16928 the tie goes to the next line.
    let mut doc = session();
    let lines = doc.draw_wrapped_text(&params("aa bb cc", 16_928, TextAlignment::Left), 1_000, 50_000);
    assert_eq!(lines, vec!["aa bb".to_string(), "cc".to_string()]);
    assert_eq!(
        text_ops(&doc),
        vec![("aa bb".to_string(), 1_000, 50_000), ("cc".to_string(), 1_000, 45_000)]
    );
    let mut doc = session();
    let lines = doc.draw_wrapped_text(&params("aa bb cc", 16_929, TextAlignment::Left), 1_000, 50_000);
    assert_eq!(lines, vec!["aa bb cc".to_string()]);
}

#[test]
fn lines_stay_under_width() {
    let mut doc = session();
    let text = "one two three four five six seven eight nine ten eleven twelve";
    let lines = doc.draw_wrapped_text(&params(text, 30_000, TextAlignment::Left), 0, 0);
    assert!(lines.len() > 1);
    let m = uniform_metrics();
    for l in &lines {
        assert!(m.calculate_text_width(&chars(l), 12000) < 30_000, "{}", l);
    }
    assert_eq!(lines.join(" "), text);
}

#[test]
fn wide_word_gets_its_own_line() {
    let mut doc = session();
    // "abcdefghijkl" is 12 chars = 25392 µm, wider than the column.
    let lines = doc.draw_wrapped_text(&params("ab abcdefghijkl cd", 20_000, TextAlignment::Left), 0, 0);
    assert_eq!(lines, vec!["ab".to_string(), "abcdefghijkl".to_string(), "cd".to_string()]);
}

#[test]
fn leading_wide_word_finishes_the_empty_line_first() {
    let mut doc = session();
    let lines = doc.draw_wrapped_text(&params("abcdefghijkl cd", 20_000, TextAlignment::Left), 0, 0);
    assert_eq!(lines, vec!["".to_string(), "abcdefghijkl".to_string(), "cd".to_string()]);
}

#[test]
fn alignment_offsets() {
    assert_eq!(line_start_x(TextAlignment::Left, 10_000, 50_000, 20_000), 10_000);
    assert_eq!(line_start_x(TextAlignment::Center, 10_000, 50_000, 20_000), 25_000);
    assert_eq!(line_start_x(TextAlignment::Right, 10_000, 50_000, 20_000), 40_000);
    assert_eq!(line_start_x(TextAlignment::Center, 0, 50_000, 50_000), 0);
    assert_eq!(line_start_x(TextAlignment::Right, 0, 50_000, 50_000), 0);
    // An overflowing line shifts left of the column start.
    assert_eq!(line_start_x(TextAlignment::Center, 0, 10_000, 13_000), -1_500);
    assert_eq!(line_start_x(TextAlignment::Center, 0, 10_000, 10_001), -1);
}

#[test]
fn aligned_lines_in_session() {
    let mut doc = session();
    // "aaaa" is 8464 µm wide in a 20000 µm column.
    doc.draw_wrapped_text(&params("aaaa", 20_000, TextAlignment::Center), 1_000, 0);
    doc.draw_wrapped_text(&params("aaaa", 20_000, TextAlignment::Right), 1_000, 0);
    let xs: Vec<i128> = text_ops(&doc).iter().map(|t| t.1).collect();
    assert_eq!(xs, vec![1_000 + 5_768, 1_000 + 11_536]);
}

#[test]
fn rendering_is_repeatable() {
    let text = "To jest dłuższy tekst, który zostanie zawinięty, ponieważ jego szerokość przekracza maksymalną szerokość kolumny.";
    let mut a = session();
    let mut b = session();
    let la = a.draw_wrapped_text(&params(text, 80_000, TextAlignment::Center), 10_000, 100_000);
    let lb = b.draw_wrapped_text(&params(text, 80_000, TextAlignment::Center), 10_000, 100_000);
    assert_eq!(la, lb);
    assert_eq!(a.ops, b.ops);
    assert!(la.len() > 1);
}
