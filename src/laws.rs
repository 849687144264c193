use vstd::prelude::*;
use crate::layout::{grid_fits, grid_ops, item_height, item_x, row_height, row_y};
use crate::shapes::handle_offset;
use crate::metrics::FontMetrics;
use crate::shapes::rounded_rect_path;
use crate::words::{join, words_of};
use crate::wrap::{
    TextAlignment,
    WrappedTextParams,
    WrapState,
    aligned_x,
    space_width,
    wrap_groups,
    wrap_ops,
    wrap_state,
    wrapped_groups,
    wrapped_lines,
};

verus! {

/// Widths add up over concatenation.
pub proof fn lemma_width_concat(m: FontMetrics, a: Seq<char>, b: Seq<char>, size: int)
    ensures
        m.width_of(a + b, size) == m.width_of(a, size) + m.width_of(b, size),
    decreases b.len(),
{
    if b.len() == 0 {
        assert(a + b =~= a);
    } else {
        assert((a + b).drop_last() =~= a + b.drop_last());
        lemma_width_concat(m, a, b.drop_last(), size);
    }
}

/// Widths are never negative.
pub proof fn lemma_width_nonneg(m: FontMetrics, s: Seq<char>, size: int)
    requires
        m.wf(),
        size >= 0,
    ensures
        m.width_of(s, size) >= 0,
    decreases s.len(),
{
    if s.len() > 0 {
        lemma_width_nonneg(m, s.drop_last(), size);
        lemma_advance_nonneg(m.advances@, m.fallback, s.last());
        let a = m.advance(s.last());
        assert(a * size * 127 >= 0) by (nonlinear_arith)
            requires
                a >= 0,
                size >= 0,
        ;
    }
}

proof fn lemma_advance_nonneg(table: Seq<(char, u16)>, fallback: u16, c: char)
    ensures
        FontMetrics::advance_in(table, fallback, c) >= 0,
    decreases table.len(),
{
    if table.len() > 0 {
        lemma_advance_nonneg(table.drop_last(), fallback, c);
    }
}

/// Joining one more word adds its width plus, after a first word, one space.
proof fn lemma_join_push_width(m: FontMetrics, g: Seq<Seq<char>>, w: Seq<char>, size: int)
    requires
        m.wf(),
        size >= 0,
    ensures
        g.len() == 0 ==> m.width_of(join(g.push(w)), size) == m.width_of(w, size),
        g.len() > 0 ==> m.width_of(join(g.push(w)), size) == m.width_of(join(g), size) + space_width(
            m,
            size,
        ) + m.width_of(w, size),
{
    if g.len() == 0 {
        assert(g.push(w) =~= seq![w]);
    } else {
        assert(g.push(w).drop_last() =~= g);
        lemma_width_concat(m, join(g) + seq![' '], w, size);
        lemma_width_concat(m, join(g), seq![' '], size);
    }
}

/// Every word of a line is at most as wide as the line.
proof fn lemma_word_within_line(m: FontMetrics, g: Seq<Seq<char>>, j: int, size: int)
    requires
        m.wf(),
        size >= 0,
        0 <= j < g.len(),
    ensures
        m.width_of(g[j], size) <= m.width_of(join(g), size),
    decreases g.len(),
{
    let h = g.drop_last();
    assert(g =~= h.push(g.last()));
    lemma_join_push_width(m, h, g.last(), size);
    lemma_width_nonneg(m, seq![' '], size);
    lemma_width_nonneg(m, g.last(), size);
    lemma_width_nonneg(m, join(h), size);
    if j < h.len() {
        assert(g[j] == h[j]);
        lemma_word_within_line(m, h, j, size);
    }
}

/// The first `k` words joined are at most as wide as all of them joined.
proof fn lemma_join_prefix_width(m: FontMetrics, ws: Seq<Seq<char>>, k: int, size: int)
    requires
        m.wf(),
        size >= 0,
        0 <= k <= ws.len(),
    ensures
        m.width_of(join(ws.take(k)), size) <= m.width_of(join(ws), size),
    decreases ws.len(),
{
    if k < ws.len() {
        let h = ws.drop_last();
        assert(ws.take(k) =~= h.take(k));
        lemma_join_prefix_width(m, h, k, size);
        assert(ws =~= h.push(ws.last()));
        lemma_join_push_width(m, h, ws.last(), size);
        lemma_width_nonneg(m, seq![' '], size);
        lemma_width_nonneg(m, ws.last(), size);
        lemma_width_nonneg(m, join(h), size);
    } else {
        assert(ws.take(k) =~= ws);
    }
}

proof fn lemma_one_line_prefix(m: FontMetrics, size: int, max_width: int, ws: Seq<Seq<char>>, k: int)
    requires
        m.wf(),
        size >= 0,
        0 <= k <= ws.len(),
        m.width_of(join(ws), size) + space_width(m, size) < max_width,
    ensures
        wrap_state(m, size, max_width, ws.take(k)) == (Seq::<Seq<Seq<char>>>::empty(), ws.take(k)),
    decreases k,
{
    if k == 0 {
        assert(ws.take(0) =~= Seq::<Seq<char>>::empty());
    } else {
        lemma_one_line_prefix(m, size, max_width, ws, k - 1);
        let t = ws.take(k);
        assert(t.drop_last() =~= ws.take(k - 1));
        assert(t =~= ws.take(k - 1).push(ws[k - 1]));
        lemma_join_push_width(m, ws.take(k - 1), ws[k - 1], size);
        lemma_join_prefix_width(m, ws, k, size);
        lemma_width_nonneg(m, seq![' '], size);
        lemma_width_nonneg(m, ws[k - 1], size);
    }
}

/// A column wide enough for the whole text, plus one space, holds it on a
/// single line: the words of the text separated by single spaces.
pub proof fn lemma_wide_column_single_line(m: FontMetrics, p: WrappedTextParams)
    requires
        m.wf(),
        words_of(p.text@).len() > 0,
        m.width_of(join(words_of(p.text@)), p.font_size as int) + space_width(m, p.font_size as int)
            < p.max_width,
    ensures
        wrapped_lines(m, p) == seq![join(words_of(p.text@))],
{
    let ws = words_of(p.text@);
    lemma_one_line_prefix(m, p.font_size as int, p.max_width as int, ws, ws.len() as int);
    assert(ws.take(ws.len() as int) =~= ws);
    assert(wrapped_groups(m, p) =~= seq![ws]);
    assert(wrapped_lines(m, p) =~= seq![join(ws)]);
}

/// A line is narrow enough, or is a single word.
pub open spec fn line_within(m: FontMetrics, size: int, max_width: int, g: Seq<Seq<char>>) -> bool {
    m.width_of(join(g), size) < max_width || g.len() == 1
}

/// A word at least as wide as the column is the only word of its line.
pub open spec fn wide_word_alone(m: FontMetrics, size: int, max_width: int, g: Seq<Seq<char>>) -> bool {
    forall|j: int| 0 <= j < g.len() && m.width_of(#[trigger] g[j], size) >= max_width ==> g.len() == 1
}

pub open spec fn good_line(m: FontMetrics, size: int, max_width: int, g: Seq<Seq<char>>) -> bool {
    &&& (max_width > 0 ==> line_within(m, size, max_width, g))
    &&& wide_word_alone(m, size, max_width, g)
}

proof fn lemma_wrap_state_good(m: FontMetrics, size: int, max_width: int, ws: Seq<Seq<char>>)
    requires
        m.wf(),
        size >= 0,
    ensures
        forall|i: int|
            0 <= i < wrap_state(m, size, max_width, ws).0.len() ==> good_line(
                m,
                size,
                max_width,
                #[trigger] wrap_state(m, size, max_width, ws).0[i],
            ),
        good_line(m, size, max_width, wrap_state(m, size, max_width, ws).1),
    decreases ws.len(),
{
    if ws.len() > 0 {
        let st: WrapState = wrap_state(m, size, max_width, ws.drop_last());
        lemma_wrap_state_good(m, size, max_width, ws.drop_last());
        let w = ws.last();
        let cur = st.1;
        lemma_width_nonneg(m, seq![' '], size);
        lemma_width_nonneg(m, w, size);
        lemma_width_nonneg(m, join(cur), size);
        if m.width_of(join(cur), size) + m.width_of(w, size) + space_width(m, size) < max_width {
            lemma_join_push_width(m, cur, w, size);
            let c2 = cur.push(w);
            assert forall|j: int| 0 <= j < c2.len() implies m.width_of(#[trigger] c2[j], size)
                < max_width by {
                if j < cur.len() {
                    lemma_word_within_line(m, cur, j, size);
                }
            }
        } else {
            let s2 = st.0.push(cur);
            assert forall|i: int| 0 <= i < s2.len() implies good_line(m, size, max_width, #[trigger] s2[i]) by {
                if i < st.0.len() {
                    assert(s2[i] == st.0[i]);
                }
            }
            assert(seq![w].len() == 1);
        }
    } else {
        assert(join(Seq::<Seq<char>>::empty()) == Seq::<char>::empty());
    }
}

proof fn lemma_groups_good(m: FontMetrics, p: WrappedTextParams)
    requires
        m.wf(),
    ensures
        forall|i: int|
            0 <= i < wrapped_groups(m, p).len() ==> good_line(
                m,
                p.font_size as int,
                p.max_width as int,
                #[trigger] wrapped_groups(m, p)[i],
            ),
{
    let size = p.font_size as int;
    let mw = p.max_width as int;
    let ws = words_of(p.text@);
    lemma_wrap_state_good(m, size, mw, ws);
    let st = wrap_state(m, size, mw, ws);
    let g = wrapped_groups(m, p);
    assert forall|i: int| 0 <= i < g.len() implies good_line(m, size, mw, #[trigger] g[i]) by {
        if i < st.0.len() {
            assert(g[i] == st.0[i]);
        }
    }
}

/// In a column of positive width, every wrapped line is narrower than the
/// column, except a line that holds a single word as wide as the column or
/// wider.
pub proof fn lemma_lines_narrower_than_column(m: FontMetrics, p: WrappedTextParams)
    requires
        m.wf(),
        p.max_width > 0,
    ensures
        forall|i: int|
            0 <= i < wrapped_lines(m, p).len() ==> m.width_of(
                #[trigger] wrapped_lines(m, p)[i],
                p.font_size as int,
            ) < p.max_width || (wrapped_groups(m, p)[i].len() == 1 && wrapped_lines(m, p)[i]
                == wrapped_groups(m, p)[i][0] && m.width_of(wrapped_lines(m, p)[i], p.font_size as int)
                >= p.max_width),
{
    lemma_groups_good(m, p);
    let g = wrapped_groups(m, p);
    assert forall|i: int| 0 <= i < wrapped_lines(m, p).len() implies m.width_of(
        #[trigger] wrapped_lines(m, p)[i],
        p.font_size as int,
    ) < p.max_width || (g[i].len() == 1 && wrapped_lines(m, p)[i] == g[i][0] && m.width_of(
        wrapped_lines(m, p)[i],
        p.font_size as int,
    ) >= p.max_width) by {
        assert(good_line(m, p.font_size as int, p.max_width as int, g[i]));
        if g[i].len() == 1 {
            assert(join(g[i]) == g[i][0]);
        }
    }
}

/// A word at least as wide as the column is never put on a line with
/// another word.
pub proof fn lemma_wide_word_on_own_line(m: FontMetrics, p: WrappedTextParams)
    requires
        m.wf(),
    ensures
        forall|i: int, j: int|
            0 <= i < wrapped_groups(m, p).len() && 0 <= j < wrapped_groups(m, p)[i].len() && m.width_of(
                #[trigger] wrapped_groups(m, p)[i][j],
                p.font_size as int,
            ) >= p.max_width ==> wrapped_groups(m, p)[i].len() == 1,
{
    lemma_groups_good(m, p);
    let g = wrapped_groups(m, p);
    assert forall|i: int, j: int|
        0 <= i < g.len() && 0 <= j < g[i].len() && m.width_of(#[trigger] g[i][j], p.font_size as int)
            >= p.max_width implies g[i].len() == 1 by {
        assert(good_line(m, p.font_size as int, p.max_width as int, g[i]));
    }
}

/// Lines finished after the first `j` words stay finished, unchanged, after
/// more words.
proof fn lemma_finished_lines_kept(m: FontMetrics, size: int, max_width: int, ws: Seq<Seq<char>>, j: int, j2: int)
    requires
        0 <= j <= j2 <= ws.len(),
    ensures
        wrap_state(m, size, max_width, ws.take(j)).0.len() <= wrap_state(m, size, max_width, ws.take(j2)).0.len(),
        forall|i: int|
            0 <= i < wrap_state(m, size, max_width, ws.take(j)).0.len() ==> wrap_state(m, size, max_width, ws.take(j2)).0[i]
                == #[trigger] wrap_state(m, size, max_width, ws.take(j)).0[i],
    decreases j2 - j,
{
    if j2 > j {
        lemma_finished_lines_kept(m, size, max_width, ws, j, j2 - 1);
        assert(ws.take(j2).drop_last() =~= ws.take(j2 - 1));
    }
}

proof fn lemma_wide_word_is_a_line(m: FontMetrics, size: int, max_width: int, ws: Seq<Seq<char>>, k: int)
    requires
        m.wf(),
        size >= 0,
        0 <= k < ws.len(),
        m.width_of(ws[k], size) >= max_width,
    ensures
        exists|i: int|
            0 <= i < wrap_groups(m, size, max_width, ws).len() && #[trigger] wrap_groups(m, size, max_width, ws)[i]
                == seq![ws[k]],
{
    let w = ws[k];
    let n = ws.len() as int;
    let s0 = wrap_state(m, size, max_width, ws.take(k));
    assert(ws.take(k + 1).drop_last() =~= ws.take(k));
    assert(ws.take(k + 1).last() == w);
    lemma_width_nonneg(m, seq![' '], size);
    lemma_width_nonneg(m, join(s0.1), size);
    let s1 = wrap_state(m, size, max_width, ws.take(k + 1));
    assert(s1 == (s0.0.push(s0.1), seq![w]));
    let i = s1.0.len() as int;
    assert(join(seq![w]) == w);
    assert(ws.take(n) =~= ws);
    if k + 1 < n {
        assert(ws.take(k + 2).drop_last() =~= ws.take(k + 1));
        lemma_width_nonneg(m, ws[k + 1], size);
        let s2 = wrap_state(m, size, max_width, ws.take(k + 2));
        assert(s2.0 == s1.0.push(seq![w]));
        assert(s2.0[i] == seq![w]);
        lemma_finished_lines_kept(m, size, max_width, ws, k + 2, n);
        let sn = wrap_state(m, size, max_width, ws.take(n));
        assert(sn.0[i] == seq![w]);
        let g = wrap_groups(m, size, max_width, ws);
        assert(g[i] == seq![w]);
    } else {
        let g = wrap_groups(m, size, max_width, ws);
        assert(g == s1.0.push(seq![w]));
        assert(g[i] == seq![w]);
    }
}

/// A word at least as wide as the column is a line of its own: some line
/// consists of exactly that word, unsplit.
pub proof fn lemma_wide_word_is_its_own_line(m: FontMetrics, p: WrappedTextParams, k: int)
    requires
        m.wf(),
        0 <= k < words_of(p.text@).len(),
        m.width_of(words_of(p.text@)[k], p.font_size as int) >= p.max_width,
    ensures
        exists|i: int|
            0 <= i < wrapped_lines(m, p).len() && #[trigger] wrapped_groups(m, p)[i] == seq![words_of(p.text@)[k]]
                && wrapped_lines(m, p)[i] == words_of(p.text@)[k],
{
    let ws = words_of(p.text@);
    lemma_wide_word_is_a_line(m, p.font_size as int, p.max_width as int, ws, k);
    let g = wrapped_groups(m, p);
    let i = choose|i: int| 0 <= i < g.len() && #[trigger] g[i] == seq![ws[k]];
    assert(join(seq![ws[k]]) == ws[k]);
    assert(wrapped_lines(m, p)[i] == ws[k]);
}

/// Left alignment keeps the column start, centring adds half the free
/// width (rounded down), right alignment adds all of it; the three differ
/// whenever the free width is neither zero nor one micrometre either way.
pub proof fn lemma_alignment_offsets(x0: int, max_width: int, w: int)
    ensures
        aligned_x(TextAlignment::Left, x0, max_width, w) == x0,
        aligned_x(TextAlignment::Center, x0, max_width, w) == x0 + (max_width - w) / 2,
        aligned_x(TextAlignment::Right, x0, max_width, w) == x0 + (max_width - w),
        (max_width - w != 0 && max_width - w != 1 && max_width - w != -1) ==> {
            &&& aligned_x(TextAlignment::Left, x0, max_width, w) != aligned_x(
                TextAlignment::Center,
                x0,
                max_width,
                w,
            )
            &&& aligned_x(TextAlignment::Center, x0, max_width, w) != aligned_x(
                TextAlignment::Right,
                x0,
                max_width,
                w,
            )
            &&& aligned_x(TextAlignment::Left, x0, max_width, w) != aligned_x(
                TextAlignment::Right,
                x0,
                max_width,
                w,
            )
        },
{
}

/// Layout depends on the font metrics, the parameters and the start
/// position alone: equal inputs give equal lines and equal draw calls, for
/// one wrapped block and for a whole grid.
pub proof fn lemma_layout_deterministic(
    metrics_a: FontMetrics,
    metrics_b: FontMetrics,
    params_a: WrappedTextParams,
    params_b: WrappedTextParams,
    rows_a: Seq<Seq<WrappedTextParams>>,
    rows_b: Seq<Seq<WrappedTextParams>>,
    x0: int,
    y0: int,
    space: int,
)
    requires
        metrics_a == metrics_b,
        params_a == params_b,
        rows_a == rows_b,
    ensures
        wrapped_lines(metrics_a, params_a) == wrapped_lines(metrics_b, params_b),
        wrap_ops(metrics_a, params_a, x0, y0) == wrap_ops(metrics_b, params_b, x0, y0),
        grid_fits(metrics_a, rows_a, x0, y0, space) == grid_fits(metrics_b, rows_b, x0, y0, space),
        grid_ops(metrics_a, rows_a, x0, y0, space, rows_a.len() as int) == grid_ops(
            metrics_b,
            rows_b,
            x0,
            y0,
            space,
            rows_b.len() as int,
        ),
{
}

/// With radius zero the outline runs through the four corners only: four
/// points at the top-left corner, then four at the bottom-left, four at the
/// bottom-right and four at the top-right.
pub proof fn lemma_zero_radius_outline(x: i32, y: i32, w: i32, h: i32)
    ensures
        rounded_rect_path(x as int, y as int, w as int, h as int, 0).len() == 16,
        forall|i: int|
            0 <= i < 16 ==> {
                let pt = #[trigger] rounded_rect_path(x as int, y as int, w as int, h as int, 0)[i];
                &&& (i < 8 ==> pt.x == x)
                &&& (i >= 8 ==> pt.x == x + w)
                &&& ((i < 4 || i >= 12) ==> pt.y == y + h)
                &&& (4 <= i < 12 ==> pt.y == y)
            },
{
    let path = rounded_rect_path(x as int, y as int, w as int, h as int, 0);
    assert(crate::shapes::handle_offset(0) == 0);
    assert forall|i: int| 0 <= i < 16 implies {
        let pt = #[trigger] path[i];
        &&& (i < 8 ==> pt.x == x)
        &&& (i >= 8 ==> pt.x == x + w)
        &&& ((i < 4 || i >= 12) ==> pt.y == y + h)
        &&& (4 <= i < 12 ==> pt.y == y)
    } by {
    }
}

/// A row's height is the largest of its items' heights, and zero when it
/// has none or all are negative.
proof fn lemma_row_height_max(m: FontMetrics, row: Seq<WrappedTextParams>)
    ensures
        row_height(m, row) >= 0,
        forall|k: int| 0 <= k < row.len() ==> row_height(m, row) >= #[trigger] item_height(m, row[k]),
        row_height(m, row) == 0 || exists|j: int|
            0 <= j < row.len() && row_height(m, row) == #[trigger] item_height(m, row[j]),
    decreases row.len(),
{
    if row.len() > 0 {
        let h = row.drop_last();
        lemma_row_height_max(m, h);
        assert forall|k: int| 0 <= k < row.len() implies row_height(m, row) >= #[trigger] item_height(
            m,
            row[k],
        ) by {
            if k < h.len() {
                assert(row[k] == h[k]);
            }
        }
        if row_height(m, row) != 0 {
            if item_height(m, row.last()) > row_height(m, h) {
                assert(row_height(m, row) == item_height(m, row[row.len() - 1]));
            } else {
                let j = choose|j: int| 0 <= j < h.len() && row_height(m, h) == #[trigger] item_height(m, h[j]);
                assert(row[j] == h[j]);
            }
        }
    }
}

/// Grid placement: item `k` of row `r` starts at the grid's left edge plus
/// the column widths and spacings of the items before it; the first row
/// starts at `y0` and each next row lies the previous row's height plus the
/// spacing lower, where a row's height is its tallest item's line count
/// times line height (at least zero). A left-aligned item's first line is
/// drawn exactly at its origin.
pub proof fn lemma_grid_placement(
    m: FontMetrics,
    rows: Seq<Seq<WrappedTextParams>>,
    base_x: int,
    y0: int,
    space: int,
    r: int,
    k: int,
)
    requires
        0 <= r < rows.len(),
        0 <= k < rows[r].len(),
    ensures
        item_x(rows[r], base_x, space, 0) == base_x,
        item_x(rows[r], base_x, space, k + 1) == item_x(rows[r], base_x, space, k) + rows[r][k].max_width
            + space,
        row_y(m, rows, y0, space, 0) == y0,
        row_y(m, rows, y0, space, r + 1) == row_y(m, rows, y0, space, r) - row_height(m, rows[r]) - space,
        row_height(m, rows[r]) >= 0,
        forall|j: int|
            0 <= j < rows[r].len() ==> row_height(m, rows[r]) >= #[trigger] item_height(m, rows[r][j]),
        row_height(m, rows[r]) == 0 || exists|j: int|
            0 <= j < rows[r].len() && row_height(m, rows[r]) == #[trigger] item_height(m, rows[r][j]),
        item_height(m, rows[r][k]) == wrapped_lines(m, rows[r][k]).len() * rows[r][k].line_height,
        (rows[r][k].alignment == TextAlignment::Left && wrapped_lines(m, rows[r][k]).len() > 0) ==> {
            let op = wrap_ops(m, rows[r][k], item_x(rows[r], base_x, space, k), row_y(m, rows, y0, space, r))[0];
            &&& op is Text
            &&& op->Text_x == item_x(rows[r], base_x, space, k)
            &&& op->Text_y == row_y(m, rows, y0, space, r)
        },
{
    lemma_row_height_max(m, rows[r]);
}

/// Every Bézier handle of the outline lies `handle_offset(r)` from its own
/// anchor, along the edge toward the corner: each arc runs from point `4j`
/// through handles `4j + 1` and `4j + 2` to anchor `4j + 3`.
pub proof fn lemma_outline_handles(x: i32, y: i32, w: i32, h: i32, r: u32)
    ensures
        ({
            let p = rounded_rect_path(x as int, y as int, w as int, h as int, r as int);
            let k = handle_offset(r as int);
            &&& p[1].x == p[0].x - k && p[1].y == p[0].y
            &&& p[2].x == p[3].x && p[2].y == p[3].y + k
            &&& p[5].x == p[4].x && p[5].y == p[4].y - k
            &&& p[6].x == p[7].x - k && p[6].y == p[7].y
            &&& p[9].x == p[8].x + k && p[9].y == p[8].y
            &&& p[10].x == p[11].x && p[10].y == p[11].y - k
            &&& p[13].x == p[12].x && p[13].y == p[12].y + k
            &&& p[14].x == p[15].x + k && p[14].y == p[15].y
        }),
{
    let k = handle_offset(r as int);
    assert(0 <= k <= r) by (nonlinear_arith)
        requires
            k == r * 55228 / 100000,
            r >= 0,
    ;
}

} // verus!
