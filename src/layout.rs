use vstd::prelude::*;
use crate::document::{PdfDocumentWrapper, texts_ops};
use crate::payload::{LineDim, Rectangle, TextInfo};
use crate::shapes::{rectangles_ops, segments_ops};
use crate::metrics::FontMetrics;
use crate::ops::{Op, lemma_ops_view_prefix};
use crate::words::string_texts;
use crate::wrap::{WrappedTextParams, wrap_ops, wrapped_groups, lemma_line_offset};

verus! {

/// Why a grid could not be laid out.
#[derive(Clone, Copy, PartialEq, Eq, Structural, Debug)]
pub enum LayoutError {
    /// A row or item origin falls outside the range of 64-bit micrometres.
    OutOfRange,
}

/// Height taken by a wrapped item: its line count times its line height.
pub open spec fn item_height(m: FontMetrics, p: WrappedTextParams) -> int {
    wrapped_groups(m, p).len() * p.line_height
}

/// Height of a row: the largest item height, and at least zero.
pub open spec fn row_height(m: FontMetrics, row: Seq<WrappedTextParams>) -> int
    decreases row.len(),
{
    if row.len() == 0 {
        0
    } else {
        let a = row_height(m, row.drop_last());
        let b = item_height(m, row.last());
        if b > a {
            b
        } else {
            a
        }
    }
}

/// Left edge of item `k` of a row: each item starts its column width plus
/// the spacing right of the previous one.
pub open spec fn item_x(row: Seq<WrappedTextParams>, base_x: int, space: int, k: int) -> int
    decreases k,
{
    if k <= 0 {
        base_x
    } else {
        item_x(row, base_x, space, k - 1) + row[k - 1].max_width + space
    }
}

/// Baseline of row `r`: each row starts the previous row's height plus the
/// spacing below the previous one.
pub open spec fn row_y(m: FontMetrics, rows: Seq<Seq<WrappedTextParams>>, y0: int, space: int, r: int) -> int
    decreases r,
{
    if r <= 0 {
        y0
    } else {
        row_y(m, rows, y0, space, r - 1) - row_height(m, rows[r - 1]) - space
    }
}

pub open spec fn in_i64(v: int) -> bool {
    i64::MIN <= v <= i64::MAX
}

/// The first `k` item origins of a row are representable.
pub open spec fn items_fit(row: Seq<WrappedTextParams>, base_x: int, space: int, k: int) -> bool {
    forall|j: int| 0 <= j < k ==> in_i64(#[trigger] item_x(row, base_x, space, j))
}

/// The origin of row `i` and the origins of all its items are representable.
pub open spec fn row_fits(m: FontMetrics, rows: Seq<Seq<WrappedTextParams>>, base_x: int, y0: int, space: int, i: int) -> bool {
    &&& in_i64(row_y(m, rows, y0, space, i))
    &&& items_fit(rows[i], base_x, space, rows[i].len() as int)
}

/// Every row origin and every item origin of the grid is representable.
pub open spec fn grid_fits(m: FontMetrics, rows: Seq<Seq<WrappedTextParams>>, base_x: int, y0: int, space: int) -> bool {
    forall|i: int| 0 <= i < rows.len() ==> #[trigger] row_fits(m, rows, base_x, y0, space, i)
}

/// The draw calls of the first `k` items of a row with baseline `y`.
pub open spec fn row_ops(m: FontMetrics, row: Seq<WrappedTextParams>, base_x: int, space: int, y: int, k: int) -> Seq<Op>
    decreases k,
{
    if k <= 0 {
        seq![]
    } else {
        row_ops(m, row, base_x, space, y, k - 1) + wrap_ops(
            m,
            row[k - 1],
            item_x(row, base_x, space, k - 1),
            y,
        )
    }
}

/// The draw calls of the first `r` rows of a grid.
pub open spec fn grid_ops(m: FontMetrics, rows: Seq<Seq<WrappedTextParams>>, base_x: int, y0: int, space: int, r: int) -> Seq<Op>
    decreases r,
{
    if r <= 0 {
        seq![]
    } else {
        grid_ops(m, rows, base_x, y0, space, r - 1) + row_ops(
            m,
            rows[r - 1],
            base_x,
            space,
            row_y(m, rows, y0, space, r - 1),
            rows[r - 1].len() as int,
        )
    }
}

impl PdfDocumentWrapper {
    /// Lays out a grid of wrapped text items: rows top to bottom from
    /// `start_y`, items left to right from `base_start_x`, separated by
    /// `space_between_items` both ways. Fails, drawing nothing, when an
    /// origin falls outside the representable range.
    pub fn draw_items(
        &mut self,
        items: Vec<Vec<WrappedTextParams>>,
        space_between_items: i32,
        base_start_x: i32,
        start_y: i32,
    ) -> (r: Result<(), LayoutError>)
        requires
            old(self).metrics.wf(),
        ensures
            final(self).metrics == old(self).metrics,
            final(self).title == old(self).title,
            r is Ok <==> grid_fits(
                old(self).metrics,
                items@.map_values(|v: Vec<WrappedTextParams>| v@),
                base_start_x as int,
                start_y as int,
                space_between_items as int,
            ),
            r is Ok ==> final(self).drawn() == old(self).drawn() + grid_ops(
                old(self).metrics,
                items@.map_values(|v: Vec<WrappedTextParams>| v@),
                base_start_x as int,
                start_y as int,
                space_between_items as int,
                items@.len() as int,
            ),
            r is Err ==> final(self).drawn() == old(self).drawn(),
    {
        let ghost m = self.metrics;
        let ghost rows = items@.map_values(|v: Vec<WrappedTextParams>| v@);
        let ghost bx = base_start_x as int;
        let ghost y0 = start_y as int;
        let ghost sp = space_between_items as int;
        let n0 = self.ops.len();
        let n = items.len();
        let s = space_between_items as i128;
        let mut y: i128 = start_y as i128;
        let mut r: usize = 0;
        proof {
            assert(old(self).drawn() + grid_ops(m, rows, bx, y0, sp, 0) =~= old(self).drawn());
        }
        while r < n
            invariant
                self.metrics == m,
                m == old(self).metrics,
                self.title == old(self).title,
                m.wf(),
                rows == items@.map_values(|v: Vec<WrappedTextParams>| v@),
                n == rows.len(),
                0 <= r <= n,
                n0 == old(self).ops@.len(),
                bx == base_start_x as int,
                y0 == start_y as int,
                sp == space_between_items as int,
                s == space_between_items,
                y == row_y(m, rows, y0, sp, r as int),
                -0x8000_0000_0000_0000_0000_0000_0000 <= y <= 0x8000_0000_0000_0000_0000_0000_0000,
                forall|i: int| 0 <= i < r ==> #[trigger] row_fits(m, rows, bx, y0, sp, i),
                self.drawn() == old(self).drawn() + grid_ops(m, rows, bx, y0, sp, r as int),
            decreases n - r,
        {
            if y < i64::MIN as i128 || y > i64::MAX as i128 {
                proof {
                    lemma_ops_view_prefix(self.ops@, old(self).drawn(), grid_ops(m, rows, bx, y0, sp, r as int));
                }
                self.ops.truncate(n0);
                proof {
                    assert(!row_fits(m, rows, bx, y0, sp, r as int));
                }
                return Err(LayoutError::OutOfRange);
            }
            let row = &items[r];
            let ghost rw = rows[r as int];
            proof {
                assert(rw == row@);
            }
            let k_n = row.len();
            let mut x: i128 = base_start_x as i128;
            let mut h: i128 = 0;
            let mut k: usize = 0;
            proof {
                assert(old(self).drawn() + grid_ops(m, rows, bx, y0, sp, r as int) + row_ops(m, rw, bx, sp, y as int, 0)
                    =~= old(self).drawn() + grid_ops(m, rows, bx, y0, sp, r as int));
                assert(rw.take(0) =~= Seq::<WrappedTextParams>::empty());
            }
            while k < k_n
                invariant
                    self.metrics == m,
                    m == old(self).metrics,
                    self.title == old(self).title,
                    m.wf(),
                    rw == row@,
                    rows == items@.map_values(|v: Vec<WrappedTextParams>| v@),
                    n == rows.len(),
                    r < n,
                    rw == rows[r as int],
                    y0 == start_y as int,
                    y == row_y(m, rows, y0, sp, r as int),
                    forall|i: int| 0 <= i < r ==> #[trigger] row_fits(m, rows, bx, y0, sp, i),
                    k_n == rw.len(),
                    0 <= k <= k_n,
                    n0 == old(self).ops@.len(),
                    bx == base_start_x as int,
                    sp == space_between_items as int,
                    s == space_between_items,
                    in_i64(y as int),
                    x == item_x(rw, bx, sp, k as int),
                    -0x8000_0000 - k * 0x1_0000_0000 <= x <= 0x8000_0000 + k * 0x1_0000_0000,
                    h == row_height(m, rw.take(k as int)),
                    0 <= h <= 0x8000_0000_0000_0000_0000_0000,
                    items_fit(rw, bx, sp, k as int),
                    self.drawn() == old(self).drawn() + grid_ops(m, rows, bx, y0, sp, r as int)
                        + row_ops(m, rw, bx, sp, y as int, k as int),
                decreases k_n - k,
            {
                if x < i64::MIN as i128 || x > i64::MAX as i128 {
                    proof {
                        assert(self.drawn() =~= old(self).drawn() + (grid_ops(m, rows, bx, y0, sp, r as int)
                            + row_ops(m, rw, bx, sp, y as int, k as int)));
                        lemma_ops_view_prefix(
                            self.ops@,
                            old(self).drawn(),
                            grid_ops(m, rows, bx, y0, sp, r as int) + row_ops(m, rw, bx, sp, y as int, k as int),
                        );
                    }
                    self.ops.truncate(n0);
                    proof {
                        assert(!in_i64(item_x(rw, bx, sp, k as int)));
                        assert(!row_fits(m, rows, bx, y0, sp, r as int));
                    }
                    return Err(LayoutError::OutOfRange);
                }
                let params = &row[k];
                let lines = self.draw_wrapped_text(params, x as i64, y as i64);
                let count = lines.len();
                proof {
                    assert(string_texts(lines@).len() == lines@.len());
                    lemma_line_offset(count as int, params.line_height as int, count as int);
                    let t = rw.take(k as int + 1);
                    assert(t.drop_last() =~= rw.take(k as int));
                    assert(t.last() == *params);
                    assert(self.drawn() =~= old(self).drawn() + grid_ops(m, rows, bx, y0, sp, r as int)
                        + row_ops(m, rw, bx, sp, y as int, k as int + 1));
                }
                let item_h = count as i128 * params.line_height as i128;
                if item_h > h {
                    h = item_h;
                }
                x = x + params.max_width as i128 + s;
                proof {
                    assert(x == item_x(rw, bx, sp, k as int + 1));
                }
                k = k + 1;
            }
            proof {
                assert(rw.take(k_n as int) =~= rw);
                assert(row_fits(m, rows, bx, y0, sp, r as int));
                assert forall|i: int| 0 <= i < r + 1 implies #[trigger] row_fits(m, rows, bx, y0, sp, i) by {
                }
                assert(self.drawn() =~= old(self).drawn() + grid_ops(m, rows, bx, y0, sp, r as int + 1));
            }
            y = y - h - s;
            r = r + 1;
        }
        Ok(())
    }

    /// Composes a page: the grid of wrapped items first, then the free
    /// texts, then the rectangle outlines, then the line segments, so later
    /// kinds paint over earlier ones. Fails, drawing nothing, when the grid
    /// does not fit.
    pub fn render_page(
        &mut self,
        items: Vec<Vec<WrappedTextParams>>,
        space_between_items: i32,
        base_start_x: i32,
        start_y: i32,
        texts: &Vec<TextInfo>,
        rectangles: &Vec<Rectangle>,
        lines: &Vec<LineDim>,
    ) -> (r: Result<(), LayoutError>)
        requires
            old(self).metrics.wf(),
        ensures
            final(self).metrics == old(self).metrics,
            final(self).title == old(self).title,
            r is Ok <==> grid_fits(
                old(self).metrics,
                items@.map_values(|v: Vec<WrappedTextParams>| v@),
                base_start_x as int,
                start_y as int,
                space_between_items as int,
            ),
            r is Ok ==> final(self).drawn() == old(self).drawn() + grid_ops(
                old(self).metrics,
                items@.map_values(|v: Vec<WrappedTextParams>| v@),
                base_start_x as int,
                start_y as int,
                space_between_items as int,
                items@.len() as int,
            ) + texts_ops(texts@) + rectangles_ops(rectangles@) + segments_ops(lines@),
            r is Err ==> final(self).drawn() == old(self).drawn(),
    {
        let laid = self.draw_items(items, space_between_items, base_start_x, start_y);
        match laid {
            Ok(()) => {
                self.draw_texts(texts);
                self.draw_rectangles(rectangles);
                self.draw_lines(lines);
                Ok(())
            },
            Err(e) => Err(e),
        }
    }
}

} // verus!
