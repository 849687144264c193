use vstd::prelude::*;
use crate::document::PdfDocumentWrapper;
use crate::ops::{DrawOp, Op, PathPoint, Point, lemma_ops_view_push};
use crate::payload::{LineDim, Rectangle};

verus! {

/// Length of a Bézier handle that approximates a quarter circle of radius
/// `r`: r × 0.55228, rounded down.
pub open spec fn handle_offset(r: int) -> int {
    r * 55228 / 100000
}

pub open spec fn path_point(x: int, y: int, on_curve: bool) -> PathPoint {
    PathPoint { x: x as i128, y: y as i128, on_curve }
}

/// The closed outline of the rectangle with bottom-left corner (`x`, `y`),
/// size `w` × `h` and corner radius `r`: starting after the top-left corner,
/// the top-left arc, the left edge, the bottom-left arc, the bottom edge, the
/// bottom-right arc, the right edge, the top-right arc. Each arc runs from an
/// anchor through two Bézier handles to the next anchor; each handle lies
/// `handle_offset(r)` from its own anchor, toward the corner.
pub open spec fn rounded_rect_path(x: int, y: int, w: int, h: int, r: int) -> Seq<PathPoint> {
    let k = handle_offset(r);
    seq![
        path_point(x + r, y + h, true),
        path_point(x + r - k, y + h, true),
        path_point(x, y + h - r + k, false),
        path_point(x, y + h - r, false),
        path_point(x, y + r, true),
        path_point(x, y + r - k, true),
        path_point(x + r - k, y, false),
        path_point(x + r, y, false),
        path_point(x + w - r, y, true),
        path_point(x + w - r + k, y, true),
        path_point(x + w, y + r - k, false),
        path_point(x + w, y + r, false),
        path_point(x + w, y + h - r, true),
        path_point(x + w, y + h - r + k, true),
        path_point(x + w - r + k, y + h, false),
        path_point(x + w - r, y + h, false),
    ]
}

pub open spec fn rounded_rect_op(x: int, y: int, w: int, h: int, r: int, thickness: int) -> Op {
    Op::Outline { points: rounded_rect_path(x, y, w, h, r), thickness }
}

/// The outline drawn for a rectangle of the payload.
pub open spec fn rectangle_op(rect: Rectangle) -> Op {
    rounded_rect_op(
        rect.position.x as int,
        rect.position.y as int,
        rect.dimensions.width as int,
        rect.dimensions.height as int,
        rect.border_radius as int,
        rect.border_width as int,
    )
}

pub open spec fn rectangles_ops(rects: Seq<Rectangle>) -> Seq<Op> {
    Seq::new(rects.len(), |i: int| rectangle_op(rects[i]))
}

/// The stroke drawn for a segment: vertical when its width is zero,
/// horizontal when only its height is zero, none otherwise.
pub open spec fn segment_op(l: LineDim) -> Option<Op> {
    let from = Point { x: l.x as i128, y: l.y as i128 };
    if l.width == 0 {
        Some(
            Op::Segment {
                from,
                to: Point { x: l.x as i128, y: (l.y + l.height) as i128 },
                thickness: l.thickness as int,
            },
        )
    } else if l.height == 0 {
        Some(
            Op::Segment {
                from,
                to: Point { x: (l.x + l.width) as i128, y: l.y as i128 },
                thickness: l.thickness as int,
            },
        )
    } else {
        None
    }
}

pub open spec fn segments_ops(ls: Seq<LineDim>) -> Seq<Op>
    decreases ls.len(),
{
    if ls.len() == 0 {
        seq![]
    } else {
        let prev = segments_ops(ls.drop_last());
        match segment_op(ls.last()) {
            Some(op) => prev.push(op),
            None => prev,
        }
    }
}

impl PdfDocumentWrapper {
    /// Strokes the outline of a rectangle with rounded corners, bottom-left
    /// corner at (`x`, `y`), with the given stroke width.
    pub fn draw_rounded_rectangle(
        &mut self,
        x: i32,
        y: i32,
        width: i32,
        height: i32,
        radius: u32,
        thickness: u32,
    )
        ensures
            final(self).metrics == old(self).metrics,
            final(self).title == old(self).title,
            final(self).drawn() == old(self).drawn().push(
                rounded_rect_op(
                    x as int,
                    y as int,
                    width as int,
                    height as int,
                    radius as int,
                    thickness as int,
                ),
            ),
    {
        let x = x as i128;
        let y = y as i128;
        let w = width as i128;
        let h = height as i128;
        let r = radius as i128;
        let k = r * 55228 / 100000;
        let top = y + h;
        let right = x + w;
        let left_r = x + r;
        let left_k = x + r - k;
        let right_r = right - r;
        let right_k = right - r + k;
        let top_r = top - r;
        let top_k = top - r + k;
        let bottom_r = y + r;
        let bottom_k = y + r - k;
        let points = vec![
            PathPoint { x: left_r, y: top, on_curve: true },
            PathPoint { x: left_k, y: top, on_curve: true },
            PathPoint { x: x, y: top_k, on_curve: false },
            PathPoint { x: x, y: top_r, on_curve: false },
            PathPoint { x: x, y: bottom_r, on_curve: true },
            PathPoint { x: x, y: bottom_k, on_curve: true },
            PathPoint { x: left_k, y: y, on_curve: false },
            PathPoint { x: left_r, y: y, on_curve: false },
            PathPoint { x: right_r, y: y, on_curve: true },
            PathPoint { x: right_k, y: y, on_curve: true },
            PathPoint { x: right, y: bottom_k, on_curve: false },
            PathPoint { x: right, y: bottom_r, on_curve: false },
            PathPoint { x: right, y: top_r, on_curve: true },
            PathPoint { x: right, y: top_k, on_curve: true },
            PathPoint { x: right_k, y: top, on_curve: false },
            PathPoint { x: right_r, y: top, on_curve: false },
        ];
        let op = DrawOp::Outline { points, thickness };
        proof {
            assert(points@ =~= rounded_rect_path(
                x as int,
                y as int,
                w as int,
                h as int,
                r as int,
            ));
            lemma_ops_view_push(self.ops@, op);
        }
        self.ops.push(op);
    }

    /// Strokes the outline of each rectangle, in order.
    pub fn draw_rectangles(&mut self, rectangles: &Vec<Rectangle>)
        ensures
            final(self).metrics == old(self).metrics,
            final(self).title == old(self).title,
            final(self).drawn() == old(self).drawn() + rectangles_ops(rectangles@),
    {
        let n = rectangles.len();
        let mut i: usize = 0;
        proof {
            assert(old(self).drawn() + rectangles_ops(rectangles@.take(0)) =~= old(self).drawn());
        }
        while i < n
            invariant
                n == rectangles@.len(),
                0 <= i <= n,
                self.metrics == old(self).metrics,
                self.title == old(self).title,
                self.drawn() == old(self).drawn() + rectangles_ops(rectangles@.take(i as int)),
            decreases n - i,
        {
            let rect = rectangles[i];
            self.draw_rounded_rectangle(
                rect.position.x,
                rect.position.y,
                rect.dimensions.width,
                rect.dimensions.height,
                rect.border_radius,
                rect.border_width,
            );
            proof {
                assert(rectangles_ops(rectangles@.take(i as int + 1)) =~= rectangles_ops(
                    rectangles@.take(i as int),
                ).push(rectangle_op(rect)));
                assert(self.drawn() =~= old(self).drawn() + rectangles_ops(rectangles@.take(i as int + 1)));
            }
            i = i + 1;
        }
        proof {
            assert(rectangles@.take(n as int) =~= rectangles@);
        }
    }

    /// Strokes each segment that is vertical (zero width) or horizontal
    /// (zero height), in order; any other segment is skipped.
    pub fn draw_lines(&mut self, lines: &Vec<LineDim>)
        ensures
            final(self).metrics == old(self).metrics,
            final(self).title == old(self).title,
            final(self).drawn() == old(self).drawn() + segments_ops(lines@),
    {
        let n = lines.len();
        let mut i: usize = 0;
        proof {
            assert(old(self).drawn() + segments_ops(lines@.take(0)) =~= old(self).drawn());
        }
        while i < n
            invariant
                n == lines@.len(),
                0 <= i <= n,
                self.metrics == old(self).metrics,
                self.title == old(self).title,
                self.drawn() == old(self).drawn() + segments_ops(lines@.take(i as int)),
            decreases n - i,
        {
            let line = lines[i];
            proof {
                let t = lines@.take(i as int + 1);
                assert(t.drop_last() =~= lines@.take(i as int));
                assert(t.last() == line);
            }
            let start = Point { x: line.x as i128, y: line.y as i128 };
            if line.width == 0 {
                let end = Point { x: line.x as i128, y: line.y as i128 + line.height as i128 };
                let op = DrawOp::Segment { from: start, to: end, thickness: line.thickness };
                proof {
                    lemma_ops_view_push(self.ops@, op);
                }
                self.ops.push(op);
            } else if line.height == 0 {
                let end = Point { x: line.x as i128 + line.width as i128, y: line.y as i128 };
                let op = DrawOp::Segment { from: start, to: end, thickness: line.thickness };
                proof {
                    lemma_ops_view_push(self.ops@, op);
                }
                self.ops.push(op);
            }
            proof {
                assert(self.drawn() =~= old(self).drawn() + segments_ops(lines@.take(i as int + 1)));
            }
            i = i + 1;
        }
        proof {
            assert(lines@.take(n as int) =~= lines@);
        }
    }
}

} // verus!
