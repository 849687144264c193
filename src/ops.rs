use vstd::prelude::*;

verus! {

/// A point on the page, in micrometres.
#[derive(Clone, Copy, PartialEq, Eq, Structural, Debug)]
pub struct Point {
    pub x: i128,
    pub y: i128,
}

/// One point of an outline path; `on_curve` is the flag handed to the
/// document backend alongside the point.
#[derive(Clone, Copy, PartialEq, Eq, Structural, Debug)]
pub struct PathPoint {
    pub x: i128,
    pub y: i128,
    pub on_curve: bool,
}

/// One draw call against the document surface, in the order it was made.
#[derive(Clone, PartialEq, Debug)]
pub enum DrawOp {
    /// A glyph run placed with its baseline starting at (`x`, `y`).
    Text { text: Vec<char>, size_mpt: u64, x: i128, y: i128 },
    /// A closed, stroked (unfilled) path drawn with the given stroke width
    /// in millipoints.
    Outline { points: Vec<PathPoint>, thickness: u32 },
    /// An open straight stroke from `from` to `to`, with the given stroke
    /// width in millipoints.
    Segment { from: Point, to: Point, thickness: u32 },
}

/// The mathematical value of a draw call.
pub enum Op {
    Text { text: Seq<char>, size: int, x: int, y: int },
    Outline { points: Seq<PathPoint>, thickness: int },
    Segment { from: Point, to: Point, thickness: int },
}

impl View for DrawOp {
    type V = Op;

    open spec fn view(&self) -> Op {
        match self {
            DrawOp::Text { text, size_mpt, x, y } => Op::Text {
                text: text@,
                size: *size_mpt as int,
                x: *x as int,
                y: *y as int,
            },
            DrawOp::Outline { points, thickness } => Op::Outline {
                points: points@,
                thickness: *thickness as int,
            },
            DrawOp::Segment { from, to, thickness } => Op::Segment {
                from: *from,
                to: *to,
                thickness: *thickness as int,
            },
        }
    }
}

/// The values of a sequence of draw calls.
pub open spec fn ops_view(ops: Seq<DrawOp>) -> Seq<Op> {
    ops.map_values(|o: DrawOp| o@)
}

pub proof fn lemma_ops_view_push(ops: Seq<DrawOp>, o: DrawOp)
    ensures
        ops_view(ops.push(o)) == ops_view(ops).push(o@),
{
    assert(ops_view(ops.push(o)) =~= ops_view(ops).push(o@));
}

/// Cutting the draw calls back to the length of a prefix of their values
/// leaves exactly that prefix.
pub proof fn lemma_ops_view_prefix(ops: Seq<DrawOp>, prefix: Seq<Op>, extra: Seq<Op>)
    requires
        ops_view(ops) == prefix + extra,
    ensures
        ops_view(ops.subrange(0, prefix.len() as int)) == prefix,
{
    assert(ops_view(ops).len() == ops.len());
    assert forall|i: int| 0 <= i < prefix.len() implies ops_view(ops.subrange(0, prefix.len() as int))[i]
        == prefix[i] by {
        assert(ops_view(ops)[i] == (prefix + extra)[i]);
    }
    assert(ops_view(ops.subrange(0, prefix.len() as int)) =~= prefix);
}

} // verus!
