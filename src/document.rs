use vstd::prelude::*;
use crate::metrics::FontMetrics;
use crate::ops::{DrawOp, Op, ops_view, lemma_ops_view_push};
use crate::payload::TextInfo;
use crate::words::chars_of;

verus! {

/// One rendering session: the glyph metrics of its font and the draw calls
/// made so far on its single page, in order.
pub struct PdfDocumentWrapper {
    pub title: String,
    pub metrics: FontMetrics,
    pub ops: Vec<DrawOp>,
}

/// A font size in micrometres as millipoints (1 mm = 2.83465 pt), rounded
/// down.
pub open spec fn mm_to_pt(um: int) -> int {
    um * 283465 / 100000
}

/// A font size in micrometres as millipoints, rounded down.
pub fn font_size_in_pt(um: u32) -> (r: u64)
    ensures
        r == mm_to_pt(um as int),
{
    (um as u64) * 283465 / 100000
}

/// The glyph run of a free text item.
pub open spec fn text_op(t: TextInfo) -> Op {
    Op::Text {
        text: t.text@,
        size: mm_to_pt(t.font_size as int),
        x: t.position.x as int,
        y: t.position.y as int,
    }
}

pub open spec fn texts_ops(ts: Seq<TextInfo>) -> Seq<Op> {
    Seq::new(ts.len(), |i: int| text_op(ts[i]))
}

impl PdfDocumentWrapper {
    /// Places each free text item at its position, in order.
    pub fn draw_texts(&mut self, texts: &Vec<TextInfo>)
        ensures
            final(self).metrics == old(self).metrics,
            final(self).title == old(self).title,
            final(self).drawn() == old(self).drawn() + texts_ops(texts@),
    {
        let n = texts.len();
        let mut i: usize = 0;
        proof {
            assert(old(self).drawn() + texts_ops(texts@.take(0)) =~= old(self).drawn());
        }
        while i < n
            invariant
                n == texts@.len(),
                0 <= i <= n,
                self.metrics == old(self).metrics,
                self.title == old(self).title,
                self.drawn() == old(self).drawn() + texts_ops(texts@.take(i as int)),
            decreases n - i,
        {
            let t = &texts[i];
            let op = DrawOp::Text {
                text: chars_of(t.text.as_str()),
                size_mpt: font_size_in_pt(t.font_size),
                x: t.position.x as i128,
                y: t.position.y as i128,
            };
            proof {
                lemma_ops_view_push(self.ops@, op);
                assert(texts_ops(texts@.take(i as int + 1)) =~= texts_ops(texts@.take(i as int)).push(
                    text_op(*t),
                ));
            }
            self.ops.push(op);
            proof {
                assert(self.drawn() =~= old(self).drawn() + texts_ops(texts@.take(i as int + 1)));
            }
            i = i + 1;
        }
        proof {
            assert(texts@.take(n as int) =~= texts@);
        }
    }

    /// The draw calls made so far.
    pub open spec fn drawn(&self) -> Seq<Op> {
        ops_view(self.ops@)
    }

    /// Opens a session with nothing drawn.
    pub fn new(title: String, metrics: FontMetrics) -> (r: Self)
        ensures
            r.title == title,
            r.metrics == metrics,
            r.drawn() == Seq::<Op>::empty(),
    {
        let r = PdfDocumentWrapper { title, metrics, ops: Vec::new() };
        proof {
            assert(r.drawn() =~= Seq::<Op>::empty());
        }
        r
    }
}

} // verus!
