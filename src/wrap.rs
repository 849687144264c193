use vstd::prelude::*;
use crate::document::PdfDocumentWrapper;
use crate::metrics::{FontMetrics, max_char_width};
use crate::ops::{DrawOp, Op, lemma_ops_view_push};
use crate::words::{join, words_of, texts, string_texts, chars_of, string_of, split_words, push_all};

verus! {

/// Horizontal placement of each wrapped line inside its column.
#[derive(Clone, Copy, PartialEq, Eq, Structural, Debug)]
pub enum TextAlignment {
    Left,
    Center,
    Right,
}

/// One block of text to wrap into a column of `max_width` micrometres, at
/// `font_size` millipoints, with baselines `line_height` micrometres apart.
#[derive(Clone, Debug)]
pub struct WrappedTextParams {
    pub text: String,
    pub max_width: i32,
    pub font_size: u32,
    pub line_height: i32,
    pub alignment: TextAlignment,
}

/// Width of one space.
pub open spec fn space_width(m: FontMetrics, size: int) -> int {
    m.width_of(seq![' '], size)
}

/// Wrapping state: the finished lines, each as its words, and the words of
/// the line being filled.
pub type WrapState = (Seq<Seq<Seq<char>>>, Seq<Seq<char>>);

/// Greedy step: `w` joins the current line when the line's width plus the
/// word's width plus one space stays strictly under `max_width`; otherwise
/// the current line is finished, even while it is still empty, and `w`
/// starts the next one.
pub open spec fn wrap_step(m: FontMetrics, size: int, max_width: int, st: WrapState, w: Seq<char>) -> WrapState {
    if m.width_of(join(st.1), size) + m.width_of(w, size) + space_width(m, size) < max_width {
        (st.0, st.1.push(w))
    } else {
        (st.0.push(st.1), seq![w])
    }
}

pub open spec fn wrap_state(m: FontMetrics, size: int, max_width: int, ws: Seq<Seq<char>>) -> WrapState
    decreases ws.len(),
{
    if ws.len() == 0 {
        (seq![], seq![])
    } else {
        wrap_step(m, size, max_width, wrap_state(m, size, max_width, ws.drop_last()), ws.last())
    }
}

/// The lines that greedy wrapping of the words `ws` produces, each given by
/// its words; a non-empty line in progress at the end is the last line.
pub open spec fn wrap_groups(m: FontMetrics, size: int, max_width: int, ws: Seq<Seq<char>>) -> Seq<Seq<Seq<char>>> {
    let st = wrap_state(m, size, max_width, ws);
    if st.1.len() > 0 {
        st.0.push(st.1)
    } else {
        st.0
    }
}

/// The lines of `p`'s text, each given by its words.
pub open spec fn wrapped_groups(m: FontMetrics, p: WrappedTextParams) -> Seq<Seq<Seq<char>>> {
    wrap_groups(m, p.font_size as int, p.max_width as int, words_of(p.text@))
}

/// The lines of `p`'s text.
pub open spec fn wrapped_lines(m: FontMetrics, p: WrappedTextParams) -> Seq<Seq<char>> {
    wrapped_groups(m, p).map_values(|g: Seq<Seq<char>>| join(g))
}

/// Start X of a line of width `w` in a column of width `max_width` at `x0`.
pub open spec fn aligned_x(a: TextAlignment, x0: int, max_width: int, w: int) -> int {
    match a {
        TextAlignment::Left => x0,
        TextAlignment::Center => x0 + (max_width - w) / 2,
        TextAlignment::Right => x0 + (max_width - w),
    }
}

/// The glyph run of line `i` of `g`: aligned horizontally, `i` line heights
/// below `y0`.
pub open spec fn line_op(m: FontMetrics, p: WrappedTextParams, x0: int, y0: int, g: Seq<Seq<Seq<char>>>, i: int) -> Op {
    let t = join(g[i]);
    Op::Text {
        text: t,
        size: p.font_size as int,
        x: aligned_x(p.alignment, x0, p.max_width as int, m.width_of(t, p.font_size as int)),
        y: y0 - i * p.line_height,
    }
}

pub open spec fn lines_ops(m: FontMetrics, p: WrappedTextParams, x0: int, y0: int, g: Seq<Seq<Seq<char>>>) -> Seq<Op> {
    Seq::new(g.len(), |i: int| line_op(m, p, x0, y0, g, i))
}

/// The draw calls of `p` wrapped at (`x0`, `y0`): one glyph run per line.
pub open spec fn wrap_ops(m: FontMetrics, p: WrappedTextParams, x0: int, y0: int) -> Seq<Op> {
    lines_ops(m, p, x0, y0, wrapped_groups(m, p))
}

/// Start X of a line of width `w` in a column of width `max_width` at `x0`.
pub fn line_start_x(a: TextAlignment, x0: i64, max_width: i32, w: i128) -> (r: i128)
    requires
        0 <= w <= 0x1_0000_0000_0000_0000_0000_0000_0000_00,
    ensures
        r == aligned_x(a, x0 as int, max_width as int, w as int),
{
    match a {
        TextAlignment::Left => x0 as i128,
        TextAlignment::Center => {
            let d = max_width as i128 - w;
            let half = if d >= 0 {
                d / 2
            } else {
                -((1 - d) / 2)
            };
            x0 as i128 + half
        },
        TextAlignment::Right => x0 as i128 + (max_width as i128 - w),
    }
}

proof fn lemma_join_push(cur: Seq<Seq<char>>, w: Seq<char>)
    ensures
        join(cur.push(w)) == if cur.len() == 0 {
            w
        } else {
            join(cur) + seq![' '] + w
        },
{
    if cur.len() == 0 {
        assert(cur.push(w) =~= seq![w]);
    } else {
        assert(cur.push(w).drop_last() =~= cur);
    }
}

proof fn lemma_lines_ops_push(
    m: FontMetrics,
    p: WrappedTextParams,
    x0: int,
    y0: int,
    g: Seq<Seq<Seq<char>>>,
    c: Seq<Seq<char>>,
)
    ensures
        lines_ops(m, p, x0, y0, g.push(c)) == lines_ops(m, p, x0, y0, g).push(
            line_op(m, p, x0, y0, g.push(c), g.len() as int),
        ),
{
    assert(lines_ops(m, p, x0, y0, g.push(c)) =~= lines_ops(m, p, x0, y0, g).push(
        line_op(m, p, x0, y0, g.push(c), g.len() as int),
    ));
}

proof fn lemma_joined_push(g: Seq<Seq<Seq<char>>>, c: Seq<Seq<char>>)
    ensures
        g.push(c).map_values(|l: Seq<Seq<char>>| join(l)) == g.map_values(
            |l: Seq<Seq<char>>| join(l),
        ).push(join(c)),
{
    assert(g.push(c).map_values(|l: Seq<Seq<char>>| join(l)) =~= g.map_values(
        |l: Seq<Seq<char>>| join(l),
    ).push(join(c)));
}

proof fn lemma_strings_push(v: Seq<String>, s: String)
    ensures
        string_texts(v.push(s)) == string_texts(v).push(s@),
{
    assert(string_texts(v.push(s)) =~= string_texts(v).push(s@));
}

proof fn lemma_width_bound(len: int, w: int)
    requires
        0 <= len <= 0xffff_ffff_ffff_ffff,
        0 <= w <= len * max_char_width(),
    ensures
        w <= 0x1_0000_0000_0000_0000_0000_0000_0000_00,
{
    assert(len * 0x80_0000_0000_0000 <= 0xffff_ffff_ffff_ffff * 0x80_0000_0000_0000)
        by (nonlinear_arith)
        requires
            0 <= len <= 0xffff_ffff_ffff_ffff,
    ;
}

pub(crate) proof fn lemma_line_offset(i: int, lh: int, k: int)
    requires
        0 <= i <= k <= 0xffff_ffff_ffff_ffff,
        -0x8000_0000 <= lh < 0x8000_0000,
    ensures
        -0x8000_0000_0000_0000_0000_0000 <= i * lh <= 0x8000_0000_0000_0000_0000_0000,
        (i + 1) * lh == i * lh + lh,
{
    assert(-0x8000_0000_0000_0000_0000_0000 <= i * lh <= 0x8000_0000_0000_0000_0000_0000)
        by (nonlinear_arith)
        requires
            0 <= i <= 0xffff_ffff_ffff_ffff,
            -0x8000_0000 <= lh < 0x8000_0000,
    ;
    assert((i + 1) * lh == i * lh + lh) by (nonlinear_arith);
}

impl PdfDocumentWrapper {
    /// Places one finished line at baseline `y`, aligned in its column, and
    /// returns it as a string.
    fn place_line(
        &mut self,
        params: &WrappedTextParams,
        line: Vec<char>,
        line_len: usize,
        line_w: i128,
        start_x: i64,
        y: i128,
    ) -> (s: String)
        requires
            line_len == line@.len(),
            0 <= line_w <= line_len * max_char_width(),
        ensures
            final(self).metrics == old(self).metrics,
            final(self).title == old(self).title,
            s@ == line@,
            final(self).drawn() == old(self).drawn().push(
                Op::Text {
                    text: line@,
                    size: params.font_size as int,
                    x: aligned_x(params.alignment, start_x as int, params.max_width as int, line_w as int),
                    y: y as int,
                },
            ),
    {
        proof {
            lemma_width_bound(line_len as int, line_w as int);
        }
        let x = line_start_x(params.alignment, start_x, params.max_width, line_w);
        let s = string_of(&line);
        let op = DrawOp::Text { text: line, size_mpt: params.font_size as u64, x, y };
        proof {
            lemma_ops_view_push(self.ops@, op);
        }
        self.ops.push(op);
        s
    }

    /// Wraps `params.text` greedily into lines narrower than
    /// `params.max_width` and places one glyph run per line, the first with
    /// its baseline at `start_y` and each next one `line_height` lower, each
    /// shifted right from `start_x` by its alignment. Returns the lines.
    pub fn draw_wrapped_text(&mut self, params: &WrappedTextParams, start_x: i64, start_y: i64) -> (lines: Vec<String>)
        requires
            old(self).metrics.wf(),
        ensures
            final(self).metrics == old(self).metrics,
            final(self).title == old(self).title,
            string_texts(lines@) == wrapped_lines(old(self).metrics, *params),
            final(self).drawn() == old(self).drawn() + wrap_ops(
                old(self).metrics,
                *params,
                start_x as int,
                start_y as int,
            ),
    {
        let size = params.font_size;
        let max_width = params.max_width as i128;
        let lh = params.line_height as i128;
        let text = chars_of(params.text.as_str());
        let words = split_words(&text);
        let space: Vec<char> = vec![' '];
        proof {
            assert(space@ =~= seq![' ']);
        }
        let space_w = self.metrics.calculate_text_width(&space, size);
        let ghost m = self.metrics;
        let ghost ws = words_of(params.text@);
        let ghost x0 = start_x as int;
        let ghost y0 = start_y as int;
        let ghost start = self.drawn();
        let ghost mut groups: Seq<Seq<Seq<char>>> = seq![];
        let ghost mut cur: Seq<Seq<char>> = seq![];
        let mut lines: Vec<String> = Vec::new();
        let mut line: Vec<char> = Vec::new();
        let mut count: usize = 0;
        let mut y: i128 = start_y as i128;
        let n = words.len();
        let mut k: usize = 0;
        proof {
            assert(lines_ops(m, *params, x0, y0, groups) =~= Seq::<Op>::empty());
            assert(start + Seq::<Op>::empty() =~= start);
            assert(string_texts(lines@) =~= groups.map_values(|l: Seq<Seq<char>>| join(l)));
            assert(ws.take(0) =~= Seq::<Seq<char>>::empty());
        }
        while k < n
            invariant
                self.metrics == m,
                self.title == old(self).title,
                m.wf(),
                start == old(self).drawn(),
                x0 == start_x as int,
                y0 == start_y as int,
                ws == words_of(params.text@),
                n == ws.len(),
                texts(words@) == ws,
                0 <= k <= n,
                (groups, cur) == wrap_state(m, size as int, max_width as int, ws.take(k as int)),
                string_texts(lines@) == groups.map_values(|l: Seq<Seq<char>>| join(l)),
                line@ == join(cur),
                count == cur.len(),
                count <= k,
                groups.len() <= k,
                y == y0 - groups.len() * lh,
                space_w == space_width(m, size as int),
                0 <= space_w <= max_char_width(),
                max_width == params.max_width,
                lh == params.line_height,
                size == params.font_size,
                self.drawn() == start + lines_ops(m, *params, x0, y0, groups),
            decreases n - k,
        {
            let w = &words[k];
            proof {
                let t = ws.take(k as int + 1);
                assert(t.drop_last() =~= ws.take(k as int));
                assert(t.last() == w@);
            }
            let line_len = line.len();
            let word_len = w.len();
            let line_w = self.metrics.calculate_text_width(&line, size);
            let word_w = self.metrics.calculate_text_width(w, size);
            proof {
                lemma_width_bound(line_len as int, line_w as int);
                lemma_width_bound(word_len as int, word_w as int);
            }
            if line_w + word_w + space_w < max_width {
                proof {
                    lemma_join_push(cur, w@);
                }
                if count > 0 {
                    line.push(' ');
                }
                push_all(&mut line, w);
                proof {
                    cur = cur.push(w@);
                    assert(line@ =~= join(cur));
                }
                count = count + 1;
            } else {
                let s = self.place_line(params, line, line_len, line_w, start_x, y);
                proof {
                    lemma_strings_push(lines@, s);
                    lemma_joined_push(groups, cur);
                    lemma_lines_ops_push(m, *params, x0, y0, groups, cur);
                    assert(groups.push(cur)[groups.len() as int] == cur);
                }
                lines.push(s);
                proof {
                    lemma_line_offset(groups.len() as int, lh as int, k as int);
                    assert(self.drawn() =~= start + lines_ops(m, *params, x0, y0, groups.push(cur)));
                    groups = groups.push(cur);
                    cur = seq![w@];
                }
                y = y - lh;
                let mut fresh: Vec<char> = Vec::new();
                push_all(&mut fresh, w);
                line = fresh;
                proof {
                    lemma_join_push(Seq::<Seq<char>>::empty(), w@);
                    assert(Seq::<Seq<char>>::empty().push(w@) =~= cur);
                    assert(line@ =~= join(cur));
                }
                count = 1;
            }
            k = k + 1;
        }
        proof {
            assert(ws.take(n as int) =~= ws);
        }
        if count > 0 {
            let line_len = line.len();
            let line_w = self.metrics.calculate_text_width(&line, size);
            let s = self.place_line(params, line, line_len, line_w, start_x, y);
            proof {
                lemma_strings_push(lines@, s);
                lemma_joined_push(groups, cur);
                lemma_lines_ops_push(m, *params, x0, y0, groups, cur);
                assert(groups.push(cur)[groups.len() as int] == cur);
            }
            lines.push(s);
            proof {
                assert(self.drawn() =~= start + lines_ops(m, *params, x0, y0, groups.push(cur)));
            }
        }
        lines
    }
}

} // verus!
