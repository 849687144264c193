use vstd::prelude::*;

verus! {

/// Horizontal glyph metrics of one font, in the font's own glyph units.
///
/// `height_units` is the glyph-space height that one font size spans
/// (ascent minus descent); `advances` gives the advance width of the listed
/// characters (a later entry for the same character overrides an earlier
/// one); every other character advances by `fallback`.
pub struct FontMetrics {
    pub height_units: u32,
    pub advances: Vec<(char, u16)>,
    pub fallback: u16,
}

/// An exclusive bound on the width of one character, in micrometres, at
/// any size.
pub open spec fn max_char_width() -> int {
    0x80_0000_0000_0000
}

impl FontMetrics {
    /// A font size spans a positive number of glyph units.
    pub open spec fn wf(&self) -> bool {
        self.height_units > 0
    }

    /// The advance of `c` in glyph units, per the entries in `table`.
    pub open spec fn advance_in(table: Seq<(char, u16)>, fallback: u16, c: char) -> int
        decreases table.len(),
    {
        if table.len() == 0 {
            fallback as int
        } else if table.last().0 == c {
            table.last().1 as int
        } else {
            Self::advance_in(table.drop_last(), fallback, c)
        }
    }

    pub open spec fn advance(&self, c: char) -> int {
        Self::advance_in(self.advances@, self.fallback, c)
    }

    /// Width of `c` in micrometres at `size` millipoints:
    /// advance / height × size, converted from points (1 pt = 25400/72 µm).
    pub open spec fn char_width(&self, c: char, size: int) -> int {
        self.advance(c) * size * 127 / (360 * self.height_units as int)
    }

    /// Width of `s` in micrometres at `size` millipoints: the sum of the
    /// widths of its characters (no kerning).
    pub open spec fn width_of(&self, s: Seq<char>, size: int) -> int
        decreases s.len(),
    {
        if s.len() == 0 {
            0
        } else {
            self.width_of(s.drop_last(), size) + self.char_width(s.last(), size)
        }
    }

    /// Advance width of `c` in glyph units.
    pub fn advance_units(&self, c: char) -> (r: u16)
        ensures
            r as int == self.advance(c),
    {
        let mut r: u16 = self.fallback;
        let n = self.advances.len();
        let mut i: usize = 0;
        while i < n
            invariant
                n == self.advances@.len(),
                0 <= i <= n,
                r as int == Self::advance_in(self.advances@.take(i as int), self.fallback, c),
            decreases n - i,
        {
            let (d, a) = self.advances[i];
            proof {
                let t = self.advances@.take(i as int + 1);
                assert(t.drop_last() =~= self.advances@.take(i as int));
                assert(t.last() == self.advances@[i as int]);
            }
            if d == c {
                r = a;
            }
            i = i + 1;
        }
        proof {
            assert(self.advances@.take(n as int) =~= self.advances@);
        }
        r
    }

    /// Width of `c` in micrometres at `size` millipoints.
    pub fn glyph_width(&self, c: char, size: u32) -> (r: u64)
        requires
            self.wf(),
        ensures
            r as int == self.char_width(c, size as int),
            r < max_char_width(),
    {
        let a = self.advance_units(c) as u64;
        proof {
            assert(a * (size as u64) <= 0xffff * 0xffff_ffff) by (nonlinear_arith)
                requires
                    a <= 0xffff,
                    size <= 0xffff_ffff,
            ;
        }
        let num: u64 = a * (size as u64) * 127;
        let den: u64 = 360 * (self.height_units as u64);
        proof {
            assert(num / den <= num) by (nonlinear_arith)
                requires
                    den >= 1,
                    num >= 0,
            ;
        }
        num / den
    }

    /// Width of `s` in micrometres at `size` millipoints.
    pub fn calculate_text_width(&self, s: &Vec<char>, size: u32) -> (r: i128)
        requires
            self.wf(),
        ensures
            r as int == self.width_of(s@, size as int),
            0 <= r <= s@.len() * max_char_width(),
    {
        let n = s.len();
        let mut total: i128 = 0;
        let mut i: usize = 0;
        while i < n
            invariant
                n == s@.len(),
                0 <= i <= n,
                self.wf(),
                total as int == self.width_of(s@.take(i as int), size as int),
                0 <= total <= i * max_char_width(),
            decreases n - i,
        {
            let g = self.glyph_width(s[i], size);
            proof {
                let t = s@.take(i as int + 1);
                assert(t.drop_last() =~= s@.take(i as int));
            }
            total = total + g as i128;
            i = i + 1;
        }
        proof {
            assert(s@.take(n as int) =~= s@);
        }
        total
    }
}

} // verus!
