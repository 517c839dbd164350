use vstd::prelude::*;
use vstd::std_specs::iter::IteratorSpec;

use crate::framebuffer::bit_set;
use crate::gfx::draw_target::{
    addressable_region, fits_isize, lemma_paint_point, painted, point, DrawTarget,
};
use crate::gfx::primitives::{lemma_painted_same_region, lemma_painted_union};

verus! {

/// A bitmap glyph: `width * height` bits, row by row, least significant
/// bit first; `baseline` rows of it lie above the text baseline.
pub struct Glyph {
    pub width: usize,
    pub height: usize,
    pub bitmap: Vec<u8>,
    pub baseline: isize,
    pub advance: usize,
}

/// Bit `k` of the packed bitmap `bits`.
pub open spec fn packed_bit(bits: Seq<u8>, k: int) -> bool {
    bit_set(bits[k / 8], k % 8)
}

impl Glyph {
    /// The bitmap holds all `width * height` bits.
    pub open spec fn wf(&self) -> bool {
        &&& self.width * self.height <= 8 * self.bitmap@.len()
        &&& self.width * self.height <= usize::MAX
    }

    /// Width, height, advance and baseline are all at most `b` in size.
    pub open spec fn bounded(&self, b: int) -> bool {
        &&& self.width <= b && self.height <= b && self.advance <= b
        &&& -b <= self.baseline <= b
    }

    /// Whether the glyph's pixel at column `gx`, row `gy` is set.
    pub open spec fn ink(&self, gx: int, gy: int) -> bool {
        0 <= gx < self.width && 0 <= gy < self.height && packed_bit(self.bitmap@, gx + gy * self.width)
    }

    /// The pixels the glyph covers when drawn with its baseline at
    /// `position`.
    pub open spec fn region(&self, position: (int, int)) -> spec_fn((int, int)) -> bool {
        |q: (int, int)| self.ink(q.0 - position.0, q.1 - position.1 + self.baseline)
    }

    /// Every pixel position of the glyph box at `position` fits in `isize`.
    pub open spec fn fits_at(&self, position: (int, int)) -> bool {
        &&& fits_isize(self.width as int) && fits_isize(self.height as int)
        &&& fits_isize(position.0 + self.width)
        &&& fits_isize(position.1 + self.height)
        &&& fits_isize(position.1 - self.baseline)
        &&& fits_isize(position.1 - self.baseline + self.height)
    }

    /// Draws the glyph's set pixels in `color`, its baseline at `position`;
    /// unset pixels are left alone.
    pub fn draw<Target: DrawTarget>(&self, target: &mut Target, position: (isize, isize), color: bool)
        requires
            self.wf(),
            self.fits_at(point(position)),
            addressable_region(*old(target), self.region(point(position))),
        ensures
            painted(*old(target), *final(target), self.region(point(position)), color),
    {
        let ghost region = self.region(point(position));
        let ghost px = position.0 as int;
        let ghost py = position.1 as int;
        let mut gy: usize = 0;
        while gy < self.height
            invariant
                gy <= self.height,
                self.wf(),
                self.fits_at(point(position)),
                addressable_region(*old(target), region),
                region == self.region(point(position)),
                px == position.0 && py == position.1,
                painted(*old(target), *target, |q: (int, int)| region(q) && q.1 - py + self.baseline < gy, color),
            decreases self.height - gy,
        {
            let mut gx: usize = 0;
            while gx < self.width
                invariant
                    gx <= self.width,
                    gy < self.height,
                    self.wf(),
                    self.fits_at(point(position)),
                    addressable_region(*old(target), region),
                    region == self.region(point(position)),
                    px == position.0 && py == position.1,
                    painted(
                        *old(target),
                        *target,
                        |q: (int, int)|
                            region(q) && (q.1 - py + self.baseline < gy || (q.1 - py + self.baseline == gy
                                && q.0 - px < gx)),
                        color,
                    ),
                decreases self.width - gx,
            {
                let ghost done = |q: (int, int)|
                    region(q) && (q.1 - py + self.baseline < gy || (q.1 - py + self.baseline == gy && q.0 - px
                        < gx));
                let ghost grown = |q: (int, int)|
                    region(q) && (q.1 - py + self.baseline < gy || (q.1 - py + self.baseline == gy && q.0 - px
                        <= gx));
                assert(gx + gy * self.width < self.width * self.height) by (nonlinear_arith)
                    requires
                        gx < self.width,
                        gy < self.height,
                ;
                let bit = gx + gy * self.width;
                let byte = bit / 8;
                let bit = bit % 8;
                let ghost before = *target;
                let b = self.bitmap[byte];
                let bit8 = bit as u8;
                assert(((b & (1u8 << bit8)) != 0) == ((b >> bit8) & 1 == 1)) by (bit_vector)
                    requires
                        bit8 < 8,
                ;
                let ghost p = (px + gx, py + gy - self.baseline);
                if (b & (1u8 << bit8)) != 0 {
                    let pos = (position.0 + gx as isize, position.1 + gy as isize - self.baseline);
                    assert(region(p));
                    assert(point(pos) == p);
                    target.set_pixel(pos, color);
                    proof {
                        lemma_paint_point(*old(target), before, *target, done, p, grown, color);
                    }
                } else {
                    proof {
                        assert forall|q: (int, int)| #[trigger] grown(q) == done(q) by {
                            if q == p {
                                assert(!region(q));
                            }
                        }
                        lemma_painted_same_region(*old(target), *target, done, grown, color);
                    }
                }
                gx += 1;
            }
            proof {
                lemma_painted_same_region(
                    *old(target),
                    *target,
                    |q: (int, int)|
                        region(q) && (q.1 - py + self.baseline < gy || (q.1 - py + self.baseline == gy && q.0 - px
                            < gx)),
                    |q: (int, int)| region(q) && q.1 - py + self.baseline < gy + 1,
                    color,
                );
            }
            gy += 1;
        }
        proof {
            lemma_painted_same_region(
                *old(target),
                *target,
                |q: (int, int)| region(q) && q.1 - py + self.baseline < gy,
                region,
                color,
            );
        }
    }

    /// Horizontal distance to the next glyph's position.
    pub fn advance(&self) -> (r: usize)
        ensures
            r == self.advance,
    {
        self.advance
    }
}

/// Consecutive glyphs for the characters from `start_char` on.
pub struct GlyphRange {
    pub start_char: char,
    pub glyphs: Vec<Glyph>,
}

/// A bitmap font: glyph ranges searched in order.
pub struct BitmapFont {
    pub line_height: usize,
    pub ranges: Vec<GlyphRange>,
}

/// Whether range `r` has a glyph for `c`.
pub open spec fn range_covers(r: GlyphRange, c: char) -> bool {
    (r.start_char as int) <= (c as int) && (c as int) - (r.start_char as int) < r.glyphs@.len()
}

/// The glyph for `c` in the first of `ranges[i..]` that covers it.
pub open spec fn lookup_from(ranges: Seq<GlyphRange>, c: char, i: int) -> Option<Glyph>
    decreases ranges.len() - i,
{
    if i < 0 || i >= ranges.len() {
        None
    } else if range_covers(ranges[i], c) {
        Some(ranges[i].glyphs@[c as int - ranges[i].start_char as int])
    } else {
        lookup_from(ranges, c, i + 1)
    }
}

/// How far the pen moves for `c`: the glyph's advance, or nothing for a
/// character the font lacks.
pub open spec fn advance_of(font: BitmapFont, c: char) -> int {
    match font.glyph_for(c) {
        Some(g) => g.advance as int,
        None => 0,
    }
}

/// Total advance of the characters of `s`.
pub open spec fn text_advance(font: BitmapFont, s: Seq<char>) -> int
    decreases s.len(),
{
    if s.len() == 0 {
        0
    } else {
        text_advance(font, s.drop_last()) + advance_of(font, s.last())
    }
}

/// Whether the text `s`, drawn from `position`, covers pixel `q`.
pub open spec fn text_covers(font: BitmapFont, position: (int, int), s: Seq<char>, q: (int, int)) -> bool
    decreases s.len(),
{
    if s.len() == 0 {
        false
    } else {
        text_covers(font, position, s.drop_last(), q) || match font.glyph_for(s.last()) {
            Some(g) => g.region((position.0 + text_advance(font, s.drop_last()), position.1))(q),
            None => false,
        }
    }
}

/// Drawing `s` from `position` keeps every coordinate in `isize`.
pub open spec fn text_fits(font: BitmapFont, position: (int, int), s: Seq<char>) -> bool
    decreases s.len(),
{
    if s.len() == 0 {
        fits_isize(position.0)
    } else {
        &&& text_fits(font, position, s.drop_last())
        &&& fits_isize(position.0 + text_advance(font, s))
        &&& match font.glyph_for(s.last()) {
            Some(g) => g.advance <= isize::MAX && g.fits_at((position.0 + text_advance(font, s.drop_last()), position.1)),
            None => true,
        }
    }
}

/// Every glyph of `ranges` measures at most `b` in each dimension, advance
/// and baseline included.
pub open spec fn glyphs_bounded(ranges: Seq<GlyphRange>, b: int) -> bool {
    forall|i: int, j: int|
        0 <= i < ranges.len() && 0 <= j < ranges[i].glyphs@.len() ==> #[trigger] ranges[i].glyphs@[j].bounded(b)
}

/// A glyph found by lookup is one of the font's glyphs.
proof fn lemma_lookup_bounded(ranges: Seq<GlyphRange>, c: char, i: int, b: int)
    requires
        glyphs_bounded(ranges, b),
        0 <= i,
    ensures
        lookup_from(ranges, c, i) matches Some(g) ==> g.bounded(b),
    decreases ranges.len() - i,
{
    if i < ranges.len() {
        if range_covers(ranges[i], c) {
            let j = c as int - ranges[i].start_char as int;
            assert(ranges[i].glyphs@[j].bounded(b));
        } else {
            lemma_lookup_bounded(ranges, c, i + 1, b);
        }
    }
}

/// With every glyph at most `b` pixels in each measure, a text of `n`
/// characters advances at most `b * n`, and it fits in `isize` wherever
/// the pen stays `b * (n + 2)` away from the limits.
pub proof fn lemma_bounded_text_fits(font: BitmapFont, position: (int, int), s: Seq<char>, b: int)
    requires
        b >= 0,
        glyphs_bounded(font.ranges@, b),
        isize::MIN + b * (s.len() + 2) <= position.0,
        position.0 + b * (s.len() + 2) <= isize::MAX,
        isize::MIN + 2 * b <= position.1,
        position.1 + 2 * b <= isize::MAX,
    ensures
        0 <= text_advance(font, s) <= b * s.len(),
        text_fits(font, position, s),
    decreases s.len(),
{
    if s.len() > 0 {
        let n = s.len() as int;
        assert(b * (n - 1 + 2) <= b * (n + 2)) by (nonlinear_arith)
            requires
                b >= 0,
                n >= 1,
        ;
        lemma_bounded_text_fits(font, position, s.drop_last(), b);
        lemma_lookup_bounded(font.ranges@, s.last(), 0, b);
        assert(b * (n - 1) + b == b * n) by (nonlinear_arith);
        assert(b * n <= b * (n + 2)) by (nonlinear_arith)
            requires
                b >= 0,
        ;
        assert(b * (n - 1) + b <= b * (n + 2) - b) by (nonlinear_arith)
            requires
                b >= 0,
        ;
    }
}

/// With glyphs of at most `b` pixels in each measure, text drawn from
/// `position` stays in a box: at most `b * (n + 1)` to the right and `b`
/// above or `2 * b` below the baseline.
pub proof fn lemma_text_box(font: BitmapFont, position: (int, int), s: Seq<char>, b: int, q: (int, int))
    requires
        b >= 0,
        glyphs_bounded(font.ranges@, b),
        text_covers(font, position, s, q),
    ensures
        position.0 <= q.0 <= position.0 + b * (s.len() + 1),
        position.1 - b <= q.1 <= position.1 + 2 * b,
    decreases s.len(),
{
    let n = s.len() as int;
    lemma_bounded_advance(font, s.drop_last(), b);
    assert(b * (n - 1 + 1) <= b * (n + 1)) by (nonlinear_arith)
        requires
            b >= 0,
            n >= 1,
    ;
    assert(b * (n - 1) + b == b * n) by (nonlinear_arith);
    assert(b * n + b == b * (n + 1)) by (nonlinear_arith);
    if text_covers(font, position, s.drop_last(), q) {
        lemma_text_box(font, position, s.drop_last(), b, q);
    } else {
        lemma_lookup_bounded(font.ranges@, s.last(), 0, b);
    }
}

/// With glyphs of at most `b` pixels of advance, `n` characters advance at
/// most `b * n`.
proof fn lemma_bounded_advance(font: BitmapFont, s: Seq<char>, b: int)
    requires
        b >= 0,
        glyphs_bounded(font.ranges@, b),
    ensures
        0 <= text_advance(font, s) <= b * s.len(),
    decreases s.len(),
{
    if s.len() > 0 {
        lemma_bounded_advance(font, s.drop_last(), b);
        lemma_lookup_bounded(font.ranges@, s.last(), 0, b);
        assert(b * (s.len() - 1) + b == b * s.len()) by (nonlinear_arith);
    }
}

/// Advances are never negative, so a prefix never advances further than
/// the whole text.
proof fn lemma_prefix_advance(font: BitmapFont, s: Seq<char>, k: int)
    requires
        0 <= k <= s.len(),
    ensures
        0 <= text_advance(font, s.take(k)) <= text_advance(font, s),
    decreases s.len(),
{
    if s.len() > 0 {
        if k == s.len() {
            assert(s.take(k) =~= s);
            lemma_prefix_advance(font, s.drop_last(), k - 1);
            assert(s.drop_last().take(k - 1) =~= s.drop_last());
        } else {
            lemma_prefix_advance(font, s.drop_last(), k);
            assert(s.drop_last().take(k) =~= s.take(k));
        }
    } else {
        assert(s.take(k) =~= s);
    }
}

/// Text fitting from `position` fits in every prefix too.
proof fn lemma_prefix_fits(font: BitmapFont, position: (int, int), s: Seq<char>, k: int)
    requires
        0 <= k <= s.len(),
        text_fits(font, position, s),
    ensures
        text_fits(font, position, s.take(k)),
    decreases s.len(),
{
    if k == s.len() {
        assert(s.take(k) =~= s);
    } else {
        lemma_prefix_fits(font, position, s.drop_last(), k);
        assert(s.drop_last().take(k) =~= s.take(k));
    }
}

/// What a prefix of a text covers, the whole text covers.
proof fn lemma_prefix_covers(font: BitmapFont, position: (int, int), s: Seq<char>, k: int, q: (int, int))
    requires
        0 <= k <= s.len(),
        text_covers(font, position, s.take(k), q),
    ensures
        text_covers(font, position, s, q),
    decreases s.len(),
{
    if k == s.len() {
        assert(s.take(k) =~= s);
    } else {
        assert(s.drop_last().take(k) =~= s.take(k));
        lemma_prefix_covers(font, position, s.drop_last(), k, q);
    }
}

impl BitmapFont {
    /// The glyph that `find_glyph` returns for `c`.
    pub open spec fn glyph_for(&self, c: char) -> Option<Glyph> {
        lookup_from(self.ranges@, c, 0)
    }

    /// Every glyph's bitmap holds all its bits.
    pub open spec fn wf(&self) -> bool {
        forall|i: int, j: int|
            0 <= i < self.ranges@.len() && 0 <= j < self.ranges@[i].glyphs@.len() ==> #[trigger] self.ranges@[i].glyphs@[j].wf()
    }

    /// The glyph for `c` from the first range that has one, or `None`.
    pub fn find_glyph(&self, c: char) -> (r: Option<&Glyph>)
        requires
            self.wf(),
        ensures
            match r {
                Some(g) => self.glyph_for(c) == Some(*g) && g.wf(),
                None => self.glyph_for(c) is None,
            },
    {
        let mut i: usize = 0;
        while i < self.ranges.len()
            invariant
                i <= self.ranges@.len(),
                self.wf(),
                lookup_from(self.ranges@, c, 0) == lookup_from(self.ranges@, c, i as int),
            decreases self.ranges@.len() - i,
        {
            let range = &self.ranges[i];
            let start = range.start_char as u32;
            let code = c as u32;
            if start <= code && ((code - start) as usize) < range.glyphs.len() {
                let index = (code - start) as usize;
                return Some(&range.glyphs[index]);
            }
            i += 1;
        }
        None
    }

    /// Draws `line` with its first glyph's baseline at `baseline_position`,
    /// each glyph advancing the pen; characters the font lacks are skipped.
    pub fn draw_text_line<Target: DrawTarget>(
        &self,
        target: &mut Target,
        baseline_position: (isize, isize),
        line: &str,
        color: bool,
    )
        requires
            self.wf(),
            text_fits(*self, point(baseline_position), line@),
            addressable_region(*old(target), |q: (int, int)| text_covers(*self, point(baseline_position), line@, q)),
        ensures
            painted(
                *old(target),
                *final(target),
                |q: (int, int)| text_covers(*self, point(baseline_position), line@, q),
                color,
            ),
    {
        let ghost text = line@;
        let ghost start = point(baseline_position);
        let mut position = baseline_position;
        let mut chars = line.chars();
        let ghost mut k: int = 0;
        loop
            invariant
                self.wf(),
                text == line@,
                start == point(baseline_position),
                0 <= k <= text.len(),
                chars.remaining() == text.skip(k),
                position.0 == start.0 + text_advance(*self, text.take(k)),
                position.1 == start.1,
                text_fits(*self, start, text),
                addressable_region(*old(target), |q: (int, int)| text_covers(*self, start, text, q)),
                painted(*old(target), *target, |q: (int, int)| text_covers(*self, start, text.take(k), q), color),
            ensures
                k == text.len(),
                painted(*old(target), *target, |q: (int, int)| text_covers(*self, start, text.take(k), q), color),
            decreases text.len() - k,
        {
            match chars.next() {
                Some(c) => {
                    let ghost before = *target;
                    let ghost prefix = text.take(k + 1);
                    proof {
                        assert(c == text[k]);
                        assert(prefix.drop_last() =~= text.take(k));
                        assert(prefix.last() == c);
                        assert(text.skip(k).drop_first() =~= text.skip(k + 1));
                        lemma_prefix_fits(*self, start, text, k + 1);
                    }
                    if let Some(glyph) = self.find_glyph(c) {
                        let ghost region = glyph.region(point(position));
                        assert(addressable_region(before, region)) by {
                            assert forall|q: (int, int)| region(q) implies #[trigger] before.addressable(q) by {
                                assert(text_covers(*self, start, prefix, q));
                                lemma_prefix_covers(*self, start, text, k + 1, q);
                                assert(old(target).addressable(q));
                            }
                        }
                        glyph.draw(target, position, color);
                        position.0 = position.0 + glyph.advance() as isize;
                        proof {
                            lemma_painted_union(
                                *old(target),
                                before,
                                *target,
                                |q: (int, int)| text_covers(*self, start, text.take(k), q),
                                region,
                                color,
                            );
                            lemma_painted_same_region(
                                *old(target),
                                *target,
                                |q: (int, int)| text_covers(*self, start, text.take(k), q) || region(q),
                                |q: (int, int)| text_covers(*self, start, prefix, q),
                                color,
                            );
                        }
                    } else {
                        proof {
                            lemma_painted_same_region(
                                *old(target),
                                *target,
                                |q: (int, int)| text_covers(*self, start, text.take(k), q),
                                |q: (int, int)| text_covers(*self, start, prefix, q),
                                color,
                            );
                        }
                    }
                    proof {
                        k = k + 1;
                    }
                },
                None => {
                    break;
                },
            }
        }
        proof {
            assert(text.take(k) =~= text);
        }
    }

    /// Width of `line` in pixels: the sum of its glyphs' advances less the
    /// spacing after the last one.
    pub fn get_text_width(&self, line: &str) -> (r: isize)
        requires
            self.wf(),
            text_advance(*self, line@) <= isize::MAX,
        ensures
            r == text_advance(*self, line@) - 1,
    {
        let ghost text = line@;
        let mut width: isize = 0;
        let mut chars = line.chars();
        let ghost mut k: int = 0;
        loop
            invariant
                self.wf(),
                text == line@,
                0 <= k <= text.len(),
                chars.remaining() == text.skip(k),
                width == text_advance(*self, text.take(k)),
                text_advance(*self, text) <= isize::MAX,
            ensures
                k == text.len(),
                width == text_advance(*self, text),
                width >= 0,
            decreases text.len() - k,
        {
            match chars.next() {
                Some(c) => {
                    proof {
                        assert(c == text[k]);
                        assert(text.take(k + 1).drop_last() =~= text.take(k));
                        assert(text.take(k + 1).last() == c);
                        assert(text.skip(k).drop_first() =~= text.skip(k + 1));
                        lemma_prefix_advance(*self, text, k + 1);
                        lemma_prefix_advance(*self, text, k);
                    }
                    if let Some(glyph) = self.find_glyph(c) {
                        width += glyph.advance() as isize;
                    }
                    proof {
                        k = k + 1;
                    }
                },
                None => {
                    proof {
                        assert(text.take(k) =~= text);
                        lemma_prefix_advance(*self, text, k);
                    }
                    break;
                },
            }
        }
        width - 1
    }
}


} // verus!
