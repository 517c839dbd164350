//! Glyph art: a glyph drawn as text, one line per pixel row, `*` for a set
//! pixel; a `<` marks the baseline row and a `,` the advance column.

use vstd::arithmetic::div_mod::lemma_fundamental_div_mod_converse;
use vstd::prelude::*;
use vstd::string::StringSliceAdditionalSpecFns;

use crate::framebuffer::bit_set;
use crate::gfx::bitmap_font::packed_bit;

verus! {

/// A set pixel (`*`).
pub const STAR: u8 = 42;

/// End of a pixel row (`\n`).
pub const NEWLINE: u8 = 10;

/// Baseline marker (`<`).
pub const MARKER: u8 = 60;

/// Advance marker (`,`).
pub const COMMA: u8 = 44;

/// Line of byte `j` of `b`: the newlines before it.
pub open spec fn line_of(b: Seq<u8>, j: int) -> int
    decreases j,
{
    if j <= 0 {
        0
    } else {
        line_of(b, j - 1) + if b[j - 1] == NEWLINE { 1int } else { 0int }
    }
}

/// Column of byte `j` of `b`: the bytes since the last newline before it.
pub open spec fn col_of(b: Seq<u8>, j: int) -> int
    decreases j,
{
    if j <= 0 {
        0
    } else if b[j - 1] == NEWLINE {
        0
    } else {
        col_of(b, j - 1) + 1
    }
}

/// What the art's first `n` bytes say about the glyph.
pub struct ArtScan {
    /// Line of the first `*`.
    pub first_star: Option<int>,
    /// Line of the last `*` (0 without one).
    pub last_star: int,
    /// One past the rightmost `*` column.
    pub width: int,
    /// Line of the last `<`.
    pub marker: Option<int>,
    /// Line and column of the first `,` on the last line that has one.
    pub comma: Option<(int, int)>,
}

/// Folds the first `n` bytes of `b` into an `ArtScan`.
pub open spec fn art_scan(b: Seq<u8>, n: int) -> ArtScan
    decreases n,
{
    if n <= 0 {
        ArtScan { first_star: None, last_star: 0, width: 0, marker: None, comma: None }
    } else {
        let s = art_scan(b, n - 1);
        let c = b[n - 1];
        let l = line_of(b, n - 1);
        let k = col_of(b, n - 1);
        ArtScan {
            first_star: if c == STAR && s.first_star is None { Some(l) } else { s.first_star },
            last_star: if c == STAR { l } else { s.last_star },
            width: if c == STAR && k + 1 > s.width { k + 1 } else { s.width },
            marker: if c == MARKER { Some(l) } else { s.marker },
            comma: if c == COMMA && !(s.comma matches Some((l2, _)) && l2 == l) { Some((l, k)) } else { s.comma },
        }
    }
}

/// Index of the last line of the art (a final newline ends the last line
/// rather than starting another).
pub open spec fn last_line(b: Seq<u8>) -> int {
    if b.len() > 0 && b.last() == NEWLINE {
        line_of(b, b.len() as int) - 1
    } else {
        line_of(b, b.len() as int)
    }
}

/// Whether the art has a `*` at column `k` of line `l`.
pub open spec fn star_at(b: Seq<u8>, l: int, k: int) -> bool {
    exists|j: int| 0 <= j < b.len() && b[j] == STAR && line_of(b, j) == l && col_of(b, j) == k
}

/// Number of bitmap rows: the glyph's height, cut short where the art runs
/// out of lines.
pub open spec fn art_rows(b: Seq<u8>) -> int {
    let s = art_scan(b, b.len() as int);
    match s.first_star {
        None => 0,
        Some(start) => if s.last_star <= last_line(b) - start + 1 {
            s.last_star
        } else {
            last_line(b) - start + 1
        },
    }
}

/// Bit `i` of the glyph, row by row from the first line with a `*`.
pub open spec fn art_bit(b: Seq<u8>, i: int) -> bool {
    let s = art_scan(b, b.len() as int);
    star_at(b, s.first_star.unwrap() + i / s.width, i % s.width)
}

proof fn lemma_line_col_bounds(b: Seq<u8>, j: int)
    requires
        0 <= j,
    ensures
        0 <= line_of(b, j) <= j,
        0 <= col_of(b, j) <= j,
    decreases j,
{
    if j > 0 {
        lemma_line_col_bounds(b, j - 1);
    }
}

proof fn lemma_line_monotone(b: Seq<u8>, i: int, j: int)
    requires
        0 <= i <= j,
    ensures
        line_of(b, i) <= line_of(b, j),
    decreases j - i,
{
    if i < j {
        lemma_line_monotone(b, i, j - 1);
    }
}

/// A byte other than a newline lies on a line of the art.
proof fn lemma_byte_on_a_line(b: Seq<u8>, j: int)
    requires
        0 <= j < b.len(),
        b[j] != NEWLINE,
    ensures
        line_of(b, j) <= last_line(b),
{
    let n = b.len() as int;
    if b.last() == NEWLINE {
        lemma_line_monotone(b, j, n - 1);
    } else {
        lemma_line_monotone(b, j, n);
    }
}

/// The first `*` of the art is on one of its lines.
proof fn lemma_first_star_on_a_line(b: Seq<u8>, n: int)
    requires
        0 <= n <= b.len(),
        art_scan(b, n).first_star is Some,
    ensures
        art_scan(b, n).first_star.unwrap() <= last_line(b),
        art_scan(b, n).first_star.unwrap() <= art_scan(b, n).last_star,
    decreases n,
{
    if art_scan(b, n - 1).first_star is Some {
        lemma_first_star_on_a_line(b, n - 1);
        if b[n - 1] == STAR {
            lemma_line_monotone(b, n - 1, n - 1);
            lemma_last_star_after(b, n - 1);
        }
    } else {
        lemma_byte_on_a_line(b, n - 1);
    }
}

/// The line of a later byte is no smaller.
proof fn lemma_last_star_after(b: Seq<u8>, n: int)
    requires
        0 <= n,
        art_scan(b, n).first_star is Some,
    ensures
        art_scan(b, n).first_star.unwrap() <= line_of(b, n),
    decreases n,
{
    if n > 0 {
        if art_scan(b, n - 1).first_star is Some {
            lemma_last_star_after(b, n - 1);
        }
        lemma_line_monotone(b, n - 1, n);
    }
}

/// Lines recorded by the scan of `n` bytes are at most `n`.
proof fn lemma_scan_lines_bounded(b: Seq<u8>, n: int)
    requires
        0 <= n,
    ensures
        art_scan(b, n).marker matches Some(m) ==> m <= n,
        art_scan(b, n).first_star matches Some(f) ==> f <= n,
        0 <= art_scan(b, n).last_star <= n,
        0 <= art_scan(b, n).width <= n,
    decreases n,
{
    if n > 0 {
        lemma_scan_lines_bounded(b, n - 1);
        lemma_line_col_bounds(b, n - 1);
    }
}

/// Packing eight flags, flag `n` as bit `n`.
proof fn lemma_pack_byte(f: Seq<bool>, byte: u8)
    requires
        f.len() == 8,
        byte == (if f[0] { 1u8 } else { 0u8 }) | (if f[1] { 2u8 } else { 0u8 }) | (if f[2] { 4u8 } else { 0u8 }) | (
        if f[3] { 8u8 } else { 0u8 }) | (if f[4] { 16u8 } else { 0u8 }) | (if f[5] { 32u8 } else { 0u8 }) | (
        if f[6] { 64u8 } else { 0u8 }) | (if f[7] { 128u8 } else { 0u8 }),
    ensures
        forall|n: int| 0 <= n < 8 ==> bit_set(byte, n) == f[n],
{
    let (b0, b1, b2, b3, b4, b5, b6, b7) = (f[0], f[1], f[2], f[3], f[4], f[5], f[6], f[7]);
    assert(bit_set(byte, 0) == b0 && bit_set(byte, 1) == b1 && bit_set(byte, 2) == b2 && bit_set(byte, 3) == b3
        && bit_set(byte, 4) == b4 && bit_set(byte, 5) == b5 && bit_set(byte, 6) == b6 && bit_set(byte, 7) == b7)
        by (bit_vector)
        requires
            byte == (if b0 { 1u8 } else { 0u8 }) | (if b1 { 2u8 } else { 0u8 }) | (if b2 { 4u8 } else { 0u8 }) | (
            if b3 { 8u8 } else { 0u8 }) | (if b4 { 16u8 } else { 0u8 }) | (if b5 { 32u8 } else { 0u8 }) | (
            if b6 { 64u8 } else { 0u8 }) | (if b7 { 128u8 } else { 0u8 }),
    ;
}

/// A parsed glyph: its bits packed least significant first.
pub struct GlyphDef {
    pub bit_vec: Vec<u8>,
    pub width: usize,
    pub height: usize,
    pub advance: usize,
    pub baseline: isize,
}

/// Bit `bit_n` of the byte that starts at `base_bit`: `1 << bit_n` when
/// that bit exists and is set.
fn get_bit(bit_vec: &Vec<bool>, base_bit: usize, bit_n: usize) -> (r: u8)
    requires
        bit_n < 8,
        base_bit + bit_n <= usize::MAX,
    ensures
        r == if base_bit + bit_n < bit_vec@.len() && bit_vec@[base_bit + bit_n] {
            1u8 << (bit_n as u8)
        } else {
            0u8
        },
{
    let bit = base_bit + bit_n;
    if bit < bit_vec.len() {
        if bit_vec[bit] {
            1u8 << (bit_n as u8)
        } else {
            0
        }
    } else {
        0
    }
}

/// What a glyph's art says about it, packed for drawing.
pub open spec fn parsed_as(b: Seq<u8>, r: GlyphDef) -> bool {
    let s = art_scan(b, b.len() as int);
    let rows = art_rows(b);
    &&& r.width == s.width
    &&& r.height == s.last_star
    &&& r.baseline == match s.marker {
        Some(m) => m - match s.first_star {
            Some(f) => f,
            None => 0,
        },
        None => 0,
    }
    &&& r.advance == match s.comma {
        Some((_, k)) => k,
        None => 0,
    }
    &&& r.bit_vec@.len() == (rows * s.width + 7) / 8
    &&& forall|k: int|
        0 <= k < 8 * r.bit_vec@.len() ==> #[trigger] packed_bit(r.bit_vec@, k) == (k < rows * s.width && art_bit(b, k))
}

/// Reads a glyph from its art: the rows from the first line with a `*`
/// down to the line whose index is the last such line's (as many as the
/// art has), as wide as the rightmost `*`; the baseline is the line of the
/// last `<` counted from the first `*` line, the advance the column of the
/// first `,` on the last line that has one.
pub fn parse_bitmap_glyph(glyph_def: &str) -> (r: GlyphDef)
    requires
        glyph_def.spec_bytes().len() <= 0xffff,
    ensures
        parsed_as(glyph_def.spec_bytes(), r),
{
    let b = glyph_def.as_bytes();
    let ghost bs = b@;
    let n = b.len();
    let mut line: usize = 0;
    let mut col: usize = 0;
    let mut first_star: Option<usize> = None;
    let mut last_star: usize = 0;
    let mut width: usize = 0;
    let mut marker: Option<usize> = None;
    let mut comma: Option<(usize, usize)> = None;
    let mut j: usize = 0;
    while j < n
        invariant
            j <= n,
            n == bs.len(),
            bs == b@,
            line == line_of(bs, j as int),
            col == col_of(bs, j as int),
            ({
                let s = art_scan(bs, j as int);
                &&& s.first_star == match first_star {
                    Some(f) => Some(f as int),
                    None => None,
                }
                &&& s.last_star == last_star
                &&& s.width == width
                &&& s.marker == match marker {
                    Some(m) => Some(m as int),
                    None => None,
                }
                &&& s.comma == match comma {
                    Some((l, k)) => Some((l as int, k as int)),
                    None => None,
                }
            }),
            width <= j,
        decreases n - j,
    {
        proof {
            lemma_line_col_bounds(bs, j as int);
        }
        let c = b[j];
        if c == STAR {
            if first_star.is_none() {
                first_star = Some(line);
            }
            last_star = line;
            if col + 1 > width {
                width = col + 1;
            }
        }
        if c == MARKER {
            marker = Some(line);
        }
        if c == COMMA {
            let same_line = match comma {
                Some((l2, _)) => l2 == line,
                None => false,
            };
            if !same_line {
                comma = Some((line, col));
            }
        }
        if c == NEWLINE {
            line = line + 1;
            col = 0;
        } else {
            col = col + 1;
        }
        j = j + 1;
    }
    proof {
        lemma_line_col_bounds(bs, n as int);
    }
    let last = if n > 0 && b[n - 1] == NEWLINE {
        proof {
            lemma_line_col_bounds(bs, n - 1);
        }
        assert(line_of(bs, n as int) == line_of(bs, n - 1) + 1);
        line - 1
    } else {
        line
    };
    assert(last == last_line(bs));
    let ghost scan = art_scan(bs, n as int);
    proof {
        lemma_scan_lines_bounded(bs, n as int);
    }
    // the first `*` is on a line of the art
    proof {
        if first_star is Some {
            lemma_first_star_on_a_line(bs, n as int);
        }
    }
    let start: usize = match first_star {
        Some(f) => f,
        None => 0,
    };
    let rows: usize = match first_star {
        None => 0,
        Some(f) => if last_star <= last - f + 1 {
            last_star
        } else {
            last - f + 1
        },
    };
    assert(rows == art_rows(bs));
    assert(rows <= n && width <= n);
    assert(rows * width <= 0xffff * 0xffff) by (nonlinear_arith)
        requires
            rows <= n,
            width <= n,
            n <= 0xffff,
    ;
    let total = rows * width;
    // the bits, row by row
    let mut bits: Vec<bool> = Vec::new();
    let mut i: usize = 0;
    while i < total
        invariant
            i <= total,
            bits@.len() == i,
            forall|k: int| 0 <= k < i ==> !bits@[k],
        decreases total - i,
    {
        bits.push(false);
        i = i + 1;
    }
    let mut line: usize = 0;
    let mut col: usize = 0;
    let mut j: usize = 0;
    while j < n
        invariant
            j <= n,
            n == bs.len(),
            bs == b@,
            line == line_of(bs, j as int),
            col == col_of(bs, j as int),
            total == rows * width,
            bits@.len() == total,
            forall|k: int|
                0 <= k < total ==> #[trigger] bits@[k] == exists|m: int|
                    0 <= m < j && bs[m] == STAR && line_of(bs, m) == start + k / (width as int) && col_of(bs, m) == k
                        % (width as int),
        decreases n - j,
    {
        proof {
            lemma_line_col_bounds(bs, j as int);
        }
        let c = b[j];
        if c == STAR && line >= start && line - start < rows && col < width {
            assert((line - start) * width + col < total) by (nonlinear_arith)
                requires
                    line - start < rows,
                    col < width,
                    line >= start,
                    total == rows * width,
            ;
            let index = (line - start) * width + col;
            proof {
                lemma_fundamental_div_mod_converse(index as int, width as int, (line - start) as int, col as int);
            }
            bits.set(index, true);
            proof {
                assert forall|k: int| 0 <= k < total implies #[trigger] bits@[k] == exists|m: int|
                    0 <= m < j + 1 && bs[m] == STAR && line_of(bs, m) == start + k / (width as int) && col_of(bs, m)
                        == k % (width as int) by {
                    if k == index {
                        assert(0 <= j < j + 1 && bs[j as int] == STAR);
                    } else if bits@[k] {
                        let m = choose|m: int|
                            0 <= m < j && bs[m] == STAR && line_of(bs, m) == start + k / (width as int) && col_of(bs, m)
                                == k % (width as int);
                        assert(0 <= m < j + 1);
                    } else {
                        if exists|m: int|
                            0 <= m < j + 1 && bs[m] == STAR && line_of(bs, m) == start + k / (width as int) && col_of(
                                bs,
                                m,
                            ) == k % (width as int) {
                            let m = choose|m: int|
                                0 <= m < j + 1 && bs[m] == STAR && line_of(bs, m) == start + k / (width as int)
                                    && col_of(bs, m) == k % (width as int);
                            if m == j {
                                vstd::arithmetic::div_mod::lemma_fundamental_div_mod(k, width as int);
                                assert(k == (k / (width as int)) * width + k % (width as int)) by (nonlinear_arith)
                                    requires
                                        k == width * (k / (width as int)) + k % (width as int),
                                ;
                            }
                        }
                    }
                }
            }
        } else {
            proof {
                assert forall|k: int| 0 <= k < total implies #[trigger] bits@[k] == exists|m: int|
                    0 <= m < j + 1 && bs[m] == STAR && line_of(bs, m) == start + k / (width as int) && col_of(bs, m)
                        == k % (width as int) by {
                    if bits@[k] {
                        let m = choose|m: int|
                            0 <= m < j && bs[m] == STAR && line_of(bs, m) == start + k / (width as int) && col_of(bs, m)
                                == k % (width as int);
                        assert(0 <= m < j + 1);
                    } else if exists|m: int|
                        0 <= m < j + 1 && bs[m] == STAR && line_of(bs, m) == start + k / (width as int) && col_of(bs, m)
                            == k % (width as int) {
                        let m = choose|m: int|
                            0 <= m < j + 1 && bs[m] == STAR && line_of(bs, m) == start + k / (width as int) && col_of(
                                bs,
                                m,
                            ) == k % (width as int);
                        assert(m == j);
                        vstd::arithmetic::div_mod::lemma_fundamental_div_mod(k, width as int);
                        assert(0 <= k % (width as int) < width);
                        assert(0 <= k / (width as int) < rows) by (nonlinear_arith)
                            requires
                                0 <= k < rows * width,
                                k == width * (k / (width as int)) + k % (width as int),
                                0 <= k % (width as int) < width,
                        ;
                    }
                }
            }
        }
        if c == NEWLINE {
            line = line + 1;
            col = 0;
        } else {
            col = col + 1;
        }
        j = j + 1;
    }
    // pack the bits, least significant first
    let n_bytes = total / 8 + if total % 8 != 0 {
        1
    } else {
        0
    };
    let mut byte_vec: Vec<u8> = Vec::new();
    let mut i: usize = 0;
    while i < n_bytes
        invariant
            i <= n_bytes,
            n_bytes == total / 8 + if total % 8 != 0 { 1int } else { 0int },
            bits@.len() == total,
            total <= 0xffff * 0xffff,
            byte_vec@.len() == i,
            forall|k: int| 0 <= k < 8 * i ==> #[trigger] packed_bit(byte_vec@, k) == (k < total && bits@[k]),
        decreases n_bytes - i,
    {
        let base_bit = i * 8;
        let byte = get_bit(&bits, base_bit, 0) | get_bit(&bits, base_bit, 1) | get_bit(&bits, base_bit, 2) | get_bit(
            &bits,
            base_bit,
            3,
        ) | get_bit(&bits, base_bit, 4) | get_bit(&bits, base_bit, 5) | get_bit(&bits, base_bit, 6) | get_bit(
            &bits,
            base_bit,
            7,
        );
        proof {
            assert(1u8 << 0u8 == 1u8 && 1u8 << 1u8 == 2u8 && 1u8 << 2u8 == 4u8 && 1u8 << 3u8 == 8u8 && 1u8 << 4u8
                == 16u8 && 1u8 << 5u8 == 32u8 && 1u8 << 6u8 == 64u8 && 1u8 << 7u8 == 128u8) by (bit_vector);
            let f = Seq::new(8, |m: int| base_bit + m < total && bits@[base_bit + m]);
            lemma_pack_byte(f, byte);
        }
        let ghost prev = byte_vec@;
        byte_vec.push(byte);
        proof {
            let f = Seq::new(8, |m: int| base_bit + m < total && bits@[base_bit + m]);
            assert forall|k: int| 0 <= k < 8 * (i + 1) implies #[trigger] packed_bit(byte_vec@, k) == (k < total
                && bits@[k]) by {
                if k < 8 * i {
                    assert(byte_vec@[k / 8] == prev[k / 8]);
                    assert(packed_bit(prev, k) == (k < total && bits@[k]));
                } else {
                    assert(k / 8 == i);
                    assert(k % 8 == k - base_bit);
                    assert(f[k % 8] == (k < total && bits@[k]));
                }
            }
        }
        i = i + 1;
    }
    let baseline: isize = match marker {
        Some(m) => m as isize - start as isize,
        None => 0,
    };
    let advance: usize = match comma {
        Some((_, k)) => k,
        None => 0,
    };
    GlyphDef { bit_vec: byte_vec, width, height: last_star, advance, baseline }
}

} // verus!
