use vstd::prelude::*;

use crate::gfx::bitmap_font::{glyphs_bounded, BitmapFont, Glyph, GlyphRange};

verus! {
/// A glyph of `width * height` pixels packed into `bitmap`.
fn glyph(width: usize, height: usize, bitmap: Vec<u8>, baseline: isize, advance: usize) -> (r: Glyph)
    requires
        width * height <= 8 * bitmap@.len(),
        width * height <= usize::MAX,
    ensures
        r.wf(),
        r.width == width && r.height == height && r.bitmap@ == bitmap@,
        r.baseline == baseline && r.advance == advance,
{
    Glyph { width, height, bitmap, baseline, advance }
}

fn punct_1() -> (r: GlyphRange)
    ensures
        forall|j: int| 0 <= j < r.glyphs@.len() ==> #[trigger] r.glyphs@[j].wf(),
        forall|j: int| 0 <= j < r.glyphs@.len() ==> #[trigger] r.glyphs@[j].bounded(8),
{
    GlyphRange {
        start_char: ' ',
        glyphs: vec![
            glyph(0, 0, vec![], 1, 3),
            glyph(1, 5, vec![23], 4, 2),
            glyph(3, 2, vec![45], 4, 4),
            glyph(5, 5, vec![234, 171, 175, 0], 4, 6),
            glyph(5, 5, vec![174, 56, 234, 0], 4, 6),
            glyph(5, 5, vec![115, 17, 157, 1], 4, 6),
            glyph(5, 5, vec![162, 216, 100, 1], 4, 6),
            glyph(1, 2, vec![3], 4, 2),
            glyph(2, 5, vec![86, 2], 4, 3),
            glyph(2, 5, vec![169, 1], 4, 3),
            glyph(3, 3, vec![85, 1], 4, 4),
            glyph(3, 3, vec![186, 0], 3, 4),
            glyph(2, 2, vec![6], 0, 4),
            glyph(3, 1, vec![7], 2, 4),
            glyph(1, 1, vec![1], 0, 2),
            glyph(3, 5, vec![164, 18], 4, 4),
        ],
    }
}

fn numbers() -> (r: GlyphRange)
    ensures
        forall|j: int| 0 <= j < r.glyphs@.len() ==> #[trigger] r.glyphs@[j].wf(),
        forall|j: int| 0 <= j < r.glyphs@.len() ==> #[trigger] r.glyphs@[j].bounded(8),
{
    GlyphRange {
        start_char: '0',
        glyphs: vec![
            glyph(4, 5, vec![214, 185, 6], 4, 5),
            glyph(3, 5, vec![154, 116], 4, 4),
            glyph(4, 5, vec![150, 36, 15], 4, 5),
            glyph(4, 5, vec![150, 148, 6], 4, 5),
            glyph(4, 5, vec![85, 79, 4], 4, 5),
            glyph(4, 5, vec![31, 135, 7], 4, 5),
            glyph(4, 5, vec![36, 151, 6], 4, 5),
            glyph(4, 5, vec![143, 36, 2], 4, 5),
            glyph(4, 5, vec![150, 150, 6], 4, 5),
            glyph(4, 5, vec![150, 78, 2], 4, 5),
        ],
    }
}

fn punct_2() -> (r: GlyphRange)
    ensures
        forall|j: int| 0 <= j < r.glyphs@.len() ==> #[trigger] r.glyphs@[j].wf(),
        forall|j: int| 0 <= j < r.glyphs@.len() ==> #[trigger] r.glyphs@[j].bounded(8),
{
    GlyphRange {
        start_char: ':',
        glyphs: vec![
            glyph(1, 3, vec![5], 3, 2),
            glyph(2, 4, vec![98], 3, 3),
            glyph(3, 5, vec![84, 68], 4, 4),
            glyph(3, 5, vec![17, 21], 4, 4),
            glyph(4, 5, vec![150, 4, 4], 4, 5),
            glyph(5, 5, vec![46, 215, 44, 0], 4, 6),
        ],
    }
}

fn upper_case() -> (r: GlyphRange)
    ensures
        forall|j: int| 0 <= j < r.glyphs@.len() ==> #[trigger] r.glyphs@[j].wf(),
        forall|j: int| 0 <= j < r.glyphs@.len() ==> #[trigger] r.glyphs@[j].bounded(8),
{
    GlyphRange {
        start_char: 'A',
        glyphs: vec![
            glyph(3, 5, vec![234, 91], 4, 4),
            glyph(3, 5, vec![235, 58], 4, 4),
            glyph(3, 5, vec![78, 98], 4, 4),
            glyph(3, 5, vec![107, 59], 4, 4),
            glyph(3, 5, vec![207, 114], 4, 4),
            glyph(3, 5, vec![207, 18], 4, 4),
            glyph(4, 5, vec![22, 157, 6], 4, 5),
            glyph(3, 5, vec![237, 91], 4, 4),
            glyph(3, 5, vec![151, 116], 4, 4),
            glyph(3, 5, vec![39, 43], 4, 4),
            glyph(3, 5, vec![93, 86], 4, 4),
            glyph(3, 5, vec![73, 114], 4, 4),
            glyph(5, 5, vec![113, 215, 24, 1], 4, 6),
            glyph(5, 5, vec![113, 214, 28, 1], 4, 6),
            glyph(4, 5, vec![150, 153, 6], 4, 5),
            glyph(3, 5, vec![107, 23], 4, 4),
            glyph(5, 5, vec![38, 181, 100, 1], 4, 6),
            glyph(3, 5, vec![235, 86], 4, 4),
            glyph(3, 5, vec![142, 56], 4, 4),
            glyph(3, 5, vec![151, 36], 4, 4),
            glyph(3, 5, vec![109, 123], 4, 4),
            glyph(3, 5, vec![109, 43], 4, 4),
            glyph(5, 5, vec![49, 214, 170, 0], 4, 6),
            glyph(3, 5, vec![173, 90], 4, 4),
            glyph(3, 5, vec![173, 36], 4, 4),
            glyph(3, 5, vec![167, 114], 4, 4),
        ],
    }
}

fn punct_3() -> (r: GlyphRange)
    ensures
        forall|j: int| 0 <= j < r.glyphs@.len() ==> #[trigger] r.glyphs@[j].wf(),
        forall|j: int| 0 <= j < r.glyphs@.len() ==> #[trigger] r.glyphs@[j].bounded(8),
{
    GlyphRange {
        start_char: '[',
        glyphs: vec![
            glyph(3, 5, vec![79, 114], 4, 4),
            glyph(3, 5, vec![137, 72], 4, 4),
            glyph(3, 5, vec![39, 121], 4, 4),
            glyph(3, 2, vec![42], 4, 4),
            glyph(3, 2, vec![7], -1, 4),
            glyph(2, 2, vec![9], 4, 3),
        ],
    }
}

fn lowercase() -> (r: GlyphRange)
    ensures
        forall|j: int| 0 <= j < r.glyphs@.len() ==> #[trigger] r.glyphs@[j].wf(),
        forall|j: int| 0 <= j < r.glyphs@.len() ==> #[trigger] r.glyphs@[j].bounded(8),
{
    GlyphRange {
        start_char: 'a',
        glyphs: vec![
            glyph(4, 4, vec![86, 165], 3, 5),
            glyph(3, 5, vec![89, 59], 4, 4),
            glyph(3, 4, vec![78, 12], 3, 4),
            glyph(3, 5, vec![116, 107], 4, 4),
            glyph(3, 4, vec![234, 12], 3, 4),
            glyph(3, 5, vec![212, 37], 4, 4),
            glyph(3, 5, vec![174, 41], 3, 4),
            glyph(3, 5, vec![89, 91], 4, 4),
            glyph(1, 5, vec![29], 4, 2),
            glyph(2, 6, vec![162, 6], 4, 3),
            glyph(3, 5, vec![233, 90], 4, 4),
            glyph(2, 5, vec![85, 2], 4, 3),
            glyph(5, 4, vec![171, 214, 10], 3, 6),
            glyph(3, 4, vec![107, 11], 3, 4),
            glyph(3, 4, vec![106, 5], 3, 4),
            glyph(3, 5, vec![106, 23], 3, 4),
            glyph(4, 5, vec![86, 101, 8], 3, 4),
            glyph(3, 4, vec![78, 2], 3, 4),
            glyph(3, 4, vec![14, 7], 3, 4),
            glyph(3, 5, vec![210, 37], 4, 4),
            glyph(3, 4, vec![109, 13], 3, 4),
            glyph(3, 4, vec![109, 5], 3, 4),
            glyph(5, 4, vec![181, 86, 5], 3, 6),
            glyph(3, 4, vec![149, 10], 3, 4),
            glyph(3, 5, vec![109, 77], 3, 4),
            glyph(3, 4, vec![103, 14], 3, 4),
        ],
    }
}

fn punct_4() -> (r: GlyphRange)
    ensures
        forall|j: int| 0 <= j < r.glyphs@.len() ==> #[trigger] r.glyphs@[j].wf(),
        forall|j: int| 0 <= j < r.glyphs@.len() ==> #[trigger] r.glyphs@[j].bounded(8),
{
    GlyphRange {
        start_char: '{',
        glyphs: vec![
            glyph(3, 5, vec![214, 100], 4, 4),
            glyph(1, 5, vec![31], 4, 2),
            glyph(3, 5, vec![147, 53], 4, 4),
            glyph(5, 3, vec![162, 34], 3, 5),
        ],
    }
}

/// The panel's 5-pixel font: printable ASCII, 8 pixels per line.
pub fn basic_5px() -> (r: BitmapFont)
    ensures
        r.wf(),
        glyphs_bounded(r.ranges@, 8),
        r.line_height == 8,
{
    let r0 = punct_1();
    let r1 = numbers();
    let r2 = punct_2();
    let r3 = upper_case();
    let r4 = punct_3();
    let r5 = lowercase();
    let r6 = punct_4();
    let ranges = vec![r0, r1, r2, r3, r4, r5, r6];
    let font = BitmapFont { line_height: 8, ranges };
    assert forall|i: int, j: int|
        0 <= i < font.ranges@.len() && 0 <= j < font.ranges@[i].glyphs@.len() implies #[trigger] font.ranges@[i].glyphs@[j].wf() && font.ranges@[i].glyphs@[j].bounded(8) by {
        if i == 0 {
            assert(font.ranges@[i] == r0);
        }
        if i == 1 {
            assert(font.ranges@[i] == r1);
        }
        if i == 2 {
            assert(font.ranges@[i] == r2);
        }
        if i == 3 {
            assert(font.ranges@[i] == r3);
        }
        if i == 4 {
            assert(font.ranges@[i] == r4);
        }
        if i == 5 {
            assert(font.ranges@[i] == r5);
        }
        if i == 6 {
            assert(font.ranges@[i] == r6);
        }
    }
    assert forall|i: int, j: int|
        0 <= i < font.ranges@.len() && 0 <= j < font.ranges@[i].glyphs@.len() implies #[trigger] font.ranges@[i].glyphs@[j].bounded(8) by {
        if i == 0 {
            assert(font.ranges@[i] == r0);
        }
        if i == 1 {
            assert(font.ranges@[i] == r1);
        }
        if i == 2 {
            assert(font.ranges@[i] == r2);
        }
        if i == 3 {
            assert(font.ranges@[i] == r3);
        }
        if i == 4 {
            assert(font.ranges@[i] == r4);
        }
        if i == 5 {
            assert(font.ranges@[i] == r5);
        }
        if i == 6 {
            assert(font.ranges@[i] == r6);
        }
    }
    assert(glyphs_bounded(font.ranges@, 8));
    font
}

} // verus!
