use vstd::prelude::*;

use crate::app_views::text_stroke;
use crate::framebuffer::Framebuffer;
use crate::gfx::bitmap_font::{glyphs_bounded, lemma_bounded_text_fits, lemma_text_box, text_covers, BitmapFont};
use crate::gfx::draw_target::{
    drawn, lemma_drawn_start, lemma_drawn_then_painted, lemma_masked_painted,
    lemma_masked_view, lemma_translated_painted, lemma_translated_view, painted, DrawTarget, Mask,
    MaskedDrawTarget, RectMask, Stroke, TranslatedDrawTarget,
};
use crate::gfx::primitives::{
    draw_filled_rect, draw_hline, draw_rect, draw_vline, filled_rect_region, hline_region,
    lemma_painted_same_region, rect_region, vline_region,
};
use crate::input::EncoderState;

verus! {

/// `v` limited to `[lo, hi]`.
pub open spec fn clamp(v: int, lo: int, hi: int) -> int {
    if v < lo {
        lo
    } else if v > hi {
        hi
    } else {
        v
    }
}

/// The target the list contents are drawn through: scrolled, clipped to
/// the list box, and placed on the framebuffer.
pub type ListTarget = TranslatedDrawTarget<MaskedDrawTarget<TranslatedDrawTarget<Framebuffer>, RectMask>>;

/// Region `r` of the list box, placed at `pos` on the framebuffer.
pub open spec fn on_panel(r: spec_fn((int, int)) -> bool, pos: (int, int)) -> spec_fn((int, int)) -> bool {
    |q: (int, int)| r((q.0 - pos.0, q.1 - pos.1))
}

/// Region `r` of the list contents scrolled by `scroll`, clipped to the
/// `w` by `h` box and placed at `pos` on the framebuffer.
pub open spec fn in_list(r: spec_fn((int, int)) -> bool, pos: (int, int), w: int, h: int, scroll: int) -> spec_fn(
    (int, int),
) -> bool {
    |q: (int, int)|
        {
            let m = (q.0 - pos.0, q.1 - pos.1);
            0 <= m.0 <= w && 0 <= m.1 <= h && r((m.0, m.1 - scroll))
        }
}

/// Scroll after bringing item `index` into the `h` pixels of the box:
/// item rows are 10 pixels apart.
pub open spec fn scrolled_to(scroll: int, index: int, h: int) -> int {
    let top = scroll + index * 10;
    if top < 0 {
        scroll - top
    } else if top + 10 > h {
        scroll - (top + 10 - h)
    } else {
        scroll
    }
}

/// The box outline.
pub open spec fn box_strokes(pos: (int, int), w: int, h: int) -> Seq<Stroke> {
    seq![
        (on_panel(hline_region(0, w - 1, 0), pos), true),
        (on_panel(hline_region(0, w - 1, h), pos), true),
        (on_panel(vline_region(0, 0, h), pos), true),
        (on_panel(vline_region(w, 0, h), pos), true),
    ]
}

/// Rules between the first `n` items.
pub open spec fn separator_strokes(n: int, pos: (int, int), w: int, h: int, scroll: int) -> Seq<Stroke>
    decreases n,
{
    if n <= 1 {
        seq![]
    } else {
        separator_strokes(n - 1, pos, w, h, scroll).push(
            (in_list(hline_region(0, w - 1, 10 * (n - 1)), pos, w, h, scroll), true),
        )
    }
}

/// Item `i` with label `label`: highlighted items get a frame, or a lit
/// cell with an unlit label when armed.
pub open spec fn entry_strokes(
    font: BitmapFont,
    label: Seq<char>,
    i: int,
    highlighted: bool,
    armed: bool,
    pos: (int, int),
    w: int,
    h: int,
    scroll: int,
) -> Seq<Stroke> {
    let y = 10 * i;
    let text = |c: bool| (in_list(text_stroke(font, (3, 7 + y), label, c).0, pos, w, h, scroll), c);
    if highlighted && armed {
        seq![(in_list(filled_rect_region((1, 1 + y), (w - 1, 9 + y)), pos, w, h, scroll), true), text(false)]
    } else if highlighted {
        seq![(in_list(rect_region((1, 1 + y), (w - 1, 9 + y)), pos, w, h, scroll), true), text(true)]
    } else {
        seq![text(true)]
    }
}

/// Strokes of the first `n` items.
pub open spec fn item_strokes<T>(
    font: BitmapFont,
    entries: Seq<(T, &'static str)>,
    n: int,
    index: int,
    armed: bool,
    pos: (int, int),
    w: int,
    h: int,
    scroll: int,
) -> Seq<Stroke>
    decreases n,
{
    if n <= 0 {
        seq![]
    } else {
        item_strokes(font, entries, n - 1, index, armed, pos, w, h, scroll) + entry_strokes(
            font,
            entries[n - 1].1@,
            n - 1,
            n - 1 == index,
            armed,
            pos,
            w,
            h,
            scroll,
        )
    }
}

/// Painting through the list target paints the framebuffer in the placed,
/// clipped, scrolled region; the target's setup stays.
proof fn lemma_list_painted(a: ListTarget, b: ListTarget, r: spec_fn((int, int)) -> bool, color: bool)
    requires
        painted(a, b, r, color),
        a.shift().0 == 0,
        a.inner_target().clip().upper_left == (0isize, 0isize),
    ensures
        b.shift() == a.shift(),
        b.inner_target().clip() == a.inner_target().clip(),
        b.inner_target().inner_target().shift() == a.inner_target().inner_target().shift(),
        painted(
            a.inner_target().inner_target().inner_target(),
            b.inner_target().inner_target().inner_target(),
            in_list(
                r,
                (a.inner_target().inner_target().shift().0 as int, a.inner_target().inner_target().shift().1 as int),
                a.inner_target().clip().lower_right.0 as int,
                a.inner_target().clip().lower_right.1 as int,
                a.shift().1 as int,
            ),
            color,
        ),
{
    lemma_translated_painted(a, b, r, color);
    let r1 = |p: (int, int)| r((p.0 - a.shift().0, p.1 - a.shift().1));
    lemma_masked_painted(a.inner_target(), b.inner_target(), r1, color);
    let am = a.inner_target();
    let r2 = |p: (int, int)| r1(p) && am.clip().covers(p);
    lemma_translated_painted(am.inner_target(), b.inner_target().inner_target(), r2, color);
    let at = am.inner_target();
    let r3 = |p: (int, int)| r2((p.0 - at.shift().0, p.1 - at.shift().1));
    let bc = b.inner_target().clip();
    assert(bc.params()[0] == bc.upper_left.0 && am.clip().params()[0] == am.clip().upper_left.0);
    assert(bc.params()[1] == bc.upper_left.1 && am.clip().params()[1] == am.clip().upper_left.1);
    assert(bc.params()[2] == bc.lower_right.0 && am.clip().params()[2] == am.clip().lower_right.0);
    assert(bc.params()[3] == bc.lower_right.1 && am.clip().params()[3] == am.clip().lower_right.1);
    lemma_painted_same_region(
        at.inner_target(),
        b.inner_target().inner_target().inner_target(),
        r3,
        in_list(
            r,
            (at.shift().0 as int, at.shift().1 as int),
            am.clip().lower_right.0 as int,
            am.clip().lower_right.1 as int,
            a.shift().1 as int,
        ),
        color,
    );
}


/// Painting through the panel translation paints the framebuffer in the
/// placed region.
proof fn lemma_panel_painted(
    a: TranslatedDrawTarget<Framebuffer>,
    b: TranslatedDrawTarget<Framebuffer>,
    r: spec_fn((int, int)) -> bool,
    color: bool,
)
    requires
        painted(a, b, r, color),
    ensures
        b.shift() == a.shift(),
        painted(
            a.inner_target(),
            b.inner_target(),
            on_panel(r, (a.shift().0 as int, a.shift().1 as int)),
            color,
        ),
{
    lemma_translated_painted(a, b, r, color);
    lemma_painted_same_region(
        a.inner_target(),
        b.inner_target(),
        |p: (int, int)| r((p.0 - a.shift().0, p.1 - a.shift().1)),
        on_panel(r, (a.shift().0 as int, a.shift().1 as int)),
        color,
    );
}

/// Whether `q` lies in the square of side `2^28` around the origin.
pub open spec fn near(q: (int, int)) -> bool {
    -0x1000_0000 <= q.0 <= 0x1000_0000 && -0x1000_0000 <= q.1 <= 0x1000_0000
}

proof fn lemma_panel_addressable(t: TranslatedDrawTarget<Framebuffer>)
    requires
        -0x100_0000 <= t.shift().0 <= 0x100_0000,
        -0x100_0000 <= t.shift().1 <= 0x100_0000,
    ensures
        forall|q: (int, int)| near(q) ==> #[trigger] t.addressable(q),
{
    lemma_translated_view(t);
}

proof fn lemma_list_addressable(t: ListTarget)
    requires
        t.shift().0 == 0,
        -0x400_0000 <= t.shift().1 <= 0x400_0000,
        -0x100_0000 <= t.inner_target().inner_target().shift().0 <= 0x100_0000,
        -0x100_0000 <= t.inner_target().inner_target().shift().1 <= 0x100_0000,
    ensures
        forall|q: (int, int)| near(q) ==> #[trigger] t.addressable(q),
{
    lemma_translated_view(t);
    lemma_masked_view(t.inner_target());
    lemma_translated_view(t.inner_target().inner_target());
}


/// The framebuffer under a list target.
pub open spec fn list_canvas(t: ListTarget) -> Framebuffer {
    t.inner_target().inner_target().inner_target()
}

/// The list target draws into the `w` by `h` box at `pos`, scrolled by
/// `scroll`, all far inside `isize`.
pub open spec fn list_setup(t: ListTarget, pos: (int, int), w: int, h: int, scroll: int) -> bool {
    &&& t.shift().0 == 0 && t.shift().1 == scroll
    &&& -0x400_0000 <= scroll <= 0x400_0000
    &&& t.inner_target().clip().upper_left == (0isize, 0isize)
    &&& t.inner_target().clip().lower_right.0 == w && t.inner_target().clip().lower_right.1 == h
    &&& t.inner_target().inner_target().shift().0 == pos.0 && t.inner_target().inner_target().shift().1 == pos.1
    &&& -0x100_0000 <= pos.0 <= 0x100_0000 && -0x100_0000 <= pos.1 <= 0x100_0000
    &&& 1 <= w <= 0x100_0000 && 0 <= h <= 0x100_0000
}

/// Draws an item label at row offset `y` of the list contents.
fn list_label(
    target: &mut ListTarget,
    font: &BitmapFont,
    y: isize,
    label: &str,
    color: bool,
    Ghost(pos): Ghost<(int, int)>,
    Ghost(w): Ghost<int>,
    Ghost(h): Ghost<int>,
    Ghost(scroll): Ghost<int>,
)
    requires
        list_setup(*old(target), pos, w, h, scroll),
        0 <= y <= 0x100_0000,
        label@.len() <= 0x10_0000,
        font.wf(),
        glyphs_bounded(font.ranges@, 8),
    ensures
        list_setup(*final(target), pos, w, h, scroll),
        painted(
            list_canvas(*old(target)),
            list_canvas(*final(target)),
            in_list(text_stroke(*font, (3, 7 + y), label@, color).0, pos, w, h, scroll),
            color,
        ),
{
    let ghost t0 = *target;
    let ghost region = text_stroke(*font, (3, 7 + y), label@, color).0;
    proof {
        lemma_bounded_text_fits(*font, (3, 7 + y as int), label@, 8);
        lemma_list_addressable(*target);
        assert forall|q: (int, int)| region(q) implies #[trigger] target.addressable(q) by {
            lemma_text_box(*font, (3, 7 + y as int), label@, 8, q);
            assert(8 * (label@.len() + 1) <= 0x100_0000) by (nonlinear_arith)
                requires
                    label@.len() <= 0x10_0000,
            ;
            assert(near(q));
        }
    }
    font.draw_text_line(target, (3, 7 + y), label, color);
    proof {
        lemma_painted_same_region(
            t0,
            *target,
            |q: (int, int)| text_covers(*font, (3, 7 + y as int), label@, q),
            region,
            color,
        );
        lemma_list_painted(t0, *target, region, color);
    }
}

/// Draws the highlight of the item at row offset `y`: a lit cell when
/// `filled`, else a frame.
fn list_highlight(
    target: &mut ListTarget,
    y: isize,
    w: isize,
    filled: bool,
    Ghost(pos): Ghost<(int, int)>,
    Ghost(h): Ghost<int>,
    Ghost(scroll): Ghost<int>,
)
    requires
        list_setup(*old(target), pos, w as int, h, scroll),
        0 <= y <= 0x100_0000,
    ensures
        list_setup(*final(target), pos, w as int, h, scroll),
        painted(
            list_canvas(*old(target)),
            list_canvas(*final(target)),
            in_list(
                if filled {
                    filled_rect_region((1, 1 + y), (w - 1, 9 + y))
                } else {
                    rect_region((1, 1 + y), (w - 1, 9 + y))
                },
                pos,
                w as int,
                h,
                scroll,
            ),
            true,
        ),
{
    let ghost t0 = *target;
    proof {
        lemma_list_addressable(*target);
    }
    if filled {
        draw_filled_rect(target, (1, 1 + y), (w - 1, 9 + y), true);
        proof {
            lemma_list_painted(t0, *target, filled_rect_region((1, 1 + y as int), (w - 1, 9 + y as int)), true);
        }
    } else {
        draw_rect(target, (1, 1 + y), (w - 1, 9 + y), true);
        proof {
            lemma_list_painted(t0, *target, rect_region((1, 1 + y as int), (w - 1, 9 + y as int)), true);
        }
    }
}

/// A scrolling list of labelled items driven by the encoder: turning moves
/// the highlight, pressing arms the highlighted item and releasing picks
/// it; turning while armed disarms.
pub struct ListPicker<T: Copy, const N: usize> {
    items: [(T, &'static str); N],
    index: usize,
    position: (isize, isize),
    selected: bool,
    width: usize,
    height: usize,
    scroll_offset: isize,
}

impl<T: Copy, const N: usize> ListPicker<T, N> {
    /// The items with their labels.
    pub closed spec fn entries(&self) -> Seq<(T, &'static str)> {
        self.items@
    }

    /// The highlighted item.
    pub closed spec fn cursor(&self) -> usize {
        self.index
    }

    /// Whether the highlighted item is armed by a press.
    pub closed spec fn armed(&self) -> bool {
        self.selected
    }

    /// Where the list is drawn and how large it is.
    pub closed spec fn placement(&self) -> ((isize, isize), usize, usize) {
        (self.position, self.width, self.height)
    }

    /// Vertical scroll of the list contents.
    pub closed spec fn scroll(&self) -> isize {
        self.scroll_offset
    }

    pub open spec fn wf(&self) -> bool {
        &&& N >= 1 && self.cursor() < N
        &&& -0x400_0000 <= self.scroll() <= 0x400_0000
    }

    /// Placement and labels small enough that every coordinate of the
    /// drawing stays far inside `isize`.
    pub open spec fn layout_ok(&self) -> bool {
        &&& N <= 0x10_0000
        &&& -0x100_0000 <= self.placement().0.0 <= 0x100_0000
        &&& -0x100_0000 <= self.placement().0.1 <= 0x100_0000
        &&& 1 <= self.placement().1 <= 0x100_0000
        &&& self.placement().2 <= 0x100_0000
        &&& forall|i: int| 0 <= i < N ==> (#[trigger] self.entries()[i]).1@.len() <= 0x10_0000
    }

    /// A list of `items` at `position`, `width` by `height` pixels, with
    /// the first item highlighted.
    pub fn new(items: [(T, &'static str); N], position: (isize, isize), width: usize, height: usize) -> (r: Self)
        requires
            N >= 1,
        ensures
            r.wf(),
            r.entries() == items@,
            r.cursor() == 0,
            !r.armed(),
            r.placement() == (position, width, height),
            r.scroll() == 0,
    {
        ListPicker { items, index: 0, position, width, height, selected: false, scroll_offset: 0 }
    }

    /// Back to the first item, nothing armed.
    pub fn reset(&mut self)
        requires
            old(self).wf(),
        ensures
            final(self).wf(),
            final(self).cursor() == 0,
            !final(self).armed(),
            final(self).entries() == old(self).entries(),
            final(self).placement() == old(self).placement(),
            final(self).scroll() == old(self).scroll(),
    {
        self.index = 0;
        self.selected = false;
    }

    /// The highlight moved by `delta`, kept on the list.
    fn moved(&self, delta: i32) -> (r: usize)
        requires
            self.wf(),
        ensures
            r == clamp(self.cursor() + delta, 0, N - 1),
    {
        let target = self.index as i128 + delta as i128;
        let last = N as i128 - 1;
        if target < 0 {
            0
        } else if target > last {
            (N - 1) as usize
        } else {
            target as usize
        }
    }

    /// One iteration of encoder input. Returns the picked item when an
    /// armed item's button is released.
    pub fn update(&mut self, encoder: &EncoderState) -> (r: Option<T>)
        requires
            old(self).wf(),
        ensures
            final(self).wf(),
            final(self).entries() == old(self).entries(),
            final(self).placement() == old(self).placement(),
            final(self).scroll() == old(self).scroll(),
            !old(self).armed() ==> {
                &&& r is None
                &&& final(self).cursor() == clamp(old(self).cursor() + encoder.delta, 0, N - 1)
                &&& final(self).armed() == encoder.button.pressed
            },
            old(self).armed() && encoder.button.released ==> {
                &&& r == Some(old(self).entries()[old(self).cursor() as int].0)
                &&& final(self).cursor() == old(self).cursor()
                &&& !final(self).armed()
            },
            old(self).armed() && !encoder.button.released ==> {
                &&& r is None
                &&& encoder.delta != 0 ==> final(self).cursor() == clamp(old(self).cursor() + encoder.delta, 0, N - 1)
                    && !final(self).armed()
                &&& encoder.delta == 0 ==> final(self).cursor() == old(self).cursor() && final(self).armed()
            },
    {
        let mut selected = None;
        if !self.selected {
            self.index = self.moved(encoder.delta);
            if encoder.button.pressed {
                self.selected = true;
            }
        } else {
            if encoder.button.released {
                selected = Some(self.items[self.index].0);
                self.selected = false;
            } else {
                if encoder.delta != 0 {
                    self.selected = false;
                    self.index = self.moved(encoder.delta);
                }
            }
        }
        selected
    }

    /// Draws the list: first scrolls so the highlighted item is inside the
    /// box, then draws the box outline and, clipped to the box and
    /// scrolled, the rules between items and each item's label, the
    /// highlighted one framed (or filled, with an unlit label, when armed).
    pub fn render(&mut self, framebuffer: &mut Framebuffer, font: &BitmapFont)
        requires
            old(self).wf(),
            old(self).layout_ok(),
            font.wf(),
            glyphs_bounded(font.ranges@, 8),
        ensures
            final(self).wf(),
            final(self).entries() == old(self).entries(),
            final(self).cursor() == old(self).cursor(),
            final(self).armed() == old(self).armed(),
            final(self).placement() == old(self).placement(),
            final(self).scroll() == scrolled_to(old(self).scroll() as int, old(self).cursor() as int, old(self).placement().2 as int),
            ({
                let pos = (old(self).placement().0.0 as int, old(self).placement().0.1 as int);
                let w = old(self).placement().1 as int;
                let h = old(self).placement().2 as int;
                let sc = final(self).scroll() as int;
                drawn(
                    *old(framebuffer),
                    *final(framebuffer),
                    box_strokes(pos, w, h) + separator_strokes(N as int, pos, w, h, sc) + item_strokes(
                        *font,
                        old(self).entries(),
                        N as int,
                        old(self).cursor() as int,
                        old(self).armed(),
                        pos,
                        w,
                        h,
                        sc,
                    ),
                )
            }),
    {
        let min_selected_y = self.scroll_offset + self.index as isize * 10;
        let max_selected_y = self.scroll_offset + self.index as isize * 10 + 10;
        if min_selected_y < 0 {
            self.scroll_offset = self.scroll_offset + -min_selected_y;
        } else if max_selected_y > self.height as isize {
            self.scroll_offset = self.scroll_offset - (max_selected_y - self.height as isize);
        }
        let w = self.width as isize;
        let h = self.height as isize;
        assert(self.entries() == old(self).entries());
        assert(self.layout_ok());
        let ghost pos = (self.position.0 as int, self.position.1 as int);
        let ghost sc = self.scroll_offset as int;
        let mask = RectMask { upper_left: (0, 0), lower_right: (w, h) };
        let mut base = Framebuffer::new();
        core::mem::swap(framebuffer, &mut base);
        let ghost f0 = base;
        let mut panel = TranslatedDrawTarget::new(base, self.position);
        let ghost mut strokes: Seq<Stroke> = seq![];
        proof {
            lemma_drawn_start(f0);
        }
        // box outline
        let ghost outline0 = panel;
        proof {
            lemma_panel_addressable(panel);
        }
        draw_hline(&mut panel, 0, w - 1, 0, true);
        proof {
            lemma_panel_painted(outline0, panel, hline_region(0, w - 1, 0), true);
            lemma_drawn_then_painted(f0, f0, panel.inner_target(), strokes, on_panel(hline_region(0, w - 1, 0), pos), true);
            strokes = strokes.push((on_panel(hline_region(0, w - 1, 0), pos), true));
        }
        let ghost outline1 = panel;
        proof {
            lemma_panel_addressable(panel);
        }
        draw_hline(&mut panel, 0, w - 1, h, true);
        proof {
            lemma_panel_painted(outline1, panel, hline_region(0, w - 1, h as int), true);
            lemma_drawn_then_painted(f0, outline1.inner_target(), panel.inner_target(), strokes, on_panel(hline_region(0, w - 1, h as int), pos), true);
            strokes = strokes.push((on_panel(hline_region(0, w - 1, h as int), pos), true));
        }
        let ghost outline2 = panel;
        proof {
            lemma_panel_addressable(panel);
        }
        draw_vline(&mut panel, 0, 0, h, true);
        proof {
            lemma_panel_painted(outline2, panel, vline_region(0, 0, h as int), true);
            lemma_drawn_then_painted(f0, outline2.inner_target(), panel.inner_target(), strokes, on_panel(vline_region(0, 0, h as int), pos), true);
            strokes = strokes.push((on_panel(vline_region(0, 0, h as int), pos), true));
        }
        let ghost outline3 = panel;
        proof {
            lemma_panel_addressable(panel);
        }
        draw_vline(&mut panel, w, 0, h, true);
        proof {
            lemma_panel_painted(outline3, panel, vline_region(w as int, 0, h as int), true);
            lemma_drawn_then_painted(f0, outline3.inner_target(), panel.inner_target(), strokes, on_panel(vline_region(w as int, 0, h as int), pos), true);
            strokes = strokes.push((on_panel(vline_region(w as int, 0, h as int), pos), true));
            assert(strokes =~= box_strokes(pos, w as int, h as int));
        }
        let mut target = TranslatedDrawTarget::new(MaskedDrawTarget::new(panel, mask), (0, self.scroll_offset));
        // rules between items
        let mut i: usize = 1;
        while i < N
            invariant
                1 <= i <= N,
                N <= 0x10_0000,
                self.wf(),
                self.layout_ok(),
                w == self.placement().1 && h == self.placement().2,
                pos == (self.placement().0.0 as int, self.placement().0.1 as int),
                sc == self.scroll(),
                target.shift() == (0isize, self.scroll()),
                target.inner_target().clip() == mask,
                mask.upper_left == (0isize, 0isize) && mask.lower_right == (w, h),
                target.inner_target().inner_target().shift() == self.placement().0,
                drawn(
                    f0,
                    target.inner_target().inner_target().inner_target(),
                    box_strokes(pos, w as int, h as int) + separator_strokes(i as int, pos, w as int, h as int, sc),
                ),
            decreases N - i,
        {
            let ghost t0 = target;
            let y = i as isize * 10;
            proof {
                lemma_list_addressable(target);
            }
            draw_hline(&mut target, 0, w - 1, y, true);
            proof {
                lemma_list_painted(t0, target, hline_region(0, w - 1, y as int), true);
                let prev = box_strokes(pos, w as int, h as int) + separator_strokes(i as int, pos, w as int, h as int, sc);
                lemma_drawn_then_painted(
                    f0,
                    t0.inner_target().inner_target().inner_target(),
                    target.inner_target().inner_target().inner_target(),
                    prev,
                    in_list(hline_region(0, w - 1, y as int), pos, w as int, h as int, sc),
                    true,
                );
                assert(prev.push((in_list(hline_region(0, w - 1, y as int), pos, w as int, h as int, sc), true))
                    =~= box_strokes(pos, w as int, h as int) + separator_strokes(i + 1, pos, w as int, h as int, sc));
            }
            i += 1;
        }
        // items
        let mut i: usize = 0;
        while i < N
            invariant
                0 <= i <= N,
                N <= 0x10_0000,
                self.wf(),
                self.layout_ok(),
                font.wf(),
                glyphs_bounded(font.ranges@, 8),
                w == self.placement().1 && h == self.placement().2,
                pos == (self.placement().0.0 as int, self.placement().0.1 as int),
                sc == self.scroll(),
                list_setup(target, pos, w as int, h as int, sc),
                drawn(
                    f0,
                    list_canvas(target),
                    box_strokes(pos, w as int, h as int) + separator_strokes(N as int, pos, w as int, h as int, sc)
                        + item_strokes(*font, self.entries(), i as int, self.cursor() as int, self.armed(), pos, w as int, h as int, sc),
                ),
            decreases N - i,
        {
            let ghost before = box_strokes(pos, w as int, h as int) + separator_strokes(N as int, pos, w as int, h as int, sc)
                + item_strokes(*font, self.entries(), i as int, self.cursor() as int, self.armed(), pos, w as int, h as int, sc);
            let ghost c0 = list_canvas(target);
            let y = i as isize * 10;
            let label = self.items[i].1;
            assert(label@.len() <= 0x10_0000) by {
                assert(self.entries()[i as int].1@.len() <= 0x10_0000);
            }
            let ghost entry = entry_strokes(
                *font,
                label@,
                i as int,
                i == self.cursor(),
                self.armed(),
                pos,
                w as int,
                h as int,
                sc,
            );
            if self.index == i {
                list_highlight(&mut target, y, w, self.selected, Ghost(pos), Ghost(h as int), Ghost(sc));
                let ghost c1 = list_canvas(target);
                proof {
                    lemma_drawn_then_painted(f0, c0, c1, before, entry[0].0, true);
                }
                list_label(&mut target, font, y, label, !self.selected, Ghost(pos), Ghost(w as int), Ghost(h as int), Ghost(sc));
                proof {
                    lemma_drawn_then_painted(f0, c1, list_canvas(target), before.push(entry[0]), entry[1].0, entry[1].1);
                    assert(before.push(entry[0]).push(entry[1]) =~= before + entry);
                }
            } else {
                list_label(&mut target, font, y, label, true, Ghost(pos), Ghost(w as int), Ghost(h as int), Ghost(sc));
                proof {
                    lemma_drawn_then_painted(f0, c0, list_canvas(target), before, entry[0].0, true);
                    assert(before.push(entry[0]) =~= before + entry);
                }
            }
            proof {
                assert(self.entries()[i as int].1@ == label@);
                assert(before + entry =~= box_strokes(pos, w as int, h as int) + separator_strokes(N as int, pos, w as int, h as int, sc)
                    + item_strokes(*font, self.entries(), i + 1, self.cursor() as int, self.armed(), pos, w as int, h as int, sc));
            }
            i += 1;
        }
        *framebuffer = target.into_inner().into_inner().into_inner();
    }

    /// The highlighted item.
    pub fn selected(&self) -> (r: &T)
        requires
            self.wf(),
        ensures
            *r == self.entries()[self.cursor() as int].0,
    {
        &self.items[self.index].0
    }
}

} // verus!
