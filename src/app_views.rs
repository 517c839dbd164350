use vstd::prelude::*;

pub mod debug_led;
pub mod phase_tuning;
pub mod ping_test;
pub mod view_picker;

use crate::framebuffer::Framebuffer;
use crate::gfx::bitmap_font::{glyphs_bounded, lemma_bounded_text_fits, text_covers, BitmapFont};
use crate::gfx::draw_target::{drawn, lemma_drawn_concat, lemma_drawn_start, lemma_drawn_then_painted, Stroke};
use crate::gfx::primitives::{
    draw_filled_rect, draw_hline, draw_rect, draw_vline, filled_rect_region, hline_region, rect_region,
    vline_region,
};
use crate::input::InputState;

verus! {

/// The application's screens.
#[derive(Clone, Copy, Debug, PartialEq, Eq)]
pub enum ViewKind {
    ViewPicker,
    PingTest,
    PhaseTuning,
    DebugLed,
    StatMonitor,
    OpenLoopTest,
}

/// A labelled soft button of the app frame's bottom bar.
pub struct UiFrameButton {
    pub text: &'static str,
    pub press: bool,
    pub down: bool,
}

impl UiFrameButton {
    /// A released button labelled `text`.
    pub fn new(text: &'static str) -> (r: Self)
        ensures
            r.text == text,
            !r.press,
            !r.down,
    {
        UiFrameButton { text, press: false, down: false }
    }

    /// Forgets any press; the label stays.
    pub fn reset(&mut self)
        ensures
            final(self).text == old(self).text,
            !final(self).press,
            !final(self).down,
    {
        self.press = false;
        self.down = false;
    }
}

/// Copies the state of the first three panel buttons onto the frame's
/// soft buttons: `down` follows the button's level, `press` fires on its
/// release. Buttons beyond the third, or beyond the slice, are untouched.
pub fn update_app_frame(input_state: &InputState, buttons: &mut [UiFrameButton])
    ensures
        final(buttons)@.len() == old(buttons)@.len(),
        forall|k: int|
            0 <= k < old(buttons)@.len() ==> #[trigger] final(buttons)@[k] == if k < 3 {
                UiFrameButton {
                    text: old(buttons)@[k].text,
                    press: input_state.buttons@[k].released,
                    down: input_state.buttons@[k].down,
                }
            } else {
                old(buttons)@[k]
            },
{
    let mut k: usize = 0;
    while k < 3 && k < buttons.len()
        invariant
            buttons@.len() == old(buttons)@.len(),
            k <= 3,
            forall|j: int|
                0 <= j < old(buttons)@.len() ==> #[trigger] buttons@[j] == if j < k {
                    UiFrameButton {
                        text: old(buttons)@[j].text,
                        press: input_state.buttons@[j].released,
                        down: input_state.buttons@[j].down,
                    }
                } else {
                    old(buttons)@[j]
                },
        decreases 3 - k,
    {
        let text = buttons[k].text;
        buttons[k] = UiFrameButton {
            text,
            press: input_state.buttons[k].released,
            down: input_state.buttons[k].down,
        };
        k += 1;
    }
}

/// Text short enough that drawing it cannot leave `isize`.
pub open spec fn short_text(s: Seq<char>) -> bool {
    s.len() <= 0x0fff_0000
}

/// Painting text `s` in `color` with its baseline starting at `position`.
pub open spec fn text_stroke(font: BitmapFont, position: (int, int), s: Seq<char>, color: bool) -> Stroke {
    (|q: (int, int)| text_covers(font, position, s, q), color)
}

/// Strokes of soft button `b` whose cell starts at column `left`: a lit
/// cell with an unlit label while held, else a lit label.
pub open spec fn button_strokes(font: BitmapFont, b: UiFrameButton, left: int) -> Seq<Stroke> {
    if b.down {
        seq![
            (filled_rect_region((left, 54), (left + 30, 62)), true),
            text_stroke(font, (left + 2, 60), b.text@, false),
        ]
    } else {
        seq![text_stroke(font, (left + 2, 60), b.text@, true)]
    }
}

/// What the app frame draws: the screen border, the title rule, for soft
/// buttons the bottom bar with a cell per button (up to three), and the
/// title, in that order.
pub open spec fn app_frame_strokes(font: BitmapFont, title: Seq<char>, buttons: Seq<UiFrameButton>) -> Seq<Stroke> {
    let frame = seq![(rect_region((0, 0), (127, 63)), true), (hline_region(1, 126, 10), true)];
    let bar = if buttons.len() == 0 {
        seq![]
    } else {
        let first = seq![(hline_region(1, 126, 53), true), (vline_region(32, 54, 62), true)] + button_strokes(
            font,
            buttons[0],
            1,
        );
        let second = if buttons.len() > 1 {
            seq![(vline_region(64, 54, 62), true)] + button_strokes(font, buttons[1], 33)
        } else {
            seq![]
        };
        let third = if buttons.len() > 2 {
            seq![(vline_region(96, 54, 62), true)] + button_strokes(font, buttons[2], 65)
        } else {
            seq![]
        };
        first + second + third
    };
    frame + bar + seq![text_stroke(font, (3, 7), title, true)]
}

/// The soft buttons' labels are short.
pub open spec fn short_labels(buttons: Seq<UiFrameButton>) -> bool {
    forall|k: int| 0 <= k < buttons.len() ==> short_text(#[trigger] buttons[k].text@)
}

/// Draws `text` in `color` at `position` onto `framebuffer`.
fn label(framebuffer: &mut Framebuffer, font: &BitmapFont, position: (isize, isize), text: &str, color: bool)
    requires
        font.wf(),
        glyphs_bounded(font.ranges@, 8),
        short_text(text@),
        -1000 <= position.0 <= 1000,
        -1000 <= position.1 <= 1000,
    ensures
        crate::gfx::draw_target::painted(
            *old(framebuffer),
            *final(framebuffer),
            text_stroke(*font, (position.0 as int, position.1 as int), text@, color).0,
            color,
        ),
{
    proof {
        lemma_bounded_text_fits(*font, (position.0 as int, position.1 as int), text@, 8);
    }
    font.draw_text_line(framebuffer, position, text, color);
}

/// Draws soft button `b` in the cell starting at column `left`.
fn draw_button(framebuffer: &mut Framebuffer, font: &BitmapFont, b: &UiFrameButton, left: isize)
    requires
        font.wf(),
        glyphs_bounded(font.ranges@, 8),
        short_text(b.text@),
        0 <= left <= 100,
    ensures
        drawn(*old(framebuffer), *final(framebuffer), button_strokes(*font, *b, left as int)),
{
    let ghost f0 = *framebuffer;
    if b.down {
        draw_filled_rect(framebuffer, (left, 54), (left + 30, 62), true);
        let ghost f1 = *framebuffer;
        label(framebuffer, font, (left + 2, 60), b.text, false);
        proof {
            let s = button_strokes(*font, *b, left as int);
            lemma_drawn_start(f0);
            lemma_drawn_then_painted(f0, f0, f1, seq![], s[0].0, true);
            lemma_drawn_then_painted(f0, f1, *framebuffer, seq![s[0]], s[1].0, false);
            assert(seq![s[0]].push(s[1]) =~= s);
        }
    } else {
        label(framebuffer, font, (left + 2, 60), b.text, true);
        proof {
            let s = button_strokes(*font, *b, left as int);
            lemma_drawn_start(f0);
            lemma_drawn_then_painted(f0, f0, *framebuffer, seq![], s[0].0, true);
            assert(seq![].push(s[0]) =~= s);
        }
    }
}

/// Draws the common frame of an application screen: border, title bar,
/// and a bottom bar with up to three soft buttons when there are any.
pub fn render_app_frame(
    framebuffer: &mut Framebuffer,
    font: &BitmapFont,
    title: &'static str,
    buttons: &mut [UiFrameButton],
)
    requires
        font.wf(),
        glyphs_bounded(font.ranges@, 8),
        short_text(title@),
        short_labels(old(buttons)@),
    ensures
        final(buttons)@ == old(buttons)@,
        drawn(*old(framebuffer), *final(framebuffer), app_frame_strokes(*font, title@, old(buttons)@)),
{
    let ghost f0 = *framebuffer;
    let ghost bs = buttons@;
    proof {
        lemma_drawn_start(f0);
    }
    draw_rect(framebuffer, (0, 0), (127, 63), true);
    proof {
        lemma_drawn_then_painted(f0, f0, *framebuffer, seq![], rect_region((0, 0), (127, 63)), true);
    }
    let ghost f1 = *framebuffer;
    draw_hline(framebuffer, 1, 126, 10, true);
    let ghost mut strokes: Seq<Stroke> = seq![(rect_region((0, 0), (127, 63)), true)];
    proof {
        lemma_drawn_then_painted(f0, f1, *framebuffer, strokes, hline_region(1, 126, 10), true);
        strokes = strokes.push((hline_region(1, 126, 10), true));
    }
    if buttons.len() != 0 {
        let ghost g0 = *framebuffer;
        draw_hline(framebuffer, 1, 126, 53, true);
        proof {
            lemma_drawn_then_painted(f0, g0, *framebuffer, strokes, hline_region(1, 126, 53), true);
            strokes = strokes.push((hline_region(1, 126, 53), true));
        }
        let ghost g1 = *framebuffer;
        draw_vline(framebuffer, 32, 54, 62, true);
        proof {
            lemma_drawn_then_painted(f0, g1, *framebuffer, strokes, vline_region(32, 54, 62), true);
            strokes = strokes.push((vline_region(32, 54, 62), true));
        }
        assert(short_text(buttons@[0].text@));
        let ghost h0 = *framebuffer;
        draw_button(framebuffer, font, &buttons[0], 1);
        proof {
            lemma_drawn_concat(f0, h0, *framebuffer, strokes, button_strokes(*font, bs[0], 1));
            strokes = strokes + button_strokes(*font, bs[0], 1);
        }
        if buttons.len() > 1 {
            let ghost g2 = *framebuffer;
            draw_vline(framebuffer, 64, 54, 62, true);
            proof {
                lemma_drawn_then_painted(f0, g2, *framebuffer, strokes, vline_region(64, 54, 62), true);
                strokes = strokes.push((vline_region(64, 54, 62), true));
            }
            assert(short_text(buttons@[1].text@));
            let ghost h1 = *framebuffer;
            draw_button(framebuffer, font, &buttons[1], 33);
            proof {
                lemma_drawn_concat(f0, h1, *framebuffer, strokes, button_strokes(*font, bs[1], 33));
                strokes = strokes + button_strokes(*font, bs[1], 33);
            }
        }
        if buttons.len() > 2 {
            let ghost g3 = *framebuffer;
            draw_vline(framebuffer, 96, 54, 62, true);
            proof {
                lemma_drawn_then_painted(f0, g3, *framebuffer, strokes, vline_region(96, 54, 62), true);
                strokes = strokes.push((vline_region(96, 54, 62), true));
            }
            assert(short_text(buttons@[2].text@));
            let ghost h2 = *framebuffer;
            draw_button(framebuffer, font, &buttons[2], 65);
            proof {
                lemma_drawn_concat(f0, h2, *framebuffer, strokes, button_strokes(*font, bs[2], 65));
                strokes = strokes + button_strokes(*font, bs[2], 65);
            }
        }
    }
    let ghost g4 = *framebuffer;
    label(framebuffer, font, (3, 7), title, true);
    proof {
        lemma_drawn_then_painted(f0, g4, *framebuffer, strokes, text_stroke(*font, (3, 7), title@, true).0, true);
        strokes = strokes.push(text_stroke(*font, (3, 7), title@, true));
        assert(strokes =~= app_frame_strokes(*font, title@, bs));
    }
}

} // verus!
