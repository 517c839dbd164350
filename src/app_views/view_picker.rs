use vstd::prelude::*;

use crate::app_views::{app_frame_strokes, render_app_frame, text_stroke, UiFrameButton, ViewKind};
use crate::framebuffer::Framebuffer;
use crate::gfx::bitmap_font::{glyphs_bounded, lemma_bounded_text_fits, BitmapFont};
use crate::gfx::draw_target::{drawn, lemma_drawn_concat, lemma_drawn_start, lemma_drawn_then_painted};
use crate::input::InputState;
use crate::ui::list_picker::{box_strokes, item_strokes, scrolled_to, separator_strokes, ListPicker};

verus! {

/// Home screen: a list of the tools to open.
pub struct ViewPickerView {
    pub picker: ListPicker<ViewKind, 5>,
}

impl ViewPickerView {
    /// The picker is in a drawable state.
    pub open spec fn wf(&self) -> bool {
        self.picker.wf() && self.picker.layout_ok()
    }

    pub fn new() -> (r: Self)
        ensures
            r.wf(),
            r.picker.cursor() == 0,
            !r.picker.armed(),
            r.picker.entries().len() == 5,
            r.picker.entries()[0].0 == ViewKind::DebugLed,
            r.picker.entries()[1].0 == ViewKind::PingTest,
            r.picker.entries()[2].0 == ViewKind::PhaseTuning,
            r.picker.entries()[3].0 == ViewKind::StatMonitor,
            r.picker.entries()[4].0 == ViewKind::OpenLoopTest,
    {
        proof {
            reveal_strlit("Debug LED Control");
            reveal_strlit("Ping Test");
            reveal_strlit("Feedback Phase Tuning");
            reveal_strlit("Stat Monitor");
            reveal_strlit("Open Loop Test");
        }
        ViewPickerView {
            picker: ListPicker::new(
                [
                    (ViewKind::DebugLed, "Debug LED Control"),
                    (ViewKind::PingTest, "Ping Test"),
                    (ViewKind::PhaseTuning, "Feedback Phase Tuning"),
                    (ViewKind::StatMonitor, "Stat Monitor"),
                    (ViewKind::OpenLoopTest, "Open Loop Test"),
                ],
                (2, 20),
                122,
                40,
            ),
        }
    }

    /// Entering the screen: back to the top of the list.
    pub fn start(&mut self)
        requires
            old(self).wf(),
        ensures
            final(self).wf(),
            final(self).picker.cursor() == 0,
            !final(self).picker.armed(),
            final(self).picker.entries() == old(self).picker.entries(),
    {
        self.picker.reset();
    }

    /// One iteration: the picker follows the encoder; the tool picked, if
    /// any, is the screen to switch to.
    pub fn update(&mut self, input_state: &InputState) -> (r: Option<ViewKind>)
        requires
            old(self).wf(),
        ensures
            final(self).wf(),
            final(self).picker.entries() == old(self).picker.entries(),
            r == (if old(self).picker.armed() && input_state.encoder.button.released {
                Some(old(self).picker.entries()[old(self).picker.cursor() as int].0)
            } else {
                None
            }),
    {
        self.picker.update(&input_state.encoder)
    }

    /// Draws the home screen: the app frame titled "Home" with no soft
    /// buttons, the prompt "Open Tool:", and the tool list.
    pub fn render(&mut self, framebuffer: &mut Framebuffer, font: &BitmapFont)
        requires
            old(self).wf(),
            font.wf(),
            glyphs_bounded(font.ranges@, 8),
        ensures
            final(self).wf(),
            final(self).picker.entries() == old(self).picker.entries(),
            final(self).picker.cursor() == old(self).picker.cursor(),
            final(self).picker.armed() == old(self).picker.armed(),
            ({
                let p = old(self).picker;
                let pos = (p.placement().0.0 as int, p.placement().0.1 as int);
                let w = p.placement().1 as int;
                let h = p.placement().2 as int;
                let sc = final(self).picker.scroll() as int;
                &&& sc == scrolled_to(p.scroll() as int, p.cursor() as int, h)
                &&& drawn(
                    *old(framebuffer),
                    *final(framebuffer),
                    app_frame_strokes(*font, "Home"@, seq![]) + seq![text_stroke(*font, (5, 17), "Open Tool:"@, true)]
                        + (box_strokes(pos, w, h) + separator_strokes(5, pos, w, h, sc) + item_strokes(
                        *font,
                        p.entries(),
                        5,
                        p.cursor() as int,
                        p.armed(),
                        pos,
                        w,
                        h,
                        sc,
                    )),
                )
            }),
    {
        let ghost f0 = *framebuffer;
        proof {
            reveal_strlit("Home");
            reveal_strlit("Open Tool:");
        }
        let mut no_buttons: [UiFrameButton; 0] = [];
        render_app_frame(framebuffer, font, "Home", &mut no_buttons);
        assert(no_buttons@ =~= Seq::<UiFrameButton>::empty());
        let ghost f1 = *framebuffer;
        proof {
            lemma_bounded_text_fits(*font, (5, 17), "Open Tool:"@, 8);
        }
        font.draw_text_line(framebuffer, (5, 17), "Open Tool:", true);
        let ghost f2 = *framebuffer;
        proof {
            lemma_drawn_start(f1);
            lemma_drawn_then_painted(f1, f1, f2, seq![], text_stroke(*font, (5, 17), "Open Tool:"@, true).0, true);
            assert(seq![].push(text_stroke(*font, (5, 17), "Open Tool:"@, true)) =~= seq![text_stroke(*font, (5, 17), "Open Tool:"@, true)]);
            lemma_drawn_concat(f0, f1, f2, app_frame_strokes(*font, "Home"@, seq![]), seq![text_stroke(*font, (5, 17), "Open Tool:"@, true)]);
        }
        self.picker.render(framebuffer, font);
        proof {
            let p = old(self).picker;
            let pos = (p.placement().0.0 as int, p.placement().0.1 as int);
            let w = p.placement().1 as int;
            let h = p.placement().2 as int;
            let sc = self.picker.scroll() as int;
            lemma_drawn_concat(
                f0,
                f2,
                *framebuffer,
                app_frame_strokes(*font, "Home"@, seq![]) + seq![text_stroke(*font, (5, 17), "Open Tool:"@, true)],
                box_strokes(pos, w, h) + separator_strokes(5, pos, w, h, sc) + item_strokes(
                    *font,
                    p.entries(),
                    5,
                    p.cursor() as int,
                    p.armed(),
                    pos,
                    w,
                    h,
                    sc,
                ),
            );
        }
    }
}

} // verus!
