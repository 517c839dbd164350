use vstd::prelude::*;

use crate::app_views::{app_frame_strokes, render_app_frame, short_labels, update_app_frame, UiFrameButton, ViewKind};
use crate::framebuffer::Framebuffer;
use crate::gfx::bitmap_font::{glyphs_bounded, BitmapFont};
use crate::gfx::draw_target::drawn;
use crate::input::InputState;

verus! {

/// Screen that toggles the controller's debug LED.
pub struct DebugLedView {
    pub state: Option<bool>,
    pub buttons: [UiFrameButton; 2],
}

impl DebugLedView {
    /// The button labels can be drawn.
    pub open spec fn wf(&self) -> bool {
        short_labels(self.buttons@)
    }

    /// LED state unknown; buttons "Back" and "On".
    pub fn new() -> (r: Self)
        ensures
            r.wf(),
            r.state is None,
            r.buttons@[0].text == "Back" && r.buttons@[1].text == "On",
            !r.buttons@[0].press && !r.buttons@[1].press,
    {
        proof {
            reveal_strlit("Back");
            reveal_strlit("On");
        }
        let r = DebugLedView { state: None, buttons: [UiFrameButton::new("Back"), UiFrameButton::new("On")] };
        assert(short_labels(r.buttons@)) by {
            assert(r.buttons@[0].text@.len() == 4);
            assert(r.buttons@[1].text@.len() == 2);
        }
        r
    }

    /// Entering the screen: LED state unknown, buttons released.
    pub fn start(&mut self)
        requires
            old(self).wf(),
        ensures
            final(self).wf(),
            final(self).state is None,
            forall|k: int| 0 <= k < 2 ==> !(#[trigger] final(self).buttons@[k]).press && !final(self).buttons@[k].down
                && final(self).buttons@[k].text == old(self).buttons@[k].text,
    {
        self.state = None;
        self.buttons[0].reset();
        self.buttons[1].reset();
    }

    /// One iteration. A release of the second button toggles the LED (on
    /// when its state is unknown) and returns the LED state to command;
    /// a release of the first asks to go back to the home screen.
    pub fn update(&mut self, input_state: &InputState) -> (r: (Option<ViewKind>, Option<bool>))
        requires
            old(self).wf(),
        ensures
            final(self).wf(),
            r.0 == (if input_state.buttons@[0].released { Some(ViewKind::ViewPicker) } else { None }),
            r.1 == (if input_state.buttons@[1].released {
                Some(
                    match old(self).state {
                        None => true,
                        Some(s) => !s,
                    },
                )
            } else {
                None
            }),
            final(self).state == if input_state.buttons@[1].released { r.1 } else { old(self).state },
            final(self).buttons@[0].down == input_state.buttons@[0].down,
            final(self).buttons@[1].down == input_state.buttons@[1].down,
    {
        proof {
            reveal_strlit("Off");
            reveal_strlit("LED Off");
            reveal_strlit("LED On");
        }
        update_app_frame(input_state, &mut self.buttons);
        assert(short_labels(self.buttons@)) by {
            assert(self.buttons@[0].text == old(self).buttons@[0].text);
            assert(self.buttons@[1].text == old(self).buttons@[1].text);
        }
        let mut command = None;
        if self.buttons[1].press {
            match self.state {
                None => {
                    self.state = Some(true);
                    command = Some(true);
                    self.buttons[1].text = "Off";
                },
                Some(state) => {
                    self.state = Some(!state);
                    command = Some(!state);
                    self.buttons[1].text = if !state {
                        "LED Off"
                    } else {
                        "LED On"
                    };
                },
            }
        }
        assert(short_labels(self.buttons@)) by {
            assert(self.buttons@[0].text == old(self).buttons@[0].text);
            assert(self.buttons@[1].text@.len() <= 7 || self.buttons@[1].text == old(self).buttons@[1].text);
        }
        if self.buttons[0].press {
            (Some(ViewKind::ViewPicker), command)
        } else {
            (None, command)
        }
    }

    /// Draws the app frame titled "Debug LED Control" with the two soft
    /// buttons.
    pub fn render(&mut self, framebuffer: &mut Framebuffer, font: &BitmapFont)
        requires
            old(self).wf(),
            font.wf(),
            glyphs_bounded(font.ranges@, 8),
        ensures
            *final(self) == *old(self),
            drawn(
                *old(framebuffer),
                *final(framebuffer),
                app_frame_strokes(*font, "Debug LED Control"@, old(self).buttons@),
            ),
    {
        proof {
            reveal_strlit("Debug LED Control");
        }
        render_app_frame(framebuffer, font, "Debug LED Control", &mut self.buttons);
        assert(self.buttons =~= old(self).buttons);
    }
}

} // verus!
