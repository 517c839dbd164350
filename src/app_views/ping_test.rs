use vstd::prelude::*;

use crate::app_views::{
    app_frame_strokes, render_app_frame, short_labels, text_stroke, update_app_frame, UiFrameButton,
    ViewKind,
};
use crate::framebuffer::Framebuffer;
use crate::gfx::bitmap_font::{glyphs_bounded, lemma_bounded_text_fits, BitmapFont};
use crate::gfx::draw_target::{drawn, lemma_drawn_concat, lemma_drawn_start, lemma_drawn_then_painted};
use crate::input::InputState;

verus! {

/// Microseconds between pings.
pub const PING_INTERVAL_US: u64 = 100000;

/// Lower-case hex digit of `n`, for `n` in `[0, 16)`.
pub open spec fn hex_digit(n: int) -> char {
    if n < 10 {
        ((n + 48) as u8) as char
    } else {
        ((n - 10 + 97) as u8) as char
    }
}

/// `v` as eight lower-case hex digits, most significant first.
pub open spec fn hex8(v: u32) -> Seq<char> {
    Seq::new(8, |i: int| hex_digit((v as int / pow16(7 - i)) % 16))
}

/// `16` to the power `k`.
pub open spec fn pow16(k: int) -> int
    decreases k,
{
    if k <= 0 {
        1
    } else {
        16 * pow16(k - 1)
    }
}

/// Relies on `format!("{}{:08x}", ..)`, that is `Display` for `str` and
/// `LowerHex` for `u32` with zero padding to width 8: the prefix, then the
/// value in lower-case hex digits, eight of them (a `u32` never needs
/// more).
#[verifier::external_body]
fn hex_field(prefix: &str, v: u32) -> (r: String)
    ensures
        r@ == prefix@ + hex8(v),
{
    format!("{}{:08x}", prefix, v)
}

/// Screen that pings the controller over the fiber link and shows the
/// round trip.
pub struct PingTestView {
    pub t: u64,
    pub seq: u32,
    pub time_last_sent: u64,
    pub sent_seq: u32,
    pub received_seq: Option<u32>,
    pub buttons: [UiFrameButton; 1],
}

impl PingTestView {
    pub open spec fn wf(&self) -> bool {
        self.time_last_sent <= self.t && short_labels(self.buttons@)
    }

    /// Clock and sequence at zero, nothing received; button "Back".
    pub fn new() -> (r: Self)
        ensures
            r.wf(),
            r.t == 0 && r.seq == 0 && r.time_last_sent == 0 && r.sent_seq == 0,
            r.received_seq is None,
            r.buttons@[0].text == "Back",
    {
        proof {
            reveal_strlit("Back");
        }
        let r = PingTestView {
            t: 0,
            seq: 0,
            time_last_sent: 0,
            sent_seq: 0,
            received_seq: None,
            buttons: [UiFrameButton::new("Back")],
        };
        assert(short_labels(r.buttons@)) by {
            assert(r.buttons@[0].text@.len() == 4);
        }
        r
    }

    /// Entering the screen: clock and sequence back to zero.
    pub fn start(&mut self)
        requires
            old(self).wf(),
        ensures
            final(self).wf(),
            final(self).t == 0 && final(self).seq == 0 && final(self).time_last_sent == 0 && final(self).sent_seq == 0,
            final(self).received_seq == old(self).received_seq,
            !final(self).buttons@[0].press && !final(self).buttons@[0].down,
            final(self).buttons@[0].text == old(self).buttons@[0].text,
    {
        self.t = 0;
        self.seq = 0;
        self.time_last_sent = 0;
        self.sent_seq = 0;
        self.buttons[0].reset();
        assert(self.buttons@[0].text == old(self).buttons@[0].text);
    }

    /// One iteration, `dt_micros` after the last, with the sequence number
    /// of a ping reply if one arrived. Every `PING_INTERVAL_US` a new ping
    /// goes out (its sequence number is returned), numbered from the low
    /// 28 bits of a counter that steps by `0x00010101`; a release of the
    /// button asks to go back to the home screen.
    pub fn update(&mut self, dt_micros: u64, input_state: &InputState, reply: Option<u32>) -> (r: (
        Option<ViewKind>,
        Option<u32>,
    ))
        requires
            old(self).wf(),
            old(self).t + dt_micros <= u64::MAX,
        ensures
            final(self).wf(),
            final(self).t == old(self).t + dt_micros,
            r.0 == (if input_state.buttons@[0].released { Some(ViewKind::ViewPicker) } else { None }),
            final(self).t - old(self).time_last_sent > PING_INTERVAL_US ==> {
                &&& r.1 == Some(old(self).seq & 0x0FFF_FFFF)
                &&& final(self).sent_seq == old(self).seq & 0x0FFF_FFFF
                &&& final(self).seq == old(self).seq.wrapping_add(0x0001_0101)
                &&& final(self).time_last_sent == final(self).t
            },
            final(self).t - old(self).time_last_sent <= PING_INTERVAL_US ==> {
                &&& r.1 is None
                &&& final(self).sent_seq == old(self).sent_seq
                &&& final(self).seq == old(self).seq
                &&& final(self).time_last_sent == old(self).time_last_sent
            },
            final(self).received_seq == match reply {
                Some(s) => Some(s),
                None => if final(self).t - old(self).time_last_sent > PING_INTERVAL_US {
                    None
                } else {
                    old(self).received_seq
                },
            },
    {
        update_app_frame(input_state, &mut self.buttons);
        assert(self.buttons@[0].text == old(self).buttons@[0].text);
        self.t = self.t + dt_micros;
        let time_since_send = self.t - self.time_last_sent;
        let mut ping = None;
        if time_since_send > PING_INTERVAL_US {
            self.sent_seq = self.seq & 0x0FFFFFFF;
            self.seq = self.seq.wrapping_add(0x00010101);
            self.received_seq = None;
            ping = Some(self.sent_seq);
            self.time_last_sent = self.t;
        }
        if let Some(seq) = reply {
            self.received_seq = Some(seq);
        }
        if self.buttons[0].press {
            (Some(ViewKind::ViewPicker), ping)
        } else {
            (None, ping)
        }
    }
    /// Draws the app frame titled "Fiber Ping Test", the last sequence
    /// number sent ("Tx: " and eight hex digits) and the last one received
    /// ("Rx: " and eight hex digits, or "Rx: --").
    pub fn render(&mut self, framebuffer: &mut Framebuffer, font: &BitmapFont)
        requires
            old(self).wf(),
            font.wf(),
            glyphs_bounded(font.ranges@, 8),
        ensures
            *final(self) == *old(self),
            drawn(
                *old(framebuffer),
                *final(framebuffer),
                app_frame_strokes(*font, "Fiber Ping Test"@, old(self).buttons@) + seq![
                    text_stroke(*font, (5, 16), "Tx: "@ + hex8(old(self).sent_seq), true),
                    text_stroke(
                        *font,
                        (5, 25),
                        match old(self).received_seq {
                            Some(seq) => "Rx: "@ + hex8(seq),
                            None => "Rx: --"@,
                        },
                        true,
                    ),
                ],
            ),
    {
        let ghost f0 = *framebuffer;
        proof {
            reveal_strlit("Fiber Ping Test");
            reveal_strlit("Tx: ");
            reveal_strlit("Rx: ");
            reveal_strlit("Rx: --");
        }
        render_app_frame(framebuffer, font, "Fiber Ping Test", &mut self.buttons);
        assert(self.buttons =~= old(self).buttons);
        let ghost f1 = *framebuffer;
        let tx = hex_field("Tx: ", self.sent_seq);
        proof {
            lemma_bounded_text_fits(*font, (5, 16), tx@, 8);
        }
        let txs = tx.as_str();
        assert(txs@ == tx@);
        font.draw_text_line(framebuffer, (5, 16), txs, true);
        let ghost f2 = *framebuffer;
        assert(crate::gfx::draw_target::painted(f1, f2, text_stroke(*font, (5, 16), tx@, true).0, true));
        let ghost rx_text = match self.received_seq {
            Some(seq) => "Rx: "@ + hex8(seq),
            None => "Rx: --"@,
        };
        if let Some(seq) = self.received_seq {
            let rx = hex_field("Rx: ", seq);
            let rxs = rx.as_str();
            assert(rxs@ == rx_text);
            proof {
                lemma_bounded_text_fits(*font, (5, 25), rx_text, 8);
            }
            font.draw_text_line(framebuffer, (5, 25), rxs, true);
        } else {
            proof {
                lemma_bounded_text_fits(*font, (5, 25), rx_text, 8);
            }
            font.draw_text_line(framebuffer, (5, 25), "Rx: --", true);
        }
        assert(crate::gfx::draw_target::painted(f2, *framebuffer, text_stroke(*font, (5, 25), rx_text, true).0, true));
        proof {
            let a = text_stroke(*font, (5, 16), tx@, true);
            let b = text_stroke(*font, (5, 25), rx_text, true);
            lemma_drawn_start(f1);
            lemma_drawn_then_painted(f1, f1, f2, seq![], a.0, true);
            lemma_drawn_then_painted(f1, f2, *framebuffer, seq![a], b.0, true);
            assert(seq![].push(a).push(b) =~= seq![a, b]);
            assert(drawn(f0, f1, app_frame_strokes(*font, "Fiber Ping Test"@, old(self).buttons@)));
            lemma_drawn_concat(f0, f1, *framebuffer, app_frame_strokes(*font, "Fiber Ping Test"@, old(self).buttons@), seq![a, b]);
            assert(tx@ == "Tx: "@ + hex8(old(self).sent_seq));
            assert(rx_text == match old(self).received_seq {
                Some(seq) => "Rx: "@ + hex8(seq),
                None => "Rx: --"@,
            });
            let want = seq![
                text_stroke(*font, (5, 16), "Tx: "@ + hex8(old(self).sent_seq), true),
                text_stroke(
                    *font,
                    (5, 25),
                    match old(self).received_seq {
                        Some(seq) => "Rx: "@ + hex8(seq),
                        None => "Rx: --"@,
                    },
                    true,
                ),
            ];
            assert(seq![a, b] =~= want);
            assert(drawn(f0, *framebuffer, app_frame_strokes(*font, "Fiber Ping Test"@, old(self).buttons@) + want));
        }
    }
}

} // verus!
