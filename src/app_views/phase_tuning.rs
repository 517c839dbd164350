use vstd::prelude::*;

use crate::app_views::{
    app_frame_strokes, render_app_frame, short_labels, text_stroke, update_app_frame, UiFrameButton, ViewKind,
};
use crate::framebuffer::Framebuffer;
use crate::gfx::bitmap_font::{glyphs_bounded, lemma_bounded_text_fits, text_advance, BitmapFont};
use crate::gfx::draw_target::{drawn, lemma_drawn_concat, lemma_drawn_start, lemma_drawn_then_painted, Stroke};
use crate::gfx::primitives::{draw_hline, draw_line, draw_vline, hline_region, line_region, vline_region};
use crate::input::InputState;
use crate::ui::list_picker::clamp;

verus! {

/// Largest phase delay, either way, in nanoseconds.
pub const TUNING_RANGE: i16 = 400;

/// Microseconds between keep-alive messages while a test runs.
pub const KEEPALIVE_INTERVAL_US: u64 = 10_000;

/// Where the tuning session stands with the controller.
#[derive(Clone, Copy, Debug, PartialEq, Eq)]
pub enum PhaseTuningState {
    Init,
    AwaitingParams,
    RunningDisabled,
    RunningEnabled,
    /// Stopping a run; `true` re-reads the parameters afterwards.
    Disabling(bool),
}

/// What the screen asks the controller link to send.
#[derive(Clone, Copy, Debug, PartialEq, Eq)]
pub enum TuningCommand {
    /// Ask for the delay compensation parameter.
    RequestDelay,
    /// Set the delay compensation, in nanoseconds.
    SetDelay(i16),
    /// Configure a closed-loop test run (full flat power, 600 us on,
    /// 300 ms off) and start it.
    StartTestRun,
    KeepAlive,
    Stop,
}

/// Outcome of one iteration of the tuning screen.
pub struct TuningOutcome {
    /// Screen to switch to, if any.
    pub next_view: Option<ViewKind>,
    /// Messages for the controller, in order.
    pub commands: Vec<TuningCommand>,
    /// Whether the received messages were read (and so are to be dropped).
    pub inbox_consumed: bool,
}

/// `x` wrapped into `i16` as a truncating cast does.
pub open spec fn wrap_i16(x: int) -> int {
    (x + 0x8000) % 0x1_0000 - 0x8000
}

/// The delay after one encoder step while a test can be tuned: the
/// delta (cast to `i16`) added with saturation and kept in range; a
/// push of the encoder button resets it to zero.
pub open spec fn stepped_delay(d: i16, delta: i32, pressed: bool) -> int {
    if pressed {
        0
    } else {
        clamp(clamp(d + wrap_i16(delta as int), i16::MIN as int, i16::MAX as int), -400, 400)
    }
}

/// First part of an iteration, by session state: the next state, whether
/// the delay can be tuned in this iteration, and the messages to send.
/// `run` and `reset` are releases of the second and third button, `due`
/// whether a keep-alive is due.
pub open spec fn session_step(state: PhaseTuningState, run: bool, reset: bool, due: bool, replied: bool) -> (
    PhaseTuningState,
    bool,
    Seq<TuningCommand>,
) {
    match state {
        PhaseTuningState::Init => (PhaseTuningState::AwaitingParams, false, seq![TuningCommand::RequestDelay]),
        PhaseTuningState::AwaitingParams => (
            if replied { PhaseTuningState::RunningDisabled } else { PhaseTuningState::AwaitingParams },
            false,
            seq![],
        ),
        PhaseTuningState::RunningDisabled => if run {
            (PhaseTuningState::RunningEnabled, true, seq![TuningCommand::StartTestRun])
        } else if reset {
            (PhaseTuningState::Init, true, seq![])
        } else {
            (PhaseTuningState::RunningDisabled, true, seq![])
        },
        PhaseTuningState::RunningEnabled => if reset {
            (PhaseTuningState::Disabling(true), false, seq![])
        } else if run {
            (PhaseTuningState::Disabling(false), false, seq![])
        } else {
            (PhaseTuningState::RunningEnabled, true, if due { seq![TuningCommand::KeepAlive] } else { seq![] })
        },
        PhaseTuningState::Disabling(reinit) => (
            if reinit { PhaseTuningState::Init } else { PhaseTuningState::RunningDisabled },
            false,
            seq![TuningCommand::Stop],
        ),
    }
}

/// Decimal digits of `n`, most significant first.
pub open spec fn decimal_digits(n: nat) -> Seq<char>
    decreases n,
{
    if n < 10 {
        seq![((n + 48) as u8) as char]
    } else {
        decimal_digits(n / 10).push((((n % 10) + 48) as u8) as char)
    }
}

/// `i` in decimal, with a leading `-` when negative.
pub open spec fn decimal(i: int) -> Seq<char> {
    if i < 0 {
        seq!['-'] + decimal_digits((-i) as nat)
    } else {
        decimal_digits(i as nat)
    }
}

/// Relies on `format!("{}{}{}", ..)`, that is `Display` for `str` and for
/// `i16`: the prefix, the value's decimal digits with a leading `-` when
/// negative (no padding, no `+`), then the suffix.
#[verifier::external_body]
fn decimal_field(prefix: &str, v: i16, suffix: &str) -> (r: String)
    ensures
        r@ == prefix@ + decimal(v as int) + suffix@,
{
    format!("{}{}{}", prefix, v, suffix)
}

/// The status line for a session state.
pub open spec fn state_line(state: PhaseTuningState) -> Seq<char> {
    match state {
        PhaseTuningState::Init => "        State: Initializing..."@,
        PhaseTuningState::AwaitingParams => "        State: Waiting for controller..."@,
        PhaseTuningState::RunningDisabled => "        State: Disabled"@,
        PhaseTuningState::RunningEnabled => "        State: Enabled"@,
        PhaseTuningState::Disabling(_) => "        State: Disabling..."@,
    }
}

/// Column of the delay cursor on the gauge: 40 pixels either side of
/// column 63 for the full range, rounded toward zero.
pub open spec fn cursor_column(d: i16) -> int {
    63 + crate::gfx::primitives::trunc_div(d * 40, 400)
}

/// What the tuning screen draws below the app frame: the status line, the
/// delay with the value underlined, the gauge axis with its zero mark and
/// ticks, and the cursor arrow at the delay.
pub open spec fn tuning_strokes(font: BitmapFont, state: PhaseTuningState, d: i16) -> Seq<Stroke> {
    let value = "Phase Delay: "@ + decimal(d as int) + "ns"@;
    let cx = cursor_column(d);
    seq![
        text_stroke(font, (4, 20), state_line(state), true),
        text_stroke(font, (4, 28), value, true),
        (hline_region(text_advance(font, "Phase Delay: "@) - 1 + 4, text_advance(font, value) - 1 + 4, 30), true),
        (hline_region(23, 63, 40), true),
        (hline_region(64, 103, 32), true),
        (line_region((63, 40), (63, 32)), true),
        (line_region((cx - 2, 45), (cx, 43)), true),
        (line_region((cx + 2, 45), (cx, 43)), true),
        (line_region((cx, 43), (cx, 49)), true),
        (hline_region(23, 103, 49), true),
        (vline_region(23, 48, 50), true),
        (vline_region(103, 48, 50), true),
        (vline_region(63, 48, 50), true),
    ]
}

/// The decimal form of an `i16` is short.
proof fn lemma_decimal_short(i: int)
    requires
        -32768 <= i <= 32767,
    ensures
        decimal(i).len() <= 6,
{
    let n: nat = if i < 0 { (-i) as nat } else { i as nat };
    reveal_with_fuel(decimal_digits, 5);
    assert(n / 10 / 10 / 10 / 10 < 10);
}

/// The new label of the run button after an iteration that started in
/// `state` and led to `next`, when it changes.
pub open spec fn run_label(state: PhaseTuningState, next: PhaseTuningState) -> Option<&'static str> {
    match (state, next) {
        (PhaseTuningState::Init, _) => Some("--"),
        (PhaseTuningState::AwaitingParams, PhaseTuningState::RunningDisabled) => Some("Run"),
        (PhaseTuningState::RunningDisabled, PhaseTuningState::RunningEnabled) => Some("Stop"),
        (PhaseTuningState::RunningDisabled, PhaseTuningState::Init) => Some("---"),
        (PhaseTuningState::RunningEnabled, PhaseTuningState::Disabling(_)) => Some("---"),
        (PhaseTuningState::Disabling(true), _) => Some("---"),
        (PhaseTuningState::Disabling(false), _) => Some("Run"),
        _ => None,
    }
}

/// Screen for tuning the controller's feedback phase delay during a
/// closed-loop test run.
pub struct PhaseTuningView {
    pub buttons: [UiFrameButton; 3],
    pub state: PhaseTuningState,
    pub phase_delay: i16,
    pub delay_dirty: bool,
    pub t_last_keepalive: u64,
    pub t_elapsed: u64,
}

impl PhaseTuningView {
    pub open spec fn wf(&self) -> bool {
        self.t_last_keepalive <= self.t_elapsed && short_labels(self.buttons@)
    }

    /// Buttons "Back", "Run" and "Reset"; no run, delay zero.
    pub fn new() -> (r: Self)
        ensures
            r.wf(),
            r.state == PhaseTuningState::RunningDisabled,
            r.phase_delay == 0 && !r.delay_dirty,
            r.t_elapsed == 0 && r.t_last_keepalive == 0,
            r.buttons@[0].text == "Back" && r.buttons@[1].text == "Run" && r.buttons@[2].text == "Reset",
    {
        proof {
            reveal_strlit("Back");
            reveal_strlit("Run");
            reveal_strlit("Reset");
        }
        let r = PhaseTuningView {
            buttons: [UiFrameButton::new("Back"), UiFrameButton::new("Run"), UiFrameButton::new("Reset")],
            state: PhaseTuningState::RunningDisabled,
            phase_delay: 0,
            delay_dirty: false,
            t_elapsed: 0,
            t_last_keepalive: 0,
        };
        assert(short_labels(r.buttons@)) by {
            assert(r.buttons@[0].text@.len() == 4);
            assert(r.buttons@[1].text@.len() == 3);
            assert(r.buttons@[2].text@.len() == 5);
        }
        r
    }

    /// Entering the screen: buttons released, session restarted, delay
    /// zero.
    pub fn start(&mut self)
        requires
            old(self).wf(),
        ensures
            final(self).wf(),
            final(self).state == PhaseTuningState::Init,
            final(self).phase_delay == 0 && !final(self).delay_dirty,
            final(self).buttons@[1].text == "---",
            forall|k: int| 0 <= k < 3 ==> !(#[trigger] final(self).buttons@[k]).press && !final(self).buttons@[k].down,
            final(self).t_elapsed == old(self).t_elapsed,
            final(self).t_last_keepalive == old(self).t_last_keepalive,
    {
        proof {
            reveal_strlit("---");
        }
        self.buttons[0].reset();
        self.buttons[1].reset();
        self.buttons[2].reset();
        self.state = PhaseTuningState::Init;
        self.buttons[1].text = "---";
        self.phase_delay = 0;
        self.delay_dirty = false;
        assert(short_labels(self.buttons@)) by {
            assert(self.buttons@[0].text == old(self).buttons@[0].text);
            assert(self.buttons@[2].text == old(self).buttons@[2].text);
            assert(self.buttons@[1].text@.len() == 3);
        }
    }
    /// `x` wrapped into `i16`.
    fn wrapped_i16(x: i32) -> (r: i16)
        ensures
            r == wrap_i16(x as int),
    {
        let u = (x as i64 + 0x8000_8000) as u64;
        let m = u % 0x1_0000;
        assert(m == (x + 0x8000) % 0x1_0000) by {
            assert(u == (x + 0x8000) + 0x8000 * 0x1_0000);
        }
        (m as i64 - 0x8000) as i16
    }

    /// The session part of an iteration: see `session_step`. A reported
    /// delay is taken when parameters are awaited.
    fn advance_session(&mut self, replies: &[i16]) -> (r: (bool, Vec<TuningCommand>))
        requires
            old(self).wf(),
        ensures
            final(self).wf(),
            ({
                let run = old(self).buttons@[1].press;
                let reset = old(self).buttons@[2].press;
                let due = old(self).t_elapsed - old(self).t_last_keepalive >= KEEPALIVE_INTERVAL_US;
                let replied = replies@.len() > 0;
                let step = session_step(old(self).state, run, reset, due, replied);
                &&& final(self).state == step.0
                &&& r.0 == step.1
                &&& r.1@ == step.2
                &&& final(self).phase_delay == if old(self).state == PhaseTuningState::AwaitingParams && replied {
                    replies@.last()
                } else {
                    old(self).phase_delay
                }
                &&& final(self).delay_dirty == old(self).delay_dirty
                &&& final(self).t_elapsed == old(self).t_elapsed
                &&& final(self).t_last_keepalive == if old(self).state == PhaseTuningState::RunningEnabled && !run
                    && !reset && due {
                    old(self).t_elapsed
                } else {
                    old(self).t_last_keepalive
                }
                &&& final(self).buttons@[1].text == match run_label(old(self).state, step.0) {
                    Some(l) => l,
                    None => old(self).buttons@[1].text,
                }
                &&& final(self).buttons@[0] == old(self).buttons@[0]
                &&& final(self).buttons@[1].press == old(self).buttons@[1].press
                &&& final(self).buttons@[1].down == old(self).buttons@[1].down
                &&& final(self).buttons@[2].press == old(self).buttons@[2].press
                &&& final(self).buttons@[2].down == old(self).buttons@[2].down
            }),
    {
        proof {
            reveal_strlit("--");
            reveal_strlit("---");
            reveal_strlit("Run");
            reveal_strlit("Stop");
            reveal_strlit("Reset");
        }
        let mut commands: Vec<TuningCommand> = Vec::new();
        let replied = replies.len() > 0;
        let control_enabled = match self.state {
            PhaseTuningState::Init => {
                self.state = PhaseTuningState::AwaitingParams;
                self.buttons[1].text = "--";
                commands.push(TuningCommand::RequestDelay);
                false
            },
            PhaseTuningState::AwaitingParams => {
                if replied {
                    self.phase_delay = replies[replies.len() - 1];
                    self.state = PhaseTuningState::RunningDisabled;
                    self.buttons[1].text = "Run";
                    self.buttons[2].text = "Reset";
                }
                false
            },
            PhaseTuningState::RunningDisabled => {
                if self.buttons[2].press {
                    self.buttons[1].text = "---";
                    self.state = PhaseTuningState::Init;
                }
                if self.buttons[1].press {
                    commands.push(TuningCommand::StartTestRun);
                    self.buttons[1].text = "Stop";
                    self.state = PhaseTuningState::RunningEnabled;
                }
                true
            },
            PhaseTuningState::RunningEnabled => {
                if self.buttons[2].press {
                    self.buttons[1].text = "---";
                    self.state = PhaseTuningState::Disabling(true);
                    false
                } else if self.buttons[1].press {
                    self.buttons[1].text = "---";
                    self.state = PhaseTuningState::Disabling(false);
                    false
                } else {
                    if self.t_elapsed - self.t_last_keepalive >= KEEPALIVE_INTERVAL_US {
                        commands.push(TuningCommand::KeepAlive);
                        self.t_last_keepalive = self.t_elapsed;
                    }
                    true
                }
            },
            PhaseTuningState::Disabling(reinit) => {
                commands.push(TuningCommand::Stop);
                if reinit {
                    self.buttons[1].text = "---";
                    self.state = PhaseTuningState::Init;
                } else {
                    self.buttons[1].text = "Run";
                    self.state = PhaseTuningState::RunningDisabled;
                }
                false
            },
        };
        proof {
            assert(short_labels(self.buttons@)) by {
                assert(self.buttons@[0].text == old(self).buttons@[0].text);
                assert(self.buttons@[1].text@.len() <= 4 || self.buttons@[1].text == old(self).buttons@[1].text);
                assert(self.buttons@[2].text@.len() <= 5 || self.buttons@[2].text == old(self).buttons@[2].text);
            }
        }
        (control_enabled, commands)
    }

    /// One iteration, `dt_micros` after the last, with the delay values
    /// that the controller reported since (in order of arrival). Moves the
    /// session on (see `session_step`); while a test can be tuned, the
    /// encoder moves the delay within `[-400, 400]` (its button resets it
    /// to zero) and a change is sent and read back; a reported delay
    /// replaces the local one. A release of the first button stops any run
    /// and asks to go back to the home screen.
    pub fn update(&mut self, dt_micros: u64, input_state: &InputState, replies: &[i16]) -> (r: TuningOutcome)
        requires
            old(self).wf(),
            old(self).t_elapsed + dt_micros <= u64::MAX,
        ensures
            final(self).wf(),
            ({
                let run = input_state.buttons@[1].released;
                let reset = input_state.buttons@[2].released;
                let back = input_state.buttons@[0].released;
                let t = old(self).t_elapsed + dt_micros;
                let due = t - old(self).t_last_keepalive >= KEEPALIVE_INTERVAL_US;
                let replied = replies@.len() > 0;
                let step = session_step(old(self).state, run, reset, due, replied);
                let d0 = if old(self).state == PhaseTuningState::AwaitingParams && replied {
                    replies@.last()
                } else {
                    old(self).phase_delay
                };
                let d1 = if step.1 {
                    stepped_delay(d0, input_state.encoder.delta, input_state.encoder.button.pressed)
                } else {
                    d0 as int
                };
                let changed = step.1 && d1 != d0;
                &&& final(self).t_elapsed == t
                &&& final(self).state == step.0
                &&& r.inbox_consumed == (old(self).state == PhaseTuningState::AwaitingParams || step.1)
                &&& final(self).phase_delay == if step.1 && replied { replies@.last() as int } else { d1 }
                &&& final(self).delay_dirty == if step.1 && replied {
                    false
                } else if changed {
                    true
                } else {
                    old(self).delay_dirty
                }
                &&& r.commands@ == step.2 + (if changed {
                    seq![TuningCommand::SetDelay(d1 as i16), TuningCommand::RequestDelay]
                } else {
                    seq![]
                }) + (if back { seq![TuningCommand::Stop] } else { seq![] })
                &&& r.next_view == if back { Some(ViewKind::ViewPicker) } else { None }
                &&& final(self).t_last_keepalive == if old(self).state == PhaseTuningState::RunningEnabled && !run
                    && !reset && due {
                    t
                } else {
                    old(self).t_last_keepalive as int
                }
                &&& final(self).buttons@[1].text == match run_label(old(self).state, step.0) {
                    Some(l) => l,
                    None => old(self).buttons@[1].text,
                }
            }),
    {
        proof {
            reveal_strlit("--");
            reveal_strlit("---");
            reveal_strlit("Run");
            reveal_strlit("Stop");
            reveal_strlit("Reset");
        }
        self.t_elapsed = self.t_elapsed + dt_micros;
        update_app_frame(input_state, &mut self.buttons);
        assert(self.buttons@[0].text == old(self).buttons@[0].text);
        assert(self.buttons@[1].text == old(self).buttons@[1].text);
        assert(self.buttons@[2].text == old(self).buttons@[2].text);
        let replied = replies.len() > 0;
        let consumes_inbox = matches!(self.state, PhaseTuningState::AwaitingParams);
        let (control_enabled, mut commands) = self.advance_session(replies);
        let ghost session_commands = commands@;
        let ghost d0 = self.phase_delay;
        if control_enabled {
            let old_phase_delay = self.phase_delay;
            let sum = self.phase_delay as i32 + Self::wrapped_i16(input_state.encoder.delta) as i32;
            let saturated: i16 = if sum > i16::MAX as i32 {
                i16::MAX
            } else if sum < i16::MIN as i32 {
                i16::MIN
            } else {
                sum as i16
            };
            self.phase_delay = if saturated < -TUNING_RANGE {
                -TUNING_RANGE
            } else if saturated > TUNING_RANGE {
                TUNING_RANGE
            } else {
                saturated
            };
            if input_state.encoder.button.pressed {
                self.phase_delay = 0;
            }
            if self.phase_delay != old_phase_delay {
                self.delay_dirty = true;
                commands.push(TuningCommand::SetDelay(self.phase_delay));
                commands.push(TuningCommand::RequestDelay);
            }
            if replied {
                self.phase_delay = replies[replies.len() - 1];
                self.delay_dirty = false;
            }
        }
        let ghost tuned_commands = commands@;
        let back = self.buttons[0].press;
        if back {
            commands.push(TuningCommand::Stop);
        }
        proof {
            let changed_cmds = tuned_commands.subrange(session_commands.len() as int, tuned_commands.len() as int);
            assert(tuned_commands =~= session_commands + changed_cmds);
            if back {
                assert(commands@ =~= tuned_commands + seq![TuningCommand::Stop]);
            } else {
                assert(commands@ =~= tuned_commands + seq![]);
            }
        }
        TuningOutcome {
            next_view: if back {
                Some(ViewKind::ViewPicker)
            } else {
                None
            },
            commands,
            inbox_consumed: consumes_inbox || control_enabled,
        }
    }
    /// Draws the app frame titled "Feedback Phase Tuning" with its three
    /// soft buttons, then the tuning display (see `tuning_strokes`).
    pub fn render(&mut self, framebuffer: &mut Framebuffer, font: &BitmapFont)
        requires
            old(self).wf(),
            font.wf(),
            glyphs_bounded(font.ranges@, 8),
        ensures
            *final(self) == *old(self),
            drawn(
                *old(framebuffer),
                *final(framebuffer),
                app_frame_strokes(*font, "Feedback Phase Tuning"@, old(self).buttons@) + tuning_strokes(
                    *font,
                    old(self).state,
                    old(self).phase_delay,
                ),
            ),
    {
        proof {
            reveal_strlit("Feedback Phase Tuning");
            reveal_strlit("Phase Delay: ");
            reveal_strlit("ns");
            reveal_strlit("        State: Initializing...");
            reveal_strlit("        State: Waiting for controller...");
            reveal_strlit("        State: Disabled");
            reveal_strlit("        State: Enabled");
            reveal_strlit("        State: Disabling...");
        }
        let ghost f0 = *framebuffer;
        render_app_frame(framebuffer, font, "Feedback Phase Tuning", &mut self.buttons);
        assert(self.buttons =~= old(self).buttons);
        let ghost f1 = *framebuffer;
        let ghost mut strokes: Seq<Stroke> = seq![];
        proof {
            lemma_drawn_start(f1);
        }
        let state_string = match self.state {
            PhaseTuningState::Init => "        State: Initializing...",
            PhaseTuningState::AwaitingParams => "        State: Waiting for controller...",
            PhaseTuningState::RunningDisabled => "        State: Disabled",
            PhaseTuningState::RunningEnabled => "        State: Enabled",
            PhaseTuningState::Disabling(_) => "        State: Disabling...",
        };
        assert(state_string@ == state_line(self.state));
        proof {
            lemma_bounded_text_fits(*font, (4, 20), state_string@, 8);
        }
        let ghost g = *framebuffer;
        font.draw_text_line(framebuffer, (4, 20), state_string, true);
        proof {
            let st = text_stroke(*font, (4, 20), state_string@, true);
            lemma_drawn_then_painted(f1, g, *framebuffer, strokes, st.0, true);
            strokes = strokes.push(st);
        }
        let phase_delay_string = decimal_field("Phase Delay: ", self.phase_delay, "ns");
        let value = phase_delay_string.as_str();
        assert(value@.len() <= 30) by {
            lemma_decimal_short(self.phase_delay as int);
        }
        proof {
            lemma_bounded_text_fits(*font, (4, 28), value@, 8);
        }
        let ghost g = *framebuffer;
        font.draw_text_line(framebuffer, (4, 28), value, true);
        proof {
            let st = text_stroke(*font, (4, 28), value@, true);
            lemma_drawn_then_painted(f1, g, *framebuffer, strokes, st.0, true);
            strokes = strokes.push(st);
            lemma_bounded_text_fits(*font, (0, 0), "Phase Delay: "@, 8);
            lemma_bounded_text_fits(*font, (0, 0), value@, 8);
        }
        let x0 = font.get_text_width("Phase Delay: ") + 4;
        let x1 = font.get_text_width(value) + 4;
        let ghost g = *framebuffer;
        draw_hline(framebuffer, x0, x1, 30, true);
        proof {
            let st = (hline_region(x0 as int, x1 as int, 30), true);
            lemma_drawn_then_painted(f1, g, *framebuffer, strokes, st.0, true);
            strokes = strokes.push(st);
        }
        let ghost g = *framebuffer;
        draw_hline(framebuffer, 63 - 40, 63, 40, true);
        proof {
            lemma_drawn_then_painted(f1, g, *framebuffer, strokes, hline_region(23, 63, 40), true);
            strokes = strokes.push((hline_region(23, 63, 40), true));
        }
        let ghost g = *framebuffer;
        draw_hline(framebuffer, 64, 63 + 40, 32, true);
        proof {
            lemma_drawn_then_painted(f1, g, *framebuffer, strokes, hline_region(64, 103, 32), true);
            strokes = strokes.push((hline_region(64, 103, 32), true));
        }
        let ghost g = *framebuffer;
        draw_line(framebuffer, (63, 40), (63, 32), true);
        proof {
            lemma_drawn_then_painted(f1, g, *framebuffer, strokes, line_region((63, 40), (63, 32)), true);
            strokes = strokes.push((line_region((63, 40), (63, 32)), true));
        }
        let cursor_x = 63 + crate::gfx::primitives::div_toward_zero(self.phase_delay as isize * 40, TUNING_RANGE as isize);
        proof {
            let q = crate::gfx::primitives::trunc_div(self.phase_delay * 40, 400);
            assert(-3300 <= q <= 3300) by (nonlinear_arith)
                requires
                    -32768 <= self.phase_delay <= 32767,
                    q == crate::gfx::primitives::trunc_div(self.phase_delay * 40, 400),
            ;
        }
        let ghost cx = cursor_x as int;
        let ghost g = *framebuffer;
        draw_line(framebuffer, (cursor_x - 2, 45), (cursor_x, 43), true);
        proof {
            let r = line_region((cx - 2, 45), (cx, 43));
            lemma_drawn_then_painted(f1, g, *framebuffer, strokes, r, true);
            strokes = strokes.push((r, true));
        }
        let ghost g = *framebuffer;
        draw_line(framebuffer, (cursor_x + 2, 45), (cursor_x, 43), true);
        proof {
            let r = line_region((cx + 2, 45), (cx, 43));
            lemma_drawn_then_painted(f1, g, *framebuffer, strokes, r, true);
            strokes = strokes.push((r, true));
        }
        let ghost g = *framebuffer;
        assert(crate::gfx::primitives::size(cx - cx) == 0);
        assert(crate::gfx::primitives::size(49 - 43) == 6);
        assert(0int * 6int == 0);
        draw_line(framebuffer, (cursor_x, 43), (cursor_x, 49), true);
        proof {
            let r = line_region((cx, 43), (cx, 49));
            lemma_drawn_then_painted(f1, g, *framebuffer, strokes, r, true);
            strokes = strokes.push((r, true));
        }
        let ghost g = *framebuffer;
        draw_hline(framebuffer, 63 - 40, 63 + 40, 49, true);
        proof {
            lemma_drawn_then_painted(f1, g, *framebuffer, strokes, hline_region(23, 103, 49), true);
            strokes = strokes.push((hline_region(23, 103, 49), true));
        }
        let ghost g = *framebuffer;
        draw_vline(framebuffer, 63 - 40, 48, 50, true);
        proof {
            lemma_drawn_then_painted(f1, g, *framebuffer, strokes, vline_region(23, 48, 50), true);
            strokes = strokes.push((vline_region(23, 48, 50), true));
        }
        let ghost g = *framebuffer;
        draw_vline(framebuffer, 63 + 40, 48, 50, true);
        proof {
            lemma_drawn_then_painted(f1, g, *framebuffer, strokes, vline_region(103, 48, 50), true);
            strokes = strokes.push((vline_region(103, 48, 50), true));
        }
        let ghost g = *framebuffer;
        draw_vline(framebuffer, 63, 48, 50, true);
        proof {
            lemma_drawn_then_painted(f1, g, *framebuffer, strokes, vline_region(63, 48, 50), true);
            strokes = strokes.push((vline_region(63, 48, 50), true));
            assert(strokes =~= tuning_strokes(*font, old(self).state, old(self).phase_delay));
            lemma_drawn_concat(
                f0,
                f1,
                *framebuffer,
                app_frame_strokes(*font, "Feedback Phase Tuning"@, old(self).buttons@),
                strokes,
            );
        }
    }
}

} // verus!
