use front_panel::app_views::phase_tuning::{PhaseTuningState, PhaseTuningView, TuningCommand};
use front_panel::app_views::view_picker::ViewPickerView;
use front_panel::app_views::ping_test::PingTestView;
use front_panel::app_views::{render_app_frame, UiFrameButton, ViewKind};
use front_panel::framebuffer::Framebuffer;
use front_panel::gfx::fonts::basic_5px;
use front_panel::input::{ButtonState, EncoderState, InputState};
use front_panel::ui::list_picker::ListPicker;

const UP: ButtonState = ButtonState { down: false, pressed: false, released: false };
const REL: ButtonState = ButtonState { down: false, pressed: false, released: true };

fn input(buttons: [ButtonState; 3], delta: i32, pressed: bool) -> InputState {
    InputState {
        encoder: EncoderState { count: 0, delta, button: ButtonState { down: pressed, pressed, released: false } },
        buttons,
    }
}

#[test]
fn tuning_session_starts_and_tunes() {
    let mut v = PhaseTuningView::new();
    v.start();
    assert_eq!(v.state, PhaseTuningState::Init);
    let out = v.update(1000, &input([UP; 3], 0, false), &[]);
    assert_eq!(out.commands, vec![TuningCommand::RequestDelay]);
    assert_eq!(v.state, PhaseTuningState::AwaitingParams);
    assert!(!out.inbox_consumed);
    assert_eq!(v.buttons[1].text, "--");
    let out = v.update(1000, &input([UP; 3], 3, false), &[]);
    assert!(out.commands.is_empty());
    assert!(out.inbox_consumed);
    let out = v.update(1000, &input([UP; 3], 3, false), &[17, -25]);
    assert!(out.commands.is_empty());
    assert_eq!(v.state, PhaseTuningState::RunningDisabled);
    assert_eq!(v.phase_delay, -25);
    assert_eq!(v.buttons[1].text, "Run");
    // tuning while disabled
    let out = v.update(1000, &input([UP; 3], 5, false), &[]);
    assert_eq!(out.commands, vec![TuningCommand::SetDelay(-20), TuningCommand::RequestDelay]);
    assert!(v.delay_dirty);
    let out = v.update(1000, &input([UP; 3], 0, false), &[-20]);
    assert!(out.commands.is_empty() && out.inbox_consumed);
    assert!(!v.delay_dirty);
}

#[test]
fn tuning_run_keepalive_and_stop() {
    let mut v = PhaseTuningView::new();
    let out = v.update(0, &input([UP, REL, UP], 0, false), &[]);
    assert_eq!(out.commands, vec![TuningCommand::StartTestRun]);
    assert_eq!(v.state, PhaseTuningState::RunningEnabled);
    assert_eq!(v.buttons[1].text, "Stop");
    let out = v.update(5_000, &input([UP; 3], 0, false), &[]);
    assert!(out.commands.is_empty());
    let out = v.update(5_000, &input([UP; 3], 0, false), &[]);
    assert_eq!(out.commands, vec![TuningCommand::KeepAlive]);
    let out = v.update(1, &input([UP, REL, UP], 0, false), &[]);
    assert!(out.commands.is_empty());
    assert_eq!(v.state, PhaseTuningState::Disabling(false));
    let out = v.update(1, &input([UP; 3], 0, false), &[]);
    assert_eq!(out.commands, vec![TuningCommand::Stop]);
    assert_eq!(v.state, PhaseTuningState::RunningDisabled);
    let out = v.update(1, &input([REL, UP, UP], 0, false), &[]);
    assert_eq!(out.next_view, Some(ViewKind::ViewPicker));
    assert_eq!(out.commands, vec![TuningCommand::Stop]);
}

#[test]
fn tuning_delay_clamps_and_resets() {
    let mut v = PhaseTuningView::new();
    let out = v.update(0, &input([UP; 3], 1000, false), &[]);
    assert_eq!(v.phase_delay, 400);
    assert_eq!(out.commands, vec![TuningCommand::SetDelay(400), TuningCommand::RequestDelay]);
    // the delta is cast to i16: 70000 wraps to 4464
    v.update(0, &input([UP; 3], -70000, false), &[]);
    assert_eq!(v.phase_delay, -400);
    v.update(0, &input([UP; 3], 70000, false), &[]);
    assert_eq!(v.phase_delay, 400);
    let out = v.update(0, &input([UP; 3], 7, true), &[]);
    assert_eq!(v.phase_delay, 0);
    assert_eq!(out.commands, vec![TuningCommand::SetDelay(0), TuningCommand::RequestDelay]);
}

#[test]
fn tuning_screen_draws_gauge() {
    let font = basic_5px();
    let mut v = PhaseTuningView::new();
    v.update(0, &input([UP; 3], 400, false), &[]);
    let mut fb = Framebuffer::new();
    v.render(&mut fb, &font);
    for y in 32..=40 {
        assert!(fb.get((63, y)));
    }
    for y in 43..=49 {
        assert!(fb.get((103, y)));
    }
    assert!(fb.get((23, 49)) && fb.get((23, 48)) && fb.get((23, 50)));
    assert!(fb.get((101, 45)) && fb.get((105, 45)));
    assert!(fb.get((0, 0)) && fb.get((127, 63)));
}

#[test]
fn list_picker_draws_box_rules_and_highlight() {
    let font = basic_5px();
    let mut p = ListPicker::new([(1u8, "a"), (2, "b"), (3, "c")], (2, 20), 50, 30);
    let mut fb = Framebuffer::new();
    p.render(&mut fb, &font);
    // outline: rows 20 and 50 from x 2 to 51, columns 2 and 52
    assert!(fb.get((2, 20)) && fb.get((51, 20)) && fb.get((52, 20)) && !fb.get((53, 20)));
    assert!(fb.get((2, 50)) && fb.get((52, 35)) && fb.get((2, 35)));
    // rules between items
    assert!(fb.get((10, 30)) && fb.get((10, 40)));
    // highlight frame of the first item
    assert!(fb.get((3, 21)) && fb.get((51, 29)) && fb.get((3, 29)));
    assert!(!fb.get((20, 25)));
}

#[test]
fn list_picker_scrolls_to_cursor() {
    let font = basic_5px();
    let mut p = ListPicker::new([(1u8, "a"), (2, "b"), (3, "c"), (4, "d"), (5, "e")], (0, 0), 40, 20);
    let step = InputState {
        encoder: EncoderState { count: 0, delta: 4, button: UP },
        buttons: [UP; 3],
    };
    p.update(&step.encoder);
    assert_eq!(*p.selected(), 5);
    let mut fb = Framebuffer::new();
    p.render(&mut fb, &font);
    // item 4 sits at 40..50 in the contents; scrolled by -30 it shows at 10..20
    assert!(fb.get((1, 11)) && fb.get((39, 19)));
}

#[test]
fn home_screen_renders() {
    let font = basic_5px();
    let mut v = ViewPickerView::new();
    let mut fb = Framebuffer::new();
    v.render(&mut fb, &font);
    assert!(fb.get((0, 0)) && fb.get((64, 10)));
    assert!(!fb.get((64, 53)));
    // the list box starts at (2, 20)
    assert!(fb.get((2, 20)) && fb.get((124, 40)));
}

#[test]
fn ping_screen_shows_hex_sequence_numbers() {
    let font = basic_5px();
    let mut v = PingTestView::new();
    v.sent_seq = 0x0a1b_2c3d;
    v.received_seq = Some(0xdead_beef);
    let mut fb = Framebuffer::new();
    v.render(&mut fb, &font);
    let mut expected = Framebuffer::new();
    let mut buttons = [UiFrameButton::new("Back")];
    render_app_frame(&mut expected, &font, "Fiber Ping Test", &mut buttons);
    font.draw_text_line(&mut expected, (5, 16), "Tx: 0a1b2c3d", true);
    font.draw_text_line(&mut expected, (5, 25), "Rx: deadbeef", true);
    assert_eq!(fb.buffer, expected.buffer);

    v.received_seq = None;
    v.sent_seq = 7;
    let mut fb = Framebuffer::new();
    v.render(&mut fb, &font);
    let mut expected = Framebuffer::new();
    render_app_frame(&mut expected, &font, "Fiber Ping Test", &mut buttons);
    font.draw_text_line(&mut expected, (5, 16), "Tx: 00000007", true);
    font.draw_text_line(&mut expected, (5, 25), "Rx: --", true);
    assert_eq!(fb.buffer, expected.buffer);
}

#[test]
fn tuning_screen_shows_decimal_delay() {
    let font = basic_5px();
    let mut v = PhaseTuningView::new();
    v.phase_delay = -25;
    let mut fb = Framebuffer::new();
    v.render(&mut fb, &font);
    let mut text_only = Framebuffer::new();
    font.draw_text_line(&mut text_only, (4, 28), "Phase Delay: -25ns", true);
    // every pixel of the expected text is lit
    for y in 20..32 {
        for x in 0..128 {
            if text_only.get((x, y)) {
                assert!(fb.get((x, y)), "({}, {})", x, y);
            }
        }
    }
    // the value is underlined from the end of the label to the end of the text
    let x0 = font.get_text_width("Phase Delay: ") + 4;
    let x1 = font.get_text_width("Phase Delay: -25ns") + 4;
    for x in x0..=x1 {
        assert!(fb.get((x, 30)));
    }
    assert!(!fb.get((x1 + 1, 30)));
}
