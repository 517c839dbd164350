use front_panel::app_views::debug_led::DebugLedView;
use front_panel::app_views::ping_test::PingTestView;
use front_panel::app_views::view_picker::ViewPickerView;
use front_panel::app_views::{render_app_frame, update_app_frame, UiFrameButton, ViewKind};
use front_panel::framebuffer::Framebuffer;
use front_panel::gfx::draw_target::{DrawTarget, MaskedDrawTarget, RectMask, TranslatedDrawTarget};
use front_panel::gfx::fonts::basic_5px;
use front_panel::gfx::primitives::{draw_filled_rect, draw_hline, draw_line, draw_rect, draw_vline};
use front_panel::input::{ButtonState, EncoderState, InputState};
use front_panel::ui::list_picker::ListPicker;

fn lit(fb: &Framebuffer) -> Vec<(isize, isize)> {
    let mut v = Vec::new();
    for y in 0..64 {
        for x in 0..128 {
            if fb.get((x, y)) {
                v.push((x, y));
            }
        }
    }
    v
}

#[test]
fn hline_either_direction() {
    let mut a = Framebuffer::new();
    draw_hline(&mut a, 2, 5, 7, true);
    assert_eq!(lit(&a), vec![(2, 7), (3, 7), (4, 7), (5, 7)]);
    let mut b = Framebuffer::new();
    draw_hline(&mut b, 5, 2, 7, true);
    assert_eq!(lit(&a), lit(&b));
}

#[test]
fn vline_clips_at_screen_edge() {
    let mut a = Framebuffer::new();
    draw_vline(&mut a, 0, 61, 70, true);
    assert_eq!(lit(&a), vec![(0, 61), (0, 62), (0, 63)]);
}

#[test]
fn rect_outline_and_fill() {
    let mut a = Framebuffer::new();
    draw_rect(&mut a, (1, 1), (3, 3), true);
    assert_eq!(lit(&a).len(), 8);
    assert!(!a.get((2, 2)));
    draw_filled_rect(&mut a, (3, 3), (1, 1), true);
    assert_eq!(lit(&a).len(), 9);
    draw_filled_rect(&mut a, (2, 2), (2, 2), false);
    assert!(!a.get((2, 2)));
    assert_eq!(lit(&a).len(), 8);
}

#[test]
fn line_steps_along_longer_axis() {
    let mut a = Framebuffer::new();
    draw_line(&mut a, (0, 0), (4, 2), true);
    // y = (2 * x) / 4, rounded toward zero
    assert_eq!(lit(&a), vec![(0, 0), (1, 0), (2, 1), (3, 1), (4, 2)]);
    let mut b = Framebuffer::new();
    draw_line(&mut b, (4, 2), (0, 0), true);
    // from the other end: y = 2 + (-2 * (x - 4)) / -4
    assert_eq!(lit(&b), vec![(0, 0), (1, 1), (2, 1), (3, 2), (4, 2)]);
    let mut c = Framebuffer::new();
    draw_line(&mut c, (10, 10), (11, 14), true);
    assert_eq!(lit(&c), vec![(10, 10), (10, 11), (10, 12), (10, 13), (11, 14)]);
    let mut d = Framebuffer::new();
    draw_line(&mut d, (5, 5), (5, 5), true);
    assert_eq!(lit(&d), vec![(5, 5)]);
    let mut e = Framebuffer::new();
    draw_line(&mut e, (3, 9), (3, 7), true);
    assert_eq!(lit(&e), vec![(3, 7), (3, 8), (3, 9)]);
}

#[test]
fn translated_target_shifts_positions() {
    let fb = Framebuffer::new();
    let mut t = TranslatedDrawTarget::new(fb, (10, 20));
    t.set_pixel((1, 2), true);
    assert!(t.get_pixel((1, 2)));
    let fb = t.into_inner();
    assert_eq!(lit(&fb), vec![(11, 22)]);
}

#[test]
fn masked_target_clips_writes() {
    let fb = Framebuffer::new();
    let mask = RectMask { upper_left: (2, 2), lower_right: (4, 4) };
    let mut m = MaskedDrawTarget::new(fb, mask);
    draw_hline(&mut m, 0, 10, 3, true);
    let fb = m.into_inner();
    assert_eq!(lit(&fb), vec![(2, 3), (3, 3), (4, 3)]);
}

#[test]
fn font_finds_glyphs_by_range() {
    let font = basic_5px();
    assert_eq!(font.line_height, 8);
    let a = font.find_glyph('A').unwrap();
    assert_eq!((a.width, a.height, a.baseline, a.advance()), (3, 5, 4, 4));
    assert_eq!(a.bitmap, vec![234, 91]);
    assert!(font.find_glyph(' ').is_some());
    assert!(font.find_glyph('~').is_some());
    assert!(font.find_glyph('\u{7f}').is_none());
    assert!(font.find_glyph('é').is_none());
}

#[test]
fn text_width_sums_advances() {
    let font = basic_5px();
    assert_eq!(font.get_text_width(""), -1);
    assert_eq!(font.get_text_width("A"), 3);
    assert_eq!(font.get_text_width("AA"), 7);
    assert_eq!(font.get_text_width("A\u{7f}A"), 7);
}

#[test]
fn glyph_draws_above_baseline() {
    let font = basic_5px();
    let mut fb = Framebuffer::new();
    font.draw_text_line(&mut fb, (10, 20), "A", true);
    // " * " / "* *" / "***" / "* *" / "* *", bottom row on the baseline
    assert_eq!(
        lit(&fb),
        vec![
            (11, 16),
            (10, 17),
            (12, 17),
            (10, 18),
            (11, 18),
            (12, 18),
            (10, 19),
            (12, 19),
            (10, 20),
            (12, 20),
        ]
    );
    let mut fb2 = Framebuffer::new();
    font.draw_text_line(&mut fb2, (10, 20), "AA", true);
    assert!(fb2.get((15, 16)) && fb2.get((14, 20)) && fb2.get((16, 20)));
    assert_eq!(lit(&fb2).len(), 20);
}

fn input(buttons: [ButtonState; 3], delta: i32, pressed: bool, released: bool) -> InputState {
    InputState {
        encoder: EncoderState {
            count: 0,
            delta,
            button: ButtonState { down: pressed, pressed, released },
        },
        buttons,
    }
}

const UP: ButtonState = ButtonState { down: false, pressed: false, released: false };

#[test]
fn app_frame_buttons_follow_input() {
    let mut buttons = [UiFrameButton::new("Back"), UiFrameButton::new("On")];
    let held = ButtonState { down: true, pressed: true, released: false };
    let rel = ButtonState { down: false, pressed: false, released: true };
    update_app_frame(&input([held, rel, UP], 0, false, false), &mut buttons);
    assert!(buttons[0].down && !buttons[0].press);
    assert!(!buttons[1].down && buttons[1].press);
    buttons[0].reset();
    assert!(!buttons[0].down && !buttons[0].press);
    assert_eq!(buttons[0].text, "Back");
}

#[test]
fn app_frame_draws_border_and_bar() {
    let font = basic_5px();
    let mut fb = Framebuffer::new();
    render_app_frame(&mut fb, &font, "", &mut []);
    assert!(fb.get((0, 0)) && fb.get((127, 63)) && fb.get((64, 10)));
    assert!(!fb.get((64, 53)));
    let mut fb = Framebuffer::new();
    let mut buttons = [UiFrameButton::new(""), UiFrameButton::new("")];
    buttons[0].down = true;
    render_app_frame(&mut fb, &font, "", &mut buttons);
    assert!(fb.get((64, 53)) && fb.get((32, 58)) && fb.get((64, 58)) && !fb.get((96, 58)));
    // the held button's cell is filled
    assert!(fb.get((10, 58)) && !fb.get((40, 58)));
}

#[test]
fn list_picker_moves_arms_and_picks() {
    let mut p = ListPicker::new([(10u8, "a"), (20, "b"), (30, "c")], (0, 0), 50, 30);
    assert_eq!(*p.selected(), 10);
    assert_eq!(p.update(&input([UP; 3], 5, false, false).encoder), None);
    assert_eq!(*p.selected(), 30);
    assert_eq!(p.update(&input([UP; 3], -1, true, false).encoder), None);
    assert_eq!(*p.selected(), 20);
    assert_eq!(p.update(&input([UP; 3], 0, false, true).encoder), Some(20));
    // a turn while armed disarms and moves
    assert_eq!(p.update(&input([UP; 3], 0, true, false).encoder), None);
    assert_eq!(p.update(&input([UP; 3], -7, false, false).encoder), None);
    assert_eq!(*p.selected(), 10);
    assert_eq!(p.update(&input([UP; 3], 0, false, true).encoder), None);
    p.reset();
    assert_eq!(*p.selected(), 10);
}

#[test]
fn view_picker_opens_tool() {
    let mut v = ViewPickerView::new();
    v.start();
    assert_eq!(v.update(&input([UP; 3], 1, false, false)), None);
    assert_eq!(v.update(&input([UP; 3], 0, true, false)), None);
    assert_eq!(v.update(&input([UP; 3], 0, false, true)), Some(ViewKind::PingTest));
}

#[test]
fn debug_led_toggles() {
    let rel = ButtonState { down: false, pressed: false, released: true };
    let mut v = DebugLedView::new();
    assert_eq!(v.update(&input([UP, rel, UP], 0, false, false)), (None, Some(true)));
    assert_eq!(v.buttons[1].text, "Off");
    assert_eq!(v.update(&input([UP, rel, UP], 0, false, false)), (None, Some(false)));
    assert_eq!(v.buttons[1].text, "LED On");
    assert_eq!(v.update(&input([UP, UP, UP], 0, false, false)), (None, None));
    assert_eq!(v.update(&input([rel, UP, UP], 0, false, false)), (Some(ViewKind::ViewPicker), None));
    v.start();
    assert_eq!(v.state, None);
}

#[test]
fn ping_test_sends_on_interval() {
    let mut v = PingTestView::new();
    assert_eq!(v.update(50_000, &input([UP; 3], 0, false, false), None), (None, None));
    assert_eq!(v.update(60_000, &input([UP; 3], 0, false, false), None), (None, Some(0)));
    assert_eq!(v.seq, 0x0001_0101);
    assert_eq!(v.update(10, &input([UP; 3], 0, false, false), Some(0)), (None, None));
    assert_eq!(v.received_seq, Some(0));
    assert_eq!(v.update(100_001, &input([UP; 3], 0, false, false), None), (None, Some(0x0001_0101)));
    assert_eq!(v.received_seq, None);
}
