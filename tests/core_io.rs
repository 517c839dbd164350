use front_panel::framebuffer::Framebuffer;
use front_panel::input::{
    wrap_tolerant_delta, ButtonMatrix, ButtonState, InputAggregator, QuadratureDecoder,
};
use front_panel::scanner::{
    next_grid_line, reverse_bits, GridBuffer, PixelBuffer, Scanner, PATTERN_A, PATTERN_B, PATTERN_C0,
    PATTERN_C1, PATTERN_C2,
};
use front_panel::swap_chain::{SwapChain, SwapChainState};

#[test]
fn set_then_get_every_pixel() {
    let mut fb = Framebuffer::new();
    for y in 0..64isize {
        for x in 0..128isize {
            fb.set((x, y), true);
            assert!(fb.get((x, y)));
        }
    }
    for y in 0..64isize {
        for x in 0..128isize {
            assert!(fb.get((x, y)));
        }
    }
}

#[test]
fn set_touches_no_other_pixel() {
    for &(x, y) in &[(0isize, 0isize), (5, 0), (6, 1), (127, 63), (64, 32), (11, 47)] {
        let mut fb = Framebuffer::new();
        fb.set((x, y), true);
        for v in 0..64isize {
            for u in 0..128isize {
                assert_eq!(fb.get((u, v)), u == x && v == y, "after setting ({}, {}) at ({}, {})", x, y, u, v);
            }
        }
        let lit: u32 = fb.buffer.iter().map(|b| b.count_ones()).sum();
        assert_eq!(lit, 1);
    }
}

#[test]
fn clear_bit_keeps_neighbours() {
    let mut fb = Framebuffer::new();
    fb.clear(true);
    fb.set((10, 10), false);
    assert!(!fb.get((10, 10)));
    assert!(fb.get((11, 10)));
    assert!(fb.get((10, 11)));
    assert!(fb.get((9, 10)));
}

#[test]
fn bit_mapping_follows_column_groups() {
    let mut fb = Framebuffer::new();
    // column offsets within a group: 0, 2, 4, 5, 3, 1
    fb.set((1, 0), true);
    assert_eq!(fb.buffer[0], 1 << 2);
    fb.clear(false);
    fb.set((3, 0), true);
    assert_eq!(fb.buffer[0], 1 << 5);
    fb.clear(false);
    fb.set((5, 1), true);
    // pixel 6 + 1 = 7
    assert_eq!(fb.buffer[0], 1 << 7);
    fb.clear(false);
    fb.set((6, 0), true);
    assert_eq!(fb.buffer[48], 1);
    fb.clear(false);
    fb.set((0, 63), true);
    // pixel 378 -> byte 47, bit 2
    assert_eq!(fb.buffer[47], 1 << 2);
    fb.clear(false);
    fb.set_raw((131, 63), true);
    assert!(fb.get_raw((131, 63)));
    assert_eq!(fb.buffer[21 * 48 + 47], 1 << 3);
}

#[test]
fn out_of_bounds_is_inert() {
    let mut fb = Framebuffer::new();
    fb.clear(true);
    let before = fb.buffer;
    for &(x, y) in &[(-1isize, 0isize), (128, 0), (0, -1), (0, 64), (128, 64), (isize::MIN, isize::MAX), (130, 10)] {
        fb.set((x, y), false);
        assert!(!fb.get((x, y)));
    }
    assert_eq!(fb.buffer, before);
}

#[test]
fn clear_fills_every_byte() {
    let mut fb = Framebuffer::new();
    fb.clear(true);
    assert!(fb.buffer.iter().all(|&b| b == 0xFF));
    assert!(fb.get((127, 63)));
    fb.clear(false);
    assert!(fb.buffer.iter().all(|&b| b == 0));
    assert!(!fb.get((0, 0)));
}

#[test]
fn three_acquires_exhaust_the_pool() {
    let mut s = SwapChainState::new();
    assert_eq!(s.get_next_target(), Some(0));
    assert_eq!(s.get_next_target(), Some(1));
    assert_eq!(s.get_next_target(), Some(2));
    assert_eq!(s.get_next_target(), None);
    assert_eq!(s.get_next_target(), None);
}

#[test]
fn free_returns_exactly_one() {
    let mut s = SwapChainState::new();
    let a = s.get_next_target().unwrap();
    let _b = s.get_next_target().unwrap();
    let _c = s.get_next_target().unwrap();
    s.free(a);
    assert_eq!(s.get_next_target(), Some(a));
    assert_eq!(s.get_next_target(), None);
}

#[test]
fn present_supersedes_pending() {
    let mut s = SwapChainState::new();
    let a = s.get_next_target().unwrap();
    s.present(a);
    let b = s.get_next_target().unwrap();
    let c = s.get_next_target().unwrap();
    assert_eq!(s.get_next_target(), None);
    // the earlier presented buffer goes back to the free list at once
    s.present(b);
    assert_eq!(s.get_next_target(), Some(a));
    assert_eq!(s.pop_presented(), Some(b));
    assert_eq!(s.pop_presented(), None);
    s.free(c);
    assert_eq!(s.get_next_target(), Some(c));
}

#[test]
fn handle_presents_once_and_release_after_present_is_noop() {
    let mut chain = SwapChain::new();
    let mut t = chain.acquire_next_target().unwrap();
    assert_eq!(t.buffer_index(), 0);
    t.framebuffer(&mut chain).set((3, 3), true);
    t.present(&mut chain);
    t.present(&mut chain);
    t.release(&mut chain);
    let scanned = chain.collect(None);
    assert_eq!(scanned, Some(0));
    assert!(chain.framebuffer_at(0).get((3, 3)));
    // buffers 1 and 2 are free, 0 is with the scanner
    let u = chain.acquire_next_target().unwrap();
    let v = chain.acquire_next_target().unwrap();
    assert_eq!((u.buffer_index(), v.buffer_index()), (1, 2));
    assert!(chain.acquire_next_target().is_none());
    // dropping an unpresented handle gives its buffer back
    u.release(&mut chain);
    let w = chain.acquire_next_target().unwrap();
    assert_eq!(w.buffer_index(), 1);
}

#[test]
fn collect_swaps_in_new_frame() {
    let mut chain = SwapChain::new();
    let mut t = chain.acquire_next_target().unwrap();
    t.present(&mut chain);
    let cur = chain.collect(None);
    assert_eq!(cur, Some(0));
    assert_eq!(chain.collect(cur), Some(0));
    let mut t2 = chain.acquire_next_target().unwrap();
    assert_eq!(t2.buffer_index(), 1);
    t2.present(&mut chain);
    let cur = chain.collect(Some(0));
    assert_eq!(cur, Some(1));
    // buffer 0 went back to the free list
    let t3 = chain.acquire_next_target().unwrap();
    assert_eq!(t3.buffer_index(), 0);
}

fn expected(b: u8, mask: u8) -> u8 {
    !((b & mask).reverse_bits())
}

fn patterned_frame() -> Framebuffer {
    let mut fb = Framebuffer::new();
    for (i, b) in fb.buffer.iter_mut().enumerate() {
        *b = (i as u8).wrapping_mul(37).wrapping_add(11);
    }
    fb
}

#[test]
fn scan_line_one_uses_pattern_a_on_column_zero() {
    let fb = patterned_frame();
    let mut p = PixelBuffer::new();
    p.fill(&fb, 1);
    for i in 0..48 {
        assert_eq!(p.buff[i], expected(fb.buffer[i], PATTERN_A));
    }
}

#[test]
fn scan_line_two_uses_pattern_b_on_column_zero() {
    let fb = patterned_frame();
    let mut p = PixelBuffer::new();
    p.fill(&fb, 2);
    for i in 0..48 {
        assert_eq!(p.buff[i], expected(fb.buffer[i], PATTERN_B));
    }
    p.fill(&fb, 42);
    for i in 0..48 {
        assert_eq!(p.buff[i], expected(fb.buffer[20 * 48 + i], PATTERN_B));
    }
}

#[test]
fn scan_last_line_uses_pattern_c() {
    let fb = patterned_frame();
    let mut p = PixelBuffer::new();
    p.fill(&fb, 43);
    let base = 21 * 48;
    let c = [PATTERN_C0, PATTERN_C1, PATTERN_C2];
    for i in 0..16 {
        for k in 0..3 {
            assert_eq!(p.buff[i * 3 + k], expected(fb.buffer[base + i * 3 + k], c[k]));
        }
    }
    assert_eq!(PATTERN_C0, 0b01_000101);
    assert_eq!(PATTERN_C1, 0b00101_0001);
    assert_eq!(PATTERN_C2, 0b000101_00);
}

#[test]
fn blank_frame_shifts_out_all_ones() {
    let fb = Framebuffer::new();
    let mut p = PixelBuffer::new();
    p.fill(&fb, 7);
    assert!(p.buff.iter().all(|&b| b == 0xFF));
}

#[test]
fn reverse_matches_std() {
    for b in 0..=255u8 {
        assert_eq!(reverse_bits(b), b.reverse_bits());
    }
}

#[test]
fn grid_select_clears_two_lines() {
    let mut g = GridBuffer::new();
    g.fill(1);
    // lines 0 and 1 are the top two bits of byte 0
    assert_eq!(g.buff, [0x3F, 0xFF, 0xFF, 0xFF, 0xFF, 0xFF]);
    g.fill(8);
    // line 7 is the low bit of byte 0, line 8 the top bit of byte 1
    assert_eq!(g.buff, [0xFE, 0x7F, 0xFF, 0xFF, 0xFF, 0xFF]);
    g.fill(43);
    // lines 42 and 43: bits 2 and 3 of byte 5 counted from the top
    assert_eq!(g.buff, [0xFF, 0xFF, 0xFF, 0xFF, 0xFF, 0xCF]);
}

#[test]
fn grid_lines_cycle() {
    assert_eq!(next_grid_line(1), 2);
    assert_eq!(next_grid_line(42), 43);
    assert_eq!(next_grid_line(43), 1);
}

#[test]
fn scanner_idles_until_a_frame_is_presented() {
    let mut chain = SwapChain::new();
    let mut sc = Scanner::new();
    assert!(!sc.prepare_line(&mut chain));
    let mut t = chain.acquire_next_target().unwrap();
    t.framebuffer(&mut chain).clear(true);
    t.present(&mut chain);
    assert!(sc.prepare_line(&mut chain));
    assert_eq!(*sc.pixel_bytes(), [!0x55u8.reverse_bits(); 48]);
    assert_eq!(*sc.select_bytes(), [0x3F, 0xFF, 0xFF, 0xFF, 0xFF, 0xFF]);
    assert!(sc.prepare_line(&mut chain));
    assert_eq!(*sc.pixel_bytes(), [!0xAAu8.reverse_bits(); 48]);
    for _ in 0..41 {
        assert!(sc.prepare_line(&mut chain));
    }
    assert_eq!(*sc.select_bytes(), [0xFF, 0xFF, 0xFF, 0xFF, 0xFF, 0xCF]);
    assert!(sc.prepare_line(&mut chain));
    assert_eq!(*sc.select_bytes(), [0x3F, 0xFF, 0xFF, 0xFF, 0xFF, 0xFF]);
}

#[test]
fn scanner_adopts_new_frame_mid_sweep() {
    let mut chain = SwapChain::new();
    let mut sc = Scanner::new();
    let mut t = chain.acquire_next_target().unwrap();
    t.present(&mut chain);
    assert!(sc.prepare_line(&mut chain));
    assert!(sc.prepare_line(&mut chain));
    let mut t2 = chain.acquire_next_target().unwrap();
    t2.framebuffer(&mut chain).clear(true);
    t2.present(&mut chain);
    // line 3 already shows the new frame
    assert!(sc.prepare_line(&mut chain));
    assert_eq!(*sc.pixel_bytes(), [!0x55u8.reverse_bits(); 48]);
    // the old frame went back to the free list
    let t3 = chain.acquire_next_target().unwrap();
    assert_eq!(t3.buffer_index(), 0);
}

#[test]
fn quadrature_forward_cycle_counts_four() {
    let mut d = QuadratureDecoder::new((false, false));
    let mut count = 0i32;
    for s in [(false, true), (true, true), (true, false), (false, false)] {
        count += d.step(s);
    }
    assert_eq!(count, 4);
}

#[test]
fn quadrature_reverse_cycle_counts_minus_four() {
    let mut d = QuadratureDecoder::new((false, false));
    let mut count = 0i32;
    for s in [(true, false), (true, true), (false, true), (false, false)] {
        count += d.step(s);
    }
    assert_eq!(count, -4);
}

#[test]
fn quadrature_rejects_skipped_steps() {
    for (from, to) in [
        ((false, false), (true, true)),
        ((true, true), (false, false)),
        ((false, true), (true, false)),
        ((true, false), (false, true)),
    ] {
        let mut d = QuadratureDecoder::new(from);
        assert_eq!(d.step(to), 0);
    }
    let mut d = QuadratureDecoder::new((true, false));
    assert_eq!(d.step((true, false)), 0);
}

#[test]
fn wrap_tolerant_delta_takes_short_way() {
    assert_eq!(wrap_tolerant_delta(100, -2147483640), -2147483556);
    assert_eq!(wrap_tolerant_delta(-2147483640, 100), 2147483556);
    assert_eq!(wrap_tolerant_delta(5, 3), 2);
    assert_eq!(wrap_tolerant_delta(3, 5), -2);
    assert_eq!(wrap_tolerant_delta(i32::MAX, i32::MIN), -1);
    assert_eq!(wrap_tolerant_delta(0, i32::MIN), i32::MIN);
}

#[test]
fn aggregator_reports_detents_and_delta() {
    let mut agg = InputAggregator::new();
    let s = agg.update(9, [false; 4]);
    assert_eq!(s.encoder.count, 2);
    assert_eq!(s.encoder.delta, -2);
    let s = agg.update(-5, [false; 4]);
    assert_eq!(s.encoder.count, -1);
    assert_eq!(s.encoder.delta, 3);
    let s = agg.update(-5, [false; 4]);
    assert_eq!(s.encoder.delta, 0);
}

#[test]
fn button_edges_over_four_iterations() {
    let mut agg = InputAggregator::new();
    let levels = [false, true, true, false];
    let mut pressed = 0;
    let mut released = 0;
    let mut states = Vec::new();
    for (i, &l) in levels.iter().enumerate() {
        // raw slot 1 feeds the first panel button
        let s = agg.update(0, [false, l, false, false]);
        assert_eq!(s.buttons[0].down, l);
        if s.buttons[0].pressed {
            pressed += 1;
            assert_eq!(i, 1);
        }
        if s.buttons[0].released {
            released += 1;
            assert_eq!(i, 3);
        }
        states.push(s.buttons[0]);
    }
    assert_eq!((pressed, released), (1, 1));
    assert_eq!(states[2], ButtonState { down: true, pressed: false, released: false });
}

#[test]
fn button_slots_map_to_buttons() {
    let mut agg = InputAggregator::new();
    let s = agg.update(0, [true, false, false, false]);
    assert!(s.buttons[1].pressed && !s.buttons[0].down && !s.buttons[2].down && !s.encoder.button.down);
    let s = agg.update(0, [false, false, false, true]);
    assert!(s.encoder.button.pressed && s.buttons[1].released);
    let s = agg.update(0, [false, false, true, false]);
    assert!(s.buttons[2].pressed && s.encoder.button.released);
}

#[test]
fn matrix_scan_alternates_columns() {
    let mut m = ButtonMatrix::new();
    let a = m.scan(true, false);
    assert_eq!((a.first_slot, a.rows, a.column_0_high), (0, (true, false), false));
    let b = m.scan(false, true);
    assert_eq!((b.first_slot, b.rows, b.column_0_high), (2, (false, true), true));
    let c = m.scan(true, true);
    assert_eq!(c.first_slot, 0);
}
