use vstd::prelude::*;

use crate::framebuffer::{bit_set, Framebuffer, FRAMEBUFFER_BYTES, GROUP_BYTES};
use crate::swap_chain::{SwapChain, BUFFER_COUNT};

verus! {

/// Number of grid lines of the display module.
pub const GRID_LINES: usize = 43;

/// Bytes of the grid-select word: one bit per grid line, 48 in all.
pub const GRID_BYTES: usize = 6;

/// Sub-pass mask of odd grid lines.
pub const PATTERN_A: u8 = 0b01010101;

/// Sub-pass mask of even grid lines.
pub const PATTERN_B: u8 = 0b10101010;

/// Mask of the last grid line at byte positions 0 modulo 3.
pub const PATTERN_C0: u8 = 0b01000101;

/// Mask of the last grid line at byte positions 1 modulo 3.
pub const PATTERN_C1: u8 = 0b01010001;

/// Mask of the last grid line at byte positions 2 modulo 3.
pub const PATTERN_C2: u8 = 0b00010100;

/// `b` with its bit order reversed: bit `i` moves to bit `7 - i`.
pub open spec fn reverse_byte(b: u8) -> u8 {
    ((b & 0x01) << 7u8) | ((b & 0x02) << 5u8) | ((b & 0x04) << 3u8) | ((b & 0x08) << 1u8) | ((b & 0x10)
        >> 1u8) | ((b & 0x20) >> 3u8) | ((b & 0x40) >> 5u8) | ((b & 0x80) >> 7u8)
}

/// Column group that grid line `g` shows.
pub open spec fn line_column(g: int) -> int {
    (g - 1) / 2
}

/// Mask applied to byte `i` of the column group on grid line `g`.
pub open spec fn line_mask(g: int, i: int) -> u8 {
    if g == 43 {
        if i % 3 == 0 { PATTERN_C0 } else if i % 3 == 1 { PATTERN_C1 } else { PATTERN_C2 }
    } else if g % 2 == 1 {
        PATTERN_A
    } else {
        PATTERN_B
    }
}

/// A stored byte as it is shifted out: masked, bit-reversed (the bus is
/// MSB-first, the store LSB-first) and inverted (outputs are active-low).
pub open spec fn shifted_byte(b: u8, mask: u8) -> u8 {
    !reverse_byte(b & mask)
}

/// Byte `i` of the pixel stream for grid line `g` of `frame`.
pub open spec fn pixel_stream_byte(frame: Seq<u8>, g: int, i: int) -> u8 {
    shifted_byte(frame[line_column(g) * 48 + i], line_mask(g, i))
}

/// Bit of grid line `l` in the select word `w`, in shift order.
pub open spec fn select_bit(w: Seq<u8>, l: int) -> bool {
    bit_set(w[l / 8], 7 - l % 8)
}

/// Reverses the bit order of `b`.
pub fn reverse_bits(b: u8) -> (r: u8)
    ensures
        r == reverse_byte(b),
        forall|i: int| 0 <= i < 8 ==> bit_set(r, i) == bit_set(b, 7 - i),
{
    let r = ((b & 0x01) << 7u8) | ((b & 0x02) << 5u8) | ((b & 0x04) << 3u8) | ((b & 0x08) << 1u8) | ((b
        & 0x10) >> 1u8) | ((b & 0x20) >> 3u8) | ((b & 0x40) >> 5u8) | ((b & 0x80) >> 7u8);
    proof {
        assert forall|i: int| 0 <= i < 8 implies bit_set(r, i) == bit_set(b, 7 - i) by {
            let iu = i as u8;
            let ju = (7 - i) as u8;
            assert(ju == 7 - iu);
            assert(((r >> iu) & 1 == 1) == ((b >> ju) & 1 == 1)) by (bit_vector)
                requires
                    iu < 8,
                    ju == 7 - iu,
                    r == ((b & 0x01) << 7u8) | ((b & 0x02) << 5u8) | ((b & 0x04) << 3u8) | ((b & 0x08)
                        << 1u8) | ((b & 0x10) >> 1u8) | ((b & 0x20) >> 3u8) | ((b & 0x40) >> 5u8) | ((b
                        & 0x80) >> 7u8),
            ;
        }
    }
    r
}

/// Staging area for the pixel stream of one grid line.
pub struct PixelBuffer {
    pub buff: [u8; GROUP_BYTES],
}

impl PixelBuffer {
    pub fn new() -> (r: Self)
        ensures
            forall|i: int| 0 <= i < GROUP_BYTES ==> r.buff@[i] == 0,
    {
        PixelBuffer { buff: [0u8; GROUP_BYTES] }
    }

    /// Fills the buffer with the pixel stream of grid line `g` of `frame`:
    /// each byte of the line's column group, masked with the line's
    /// sub-pass pattern, bit-reversed and inverted.
    pub fn fill(&mut self, frame: &Framebuffer, g: usize)
        requires
            1 <= g <= GRID_LINES,
        ensures
            forall|i: int|
                0 <= i < GROUP_BYTES ==> final(self).buff@[i] == pixel_stream_byte(frame.buffer@, g as int, i),
    {
        let column = (g - 1) / 2;
        let base = column * 6 * 8;
        assert(base + GROUP_BYTES <= FRAMEBUFFER_BYTES);
        if g == GRID_LINES {
            let mut i: usize = 0;
            while i < 16
                invariant
                    i <= 16,
                    g == GRID_LINES,
                    base == line_column(g as int) * 48,
                    base + GROUP_BYTES <= FRAMEBUFFER_BYTES,
                    forall|j: int| 0 <= j < 3 * i ==> self.buff@[j] == pixel_stream_byte(frame.buffer@, g as int, j),
                decreases 16 - i,
            {
                self.buff[i * 3] = !reverse_bits(frame.buffer[base + i * 3] & PATTERN_C0);
                self.buff[i * 3 + 1] = !reverse_bits(frame.buffer[base + i * 3 + 1] & PATTERN_C1);
                self.buff[i * 3 + 2] = !reverse_bits(frame.buffer[base + i * 3 + 2] & PATTERN_C2);
                assert((3 * i) % 3 == 0 && (3 * i + 1) % 3 == 1 && (3 * i + 2) % 3 == 2);
                i += 1;
            }
        } else {
            let pattern = if g % 2 == 1 {
                PATTERN_A
            } else {
                PATTERN_B
            };
            let mut i: usize = 0;
            while i < GROUP_BYTES
                invariant
                    i <= GROUP_BYTES,
                    1 <= g < GRID_LINES,
                    base == line_column(g as int) * 48,
                    base + GROUP_BYTES <= FRAMEBUFFER_BYTES,
                    forall|j: int| 0 <= j < GROUP_BYTES ==> line_mask(g as int, j) == pattern,
                    forall|j: int| 0 <= j < i ==> self.buff@[j] == pixel_stream_byte(frame.buffer@, g as int, j),
                decreases GROUP_BYTES - i,
            {
                self.buff[i] = !reverse_bits(frame.buffer[base + i] & pattern);
                i += 1;
            }
        }
    }
}

/// Staging area for the grid-select word of one grid line.
pub struct GridBuffer {
    pub buff: [u8; GRID_BYTES],
}

proof fn lemma_clear_select_bit(b: u8, k: int, j: int)
    requires
        0 <= k < 8,
        0 <= j < 8,
    ensures
        bit_set(b & !reverse_byte(1u8 << (k as u8)), 7 - j) == (bit_set(b, 7 - j) && j != k),
{
    let ku = k as u8;
    let ju = j as u8;
    let sj = (7 - j) as u8;
    assert((((b & !reverse_byte(1u8 << ku)) >> sj) & 1 == 1) == (((b >> sj) & 1 == 1) && ju != ku))
        by (bit_vector)
        requires
            ku < 8,
            ju < 8,
            sj == 7 - ju,
    ;
}

impl GridBuffer {
    pub fn new() -> (r: Self)
        ensures
            forall|i: int| 0 <= i < GRID_BYTES ==> r.buff@[i] == 0,
    {
        GridBuffer { buff: [0u8; GRID_BYTES] }
    }

    /// Fills the buffer with the select word of grid line `g`: every line
    /// deselected (bits set) except lines `g - 1` and `g`.
    pub fn fill(&mut self, g: usize)
        requires
            1 <= g <= GRID_LINES,
        ensures
            forall|l: int| 0 <= l < 48 ==> select_bit(final(self).buff@, l) == !(l == g - 1 || l == g),
    {
        self.buff = [0xFFu8; GRID_BYTES];
        let first = g - 1;
        let b0 = self.buff[first / 8];
        self.buff[first / 8] = b0 & !reverse_bits(1u8 << ((first % 8) as u8));
        let b1 = self.buff[g / 8];
        self.buff[g / 8] = b1 & !reverse_bits(1u8 << ((g % 8) as u8));
        proof {
            assert forall|l: int| 0 <= l < 48 implies select_bit(self.buff@, l) == !(l == g - 1 || l == g) by {
                assert(bit_set(0xFFu8, 7 - l % 8)) by {
                    let s = (7 - l % 8) as u8;
                    assert((0xFFu8 >> s) & 1 == 1) by (bit_vector)
                        requires
                            s < 8,
                    ;
                }
                if l / 8 == first / 8 {
                    lemma_clear_select_bit(b0, (first % 8) as int, l % 8);
                }
                if l / 8 == g / 8 {
                    lemma_clear_select_bit(b1, (g % 8) as int, l % 8);
                }
                assert(l == 8 * (l / 8) + l % 8);
            }
        }
    }
}

/// The grid line after `g`, cycling over `1..=43`.
pub fn next_grid_line(g: usize) -> (r: usize)
    requires
        1 <= g <= GRID_LINES,
    ensures
        r == if g == GRID_LINES { 1 } else { g + 1 },
{
    g % GRID_LINES + 1
}


/// Scan-out state: the grid line to drive next and the buffer being shown.
pub struct Scanner {
    grid_line: usize,
    current: Option<usize>,
    pixel_buffer: PixelBuffer,
    grid_buffer: GridBuffer,
}

impl Scanner {
    /// Grid line to drive next, in `1..=43`.
    pub closed spec fn line(&self) -> usize {
        self.grid_line
    }

    /// Buffer being scanned out, if a frame has been shown yet.
    pub closed spec fn current(&self) -> Option<usize> {
        self.current
    }

    /// Pixel stream staged for the bus.
    pub closed spec fn pixels(&self) -> Seq<u8> {
        self.pixel_buffer.buff@
    }

    /// Grid-select word staged for the bus.
    pub closed spec fn select(&self) -> Seq<u8> {
        self.grid_buffer.buff@
    }

    pub open spec fn wf(&self) -> bool {
        1 <= self.line() <= GRID_LINES
    }

    /// Starts at grid line 1 with no frame.
    pub fn new() -> (r: Self)
        ensures
            r.wf(),
            r.line() == 1,
            r.current() is None,
    {
        Scanner {
            grid_line: 1,
            current: None,
            pixel_buffer: PixelBuffer::new(),
            grid_buffer: GridBuffer::new(),
        }
    }

    /// Frame refresh check of one grid-line cycle: adopts a newly
    /// presented frame, if any, releasing the one shown so far (so a frame
    /// can take effect mid-sweep). Returns whether there is a frame to
    /// show. This is the part that touches the shared bookkeeping.
    pub fn refresh(&mut self, swapchain: &mut SwapChain) -> (r: bool)
        requires
            old(self).wf(),
            old(swapchain).wf(),
            old(self).current() matches Some(c) ==> old(swapchain).state().is_held(c),
        ensures
            final(self).wf(),
            final(self).line() == old(self).line(),
            final(self).pixels() == old(self).pixels(),
            final(self).select() == old(self).select(),
            final(swapchain).wf(),
            final(swapchain).buffers() == old(swapchain).buffers(),
            final(swapchain).state().pending() is None,
            final(self).current() == match old(swapchain).state().pending() {
                Some(p) => Some(p),
                None => old(self).current(),
            },
            final(swapchain).state().free_slots() == match (old(swapchain).state().pending(), old(self).current()) {
                (Some(_), Some(c)) => crate::swap_chain::returned(old(swapchain).state().free_slots(), c),
                _ => old(swapchain).state().free_slots(),
            },
            final(self).current() matches Some(c) ==> final(swapchain).state().is_held(c),
            r == final(self).current() is Some,
    {
        self.current = swapchain.collect(self.current);
        self.current.is_some()
    }

    /// Stages the pixel stream and select word of the current grid line
    /// from the frame being shown, and moves on to the next line.
    pub fn stage_line(&mut self, swapchain: &SwapChain)
        requires
            old(self).wf(),
            old(self).current() matches Some(c) && c < BUFFER_COUNT,
        ensures
            final(self).wf(),
            final(self).current() == old(self).current(),
            ({
                let frame = swapchain.buffers()[old(self).current().unwrap() as int].buffer@;
                let g = old(self).line() as int;
                &&& forall|i: int| 0 <= i < GROUP_BYTES ==> final(self).pixels()[i] == pixel_stream_byte(frame, g, i)
                &&& forall|l: int| 0 <= l < 48 ==> select_bit(final(self).select(), l) == !(l == g - 1 || l == g)
                &&& final(self).line() == if g == GRID_LINES { 1 } else { g + 1 }
            }),
    {
        if let Some(index) = self.current {
            let g = self.grid_line;
            self.pixel_buffer.fill(swapchain.framebuffer_at(index), g);
            self.grid_buffer.fill(g);
            self.grid_line = next_grid_line(g);
        }
    }

    /// One grid-line cycle up to the bus transfers: the refresh check,
    /// then, when there is a frame to show, staging of the current line.
    /// Returns whether anything was staged.
    pub fn prepare_line(&mut self, swapchain: &mut SwapChain) -> (r: bool)
        requires
            old(self).wf(),
            old(swapchain).wf(),
            old(self).current() matches Some(c) ==> old(swapchain).state().is_held(c),
        ensures
            final(self).wf(),
            final(swapchain).wf(),
            final(swapchain).buffers() == old(swapchain).buffers(),
            final(swapchain).state().pending() is None,
            final(self).current() == match old(swapchain).state().pending() {
                Some(p) => Some(p),
                None => old(self).current(),
            },
            final(swapchain).state().free_slots() == match (old(swapchain).state().pending(), old(self).current()) {
                (Some(_), Some(c)) => crate::swap_chain::returned(old(swapchain).state().free_slots(), c),
                _ => old(swapchain).state().free_slots(),
            },
            final(self).current() matches Some(c) ==> final(swapchain).state().is_held(c),
            r == final(self).current() is Some,
            r ==> {
                let frame = final(swapchain).buffers()[final(self).current().unwrap() as int].buffer@;
                let g = old(self).line() as int;
                &&& forall|i: int| 0 <= i < GROUP_BYTES ==> final(self).pixels()[i] == pixel_stream_byte(frame, g, i)
                &&& forall|l: int| 0 <= l < 48 ==> select_bit(final(self).select(), l) == !(l == g - 1 || l == g)
                &&& final(self).line() == if g == GRID_LINES { 1 } else { g + 1 }
            },
            !r ==> final(self).line() == old(self).line(),
    {
        if self.refresh(swapchain) {
            self.stage_line(swapchain);
            true
        } else {
            false
        }
    }

    /// The staged pixel stream.
    pub fn pixel_bytes(&self) -> (r: &[u8; GROUP_BYTES])
        ensures
            r@ == self.pixels(),
    {
        &self.pixel_buffer.buff
    }

    /// The staged grid-select word.
    pub fn select_bytes(&self) -> (r: &[u8; GRID_BYTES])
        ensures
            r@ == self.select(),
    {
        &self.grid_buffer.buff
    }
}

} // verus!
