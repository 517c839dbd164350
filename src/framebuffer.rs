use vstd::prelude::*;

verus! {

/// Logical width of the display, in pixels.
pub const WIDTH: usize = 128;

/// Logical height of the display, in pixels.
pub const HEIGHT: usize = 64;

/// Columns per column group of the display module.
pub const GROUP_WIDTH: usize = 6;

/// Bytes of storage per column group (`6 * 64` bits).
pub const GROUP_BYTES: usize = 48;

/// Number of column groups; together they cover 132 columns.
pub const GROUP_COUNT: usize = 22;

/// Total size of the pixel store.
pub const FRAMEBUFFER_BYTES: usize = 1056;

/// Position of each column inside its group's bit sequence, as wired in
/// the display module.
pub open spec fn column_offset(c: int) -> int {
    if c == 0 { 0 }
    else if c == 1 { 2 }
    else if c == 2 { 4 }
    else if c == 3 { 5 }
    else if c == 4 { 3 }
    else { 1 }
}

/// Bit position of pixel `(x, y)` inside its column group.
pub open spec fn group_bit(x: int, y: int) -> int {
    y * 6 + column_offset(x % 6)
}

/// Byte of the store that holds pixel `(x, y)`.
pub open spec fn byte_of(x: int, y: int) -> int {
    group_bit(x, y) / 8 + (x / 6) * 48
}

/// Bit inside `byte_of(x, y)` that holds pixel `(x, y)`.
pub open spec fn bit_of(x: int, y: int) -> int {
    group_bit(x, y) % 8
}

/// Whether `(x, y)` lies on the logical 128x64 display.
pub open spec fn on_screen(x: int, y: int) -> bool {
    0 <= x < 128 && 0 <= y < 64
}

/// Whether `(x, y)` has storage: the 132 columns of the 22 groups.
pub open spec fn in_store(x: int, y: int) -> bool {
    0 <= x < 132 && 0 <= y < 64
}

/// Bit `i` of byte `b`.
pub open spec fn bit_set(b: u8, i: int) -> bool {
    (b >> (i as u8)) & 1 == 1
}

/// Byte `b` with bit `i` set to `on`.
pub open spec fn with_bit(b: u8, i: int, on: bool) -> u8 {
    if on {
        b | (1u8 << (i as u8))
    } else {
        b & !(1u8 << (i as u8))
    }
}

/// Value of stored pixel `(x, y)` in the byte sequence `s`.
pub open spec fn stored_pixel(s: Seq<u8>, x: int, y: int) -> bool {
    bit_set(s[byte_of(x, y)], bit_of(x, y))
}

proof fn lemma_bits_of_byte(b: u8, i: int, j: int, on: bool)
    requires
        0 <= i < 8,
        0 <= j < 8,
    ensures
        bit_set(with_bit(b, i, on), j) == if i == j { on } else { bit_set(b, j) },
{
    let iu = i as u8;
    let ju = j as u8;
    assert(iu < 8 && ju < 8);
    if on {
        assert(((b | (1u8 << iu)) >> ju) & 1 == 1 <==> (if iu == ju { true } else { (b >> ju) & 1 == 1 }))
            by (bit_vector)
            requires
                iu < 8,
                ju < 8,
        ;
    } else {
        assert(((b & !(1u8 << iu)) >> ju) & 1 == 1 <==> (if iu == ju { false } else { (b >> ju) & 1 == 1 }))
            by (bit_vector)
            requires
                iu < 8,
                ju < 8,
        ;
    }
}

/// Where a stored pixel lives: its byte is inside the store and its bit in
/// `[0, 8)`.
pub proof fn lemma_location_in_range(x: int, y: int)
    requires
        in_store(x, y),
    ensures
        0 <= byte_of(x, y) < FRAMEBUFFER_BYTES,
        0 <= bit_of(x, y) < 8,
        0 <= group_bit(x, y) < 384,
{
    assert(0 <= x % 6 < 6);
    assert(0 <= x / 6 < 22);
    assert(0 <= group_bit(x, y) < 384);
}

/// Distinct stored pixels never share a bit of the store.
pub proof fn lemma_location_injective(x1: int, y1: int, x2: int, y2: int)
    requires
        in_store(x1, y1),
        in_store(x2, y2),
        byte_of(x1, y1) == byte_of(x2, y2),
        bit_of(x1, y1) == bit_of(x2, y2),
    ensures
        x1 == x2,
        y1 == y2,
{
    lemma_location_in_range(x1, y1);
    lemma_location_in_range(x2, y2);
    let bit1 = group_bit(x1, y1);
    let bit2 = group_bit(x2, y2);
    // the group index and the bit within the group are recovered from the byte
    assert(x1 / 6 == x2 / 6);
    assert(bit1 / 8 == bit2 / 8);
    assert(bit1 == bit2);
    let c1 = x1 % 6;
    let c2 = x2 % 6;
    assert(0 <= column_offset(c1) < 6 && 0 <= column_offset(c2) < 6);
    assert(y1 == y2);
    assert(column_offset(c1) == column_offset(c2));
    assert(c1 == c2);
    assert(x1 == 6 * (x1 / 6) + c1);
    assert(x2 == 6 * (x2 / 6) + c2);
}

/// Pixel `(x, y)` of the store `s` as read through the bounds check:
/// off-screen pixels are unlit.
pub open spec fn screen_pixel(s: Seq<u8>, x: int, y: int) -> bool {
    on_screen(x, y) && stored_pixel(s, x, y)
}

/// The store `s` after a bounds-checked write of `color` at `(x, y)`.
pub open spec fn after_set(s: Seq<u8>, x: int, y: int, color: bool) -> Seq<u8> {
    if on_screen(x, y) {
        s.update(byte_of(x, y), with_bit(s[byte_of(x, y)], bit_of(x, y), color))
    } else {
        s
    }
}

/// Writing an on-screen pixel and reading it back gives the written color,
/// and every other pixel reads as before.
pub proof fn lemma_set_round_trip(s: Seq<u8>, x: int, y: int, color: bool)
    requires
        s.len() == FRAMEBUFFER_BYTES,
    ensures
        on_screen(x, y) ==> screen_pixel(after_set(s, x, y, color), x, y) == color,
        forall|u: int, v: int|
            !(u == x && v == y && on_screen(x, y)) ==> #[trigger] screen_pixel(
                after_set(s, x, y, color),
                u,
                v,
            ) == screen_pixel(s, u, v),
{
    if on_screen(x, y) {
        lemma_location_in_range(x, y);
        lemma_bits_of_byte(s[byte_of(x, y)], bit_of(x, y), bit_of(x, y), color);
        assert forall|u: int, v: int| !(u == x && v == y) implies #[trigger] screen_pixel(
            after_set(s, x, y, color),
            u,
            v,
        ) == screen_pixel(s, u, v) by {
            if on_screen(u, v) {
                lemma_location_in_range(u, v);
                if byte_of(u, v) == byte_of(x, y) {
                    lemma_bits_of_byte(s[byte_of(x, y)], bit_of(x, y), bit_of(u, v), color);
                    if bit_of(u, v) == bit_of(x, y) {
                        lemma_location_injective(u, v, x, y);
                    }
                }
            }
        }
    }
}

/// A write outside the logical display leaves the store unchanged, and a
/// read there reports an unlit pixel.
pub proof fn lemma_off_screen_inert(s: Seq<u8>, x: int, y: int, color: bool)
    requires
        !on_screen(x, y),
    ensures
        after_set(s, x, y, color) == s,
        !screen_pixel(s, x, y),
{
}

/// A bit-packed 128x64 monochrome pixel store, laid out in the column-group
/// order that the display module shifts in.
pub struct Framebuffer {
    pub buffer: [u8; FRAMEBUFFER_BYTES],
}

impl Framebuffer {
    /// Value of pixel `(x, y)` as `get` reports it: off-screen pixels read
    /// as unlit.
    pub open spec fn pixel_at(&self, x: int, y: int) -> bool {
        screen_pixel(self.buffer@, x, y)
    }

    /// An all-unlit frame.
    pub fn new() -> (r: Self)
        ensures
            forall|i: int| 0 <= i < FRAMEBUFFER_BYTES ==> r.buffer@[i] == 0,
    {
        Framebuffer { buffer: [0u8; FRAMEBUFFER_BYTES] }
    }

    /// The `(bit, byte)` location of stored pixel `position`.
    fn coord_to_bit_byte(position: (usize, usize)) -> (r: (usize, usize))
        requires
            in_store(position.0 as int, position.1 as int),
        ensures
            r.0 == bit_of(position.0 as int, position.1 as int),
            r.1 == byte_of(position.0 as int, position.1 as int),
            r.0 < 8,
            r.1 < FRAMEBUFFER_BYTES,
    {
        proof {
            lemma_location_in_range(position.0 as int, position.1 as int);
        }
        let column = position.0 / 6;
        let c = position.0 % 6;
        let offset: usize = if c == 0 {
            0
        } else if c == 1 {
            2
        } else if c == 2 {
            4
        } else if c == 3 {
            5
        } else if c == 4 {
            3
        } else {
            1
        };
        let pixel = (position.1 * 6) + offset;
        let byte = (pixel / 8) + column * 8 * 6;
        let bit = pixel % 8;
        (bit, byte)
    }

    /// Whether `position` lies on the logical display.
    fn position_in_buffer(position: (isize, isize)) -> (r: bool)
        ensures
            r == on_screen(position.0 as int, position.1 as int),
    {
        position.0 >= 0 && position.0 < 128 && position.1 >= 0 && position.1 < 64
    }

    /// Lights or clears pixel `position`; off-screen positions leave the
    /// store untouched.
    pub fn set(&mut self, position: (isize, isize), color: bool)
        ensures
            final(self).buffer@ == after_set(old(self).buffer@, position.0 as int, position.1 as int, color),
            forall|x: int, y: int|
                #![trigger final(self).pixel_at(x, y)]
                final(self).pixel_at(x, y) == if x == position.0 && y == position.1 && on_screen(x, y) {
                    color
                } else {
                    old(self).pixel_at(x, y)
                },
    {
        if Self::position_in_buffer(position) {
            self.set_raw((position.0 as usize, position.1 as usize), color);
        }
        proof {
            lemma_set_round_trip(old(self).buffer@, position.0 as int, position.1 as int, color);
        }
    }

    /// Pixel `position`; off-screen positions read as unlit.
    pub fn get(&self, position: (isize, isize)) -> (r: bool)
        ensures
            r == self.pixel_at(position.0 as int, position.1 as int),
    {
        if Self::position_in_buffer(position) {
            self.get_raw((position.0 as usize, position.1 as usize))
        } else {
            false
        }
    }

    /// Sets or clears exactly the one bit that stores `position`.
    pub fn set_raw(&mut self, position: (usize, usize), color: bool)
        requires
            in_store(position.0 as int, position.1 as int),
        ensures
            final(self).buffer@ == old(self).buffer@.update(
                byte_of(position.0 as int, position.1 as int),
                with_bit(
                    old(self).buffer@[byte_of(position.0 as int, position.1 as int)],
                    bit_of(position.0 as int, position.1 as int),
                    color,
                ),
            ),
            forall|x: int, y: int|
                #![trigger stored_pixel(final(self).buffer@, x, y)]
                in_store(x, y) ==> stored_pixel(final(self).buffer@, x, y) == if x == position.0
                    && y == position.1 {
                    color
                } else {
                    stored_pixel(old(self).buffer@, x, y)
                },
    {
        let (bit, byte) = Self::coord_to_bit_byte(position);
        let bit8 = bit as u8;
        if color {
            self.buffer[byte] = self.buffer[byte] | (1u8 << bit8);
        } else {
            self.buffer[byte] = self.buffer[byte] & !(1u8 << bit8);
        }
        proof {
            let px = position.0 as int;
            let py = position.1 as int;
            assert(self.buffer@ =~= old(self).buffer@.update(
                byte_of(px, py),
                with_bit(old(self).buffer@[byte_of(px, py)], bit_of(px, py), color),
            ));
            assert forall|x: int, y: int| in_store(x, y) implies #[trigger] stored_pixel(
                self.buffer@,
                x,
                y,
            ) == if x == px && y == py {
                color
            } else {
                stored_pixel(old(self).buffer@, x, y)
            } by {
                lemma_location_in_range(x, y);
                if byte_of(x, y) == byte_of(px, py) {
                    lemma_bits_of_byte(
                        old(self).buffer@[byte_of(px, py)],
                        bit_of(px, py),
                        bit_of(x, y),
                        color,
                    );
                    if bit_of(x, y) == bit_of(px, py) {
                        lemma_location_injective(x, y, px, py);
                    }
                }
            }
        }
    }

    /// The one bit that stores `position`.
    pub fn get_raw(&self, position: (usize, usize)) -> (r: bool)
        requires
            in_store(position.0 as int, position.1 as int),
        ensures
            r == stored_pixel(self.buffer@, position.0 as int, position.1 as int),
    {
        let (bit, byte) = Self::coord_to_bit_byte(position);
        let bit8 = bit as u8;
        let b = self.buffer[byte];
        proof {
            assert(((b & (1u8 << bit8)) != 0) == ((b >> bit8) & 1 == 1)) by (bit_vector)
                requires
                    bit8 < 8,
            ;
        }
        (b & (1u8 << bit8)) != 0
    }

    /// Fills the whole store: every byte `0xFF` when `color`, else `0x00`.
    pub fn clear(&mut self, color: bool)
        ensures
            forall|i: int|
                0 <= i < FRAMEBUFFER_BYTES ==> final(self).buffer@[i] == if color {
                    0xFFu8
                } else {
                    0u8
                },
            forall|x: int, y: int| #[trigger] final(self).pixel_at(x, y) == (on_screen(x, y) && color),
    {
        let fill: u8 = if color {
            0xFF
        } else {
            0x00
        };
        let mut i: usize = 0;
        while i < FRAMEBUFFER_BYTES
            invariant
                i <= FRAMEBUFFER_BYTES,
                forall|j: int| 0 <= j < i ==> self.buffer@[j] == fill,
            decreases FRAMEBUFFER_BYTES - i,
        {
            self.buffer[i] = fill;
            i += 1;
        }
        proof {
            assert forall|x: int, y: int| #[trigger] self.pixel_at(x, y) == (on_screen(x, y) && color) by {
                if on_screen(x, y) {
                    lemma_location_in_range(x, y);
                    let k = bit_of(x, y) as u8;
                    assert(k < 8);
                    assert((0xFFu8 >> k) & 1 == 1) by (bit_vector)
                        requires
                            k < 8,
                    ;
                    assert((0u8 >> k) & 1 == 0) by (bit_vector);
                }
            }
        }
    }
}

} // verus!
