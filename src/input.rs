use vstd::prelude::*;

verus! {

/// Raw quadrature counts per mechanical detent of the encoder.
pub const COUNTS_PER_DETENT: i32 = 4;

/// Position of a quadrature line pair `(a, b)` along the Gray-code cycle
/// `(0,0) -> (0,1) -> (1,1) -> (1,0)`.
pub open spec fn gray_position(s: (bool, bool)) -> int {
    match s {
        (false, false) => 0,
        (false, true) => 1,
        (true, true) => 2,
        (true, false) => 3,
    }
}

/// Count change for a move of the line pair from `from` to `to`: `+1` one
/// step forward along the cycle, `-1` one step back, `0` for no move or
/// for a two-line jump, which is rejected as noise.
pub open spec fn transition_delta(from: (bool, bool), to: (bool, bool)) -> int {
    let d = (gray_position(to) - gray_position(from) + 4) % 4;
    if d == 1 {
        1
    } else if d == 3 {
        -1
    } else {
        0
    }
}

/// The line pair one Gray-code step forward of `s`.
pub open spec fn step_forward(s: (bool, bool)) -> (bool, bool) {
    match s {
        (false, false) => (false, true),
        (false, true) => (true, true),
        (true, true) => (true, false),
        (true, false) => (false, false),
    }
}

/// Sum of the count changes along `path`, starting from `start`.
pub open spec fn path_delta(start: (bool, bool), path: Seq<(bool, bool)>) -> int
    decreases path.len(),
{
    if path.len() == 0 {
        0
    } else {
        transition_delta(start, path[0]) + path_delta(path[0], path.drop_first())
    }
}

/// A full forward cycle of valid edges (one detent) adds exactly 4 to the
/// count, from whichever state it starts; the same cycle walked backwards
/// subtracts exactly 4; and a jump that changes both lines at once counts
/// nothing.
pub proof fn lemma_quadrature_cycle(s: (bool, bool))
    ensures
        ({
            let s1 = step_forward(s);
            let s2 = step_forward(s1);
            let s3 = step_forward(s2);
            &&& step_forward(s3) == s
            &&& path_delta(s, seq![s1, s2, s3, s]) == 4
            &&& path_delta(s, seq![s3, s2, s1, s]) == -4
        }),
        transition_delta(s, (!s.0, !s.1)) == 0,
{
    let s1 = step_forward(s);
    let s2 = step_forward(s1);
    let s3 = step_forward(s2);
    let fwd = seq![s1, s2, s3, s];
    let bwd = seq![s3, s2, s1, s];
    assert(fwd.drop_first() =~= seq![s2, s3, s]);
    assert(fwd.drop_first().drop_first() =~= seq![s3, s]);
    assert(fwd.drop_first().drop_first().drop_first() =~= seq![s]);
    assert(fwd.drop_first().drop_first().drop_first().drop_first() =~= Seq::<(bool, bool)>::empty());
    assert(bwd.drop_first() =~= seq![s2, s1, s]);
    assert(bwd.drop_first().drop_first() =~= seq![s1, s]);
    assert(bwd.drop_first().drop_first().drop_first() =~= seq![s]);
    assert(bwd.drop_first().drop_first().drop_first().drop_first() =~= Seq::<(bool, bool)>::empty());
    reveal_with_fuel(path_delta, 5);
}

/// Quadrature decoder of the encoder's two lines: remembers the last
/// sampled line pair and turns each new sample into a count change.
pub struct QuadratureDecoder {
    last_state: (bool, bool),
}

impl QuadratureDecoder {
    /// The last sampled line pair.
    pub closed spec fn last(&self) -> (bool, bool) {
        self.last_state
    }

    /// A decoder whose lines were last seen at `initial`.
    pub fn new(initial: (bool, bool)) -> (r: Self)
        ensures
            r.last() == initial,
    {
        QuadratureDecoder { last_state: initial }
    }

    /// Takes a new sample of the lines and returns the count change:
    /// `+1` or `-1` for a valid single-line transition, `0` otherwise.
    pub fn step(&mut self, current: (bool, bool)) -> (r: i32)
        ensures
            r == transition_delta(old(self).last(), current),
            final(self).last() == current,
    {
        let inc: i32 = match (self.last_state, current) {
            ((false, false), (false, true)) => 1,
            ((false, false), (true, false)) => -1,
            ((false, false), _) => 0,
            ((false, true), (false, false)) => -1,
            ((false, true), (true, true)) => 1,
            ((false, true), _) => 0,
            ((true, true), (false, true)) => -1,
            ((true, true), (true, false)) => 1,
            ((true, true), _) => 0,
            ((true, false), (true, true)) => -1,
            ((true, false), (false, false)) => 1,
            ((true, false), _) => 0,
        };
        self.last_state = current;
        inc
    }
}

/// Which slots of the four raw button levels a scan of the 2x2 matrix
/// fills, and how the column-select lines are driven afterwards.
#[derive(Clone, Copy, Debug, PartialEq, Eq)]
pub struct ButtonScan {
    /// Slot of the level read on row 0; row 1 goes to the slot after it.
    pub first_slot: usize,
    /// Levels read on rows 0 and 1.
    pub rows: (bool, bool),
    /// Whether column 0 is driven high (column 1 low) until the next scan.
    pub column_0_high: bool,
}

/// Multiplexing state of the 2x2 button matrix: which column is driven.
pub struct ButtonMatrix {
    column_0: bool,
}

impl ButtonMatrix {
    /// Whether column 0 is the active one.
    pub closed spec fn column_0_active(&self) -> bool {
        self.column_0
    }

    /// Column 0 active, as it is driven at start-up.
    pub fn new() -> (r: Self)
        ensures
            r.column_0_active(),
    {
        ButtonMatrix { column_0: true }
    }

    /// One periodic scan: the row levels belong to the active column
    /// (slots 0 and 1 for column 0, slots 2 and 3 for column 1); then the
    /// other column becomes the active one.
    pub fn scan(&mut self, row_0: bool, row_1: bool) -> (r: ButtonScan)
        ensures
            r.first_slot == if old(self).column_0_active() { 0usize } else { 2usize },
            r.rows == (row_0, row_1),
            r.column_0_high == !old(self).column_0_active(),
            final(self).column_0_active() == !old(self).column_0_active(),
    {
        let first_slot: usize = if self.column_0 {
            0
        } else {
            2
        };
        self.column_0 = !self.column_0;
        ButtonScan { first_slot, rows: (row_0, row_1), column_0_high: self.column_0 }
    }
}

/// Level and edges of one button over one main-loop iteration.
#[derive(Clone, Copy, Debug, PartialEq, Eq)]
pub struct ButtonState {
    pub down: bool,
    pub pressed: bool,
    pub released: bool,
}

/// Encoder position in detents, its change since the last iteration, and
/// its push-button.
#[derive(Clone, Copy, Debug, PartialEq, Eq)]
pub struct EncoderState {
    pub count: i32,
    pub delta: i32,
    pub button: ButtonState,
}

/// What the application sees of the panel in one iteration.
#[derive(Clone, Copy, Debug, PartialEq, Eq)]
pub struct InputState {
    pub encoder: EncoderState,
    pub buttons: [ButtonState; 3],
}

/// Slot of the raw levels read for each panel button and for the encoder's
/// push-button.
pub const BUTTON_0: usize = 1;

pub const BUTTON_1: usize = 0;

pub const BUTTON_2: usize = 2;

pub const BUTTON_E: usize = 3;

/// The representative of `x` modulo 2^32 in the `i32` range.
pub open spec fn wrap_i32(x: int) -> int {
    (x + 0x8000_0000) % 0x1_0000_0000 - 0x8000_0000
}

/// `raw / 4`, rounded toward zero.
pub open spec fn detents(raw: int) -> int {
    if raw >= 0 {
        raw / 4
    } else {
        -((-raw) / 4)
    }
}

/// Button state from this iteration's level and the previous one.
pub open spec fn button_edges(current: bool, previous: bool) -> ButtonState {
    ButtonState { down: current, pressed: current && !previous, released: !current && previous }
}

/// Magnitude of `x`.
fn magnitude(x: i32) -> (r: i64)
    ensures
        r == if x < 0 { -x } else { x as int },
{
    if x < 0 {
        -(x as i64)
    } else {
        x as i64
    }
}

/// Change of the detent count from `previous` to `current`, read so that a
/// counter wraparound between the two gives the short way round: of the
/// two differences (one for each direction of wrap) the one with the
/// smaller magnitude. The sign follows the panel's convention: turning
/// that lowers the count gives a positive delta.
pub fn wrap_tolerant_delta(previous: i32, current: i32) -> (r: i32)
    ensures
        r == wrap_i32(previous - current),
{
    let delta_a = 0i32.wrapping_sub(current.wrapping_sub(previous));
    let delta_b = previous.wrapping_sub(current);
    if magnitude(delta_a) <= magnitude(delta_b) {
        delta_a
    } else {
        delta_b
    }
}

/// Per-iteration input aggregation: turns the raw encoder count and raw
/// button levels into detents, a detent delta and button edges, keeping
/// last iteration's readings.
pub struct InputAggregator {
    previous_button_states: [bool; 4],
    previous_encoder_count: i32,
}

impl InputAggregator {
    /// Button levels seen in the previous iteration.
    pub closed spec fn previous_levels(&self) -> Seq<bool> {
        self.previous_button_states@
    }

    /// Detent count seen in the previous iteration.
    pub closed spec fn previous_count(&self) -> i32 {
        self.previous_encoder_count
    }

    /// Nothing pressed, count zero.
    pub fn new() -> (r: Self)
        ensures
            r.previous_levels() == seq![false, false, false, false],
            r.previous_count() == 0,
    {
        let r = InputAggregator { previous_button_states: [false; 4], previous_encoder_count: 0 };
        assert(r.previous_levels() =~= seq![false, false, false, false]);
        r
    }

    /// One iteration: reads the raw encoder count and the four raw levels
    /// and returns the input state, remembering both for the next call.
    pub fn update(&mut self, raw_count: i32, levels: [bool; 4]) -> (r: InputState)
        ensures
            r.encoder.count == detents(raw_count as int),
            r.encoder.delta == wrap_i32(old(self).previous_count() - detents(raw_count as int)),
            r.encoder.button == button_edges(levels@[BUTTON_E as int], old(self).previous_levels()[BUTTON_E as int]),
            r.buttons@[0] == button_edges(levels@[BUTTON_0 as int], old(self).previous_levels()[BUTTON_0 as int]),
            r.buttons@[1] == button_edges(levels@[BUTTON_1 as int], old(self).previous_levels()[BUTTON_1 as int]),
            r.buttons@[2] == button_edges(levels@[BUTTON_2 as int], old(self).previous_levels()[BUTTON_2 as int]),
            final(self).previous_levels() == levels@,
            final(self).previous_count() == detents(raw_count as int),
    {
        let encoder_count = raw_count / COUNTS_PER_DETENT;
        let encoder_delta = wrap_tolerant_delta(self.previous_encoder_count, encoder_count);
        self.previous_encoder_count = encoder_count;
        let mut states = [ButtonState { down: false, pressed: false, released: false }; 4];
        let mut i: usize = 0;
        while i < 4
            invariant
                i <= 4,
                self.previous_encoder_count == encoder_count,
                forall|k: int| i <= k < 4 ==> self.previous_button_states@[k] == old(self).previous_button_states@[k],
                forall|k: int| 0 <= k < i ==> self.previous_button_states@[k] == levels@[k],
                forall|k: int| 0 <= k < i ==> states@[k] == button_edges(levels@[k], old(self).previous_button_states@[k]),
            decreases 4 - i,
        {
            let current = levels[i];
            let previous = self.previous_button_states[i];
            states[i] = ButtonState {
                down: current,
                pressed: current && !previous,
                released: !current && previous,
            };
            self.previous_button_states[i] = current;
            i += 1;
        }
        assert(self.previous_levels() =~= levels@);
        InputState {
            encoder: EncoderState { count: encoder_count, delta: encoder_delta, button: states[BUTTON_E] },
            buttons: [states[BUTTON_0], states[BUTTON_1], states[BUTTON_2]],
        }
    }
}

} // verus!
