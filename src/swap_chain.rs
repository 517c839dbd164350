use vstd::prelude::*;

use crate::framebuffer::{Framebuffer, FRAMEBUFFER_BYTES};

verus! {

/// Number of frame buffers that the swap chain hands out.
pub const BUFFER_COUNT: usize = 3;

/// Whether slot `k` of `free` holds `i`.
pub open spec fn slot_holds(free: Seq<Option<usize>>, k: int, i: usize) -> bool {
    free[k] == Some(i)
}

/// Whether buffer `i` is on the free list.
pub open spec fn listed_free(free: Seq<Option<usize>>, i: usize) -> bool {
    exists|k: int| 0 <= k < 3 && #[trigger] slot_holds(free, k, i)
}

/// Number of buffers on the free list.
pub open spec fn free_count(free: Seq<Option<usize>>) -> int {
    (if free[0] is Some { 1int } else { 0int }) + (if free[1] is Some { 1int } else { 0int }) + (
    if free[2] is Some { 1int } else { 0int })
}

/// The first occupied slot of the free list, or 3 when it is empty.
pub open spec fn first_taken_slot(free: Seq<Option<usize>>) -> int {
    if free[0] is Some { 0 } else if free[1] is Some { 1 } else if free[2] is Some { 2 } else { 3 }
}

/// The free list after an acquire: its first occupied slot emptied.
pub open spec fn after_acquire(free: Seq<Option<usize>>) -> Seq<Option<usize>> {
    let k = first_taken_slot(free);
    if k < 3 { free.update(k, None) } else { free }
}

/// The buffer that an acquire hands out: the one in the first occupied
/// slot, or `None` when the free list is empty.
pub open spec fn acquired(free: Seq<Option<usize>>) -> Option<usize> {
    let k = first_taken_slot(free);
    if k < 3 { free[k] } else { None }
}

/// The free list after `n` acquires with nothing returned in between.
pub open spec fn after_acquires(free: Seq<Option<usize>>, n: nat) -> Seq<Option<usize>>
    decreases n,
{
    if n == 0 { free } else { after_acquire(after_acquires(free, (n - 1) as nat)) }
}

/// Acquires that nothing matches drain the free list: after as many
/// acquires as there were free buffers (at most three), a further acquire
/// reports that none is available.
pub proof fn lemma_acquires_exhaust(free: Seq<Option<usize>>, n: nat)
    requires
        free.len() == 3,
        n >= free_count(free),
    ensures
        free_count(after_acquires(free, n)) == 0,
        acquired(after_acquires(free, n)) is None,
        after_acquires(free, n).len() == 3,
{
    lemma_acquires_count(free, n);
}

/// Each acquire on a non-empty free list takes exactly one buffer off it.
proof fn lemma_acquires_count(free: Seq<Option<usize>>, n: nat)
    requires
        free.len() == 3,
    ensures
        after_acquires(free, n).len() == 3,
        free_count(after_acquires(free, n)) == if n <= free_count(free) { free_count(free) - n } else { 0 },
    decreases n,
{
    if n > 0 {
        lemma_acquires_count(free, (n - 1) as nat);
    }
}

/// The first empty slot of the free list, or 3 when it is full.
pub open spec fn first_empty_slot(free: Seq<Option<usize>>) -> int {
    if free[0] is None { 0 } else if free[1] is None { 1 } else if free[2] is None { 2 } else { 3 }
}

/// The free list after buffer `i` is returned to it.
pub open spec fn returned(free: Seq<Option<usize>>, i: usize) -> Seq<Option<usize>> {
    let k = first_empty_slot(free);
    if k < 3 { free.update(k, Some(i)) } else { free }
}

/// The free list has three slots, in-range indices, each listed at most
/// once.
pub open spec fn free_list_ok(free: Seq<Option<usize>>) -> bool {
    &&& free.len() == 3
    &&& forall|k: int| 0 <= k < 3 && #[trigger] free[k] is Some ==> free[k].unwrap() < BUFFER_COUNT
    &&& forall|k: int, l: int|
        0 <= k < l < 3 && #[trigger] free[k] is Some && #[trigger] free[l] is Some ==> free[k] != free[l]
}

/// Consistent bookkeeping: a sound free list, and a presented buffer that
/// is in range and not also on the free list.
pub open spec fn books_ok(free: Seq<Option<usize>>, pending: Option<usize>) -> bool {
    &&& free_list_ok(free)
    &&& match pending {
        Some(p) => p < BUFFER_COUNT && !listed_free(free, p),
        None => true,
    }
}

/// Whether buffer `i` is out of the books: neither free nor presented.
pub open spec fn held_in(free: Seq<Option<usize>>, pending: Option<usize>, i: usize) -> bool {
    i < BUFFER_COUNT && !listed_free(free, i) && pending != Some(i)
}

/// An operation on the buffer bookkeeping.
pub enum SwapOp {
    /// A writer takes a free buffer (or finds none).
    Acquire,
    /// A writer presents the buffer it holds.
    Present(usize),
    /// A writer drops the buffer it holds without presenting it.
    Release(usize),
    /// The scanner adopts the presented buffer in place of the one it
    /// shows, if any.
    Collect(Option<usize>),
}

/// Whether `op` may be applied: only a held buffer can be presented,
/// released or given back by the scanner.
pub open spec fn op_allowed(free: Seq<Option<usize>>, pending: Option<usize>, op: SwapOp) -> bool {
    match op {
        SwapOp::Acquire => true,
        SwapOp::Present(i) => held_in(free, pending, i),
        SwapOp::Release(i) => held_in(free, pending, i),
        SwapOp::Collect(c) => match c {
            Some(i) => held_in(free, pending, i),
            None => true,
        },
    }
}

/// The bookkeeping after `op`.
pub open spec fn apply_op(free: Seq<Option<usize>>, pending: Option<usize>, op: SwapOp) -> (
    Seq<Option<usize>>,
    Option<usize>,
) {
    match op {
        SwapOp::Acquire => (after_acquire(free), pending),
        SwapOp::Present(i) => (
            match pending {
                Some(p) => returned(free, p),
                None => free,
            },
            Some(i),
        ),
        SwapOp::Release(i) => (returned(free, i), pending),
        SwapOp::Collect(c) => (
            match (pending, c) {
                (Some(_), Some(i)) => returned(free, i),
                _ => free,
            },
            None,
        ),
    }
}

/// The bookkeeping after `ops`, in order.
pub open spec fn run_ops(free: Seq<Option<usize>>, pending: Option<usize>, ops: Seq<SwapOp>) -> (
    Seq<Option<usize>>,
    Option<usize>,
)
    decreases ops.len(),
{
    if ops.len() == 0 {
        (free, pending)
    } else {
        let next = apply_op(free, pending, ops[0]);
        run_ops(next.0, next.1, ops.drop_first())
    }
}

/// Whether every operation of `ops` is allowed where it is applied.
pub open spec fn run_allowed(free: Seq<Option<usize>>, pending: Option<usize>, ops: Seq<SwapOp>) -> bool
    decreases ops.len(),
{
    if ops.len() == 0 {
        true
    } else {
        let next = apply_op(free, pending, ops[0]);
        op_allowed(free, pending, ops[0]) && run_allowed(next.0, next.1, ops.drop_first())
    }
}

/// Taking a buffer off a sound free list leaves it sound and lists nothing
/// new.
proof fn lemma_acquire_keeps_list(free: Seq<Option<usize>>)
    requires
        free_list_ok(free),
    ensures
        free_list_ok(after_acquire(free)),
        forall|j: usize| #[trigger] listed_free(after_acquire(free), j) ==> listed_free(free, j),
{
    let a = after_acquire(free);
    assert forall|j: usize| #[trigger] listed_free(a, j) implies listed_free(free, j) by {
        let m = choose|m: int| 0 <= m < 3 && #[trigger] slot_holds(a, m, j);
        assert(slot_holds(free, m, j));
    }
}

/// Returning an unlisted buffer to a sound free list keeps it sound and
/// lists exactly that buffer more.
proof fn lemma_return_keeps_list(free: Seq<Option<usize>>, i: usize)
    requires
        free_list_ok(free),
        i < BUFFER_COUNT,
        !listed_free(free, i),
    ensures
        free_list_ok(returned(free, i)),
        forall|j: usize| #[trigger] listed_free(returned(free, i), j) <==> (listed_free(free, j) || j == i),
{
    lemma_room_for_held(free, i);
    let k = first_empty_slot(free);
    let r = returned(free, i);
    assert(slot_holds(r, k, i));
    assert forall|j: usize| #[trigger] listed_free(r, j) <==> (listed_free(free, j) || j == i) by {
        if listed_free(free, j) {
            let m = choose|m: int| 0 <= m < 3 && #[trigger] slot_holds(free, m, j);
            assert(slot_holds(r, m, j));
        }
        if listed_free(r, j) && j != i {
            let m = choose|m: int| 0 <= m < 3 && #[trigger] slot_holds(r, m, j);
            assert(slot_holds(free, m, j));
        }
    }
    assert forall|k1: int, l1: int|
        0 <= k1 < l1 < 3 && #[trigger] r[k1] is Some && #[trigger] r[l1] is Some implies r[k1] != r[l1] by {
        if k1 == k {
            assert(!slot_holds(free, l1, i));
        } else if l1 == k {
            assert(!slot_holds(free, k1, i));
        }
    }
}

/// Every allowed operation keeps the bookkeeping consistent.
pub proof fn lemma_op_keeps_books(free: Seq<Option<usize>>, pending: Option<usize>, op: SwapOp)
    requires
        books_ok(free, pending),
        op_allowed(free, pending, op),
    ensures
        books_ok(apply_op(free, pending, op).0, apply_op(free, pending, op).1),
{
    match op {
        SwapOp::Acquire => {
            lemma_acquire_keeps_list(free);
        },
        SwapOp::Present(i) => {
            if let Some(p) = pending {
                lemma_return_keeps_list(free, p);
                assert(i != p);
            }
        },
        SwapOp::Release(i) => {
            lemma_return_keeps_list(free, i);
            if let Some(p) = pending {
                assert(p != i);
            }
        },
        SwapOp::Collect(c) => {
            if let (Some(_), Some(i)) = (pending, c) {
                lemma_return_keeps_list(free, i);
            }
        },
    }
}

/// Safety over any run: whatever sequence of allowed acquires, presents,
/// releases and collects is applied to consistent bookkeeping, at every
/// step at most one buffer is presented and it is never also on the free
/// list.
pub proof fn lemma_runs_keep_books(free: Seq<Option<usize>>, pending: Option<usize>, ops: Seq<SwapOp>)
    requires
        books_ok(free, pending),
        run_allowed(free, pending, ops),
    ensures
        books_ok(run_ops(free, pending, ops).0, run_ops(free, pending, ops).1),
        run_ops(free, pending, ops).1 matches Some(p) ==> !listed_free(run_ops(free, pending, ops).0, p),
    decreases ops.len(),
{
    if ops.len() > 0 {
        lemma_op_keeps_books(free, pending, ops[0]);
        let next = apply_op(free, pending, ops[0]);
        lemma_runs_keep_books(next.0, next.1, ops.drop_first());
    }
}

/// A held buffer leaves room on the free list: at most the two other
/// buffers are listed there.
proof fn lemma_room_for_held(free: Seq<Option<usize>>, i: usize)
    requires
        free.len() == 3,
        forall|k: int| 0 <= k < 3 && #[trigger] free[k] is Some ==> free[k].unwrap() < BUFFER_COUNT,
        forall|k: int, l: int|
            0 <= k < l < 3 && #[trigger] free[k] is Some && #[trigger] free[l] is Some ==> free[k] != free[l],
        i < BUFFER_COUNT,
        !listed_free(free, i),
    ensures
        first_empty_slot(free) < 3,
        free_count(free) < 3,
{
    if free[0] is Some && free[1] is Some && free[2] is Some {
        assert(!slot_holds(free, 0, i));
        assert(!slot_holds(free, 1, i));
        assert(!slot_holds(free, 2, i));
        assert(free[0] != free[1] && free[0] != free[2] && free[1] != free[2]);
    }
}

/// Bookkeeping of the three frame buffers: a free list and at most one
/// presented buffer waiting for the scanner.
///
/// Each buffer index is in exactly one place: on the free list, presented,
/// or held (by a writer that acquired it, or by the scanner that collected
/// it).
pub struct SwapChainState {
    pending_read: Option<usize>,
    free: [Option<usize>; BUFFER_COUNT],
}

impl SwapChainState {
    /// The free list, slot by slot.
    pub closed spec fn free_slots(&self) -> Seq<Option<usize>> {
        self.free@
    }

    /// The presented buffer that the scanner has not collected yet.
    pub closed spec fn pending(&self) -> Option<usize> {
        self.pending_read
    }

    /// Whether buffer `i` is on the free list.
    pub open spec fn is_free(&self, i: usize) -> bool {
        listed_free(self.free_slots(), i)
    }

    /// Whether buffer `i` is out of the bookkeeping: acquired by a writer
    /// or in use by the scanner.
    pub open spec fn is_held(&self, i: usize) -> bool {
        i < BUFFER_COUNT && !self.is_free(i) && self.pending() != Some(i)
    }

    /// Number of buffers on the free list.
    pub open spec fn free_len(&self) -> int {
        free_count(self.free_slots())
    }

    /// Indices are in range, listed at most once, and the presented buffer
    /// is not also on the free list.
    pub open spec fn wf(&self) -> bool {
        books_ok(self.free_slots(), self.pending())
    }

    /// All three buffers free, none presented.
    pub fn new() -> (r: Self)
        ensures
            r.wf(),
            r.pending() is None,
            r.free_slots() == seq![Some(0usize), Some(1usize), Some(2usize)],
            r.free_len() == 3,
    {
        let r = SwapChainState { pending_read: None, free: [Some(0), Some(1), Some(2)] };
        assert(r.free_slots() =~= seq![Some(0usize), Some(1usize), Some(2usize)]);
        r
    }

    /// Takes the buffer in the first occupied slot of the free list, or
    /// `None` when every buffer is in flight.
    pub fn get_next_target(&mut self) -> (r: Option<usize>)
        requires
            old(self).wf(),
        ensures
            final(self).wf(),
            final(self).pending() == old(self).pending(),
            final(self).free_slots() == after_acquire(old(self).free_slots()),
            r == acquired(old(self).free_slots()),
            r is None <==> old(self).free_len() == 0,
            r matches Some(i) ==> old(self).is_free(i) && final(self).is_held(i) && final(self).free_len()
                == old(self).free_len() - 1,
            forall|j: usize| r != Some(j) ==> (#[trigger] final(self).is_free(j) <==> old(self).is_free(j)),
    {
        proof {
            lemma_acquire_keeps_list(self.free_slots());
        }
        let mut i: usize = 0;
        while i < 3
            invariant
                i <= 3,
                *self == *old(self),
                self.wf(),
                free_list_ok(after_acquire(old(self).free_slots())),
                forall|j: usize| #[trigger] listed_free(after_acquire(old(self).free_slots()), j) ==> listed_free(old(self).free_slots(), j),
                forall|k: int| 0 <= k < i ==> self.free@[k] is None,
            decreases 3 - i,
        {
            match self.free[i] {
                Some(index) => {
                    self.free[i] = None;
                    proof {
                        let ghost k = i as int;
                        assert(self.free_slots() =~= old(self).free_slots().update(k, None));
                        assert(first_taken_slot(old(self).free_slots()) == k);
                        assert(self.free_slots() =~= after_acquire(old(self).free_slots()));
                        assert forall|j: usize| Some(index) != Some(j) implies (#[trigger] self.is_free(j)
                            <==> old(self).is_free(j)) by {
                            if old(self).is_free(j) {
                                let m = choose|m: int| 0 <= m < 3 && #[trigger] slot_holds(old(self).free_slots(), m, j);
                                assert(slot_holds(self.free_slots(), m, j));
                            }
                            if self.is_free(j) {
                                let m = choose|m: int| 0 <= m < 3 && #[trigger] slot_holds(self.free_slots(), m, j);
                                assert(slot_holds(old(self).free_slots(), m, j));
                            }
                        }
                        assert(!self.is_free(index)) by {
                            if self.is_free(index) {
                                let m = choose|m: int| 0 <= m < 3 && #[trigger] slot_holds(self.free_slots(), m, index);
                                assert(old(self).free_slots()[m] is Some);
                            }
                        }
                        assert(old(self).is_free(index)) by {
                            assert(slot_holds(old(self).free_slots(), k, index));
                        }
                    }
                    return Some(index);
                },
                None => {},
            }
            i += 1;
        }
        None
    }

    /// Returns held buffer `index` to the first empty slot of the free list.
    pub fn free(&mut self, index: usize)
        requires
            old(self).wf(),
            old(self).is_held(index),
        ensures
            final(self).wf(),
            final(self).pending() == old(self).pending(),
            final(self).free_slots() == returned(old(self).free_slots(), index),
            final(self).free_len() == old(self).free_len() + 1,
            forall|j: usize| #[trigger] final(self).is_free(j) <==> (old(self).is_free(j) || j == index),
    {
        proof {
            lemma_room_for_held(self.free_slots(), index);
            lemma_return_keeps_list(self.free_slots(), index);
        }
        let mut i: usize = 0;
        while i < 3
            invariant
                i <= 3,
                *self == *old(self),
                old(self).wf(),
                old(self).is_held(index),
                first_empty_slot(old(self).free_slots()) < 3,
                free_list_ok(returned(old(self).free_slots(), index)),
                forall|j: usize| #[trigger] listed_free(returned(old(self).free_slots(), index), j) <==> (listed_free(old(self).free_slots(), j) || j == index),
                forall|k: int| 0 <= k < i ==> self.free@[k] is Some,
            decreases 3 - i,
        {
            if self.free[i].is_none() {
                self.free[i] = Some(index);
                proof {
                    let ghost k = i as int;
                    assert(first_empty_slot(old(self).free_slots()) == k);
                    assert(self.free_slots() =~= returned(old(self).free_slots(), index));
                }
                return;
            }
            i += 1;
        }
    }

    /// Publishes held buffer `index` for the scanner; a buffer that was
    /// presented before and not collected goes back to the free list at
    /// once.
    pub fn present(&mut self, index: usize)
        requires
            old(self).wf(),
            old(self).is_held(index),
        ensures
            final(self).wf(),
            final(self).pending() == Some(index),
            final(self).free_slots() == match old(self).pending() {
                Some(p) => returned(old(self).free_slots(), p),
                None => old(self).free_slots(),
            },
            final(self).free_len() == old(self).free_len() + if old(self).pending() is Some {
                1int
            } else {
                0int
            },
            forall|j: usize| #[trigger] final(self).is_free(j) <==> (old(self).is_free(j) || old(self).pending() == Some(j)),
    {
        if let Some(old_pending) = self.pending_read {
            self.pending_read = None;
            self.free(old_pending);
        }
        let ghost before = *self;
        self.pending_read = Some(index);
        proof {
            assert(self.free_slots() == before.free_slots());
            assert forall|j: usize| #[trigger] self.is_free(j) <==> before.is_free(j) by {}
            assert(!self.is_free(index));
        }
    }

    /// Takes the presented buffer, if any, leaving nothing presented.
    pub fn pop_presented(&mut self) -> (r: Option<usize>)
        requires
            old(self).wf(),
        ensures
            final(self).wf(),
            r == old(self).pending(),
            final(self).pending() is None,
            final(self).free_slots() == old(self).free_slots(),
            r matches Some(i) ==> final(self).is_held(i),
    {
        self.pending_read.take()
    }
}


/// No buffer is ever both presented and on the free list, whatever
/// sequence of operations led to the state: every operation keeps `wf`,
/// and `wf` rules the overlap out.
pub proof fn lemma_presented_never_free(s: SwapChainState, i: usize)
    requires
        s.wf(),
    ensures
        !(s.is_free(i) && s.pending() == Some(i)),
{
}

/// The three frame buffers and their bookkeeping. Writers acquire a
/// buffer, draw into it and present it; the scanner collects the most
/// recently presented one.
pub struct SwapChain {
    framebuffers: [Framebuffer; BUFFER_COUNT],
    state: SwapChainState,
}

/// Exclusive write access to one buffer of a `SwapChain`, from `acquire`
/// until it is presented or released.
pub struct SwapChainTarget {
    index: usize,
    presented: bool,
}

impl SwapChain {
    /// The buffer bookkeeping.
    pub closed spec fn state(&self) -> SwapChainState {
        self.state
    }

    /// The three frame buffers.
    pub closed spec fn buffers(&self) -> Seq<Framebuffer> {
        self.framebuffers@
    }

    pub open spec fn wf(&self) -> bool {
        self.state().wf()
    }

    /// Read access to buffer `index`, as the scanner has it.
    pub fn framebuffer_at(&self, index: usize) -> (r: &Framebuffer)
        requires
            index < BUFFER_COUNT,
        ensures
            *r == self.buffers()[index as int],
    {
        &self.framebuffers[index]
    }

    /// Three unlit buffers, all free.
    pub fn new() -> (r: Self)
        ensures
            r.wf(),
            r.state().pending() is None,
            r.state().free_slots() == seq![Some(0usize), Some(1usize), Some(2usize)],
            r.state().free_len() == 3,
            r.buffers().len() == 3,
            forall|i: int, j: int|
                0 <= i < 3 && 0 <= j < FRAMEBUFFER_BYTES ==> #[trigger] r.buffers()[i].buffer@[j] == 0,
    {
        SwapChain {
            framebuffers: [Framebuffer::new(), Framebuffer::new(), Framebuffer::new()],
            state: SwapChainState::new(),
        }
    }

    /// A write handle on a free buffer, or `None` when all three are in
    /// flight.
    pub fn acquire_next_target(&mut self) -> (r: Option<SwapChainTarget>)
        requires
            old(self).wf(),
        ensures
            final(self).wf(),
            final(self).buffers() == old(self).buffers(),
            final(self).state().pending() == old(self).state().pending(),
            final(self).state().free_slots() == after_acquire(old(self).state().free_slots()),
            r is None <==> acquired(old(self).state().free_slots()) is None,
            r matches Some(t) ==> {
                &&& Some(t.index()) == acquired(old(self).state().free_slots())
                &&& !t.presented()
                &&& final(self).state().is_held(t.index())
            },
    {
        match self.state.get_next_target() {
            Some(index) => Some(SwapChainTarget { index, presented: false }),
            None => None,
        }
    }

    /// Scanner side: adopts a newly presented buffer in place of `current`,
    /// returning the one to scan from now on. The replaced buffer goes back
    /// to the free list; with nothing new presented `current` is kept.
    pub fn collect(&mut self, current: Option<usize>) -> (r: Option<usize>)
        requires
            old(self).wf(),
            current matches Some(c) ==> old(self).state().is_held(c),
        ensures
            final(self).wf(),
            final(self).buffers() == old(self).buffers(),
            final(self).state().pending() is None,
            r == match old(self).state().pending() {
                Some(p) => Some(p),
                None => current,
            },
            final(self).state().free_slots() == match (old(self).state().pending(), current) {
                (Some(_), Some(c)) => returned(old(self).state().free_slots(), c),
                _ => old(self).state().free_slots(),
            },
            r matches Some(i) ==> final(self).state().is_held(i),
    {
        match (self.state.pop_presented(), current) {
            (Some(new), Some(old)) => {
                self.state.free(old);
                Some(new)
            },
            (Some(new), None) => Some(new),
            (None, Some(old)) => Some(old),
            (None, None) => None,
        }
    }
}

impl SwapChainTarget {
    /// The buffer this handle writes to.
    pub closed spec fn index(&self) -> usize {
        self.index
    }

    /// Whether the buffer has been presented through this handle.
    pub closed spec fn presented(&self) -> bool {
        self.presented
    }

    /// The buffer this handle writes to.
    pub fn buffer_index(&self) -> (r: usize)
        ensures
            r == self.index(),
    {
        self.index
    }

    /// The buffer to draw into.
    pub fn framebuffer<'a>(&self, swapchain: &'a mut SwapChain) -> (r: &'a mut Framebuffer)
        requires
            self.index() < BUFFER_COUNT,
        ensures
            *r == old(swapchain).buffers()[self.index() as int],
            final(swapchain).buffers() == old(swapchain).buffers().update(self.index() as int, *final(r)),
            final(swapchain).state() == old(swapchain).state(),
    {
        &mut swapchain.framebuffers[self.index]
    }

    /// Publishes the buffer for the scanner; only the first call through a
    /// handle has an effect.
    pub fn present(&mut self, swapchain: &mut SwapChain)
        requires
            old(swapchain).wf(),
            !old(self).presented() ==> old(swapchain).state().is_held(old(self).index()),
        ensures
            final(swapchain).wf(),
            final(swapchain).buffers() == old(swapchain).buffers(),
            final(self).index() == old(self).index(),
            final(self).presented(),
            old(self).presented() ==> final(swapchain).state() == old(swapchain).state(),
            !old(self).presented() ==> {
                &&& final(swapchain).state().pending() == Some(old(self).index())
                &&& final(swapchain).state().free_slots() == match old(swapchain).state().pending() {
                    Some(p) => returned(old(swapchain).state().free_slots(), p),
                    None => old(swapchain).state().free_slots(),
                }
            },
    {
        if self.presented {
            return;
        }
        swapchain.state.present(self.index);
        self.presented = true;
    }

    /// Ends the handle. A buffer that was never presented goes back to the
    /// free list, so an abandoned frame strands nothing.
    pub fn release(self, swapchain: &mut SwapChain)
        requires
            old(swapchain).wf(),
            !self.presented() ==> old(swapchain).state().is_held(self.index()),
        ensures
            final(swapchain).wf(),
            final(swapchain).buffers() == old(swapchain).buffers(),
            self.presented() ==> final(swapchain).state() == old(swapchain).state(),
            !self.presented() ==> {
                &&& final(swapchain).state().pending() == old(swapchain).state().pending()
                &&& final(swapchain).state().free_slots() == returned(old(swapchain).state().free_slots(), self.index())
                &&& final(swapchain).state().free_len() == old(swapchain).state().free_len() + 1
                &&& final(swapchain).state().is_free(self.index())
            },
    {
        if self.presented {
            return;
        }
        swapchain.state.free(self.index);
    }
}

} // verus!
