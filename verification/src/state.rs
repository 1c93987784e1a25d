//! The scheduling state that all threads of the runtime share.

use std::collections::VecDeque;

use vstd::prelude::*;

use crate::bitmask::{lemma_mask_empty, mask_members};
use crate::deque::{LocalDeque, StealPtr, StealQueue};

verus! {

/// The runtime's lifecycle.
///
/// `Uninit` becomes `Running` on [`init`](crate::pool::WebbleBuilder::init), `Running` becomes
/// `Shutdown` on [`shutdown`](crate::pool::shutdown), and `Shutdown` becomes `Running` again on a
/// fresh `init`.
#[derive(Clone, Copy, PartialEq, Eq, Structural, Debug)]
pub enum Lifecycle {
    /// Never initialized (or reset). No workers exist.
    Uninit,
    /// `init` succeeded; workers are live and accepting work.
    Running,
    /// `shutdown` was called; workers are terminated. A fresh `init` restarts the runtime.
    Shutdown,
}

/// The id of the **main thread**. The main thread takes part in the pinned track only, so it is
/// addressed through [`SharedState::main_slot`] rather than `slots`. No worker index reaches this
/// value: there are at most [`MAX_WORKERS`].
pub const MAIN_ID: u32 = 0xffff_ffff;

/// The most workers a runtime can have: one bit of the idle mask for each.
pub const MAX_WORKERS: usize = 32;

/// The distance, in bytes, from one notify word to the next: a cache line.
pub const WORD_STRIDE: usize = 64;

/// A wrapper around a per-worker word.
pub struct Padded<T>(pub T);

/// A woken **pinned** task: the address of its runnable. Only the worker that owns the task may
/// run it. Distinct from [`StealPtr`], so that the two can never be mixed up.
#[derive(Clone, Copy, PartialEq, Eq, Structural, Debug)]
pub struct PinnedPtr(pub u32);

/// Pinned work on its way to a specific thread. Its thunk is called once, on that thread and with
/// that thread's id.
pub struct PendingSpawn<F>(F);

impl<F> PendingSpawn<F> {
    /// The thunk that [`run`](Self::run) calls.
    pub closed spec fn thunk(self) -> F {
        self.0
    }

    /// Hold `f` until its thread takes it.
    pub fn new(f: F) -> (pending: Self)
        ensures
            pending.thunk() == f,
    {
        PendingSpawn(f)
    }

    /// Call the thunk with the id of the calling thread.
    pub fn run(self, worker_id: u32) where F: FnOnce(u32)
        requires
            call_requires(self.thunk(), (worker_id,)),
        ensures
            call_ensures(self.thunk(), (worker_id,), ()),
    {
        (self.0)(worker_id)
    }
}

/// What a [`Slot`] holds.
#[verifier::ext_equal]
pub struct SlotView<F> {
    /// Pinned work placed on this thread and not taken yet, oldest first.
    pub incoming: Seq<PendingSpawn<F>>,
    /// Woken pinned tasks handed back by other threads, oldest first.
    pub ready: Seq<PinnedPtr>,
    /// The stealable tasks of this worker.
    pub local: Seq<StealPtr>,
    /// The number of live pinned futures.
    pub load: u32,
    /// The futex word.
    pub notify: u32,
    /// Whether the worker is inside a drain.
    pub busy: bool,
}

impl<F> SlotView<F> {
    /// A slot that nothing was ever placed on.
    pub open spec fn fresh() -> Self {
        SlotView {
            incoming: Seq::empty(),
            ready: Seq::empty(),
            local: Seq::empty(),
            load: 0,
            notify: 0,
            busy: false,
        }
    }

    /// The same slot after one bump of its futex word.
    pub open spec fn bumped(self) -> Self {
        SlotView { notify: self.notify.wrapping_add(1), ..self }
    }

    /// The same slot with pinned work added to its placements.
    pub open spec fn with_incoming(self, pending: PendingSpawn<F>) -> Self {
        SlotView { incoming: self.incoming.push(pending), ..self }
    }

    /// The same slot with a woken task added.
    pub open spec fn with_ready(self, ptr: PinnedPtr) -> Self {
        SlotView { ready: self.ready.push(ptr), ..self }
    }
}

/// Per-thread scheduling state, addressed by every thread.
pub struct Slot<F> {
    /// Pinned work placed on this thread, not yet spawned.
    pub incoming: VecDeque<PendingSpawn<F>>,
    /// Woken pinned tasks handed back from another thread.
    pub ready: VecDeque<PinnedPtr>,
    /// This worker's stealable tasks.
    pub local: LocalDeque,
    /// Number of live **pinned** futures owned by this worker: the least-loaded placement metric.
    /// Stealable futures do not count here (they balance themselves by stealing).
    pub load: Padded<u32>,
    /// The word that this thread waits on. Producers bump it and then wake the waiter.
    pub notify: Padded<u32>,
    /// `true` while this worker is inside a drain and may touch the shared queues, `false` at a
    /// safe point.
    pub busy: Padded<bool>,
}

impl<F> View for Slot<F> {
    type V = SlotView<F>;

    open spec fn view(&self) -> SlotView<F> {
        SlotView {
            incoming: self.incoming@,
            ready: self.ready@,
            local: self.local@,
            load: self.load.0,
            notify: self.notify.0,
            busy: self.busy.0,
        }
    }
}

impl<F> Slot<F> {
    /// The slot's stealable queue is its own.
    pub open spec fn wf(&self) -> bool {
        self.local.wf()
    }

    /// A fresh slot.
    pub fn new() -> (slot: Self)
        ensures
            slot.wf(),
            slot@ == SlotView::<F>::fresh(),
    {
        Slot {
            incoming: VecDeque::new(),
            ready: VecDeque::new(),
            local: LocalDeque::new(),
            load: Padded(0),
            notify: Padded(0),
            busy: Padded(false),
        }
    }

    /// Drop all queued work and zero the counters. The busy flag stays.
    fn clear(&mut self)
        requires
            old(self).wf(),
        ensures
            final(self).wf(),
            final(self)@ == (SlotView { busy: old(self)@.busy, ..SlotView::<F>::fresh() }),
    {
        self.incoming.clear();
        self.ready.clear();
        let mut popped = self.local.pop();
        while popped.is_some()
            invariant
                self.wf(),
                self.incoming@ == Seq::<PendingSpawn<F>>::empty(),
                self.ready@ == Seq::<PinnedPtr>::empty(),
                self.busy == old(self).busy,
                popped is None ==> self.local@ == Seq::<StealPtr>::empty(),
            decreases self.local@.len() + if popped is Some { 1int } else { 0int },
        {
            popped = self.local.pop();
        }
        self.load.0 = 0;
        self.notify.0 = 0;
    }
}

/// What a [`SharedState`] holds.
#[verifier::ext_equal]
pub struct SharedView<F> {
    /// Whether the slots were ever sized.
    pub sized: bool,
    /// The workers' slots, in the order of their ids.
    pub slots: Seq<SlotView<F>>,
    /// The main thread's slot.
    pub main: SlotView<F>,
    /// The stealable tasks that belong to no worker, oldest first.
    pub injector: Seq<StealPtr>,
    /// The parked workers.
    pub idle: Set<u32>,
    /// The lifecycle.
    pub lifecycle: Lifecycle,
    /// The threads whose waiters are still to be woken, in order.
    pub wakes: Seq<u32>,
}

impl<F> SharedView<F> {
    /// Whether `id` names a worker.
    pub open spec fn has_worker(self, id: u32) -> bool {
        id < self.slots.len()
    }

    /// Whether `id` names a worker or the main thread of a sized runtime.
    pub open spec fn has_slot(self, id: u32) -> bool {
        self.sized && (id == MAIN_ID || self.has_worker(id))
    }

    /// The slot of thread `id`.
    pub open spec fn slot(self, id: u32) -> SlotView<F> {
        if id == MAIN_ID {
            self.main
        } else {
            self.slots[id as int]
        }
    }

    /// The same state with another slot for thread `id`.
    pub open spec fn with_slot(self, id: u32, slot: SlotView<F>) -> Self {
        if id == MAIN_ID {
            SharedView { main: slot, ..self }
        } else {
            SharedView { slots: self.slots.update(id as int, slot), ..self }
        }
    }

    /// After thread `id` was notified: its word is bumped and its waiter is to be woken.
    pub open spec fn notified(self, id: u32) -> Self {
        SharedView {
            wakes: self.wakes.push(id),
            ..self.with_slot(id, self.slot(id).bumped())
        }
    }

    /// With worker `id` marked as parked.
    pub open spec fn idled(self, id: u32) -> Self {
        SharedView { idle: self.idle.insert(id), ..self }
    }

    /// With worker `id` marked as active.
    pub open spec fn unidled(self, id: u32) -> Self {
        SharedView { idle: self.idle.remove(id), ..self }
    }

    /// With the queues and counters of every slot, the injector and the idle set emptied.
    pub open spec fn cleared(self) -> Self {
        SharedView {
            slots: Seq::new(self.slots.len(), |i: int| SlotView::<F>::fresh()),
            main: SlotView { busy: self.main.busy, ..SlotView::<F>::fresh() },
            injector: Seq::empty(),
            idle: Set::empty(),
            ..self
        }
    }

    /// A state never sized.
    pub open spec fn unsized_state() -> Self {
        SharedView {
            sized: false,
            slots: Seq::empty(),
            main: SlotView::<F>::fresh(),
            injector: Seq::empty(),
            idle: Set::empty(),
            lifecycle: Lifecycle::Uninit,
            wakes: Seq::empty(),
        }
    }

    /// The same state sized for `n` workers that have never run anything.
    pub open spec fn sized_for(self, n: nat) -> Self {
        SharedView {
            sized: true,
            slots: Seq::new(n, |i: int| SlotView::<F>::fresh()),
            main: SlotView::<F>::fresh(),
            injector: Seq::empty(),
            idle: Set::empty(),
            ..self
        }
    }
}

/// The scheduling state of the runtime. Every thread works on the same value; the embedder sees
/// to it that they do so one at a time.
pub struct SharedState<F> {
    /// Per-worker slots. Sized once, by the first `init`.
    pub slots: Option<Vec<Slot<F>>>,
    /// The main thread's slot, addressed by [`MAIN_ID`]. Kept apart from `slots`, so that nothing
    /// that concerns workers only has to make an exception for it.
    pub main_slot: Option<Slot<F>>,
    /// Stealable work produced off a worker. A worker turns to it when its own queue and its
    /// siblings' are empty.
    pub injector: Option<StealQueue>,
    /// The **parked** workers: bit `i` is set while worker `i` is, or is about to be, waiting for
    /// a notification. A producer of stealable work wakes one parked worker and claims its bit.
    pub idle: u32,
    /// The [`Lifecycle`]. It guards against a second `init`, stops the drains, and tells a restart
    /// from a first start.
    pub state: Lifecycle,
    /// The threads that were notified and whose waiters the embedder has yet to wake, oldest
    /// first. See [`take_wakes`](Self::take_wakes).
    pub wakes: Vec<u32>,
}

impl<F> View for SharedState<F> {
    type V = SharedView<F>;

    open spec fn view(&self) -> SharedView<F> {
        SharedView {
            sized: self.slots is Some,
            slots: match self.slots {
                Some(slots) => Seq::new(slots@.len(), |i: int| slots@[i]@),
                None => Seq::empty(),
            },
            main: match self.main_slot {
                Some(slot) => slot@,
                None => SlotView::<F>::fresh(),
            },
            injector: match self.injector {
                Some(injector) => injector@,
                None => Seq::empty(),
            },
            idle: mask_members(self.idle),
            lifecycle: self.state,
            wakes: self.wakes@,
        }
    }
}

impl<F> SharedState<F> {
    /// The slots, the main slot and the injector come together; there are at most
    /// [`MAX_WORKERS`] workers; only workers are idle; a running runtime is sized.
    pub open spec fn wf(&self) -> bool {
        &&& (self.slots is Some <==> self.main_slot is Some)
        &&& (self.slots is Some <==> self.injector is Some)
        &&& (self.slots matches Some(slots) ==> {
            &&& slots@.len() <= MAX_WORKERS
            &&& forall|i: int| 0 <= i < slots@.len() ==> (#[trigger] slots@[i]).wf()
        })
        &&& (self.main_slot matches Some(slot) ==> slot.wf())
        &&& forall|i: u32| #[trigger] self@.idle.contains(i) ==> self@.has_worker(i)
        &&& (self.state is Running ==> self.slots is Some)
    }

    /// The state of a runtime that was never initialized.
    pub fn new() -> (state: Self)
        ensures
            state.wf(),
            state@ == SharedView::<F>::unsized_state(),
    {
        proof {
            lemma_mask_empty(0);
        }
        SharedState {
            slots: None,
            main_slot: None,
            injector: None,
            idle: 0,
            state: Lifecycle::Uninit,
            wakes: Vec::new(),
        }
    }

    /// The per-worker slots.
    pub fn slots(&self) -> (slots: &Vec<Slot<F>>)
        requires
            self.wf(),
            self@.sized,
        ensures
            Some(*slots) == self.slots,
            slots@.len() == self@.slots.len(),
            forall|i: int|
                0 <= i < slots@.len() ==> (#[trigger] slots@[i]).wf() && slots@[i]@
                    == self@.slots[i],
    {
        self.slots.as_ref().unwrap()
    }

    /// The current [`Lifecycle`].
    pub fn lifecycle(&self) -> (lifecycle: Lifecycle)
        ensures
            lifecycle == self@.lifecycle,
    {
        self.state
    }

    /// Whether the runtime is shut down. The worker and main drains look at this to stop.
    pub fn is_shutdown(&self) -> (shutdown: bool)
        ensures
            shutdown == (self@.lifecycle is Shutdown),
    {
        matches!(self.state, Lifecycle::Shutdown)
    }

    /// The stealable work that belongs to no worker.
    pub fn injector(&self) -> (injector: &StealQueue)
        requires
            self.wf(),
            self@.sized,
        ensures
            injector@ == self@.injector,
    {
        self.injector.as_ref().unwrap()
    }

    /// Whether `id` is that of a thread with a slot: a worker, or the main thread.
    pub fn has_slot(&self, id: u32) -> (has: bool)
        ensures
            has == self@.has_slot(id),
    {
        match &self.slots {
            Some(slots) => id == MAIN_ID || (id as usize) < slots.len(),
            None => false,
        }
    }

    /// The slot of a worker, or of the main thread for [`MAIN_ID`].
    pub fn slot_for(&self, id: u32) -> (slot: &Slot<F>)
        requires
            self.wf(),
            self@.has_slot(id),
        ensures
            slot.wf(),
            slot@ == self@.slot(id),
    {
        if id == MAIN_ID {
            self.main_slot.as_ref().unwrap()
        } else {
            &self.slots()[id as usize]
        }
    }

    /// The slot of a worker, or of the main thread for [`MAIN_ID`], to be changed.
    pub fn slot_for_mut(&mut self, id: u32) -> (slot: &mut Slot<F>)
        requires
            old(self).wf(),
            old(self)@.has_slot(id),
        ensures
            slot.wf(),
            slot@ == old(self)@.slot(id),
            final(slot).wf() ==> final(self).wf(),
            final(self)@ == old(self)@.with_slot(id, final(slot)@),
    {
        if id == MAIN_ID {
            self.main_slot.as_mut().unwrap()
        } else {
            &mut self.slots.as_mut().unwrap()[id as usize]
        }
    }

    /// Hand out the threads whose waiters are to be woken, in order, and forget them.
    pub fn take_wakes(&mut self) -> (wakes: Vec<u32>)
        ensures
            wakes@ == old(self)@.wakes,
            final(self)@ == (SharedView { wakes: Seq::empty(), ..old(self)@ }),
            old(self).wf() ==> final(self).wf(),
    {
        let mut wakes: Vec<u32> = Vec::new();
        core::mem::swap(&mut wakes, &mut self.wakes);
        wakes
    }
}

/// Clear all per-slot queues and counters, the main slot, the injector and the idle set. Used by a
/// restart, which keeps the slots.
pub fn clear_runtime_state<F>(state: &mut SharedState<F>)
    requires
        old(state).wf(),
        old(state)@.sized,
    ensures
        final(state).wf(),
        final(state)@ == old(state)@.cleared(),
{
    let n: usize = state.slots().len();
    let mut i: usize = 0;
    while i < n
        invariant
            state.wf(),
            state@.sized,
            n == state@.slots.len(),
            0 <= i <= n,
            n == old(state)@.slots.len(),
            forall|j: int| 0 <= j < i ==> #[trigger] state@.slots[j] == SlotView::<F>::fresh(),
            state@ == (SharedView { slots: state@.slots, ..old(state)@ }),
        decreases n - i,
    {
        let slot = state.slot_for_mut(i as u32);
        slot.clear();
        slot.busy.0 = false;
        i = i + 1;
    }
    state.slot_for_mut(MAIN_ID).clear();
    state.injector = Some(StealQueue::new());
    state.idle = 0;
    proof {
        lemma_mask_empty(0);
        assert(state@ =~= old(state)@.cleared());
    }
}

} // verus!
