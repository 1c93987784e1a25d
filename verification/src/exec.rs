//! Where a woken task goes, and whom it wakes.

use vstd::prelude::*;

use crate::bitmask::{
    lemma_mask_empty, lemma_mask_insert, lemma_mask_least, lemma_mask_remove, lemma_mask_test,
    mask_members,
};
use crate::deque::StealPtr;
use crate::state::{
    PendingSpawn, PinnedPtr, SharedState, SharedView, SlotView, MAIN_ID, MAX_WORKERS, WORD_STRIDE,
};
use crate::task::{address_of, lies_at, owner_of, runnable_owner, Run, Steal};
use crate::thread::{current_raw, thread_id, Microtask, ThreadState, ThreadView};

verus! {

/// Whether `w` is the least member of `s`.
pub open spec fn is_least(s: Set<u32>, w: u32) -> bool {
    s.contains(w) && forall|j: u32| #[trigger] s.contains(j) ==> w <= j
}

impl<F> SharedView<F> {
    /// Whether thread `id` may push stealable work: it is no worker, or one with a slot.
    pub open spec fn knows(self, id: Option<u32>) -> bool {
        id matches Some(id) ==> id == MAIN_ID || self.has_worker(id)
    }

    /// After thread `from` pushed a stealable task: onto its own queue if it is a worker, else
    /// into the injector.
    pub open spec fn with_stealable(self, from: Option<u32>, ptr: StealPtr) -> Self {
        match from {
            Some(id) if id != MAIN_ID => self.with_slot(
                id,
                SlotView { local: self.slot(id).local.push(ptr), ..self.slot(id) },
            ),
            _ => SharedView { injector: self.injector.push(ptr), ..self },
        }
    }

    /// After one parked worker, `w`, was claimed out of the idle set and notified.
    pub open spec fn claimed(self, w: u32) -> Self {
        self.unidled(w).notified(w)
    }

    /// After one parked worker was woken, the one with the least index, if any is parked.
    pub open spec fn woke_one(self, after: Self) -> bool {
        if self.idle == Set::<u32>::empty() {
            after == self
        } else {
            exists|w: u32| #[trigger] is_least(self.idle, w) && after == self.claimed(w)
        }
    }

    /// After one parked worker out of `candidates` was woken, the one with the least index, if any
    /// of them is parked.
    pub open spec fn woke_one_of(self, candidates: Set<u32>, after: Self) -> bool {
        let claimable = candidates.intersect(self.idle);
        if claimable == Set::<u32>::empty() {
            after == self
        } else {
            exists|w: u32| #[trigger] is_least(claimable, w) && after == self.claimed(w)
        }
    }

    /// After thread `id` took the oldest pinned task that was handed back to it.
    pub open spec fn ready_popped(self, id: u32) -> Self {
        self.with_slot(
            id,
            SlotView { ready: self.slot(id).ready.skip(1), ..self.slot(id) },
        )
    }

    /// After thread `id` took the oldest pinned work that was placed on it.
    pub open spec fn incoming_popped(self, id: u32) -> Self {
        self.with_slot(
            id,
            SlotView { incoming: self.slot(id).incoming.skip(1), ..self.slot(id) },
        )
    }

    /// After a pinned task of `owner` was handed back to it from another thread.
    pub open spec fn handed_back(self, owner: u32, ptr: PinnedPtr) -> Self {
        self.with_slot(owner, self.slot(owner).with_ready(ptr)).notified(owner)
    }
}

/// Where a woken pinned task goes. On its owner's thread it waits for a microtask; from anywhere
/// else it is handed back to its owner, who is notified.
pub open spec fn routed_pinned<F, W>(
    shared: SharedView<F>,
    thread: ThreadView<W>,
    owner: u32,
    ptr: PinnedPtr,
    shared_after: SharedView<F>,
    thread_after: ThreadView<W>,
) -> bool {
    if thread.raw() == Some(owner) {
        shared_after == shared && thread_after == thread.with_pinned(ptr)
    } else {
        shared_after == shared.handed_back(owner, ptr) && thread_after == thread
    }
}

/// What a deferred wake that comes on `thread` does: it notifies the worker that the thread is.
pub open spec fn rearm_fired<F, W>(shared: SharedView<F>, thread: ThreadView<W>) -> SharedView<F> {
    match thread.worker() {
        Some(id) => shared.notified(id),
        None => shared,
    }
}

/// Take the oldest pinned task that was handed back to thread `id`.
pub(crate) fn pop_ready<F>(state: &mut SharedState<F>, id: u32) -> (popped: Option<PinnedPtr>)
    requires
        old(state).wf(),
        old(state)@.has_slot(id),
    ensures
        final(state).wf(),
        old(state)@.slot(id).ready.len() == 0 ==> popped is None && final(state)@ == old(state)@,
        old(state)@.slot(id).ready.len() > 0 ==> popped == Some(old(state)@.slot(id).ready[0])
            && final(state)@ == old(state)@.ready_popped(id),
{
    let ghost before = state@;
    let popped = state.slot_for_mut(id).ready.pop_front();
    assert(popped is None ==> state@ =~= before);
    assert(popped is Some ==> state@ =~= before.ready_popped(id));
    popped
}

/// Take the oldest pinned work that was placed on thread `id`.
pub(crate) fn pop_incoming<F>(state: &mut SharedState<F>, id: u32) -> (popped: Option<
    PendingSpawn<F>,
>)
    requires
        old(state).wf(),
        old(state)@.has_slot(id),
    ensures
        final(state).wf(),
        old(state)@.slot(id).incoming.len() == 0 ==> popped is None && final(state)@ == old(
            state,
        )@,
        old(state)@.slot(id).incoming.len() > 0 ==> popped == Some(
            old(state)@.slot(id).incoming[0],
        ) && final(state)@ == old(state)@.incoming_popped(id),
{
    let ghost before = state@;
    let popped = state.slot_for_mut(id).incoming.pop_front();
    assert(popped is None ==> state@ =~= before);
    assert(popped is Some ==> state@ =~= before.incoming_popped(id));
    popped
}

/// Wake thread `id` if it is parked on its notify word: the word is bumped, and the embedder is
/// told to wake the waiter. Producers MUST queue their work BEFORE calling this.
pub fn notify_worker<F>(state: &mut SharedState<F>, id: u32)
    requires
        old(state).wf(),
        old(state)@.has_slot(id),
    ensures
        final(state).wf(),
        final(state)@ == old(state)@.notified(id),
{
    let slot = state.slot_for_mut(id);
    slot.notify.0 = slot.notify.0.wrapping_add(1);
    state.wakes.push(id);
}

/// Where the notify word of thread `id` lies, in a table of such words at `base`: the workers' in
/// the order of their ids, then the main thread's, each on a cache line of its own.
pub open spec fn word_address(base: int, id: u32) -> int {
    base + WORD_STRIDE * if id == MAIN_ID {
        MAX_WORKERS as int
    } else {
        id as int
    }
}

/// The index, in words of four bytes, of the notify word of thread `id`: what an asynchronous wait
/// on the word takes. `base` is the address of the table of notify words. It is fixed for good, and
/// so is the index.
pub fn __notify_index(base: usize, id: u32) -> (index: u32)
    requires
        base % 4 == 0,
        base + WORD_STRIDE * MAX_WORKERS <= usize::MAX,
        base + WORD_STRIDE * MAX_WORKERS <= 4 * u32::MAX,
        id == MAIN_ID || id < MAX_WORKERS,
    ensures
        4 * index == word_address(base as int, id),
{
    let position: usize = if id == MAIN_ID {
        MAX_WORKERS
    } else {
        id as usize
    };
    ((base + WORD_STRIDE * position) / 4) as u32
}

/// Keep a woken pinned task for this thread's next microtask, and ask for that microtask unless it
/// already was.
pub fn push_microtask<W>(thread: &mut ThreadState<W>, ptr: PinnedPtr)
    ensures
        final(thread)@ == old(thread)@.with_pinned(ptr),
{
    thread.micro.pending.push_back(ptr);
    if thread.micro.scheduled {
        return;
    }
    thread.micro.scheduled = true;
    thread.microtasks.push(Microtask::DrainPinned);
}

/// Hand out the pinned tasks that wait, oldest first. Tasks woken while these run are picked up by
/// a fresh microtask, so the thread always yields to its event loop between batches.
pub fn drain_microtasks<W>(thread: &mut ThreadState<W>) -> (batch: Vec<PinnedPtr>)
    ensures
        batch@ == old(thread)@.pending,
        final(thread)@ == old(thread)@.drained(),
{
    thread.micro.scheduled = false;
    let mut batch: Vec<PinnedPtr> = Vec::new();
    while thread.micro.pending.len() > 0
        invariant
            thread@ == (ThreadView {
                pending: thread@.pending,
                scheduled: false,
                ..old(thread)@
            }),
            old(thread)@.pending == batch@ + thread@.pending,
        decreases thread@.pending.len(),
    {
        if let Some(ptr) = thread.micro.pending.pop_front() {
            batch.push(ptr);
        }
    }
    batch
}

/// Send a woken pinned task to its owner, the only thread that may run it.
pub fn route_pinned<F, W>(
    state: &mut SharedState<F>,
    thread: &mut ThreadState<W>,
    owner: u32,
    ptr: PinnedPtr,
)
    requires
        old(state).wf(),
        old(thread)@.raw() == Some(owner) || old(state)@.has_slot(owner),
    ensures
        final(state).wf(),
        routed_pinned(old(state)@, old(thread)@, owner, ptr, final(state)@, final(thread)@),
{
    if current_raw(thread) == Some(owner) {
        // Hot path: woken on the owner (a worker, or the main thread for an `on_main` task).
        push_microtask(thread, ptr);
    } else {
        // Cold path: woken from another thread (e.g. by a send on a channel).
        state.slot_for_mut(owner).ready.push_back(ptr);
        notify_worker(state, owner);
    }
}

/// The schedule hook of pinned tasks, called at the first spawn and on every wake: the task goes to
/// the thread that its metadata names.
pub fn schedule<F, W>(state: &mut SharedState<F>, thread: &mut ThreadState<W>, runnable: Run)
    requires
        old(state).wf(),
        old(thread)@.raw() == Some(runnable_owner(runnable)) || old(state)@.has_slot(
            runnable_owner(runnable),
        ),
    ensures
        final(state).wf(),
        exists|ptr: PinnedPtr|
            lies_at(runnable, ptr.0) && #[trigger] routed_pinned(
                old(state)@,
                old(thread)@,
                runnable_owner(runnable),
                ptr,
                final(state)@,
                final(thread)@,
            ),
{
    let owner: u32 = owner_of(&runnable);
    let ptr = PinnedPtr(address_of(runnable));
    route_pinned(state, thread, owner, ptr);
}

/// [`schedule`], for a task of which it is not known whether its owner exists. If the owner is not
/// this thread and has no slot, the task is handed back and nothing changes.
pub fn try_schedule<F, W>(
    state: &mut SharedState<F>,
    thread: &mut ThreadState<W>,
    runnable: Run,
) -> (refused: Option<Run>)
    requires
        old(state).wf(),
    ensures
        final(state).wf(),
        refused == if old(thread)@.raw() == Some(runnable_owner(runnable)) || old(state)@.has_slot(
            runnable_owner(runnable),
        ) {
            None
        } else {
            Some(runnable)
        },
        refused is Some ==> final(state)@ == old(state)@ && final(thread)@ == old(thread)@,
        refused is None ==> exists|ptr: PinnedPtr|
            lies_at(runnable, ptr.0) && #[trigger] routed_pinned(
                old(state)@,
                old(thread)@,
                runnable_owner(runnable),
                ptr,
                final(state)@,
                final(thread)@,
            ),
{
    let owner: u32 = owner_of(&runnable);
    if current_raw(thread) == Some(owner) || state.has_slot(owner) {
        schedule(state, thread, runnable);
        None
    } else {
        Some(runnable)
    }
}

/// Queue a stealable task and wake one parked worker to take it. A worker keeps it on its own
/// queue; any other thread puts it into the injector (the main thread never runs stealable work).
pub fn push_stealable<F, W>(state: &mut SharedState<F>, thread: &ThreadState<W>, ptr: StealPtr)
    requires
        old(state).wf(),
        old(state)@.sized,
        old(state)@.knows(thread@.raw()),
    ensures
        final(state).wf(),
        old(state)@.with_stealable(thread@.raw(), ptr).woke_one(final(state)@),
{
    enqueue_stealable(state, thread, ptr);
    // The push comes before the look at the idle set. A worker that is about to park marks itself
    // idle before it looks at the queues, so either it is seen here, or it sees the new task.
    wake_one(state);
}

/// Queue a stealable task without waking anybody.
pub fn enqueue_stealable<F, W>(state: &mut SharedState<F>, thread: &ThreadState<W>, ptr: StealPtr)
    requires
        old(state).wf(),
        old(state)@.sized,
        old(state)@.knows(thread@.raw()),
    ensures
        final(state).wf(),
        final(state)@ == old(state)@.with_stealable(thread@.raw(), ptr),
{
    match current_raw(thread) {
        Some(id) if id != MAIN_ID => state.slot_for_mut(id).local.push(ptr),
        _ => state.injector.as_mut().unwrap().push(ptr),
    }
}

/// The schedule hook of stealable tasks, called at the first spawn and on every wake.
pub fn schedule_stealable<F, W>(
    state: &mut SharedState<F>,
    thread: &ThreadState<W>,
    runnable: Steal,
)
    requires
        old(state).wf(),
        old(state)@.sized,
        old(state)@.knows(thread@.raw()),
    ensures
        final(state).wf(),
        exists|ptr: StealPtr|
            lies_at(runnable, ptr.0) && (#[trigger] old(state)@.with_stealable(
                thread@.raw(),
                ptr,
            )).woke_one(final(state)@),
{
    let ptr = StealPtr(address_of(runnable));
    push_stealable(state, thread, ptr);
}

/// Mark worker `id` as parked.
pub fn idle_set<F>(state: &mut SharedState<F>, id: u32)
    requires
        old(state).wf(),
        old(state)@.has_worker(id),
    ensures
        final(state).wf(),
        final(state)@ == old(state)@.idled(id),
{
    proof {
        lemma_mask_insert(state.idle, id);
    }
    state.idle = state.idle | (1u32 << id);
}

/// Mark worker `id` as active.
pub fn idle_clear<F>(state: &mut SharedState<F>, id: u32)
    requires
        old(state).wf(),
        old(state)@.has_worker(id),
    ensures
        final(state).wf(),
        final(state)@ == old(state)@.unidled(id),
{
    proof {
        lemma_mask_remove(state.idle, id);
    }
    state.idle = state.idle & !(1u32 << id);
}

/// Wake one parked worker, if any, to claim freshly pushed stealable work. It leaves the idle set,
/// so that a batch of pushes fans out across distinct workers.
///
/// If no worker is parked, none is woken: every worker marks itself idle and then looks at the
/// queues once more before it parks, so one that is still in its drain will find the work.
pub fn wake_one<F>(state: &mut SharedState<F>)
    requires
        old(state).wf(),
    ensures
        final(state).wf(),
        old(state)@.woke_one(final(state)@),
{
    let seen: u32 = state.idle;
    assert(mask_members(seen).intersect(state@.idle) =~= state@.idle);
    wake_one_of(state, seen);
}

/// Wake one of the workers in `seen`, an earlier look at the idle set. A worker that has left the
/// idle set since was claimed by another producer or is active, so it is passed over.
pub fn wake_one_of<F>(state: &mut SharedState<F>, seen: u32)
    requires
        old(state).wf(),
    ensures
        final(state).wf(),
        old(state)@.woke_one_of(mask_members(seen), final(state)@),
{
    let ghost idle = state@.idle;
    let ghost claimable = mask_members(seen).intersect(idle);
    let mut left: u32 = seen;
    proof {
        lemma_mask_empty(seen);
    }
    while left != 0
        invariant
            state.wf(),
            state@ == old(state)@,
            idle == state@.idle,
            claimable == mask_members(seen).intersect(idle),
            mask_members(left).subset_of(mask_members(seen)),
            forall|j: u32| #[trigger]
                claimable.contains(j) ==> mask_members(left).contains(j),
            left == 0 ==> mask_members(left) == Set::<u32>::empty(),
        decreases left,
    {
        proof {
            lemma_mask_least(left);
        }
        let w: u32 = left.trailing_zeros();
        let bit: u32 = 1u32 << w;
        proof {
            lemma_mask_test(state.idle, w);
            lemma_mask_remove(left, w);
            lemma_mask_empty(left & !bit);
            assert(left & !(1u32 << w) < left) by (bit_vector)
                requires
                    w < 32,
                    (left >> w) & 1 == 1,
            ;
        }
        if state.idle & bit != 0 {
            assert(is_least(claimable, w));
            idle_clear(state, w);
            notify_worker(state, w);
            return ;
        }
        // Not parked any more: on to the next.
        left = left & !bit;
    }
    assert(claimable =~= Set::<u32>::empty());
}

/// Ask for a deferred wake of this worker. The drain then returns and the worker parks, yielding to
/// pinned microtasks and callbacks, before it drains again to take the next stealable task. Waking
/// at once would starve those.
pub fn rearm_self<W>(thread: &mut ThreadState<W>, worker_id: u32)
    requires
        old(thread)@.worker() == Some(worker_id),
    ensures
        final(thread)@ == old(thread)@.rearmed(),
{
    thread.microtasks.push(Microtask::Rearm);
}

/// What the microtask of [`rearm_self`] does: notify the worker that it runs on.
pub fn fire_rearm<F, W>(state: &mut SharedState<F>, thread: &ThreadState<W>)
    requires
        old(state).wf(),
        thread@.worker() matches Some(id) ==> old(state)@.has_slot(id),
    ensures
        final(state).wf(),
        final(state)@ == rearm_fired(old(state)@, thread@),
{
    if let Some(id) = thread_id(thread) {
        notify_worker(state, id);
    }
}

} // verus!
