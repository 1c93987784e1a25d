//! The worker's drain: which work a worker takes, and when it may park.

use vstd::prelude::*;

use crate::deque::{attempted, injector_stolen, sibling_stolen, StealOutcome, StealPtr};
use crate::exec::{idle_clear, idle_set, pop_incoming, pop_ready, rearm_self};
use crate::state::{PendingSpawn, PinnedPtr, SharedState, SharedView, Slot, SlotView};
use crate::thread::{set_thread_id, ThreadId, ThreadState, ThreadView};

verus! {

/// What a search for stealable work came to.
#[derive(Clone, Copy, PartialEq, Eq, Structural, Debug)]
pub enum Search {
    /// A task, which is in no queue any more.
    Found(StealPtr),
    /// There is none.
    Nothing,
    /// No worker has any. The injector has, but the attempt on it failed and is to be repeated.
    Contended,
}

/// The index of the `k`-th sibling of worker `id` among `n` workers, counting on from `id`.
pub open spec fn sibling(id: u32, k: int, n: nat) -> int {
    (id + k) % n as int
}

impl<F> SharedView<F> {
    /// The stealable tasks of worker `i`.
    pub open spec fn local(self, i: int) -> Seq<StealPtr> {
        self.slots[i].local
    }

    /// The same state with other stealable tasks for worker `i`.
    pub open spec fn with_local(self, i: int, local: Seq<StealPtr>) -> Self {
        SharedView { slots: self.slots.update(i, SlotView { local, ..self.slots[i] }), ..self }
    }

    /// Whether the first `k` siblings of worker `id` have no stealable task.
    pub open spec fn siblings_empty(self, id: u32, k: int) -> bool {
        forall|m: int|
            1 <= m <= k ==> self.local(#[trigger] sibling(id, m, self.slots.len())).len() == 0
    }

    /// After worker `id` took one task from worker `j` and moved `moved` more.
    pub open spec fn stole_from(
        self,
        id: u32,
        j: int,
        moved: int,
        found: Search,
        after: Self,
    ) -> bool {
        &&& 0 <= moved < self.local(j).len()
        &&& found == Search::Found(self.local(j)[moved])
        &&& after == self.with_local(j, self.local(j).skip(moved + 1)).with_local(
            id as int,
            self.local(id as int) + self.local(j).take(moved),
        )
    }

    /// After worker `id` took the oldest task of the injector and moved the `moved` behind it, to
    /// be popped in their order.
    pub open spec fn stole_injected(self, id: u32, moved: int, found: Search, after: Self) -> bool {
        &&& 0 <= moved < self.injector.len()
        &&& found == Search::Found(self.injector[0])
        &&& after == (SharedView {
            injector: self.injector.skip(1 + moved),
            ..self.with_local(
                id as int,
                self.local(id as int) + self.injector.subrange(1, 1 + moved).reverse(),
            )
        })
    }

    /// One attempt of worker `id` on the injector. A task that is there is taken, unless the
    /// attempt was made and failed.
    pub open spec fn tried_injector(self, id: u32, found: Search, after: Self) -> bool {
        if self.injector.len() == 0 {
            found == Search::Nothing && after == self
        } else {
            ||| exists|moved: int| #[trigger] self.stole_injected(id, moved, found, after)
            ||| {
                &&& found == Search::Contended
                &&& after == self
                &&& attempted(self.injector, self.local(id as int), StealOutcome::Retry)
            }
        }
    }

    /// One search of worker `id`: its own queue, then its siblings' in turn, then the injector.
    pub open spec fn searched(self, id: u32, found: Search, after: Self) -> bool {
        let n = self.slots.len();
        if self.local(id as int).len() > 0 {
            &&& found == Search::Found(self.local(id as int).last())
            &&& after == self.with_local(id as int, self.local(id as int).drop_last())
        } else if self.siblings_empty(id, n - 1) {
            self.tried_injector(id, found, after)
        } else {
            exists|k: int, moved: int|
                {
                    &&& 1 <= k < n
                    &&& self.siblings_empty(id, k - 1)
                    &&& #[trigger] self.stole_from(id, sibling(id, k, n), moved, found, after)
                }
        }
    }
}

/// Steal from the queue of slot `victim` for slot `dest`.
fn steal_between<F>(slots: &mut Vec<Slot<F>>, victim: usize, dest: usize) -> (outcome: StealOutcome)
    requires
        victim < old(slots)@.len(),
        dest < old(slots)@.len(),
        victim != dest,
        old(slots)@[victim as int].wf(),
        old(slots)@[dest as int].wf(),
    ensures
        final(slots)@.len() == old(slots)@.len(),
        final(slots)@[victim as int].wf(),
        final(slots)@[dest as int].wf(),
        forall|i: int|
            0 <= i < old(slots)@.len() && i != victim && i != dest ==> #[trigger] final(slots)@[i]
                == old(slots)@[i],
        final(slots)@[victim as int]@ == (SlotView {
            local: final(slots)@[victim as int]@.local,
            ..old(slots)@[victim as int]@
        }),
        final(slots)@[dest as int]@ == (SlotView {
            local: final(slots)@[dest as int]@.local,
            ..old(slots)@[dest as int]@
        }),
        outcome == StealOutcome::Empty <==> old(slots)@[victim as int]@.local.len() == 0,
        outcome !is Retry,
        outcome is Empty ==> final(slots)@[victim as int]@.local
            == old(slots)@[victim as int]@.local && final(slots)@[dest as int]@.local
            == old(slots)@[dest as int]@.local,
        outcome is Success ==> exists|moved: int| #[trigger]
            sibling_stolen(
                old(slots)@[victim as int]@.local,
                old(slots)@[dest as int]@.local,
                moved,
                outcome,
                final(slots)@[victim as int]@.local,
                final(slots)@[dest as int]@.local,
            ),
{
    let outcome = if victim < dest {
        let (low, high) = slots.as_mut_slice().split_at_mut(dest);
        low[victim].local.steal_batch_and_pop(&mut high[0].local)
    } else {
        let (low, high) = slots.as_mut_slice().split_at_mut(victim);
        high[0].local.steal_batch_and_pop(&mut low[dest].local)
    };
    assert(slots@[victim as int]@.local == slots@[victim as int].local@);
    assert(slots@[dest as int]@.local == slots@[dest as int].local@);
    assert(old(slots)@[victim as int]@.local == old(slots)@[victim as int].local@);
    assert(old(slots)@[dest as int]@.local == old(slots)@[dest as int].local@);
    outcome
}

/// One attempt to take stealable work from the injector for worker `worker_id`.
pub fn steal_injected<F>(state: &mut SharedState<F>, worker_id: u32) -> (found: Search)
    requires
        old(state).wf(),
        old(state)@.has_worker(worker_id),
    ensures
        final(state).wf(),
        old(state)@.tried_injector(worker_id, found, final(state)@),
{
    let ghost before = state@;
    let injector = state.injector.as_mut().unwrap();
    let slot = &mut state.slots.as_mut().unwrap()[worker_id as usize];
    let outcome = injector.steal_batch_and_pop(&mut slot.local);
    let found = match outcome {
        StealOutcome::Success(ptr) => Search::Found(ptr),
        StealOutcome::Retry => Search::Contended,
        StealOutcome::Empty => Search::Nothing,
    };
    proof {
        let id = worker_id as int;
        assert(forall|i: int|
            0 <= i < before.slots.len() && i != id ==> #[trigger] state@.slots[i]
                == before.slots[i]);
        assert(state@.slots[id] == (SlotView { local: state@.local(id), ..before.slots[id] }));
        assert(state@ =~= (SharedView {
            injector: state@.injector,
            ..before.with_local(id, state@.local(id))
        }));
        assert(before.injector == old(state).injector->0@);
        assert(before.local(id) == old(state).slots->0@[id].local@);
        assert(state@.injector == state.injector->0@);
        assert(state@.local(id) == state.slots->0@[id].local@);
        if outcome is Success {
            let moved = choose|moved: int| #[trigger]
                injector_stolen(
                    before.injector,
                    before.local(id),
                    moved,
                    outcome,
                    state@.injector,
                    state@.local(id),
                );
            assert(before.stole_injected(worker_id, moved, found, state@));
        } else {
            assert(state@ =~= before);
        }
    }
    found
}

/// A sibling is another worker.
pub proof fn lemma_sibling(id: u32, k: int, n: nat)
    requires
        id < n,
        1 <= k < n,
    ensures
        0 <= sibling(id, k, n) < n,
        sibling(id, k, n) != id,
        sibling(id, k, n) == if id + k < n {
            id + k
        } else {
            id + k - n
        },
{
    let n = n as int;
    if id + k < n {
        vstd::arithmetic::div_mod::lemma_small_mod((id + k) as nat, n as nat);
    } else {
        vstd::arithmetic::div_mod::lemma_small_mod((id + k - n) as nat, n as nat);
        vstd::arithmetic::div_mod::lemma_mod_sub_multiples_vanish(id + k, n);
    }
}

/// Find one stealable task for worker `worker_id`.
///
/// Its own queue comes first. If that is empty, a batch is stolen from a sibling, starting with the
/// next one so that workers do not all turn to the same, and lands in the worker's own queue, where
/// later searches find it. The injector comes last. When the attempt on the injector has to be
/// repeated ([`Search::Contended`]), [`steal_injected`] does so.
pub fn find_stealable_work<F>(state: &mut SharedState<F>, worker_id: u32) -> (found: Search)
    requires
        old(state).wf(),
        old(state)@.has_worker(worker_id),
    ensures
        final(state).wf(),
        old(state)@.searched(worker_id, found, final(state)@),
{
    let ghost before = state@;
    let ghost id = worker_id as int;
    if let Some(ptr) = state.slot_for_mut(worker_id).local.pop() {
        assert(state@ =~= before.with_local(id, before.local(id).drop_last()));
        return Search::Found(ptr);
    }
    assert(state@ =~= before);
    let n: usize = state.slots().len();
    let mut k: usize = 1;
    while k < n
        invariant
            state.wf(),
            state@ == before,
            before.has_worker(worker_id),
            n == before.slots.len(),
            n <= 32,
            1 <= k,
            before.local(worker_id as int).len() == 0,
            before.siblings_empty(worker_id, k - 1),
            id == worker_id,
            old(state)@ == before,
        decreases n - k,
    {
        let j: usize = (worker_id as usize + k) % n;
        proof {
            lemma_sibling(worker_id, k as int, n as nat);
        }
        let ghost held = state.slots->0@;
        let outcome = steal_between(state.slots.as_mut().unwrap(), j, worker_id as usize);
        proof {
            assert(j == sibling(worker_id, k as int, n as nat));
            assert(forall|i: int|
                0 <= i < n && i != j && i != id ==> #[trigger] state.slots->0@[i] == held[i]);
            assert(state@.slots.len() == n);
            assert(forall|i: int|
                0 <= i < n && i != j && i != id ==> #[trigger] state@.slots[i] == before.slots[i]);
            assert(state@.slots[j as int] == (SlotView {
                local: state@.local(j as int),
                ..before.slots[j as int]
            }));
            assert(state@.slots[id] == (SlotView { local: state@.local(id), ..before.slots[id] }));
            assert(state@ =~= before.with_local(j as int, state@.local(j as int)).with_local(
                id,
                state@.local(id),
            ));
        }
        match outcome {
            StealOutcome::Success(ptr) => {
                proof {
                    assert(before.local(j as int) == held[j as int]@.local);
                    assert(before.local(id) == held[id]@.local);
                    assert(state@.local(j as int) == state.slots->0@[j as int]@.local);
                    assert(state@.local(id) == state.slots->0@[id]@.local);
                    let moved = choose|moved: int| #[trigger]
                        sibling_stolen(
                            before.local(j as int),
                            before.local(id),
                            moved,
                            outcome,
                            state@.local(j as int),
                            state@.local(id),
                        );
                    assert(before.stole_from(
                        worker_id,
                        sibling(worker_id, k as int, n as nat),
                        moved,
                        Search::Found(ptr),
                        state@,
                    ));
                    assert(!before.siblings_empty(worker_id, n - 1));
                }
                return Search::Found(ptr);
            },
            _ => {
                assert(state@ =~= before);
            },
        }
        k = k + 1;
    }
    steal_injected(state, worker_id)
}

/// How far a drain has come. Between two steps other threads may run.
#[derive(Clone, Copy, PartialEq, Eq, Structural, Debug)]
pub enum DrainPhase {
    /// Not begun.
    Enter,
    /// Not shut down when last looked at; to announce itself as busy.
    Announce,
    /// Announced; to look for a shutdown once more before it touches any queue.
    Recheck,
    /// To run the pinned tasks that other threads handed back.
    Ready,
    /// To take the pinned work newly placed here.
    Incoming,
    /// To find one stealable task.
    Stealable,
    /// To repeat the attempt on the injector.
    Injector,
    /// To mark itself idle.
    Park,
    /// Marked idle; to look at the queues once more.
    Settle,
    /// To leave the busy state.
    Release,
    /// Over, with this answer.
    Done(bool),
}

/// What the embedder has to do between two steps of a drain.
pub enum DrainAction<F> {
    /// Nothing.
    Continue,
    /// Poll this pinned task once.
    RunPinned(PinnedPtr),
    /// Run this placed work, with the worker's id.
    RunPending(PendingSpawn<F>),
    /// Poll this stealable task once.
    RunStealable(StealPtr),
    /// Leave the drain: `true` to wait for a notification and drain again, `false` to stop for
    /// good.
    Return(bool),
}

/// A drain under way on worker `worker_id`.
pub struct Drain {
    /// The worker.
    pub worker_id: u32,
    /// How far it has come.
    pub phase: DrainPhase,
}

impl Drain {
    /// A drain to be begun.
    pub fn new(worker_id: u32) -> (drain: Self)
        ensures
            drain == (Drain { worker_id, phase: DrainPhase::Enter }),
    {
        Drain { worker_id, phase: DrainPhase::Enter }
    }
}

/// How a drain goes on after a search.
pub open spec fn after_search<F>(found: Search, action: DrainAction<F>, next: DrainPhase) -> bool {
    match found {
        Search::Found(ptr) => action == DrainAction::<F>::RunStealable(ptr) && next
            == DrainPhase::Park,
        Search::Nothing => action == DrainAction::<F>::Continue && next == DrainPhase::Park,
        Search::Contended => action == DrainAction::<F>::Continue && next == DrainPhase::Injector,
    }
}

impl<F> SharedView<F> {
    /// With the busy flag of worker `id` set to `busy`.
    pub open spec fn with_busy(self, id: u32, busy: bool) -> Self {
        SharedView {
            slots: self.slots.update(id as int, SlotView { busy, ..self.slots[id as int] }),
            ..self
        }
    }

    /// Whether worker `id` must not park: its own queue or the injector holds a task.
    pub open spec fn must_stay(self, id: u32) -> bool {
        self.local(id as int).len() > 0 || self.injector.len() > 0
    }

    /// One step of worker `id`'s drain.
    pub open spec fn drain_stepped(
        self,
        id: u32,
        phase: DrainPhase,
        action: DrainAction<F>,
        next: DrainPhase,
        after: Self,
    ) -> bool {
        let slot = self.slots[id as int];
        match phase {
            DrainPhase::Enter => {
                &&& after == self
                &&& if self.lifecycle is Shutdown {
                    action == DrainAction::<F>::Return(false) && next == DrainPhase::Done(false)
                } else {
                    action == DrainAction::<F>::Continue && next == DrainPhase::Announce
                }
            },
            DrainPhase::Announce => {
                &&& after == self.with_busy(id, true)
                &&& action == DrainAction::<F>::Continue
                &&& next == DrainPhase::Recheck
            },
            DrainPhase::Recheck => if self.lifecycle is Shutdown {
                &&& after == self.with_busy(id, false)
                &&& action == DrainAction::<F>::Return(false)
                &&& next == DrainPhase::Done(false)
            } else {
                &&& after == self.unidled(id)
                &&& action == DrainAction::<F>::Continue
                &&& next == DrainPhase::Ready
            },
            DrainPhase::Ready => if slot.ready.len() > 0 {
                &&& after == self.ready_popped(id)
                &&& action == DrainAction::<F>::RunPinned(slot.ready[0])
                &&& next == DrainPhase::Ready
            } else {
                &&& after == self
                &&& action == DrainAction::<F>::Continue
                &&& next == DrainPhase::Incoming
            },
            DrainPhase::Incoming => if slot.incoming.len() > 0 {
                &&& after == self.incoming_popped(id)
                &&& action == DrainAction::<F>::RunPending(slot.incoming[0])
                &&& next == DrainPhase::Incoming
            } else {
                &&& after == self
                &&& action == DrainAction::<F>::Continue
                &&& next == DrainPhase::Stealable
            },
            DrainPhase::Stealable => exists|found: Search| #[trigger]
                self.searched(id, found, after) && after_search(found, action, next),
            DrainPhase::Injector => exists|found: Search| #[trigger]
                self.tried_injector(id, found, after) && after_search(found, action, next),
            DrainPhase::Park => {
                &&& after == self.idled(id)
                &&& action == DrainAction::<F>::Continue
                &&& next == DrainPhase::Settle
            },
            DrainPhase::Settle => {
                &&& after == if self.must_stay(id) {
                    self.unidled(id)
                } else {
                    self
                }
                &&& action == DrainAction::<F>::Continue
                &&& next == DrainPhase::Release
            },
            DrainPhase::Release => {
                &&& after == self.with_busy(id, false)
                &&& action == DrainAction::<F>::Return(true)
                &&& next == DrainPhase::Done(true)
            },
            DrainPhase::Done(answer) => {
                &&& after == self
                &&& action == DrainAction::<F>::Return(answer)
                &&& next == phase
            },
        }
    }
}

impl<W> ThreadView<W> {
    /// What one step of worker `id`'s drain does to its thread: the first step records which
    /// worker it is, and the look before parking asks for a deferred wake if work is left.
    pub open spec fn drain_stepped<F>(
        self,
        shared: SharedView<F>,
        id: u32,
        phase: DrainPhase,
    ) -> Self {
        match phase {
            DrainPhase::Enter => ThreadView { thread: Some(ThreadId::Worker(id)), ..self },
            DrainPhase::Settle if shared.must_stay(id) => self.rearmed(),
            _ => self,
        }
    }
}

/// One step of draining the work that is available to a worker. The embedder performs the action,
/// which may run tasks that schedule more work, and calls again, until told to return.
///
/// ## Order
/// 1. pinned tasks woken from another thread,
/// 2. pinned work newly placed on this worker,
/// 3. one stealable task, polled once. Taking one at a time, with a deferred re-arm if more is
///    left, lets siblings claim their share between polls.
///
/// Nothing here waits: the idle wait is the embedder's, and is asynchronous.
///
/// **NEVER** for the main thread.
pub fn __worker_drain<F, W>(
    drain: &mut Drain,
    state: &mut SharedState<F>,
    thread: &mut ThreadState<W>,
) -> (action: DrainAction<F>)
    requires
        old(state).wf(),
        old(state)@.has_worker(old(drain).worker_id) || old(drain).phase is Done || (
        old(drain).phase is Enter && old(state)@.lifecycle is Shutdown),
        old(drain).phase is Settle ==> old(thread)@.worker() == Some(old(drain).worker_id),
    ensures
        final(state).wf(),
        final(drain).worker_id == old(drain).worker_id,
        old(state)@.drain_stepped(
            old(drain).worker_id,
            old(drain).phase,
            action,
            final(drain).phase,
            final(state)@,
        ),
        final(thread)@ == old(thread)@.drain_stepped(
            old(state)@,
            old(drain).worker_id,
            old(drain).phase,
        ),
{
    let id: u32 = drain.worker_id;
    match drain.phase {
        DrainPhase::Enter => {
            set_thread_id(thread, ThreadId::Worker(id));
            if state.is_shutdown() {
                return finish(drain, false);
            }
            drain.phase = DrainPhase::Announce;
            DrainAction::Continue
        },
        DrainPhase::Announce => {
            // Busy BEFORE touching the shared queues, and then a second look for a shutdown. A
            // shutdown is stored before the busy flags are read, so either it is seen in that look
            // or this flag is seen there, and the worker is not terminated in between.
            set_busy(state, id, true);
            drain.phase = DrainPhase::Recheck;
            DrainAction::Continue
        },
        DrainPhase::Recheck => {
            if state.is_shutdown() {
                set_busy(state, id, false);
                return finish(drain, false);
            }
            // Not parked any more: no producer need waste its wake on this worker.
            idle_clear(state, id);
            drain.phase = DrainPhase::Ready;
            DrainAction::Continue
        },
        DrainPhase::Ready => {
            match pop_ready(state, id) {
                Some(ptr) => DrainAction::RunPinned(ptr),
                None => {
                    drain.phase = DrainPhase::Incoming;
                    DrainAction::Continue
                },
            }
        },
        DrainPhase::Incoming => {
            match pop_incoming(state, id) {
                Some(pending) => DrainAction::RunPending(pending),
                None => {
                    drain.phase = DrainPhase::Stealable;
                    DrainAction::Continue
                },
            }
        },
        DrainPhase::Stealable => {
            let found = find_stealable_work(state, id);
            go_on(drain, found)
        },
        DrainPhase::Injector => {
            let found = steal_injected(state, id);
            go_on(drain, found)
        },
        DrainPhase::Park => {
            // Idle FIRST, and then a last look at the queues. A producer pushes first and then
            // reads the idle set, so work pushed meanwhile is seen here or this worker there.
            idle_set(state, id);
            drain.phase = DrainPhase::Settle;
            DrainAction::Continue
        },
        DrainPhase::Settle => {
            if !state.slot_for(id).local.is_empty() || !state.injector().is_empty() {
                idle_clear(state, id);
                rearm_self(thread, id);
            }
            drain.phase = DrainPhase::Release;
            DrainAction::Continue
        },
        DrainPhase::Release => {
            // A safe point: no queue is touched any more.
            set_busy(state, id, false);
            finish(drain, true)
        },
        DrainPhase::Done(answer) => DrainAction::Return(answer),
    }
}

/// Set the busy flag of worker `id`.
fn set_busy<F>(state: &mut SharedState<F>, id: u32, busy: bool)
    requires
        old(state).wf(),
        old(state)@.has_worker(id),
    ensures
        final(state).wf(),
        final(state)@ == old(state)@.with_busy(id, busy),
{
    state.slot_for_mut(id).busy.0 = busy;
}

/// End a drain with `answer`.
fn finish<F>(drain: &mut Drain, answer: bool) -> (action: DrainAction<F>)
    ensures
        *final(drain) == (Drain { phase: DrainPhase::Done(answer), ..*old(drain) }),
        action == DrainAction::<F>::Return(answer),
{
    drain.phase = DrainPhase::Done(answer);
    DrainAction::Return(answer)
}

/// Go on with a drain after a search.
fn go_on<F>(drain: &mut Drain, found: Search) -> (action: DrainAction<F>)
    ensures
        final(drain).worker_id == old(drain).worker_id,
        after_search(found, action, final(drain).phase),
{
    match found {
        Search::Found(ptr) => {
            drain.phase = DrainPhase::Park;
            DrainAction::RunStealable(ptr)
        },
        Search::Nothing => {
            drain.phase = DrainPhase::Park;
            DrainAction::Continue
        },
        Search::Contended => {
            drain.phase = DrainPhase::Injector;
            DrainAction::Continue
        },
    }
}

} // verus!
