//! What each operation owes, said of the fields of the state alone and of all inputs.

use async_channel::{Receiver, Sender, TryRecvError};
use vstd::prelude::*;

use crate::bitmask::lemma_mask_test;
use crate::deque::StealPtr;
use crate::exec::{is_least, rearm_fired, routed_pinned, word_address};
use crate::handle::{brought, kept, WorkerHandle};
use crate::main_thread::{reentry_after, tick_for, MainPhase, Reentry, Tick, Wait};
use crate::pool::{
    built_for, built_from, parallelism, InitRefusal, LoadGuard, StartAction, StartEvent,
    StartPhase, Startup, WebbleBuilder, WorkerSource,
};
use crate::state::{
    Lifecycle, PendingSpawn, PinnedPtr, SharedState, SharedView, Slot, SlotView, MAIN_ID,
    MAX_WORKERS,
};
use crate::thread::{Microtask, ThreadId, ThreadState, ThreadView};
use crate::worker::{after_search, lemma_sibling, sibling, DrainAction, DrainPhase, Search};

verus! {

/// The value of a counter one up, round at the end.
pub open spec fn one_up(x: u32) -> int {
    if x == u32::MAX {
        0
    } else {
        x + 1
    }
}

/// The value of a counter one down, round at the end.
pub open spec fn one_down(x: u32) -> int {
    if x == 0 {
        u32::MAX as int
    } else {
        x - 1
    }
}

/// Whether `id` is that of the main thread or of one of the workers of a runtime that was sized.
pub open spec fn is_thread<F>(shared: SharedView<F>, id: u32) -> bool {
    shared.sized && shared.slots.len() <= MAX_WORKERS && (id == MAIN_ID || id < shared.slots.len())
}

/// The slot of thread `id`.
pub open spec fn of<F>(shared: SharedView<F>, id: u32) -> SlotView<F> {
    if id == MAIN_ID {
        shared.main
    } else {
        shared.slots[id as int]
    }
}

/// Whether two states differ in the slot of thread `id` and in the wakes at most.
pub open spec fn same_but<F>(a: SharedView<F>, b: SharedView<F>, id: u32) -> bool {
    &&& a.sized == b.sized
    &&& a.lifecycle == b.lifecycle
    &&& a.idle == b.idle
    &&& a.injector == b.injector
    &&& a.slots.len() == b.slots.len()
    &&& forall|i: int| 0 <= i < a.slots.len() && i != id ==> #[trigger] a.slots[i] == b.slots[i]
    &&& id != MAIN_ID ==> a.main == b.main
}

/// Whether two slots hold the same queues and differ in the counters at most.
pub open spec fn same_queues<F>(a: SlotView<F>, b: SlotView<F>) -> bool {
    &&& a.incoming == b.incoming
    &&& a.ready == b.ready
    &&& a.local == b.local
    &&& a.busy == b.busy
}

/// What is said of a slot is said of its fields.
pub open spec fn shows<F>(slot: Slot<F>, view: SlotView<F>) -> bool {
    &&& view.incoming == slot.incoming@
    &&& view.ready == slot.ready@
    &&& view.local == slot.local@
    &&& view.load == slot.load.0
    &&& view.notify == slot.notify.0
    &&& view.busy == slot.busy.0
}

/// What is said of the shared state is said of its fields: the slots, the injector, the bits of the
/// idle mask, the lifecycle, and the wakes to be delivered.
pub proof fn law_view_shows_the_state<F>(state: SharedState<F>, i: int, id: u32)
    ensures
        state@.sized <==> state.slots is Some,
        state.slots matches Some(slots) ==> {
            &&& state@.slots.len() == slots@.len()
            &&& 0 <= i < slots@.len() ==> shows(slots@[i], state@.slots[i])
        },
        state.slots is None ==> state@.slots.len() == 0,
        state.main_slot matches Some(slot) ==> shows(slot, state@.main),
        state.injector matches Some(injector) ==> state@.injector == injector@,
        state.injector is None ==> state@.injector.len() == 0,
        id < 32 ==> (state@.idle.contains(id) <==> state.idle & (1u32 << id) != 0),
        id >= 32 ==> !state@.idle.contains(id),
        state@.lifecycle == state.state,
        state@.wakes == state.wakes@,
{
    if id < 32 {
        lemma_mask_test(state.idle, id);
    }
}

/// What is said of a thread is said of its fields.
pub proof fn law_view_shows_the_thread<W>(thread: ThreadState<W>)
    ensures
        thread@.thread == thread.thread,
        thread@.pending == thread.micro.pending@,
        thread@.scheduled == thread.micro.scheduled,
        thread@.microtasks == thread.microtasks@,
        thread@.workers == thread.workers@,
{
}

/// Every thread of a sized runtime has the slot that is addressed by its id, and no other id has
/// one.
pub proof fn law_ids_address_slots<F>(shared: SharedView<F>, id: u32)
    requires
        shared.slots.len() <= MAX_WORKERS,
    ensures
        shared.has_slot(id) <==> is_thread(shared, id),
        shared.has_worker(id) <==> id < shared.slots.len(),
        is_thread(shared, id) ==> shared.slot(id) == of(shared, id),
        shared.knows(None),
        shared.knows(Some(id)) <==> id == MAIN_ID || id < shared.slots.len(),
{
}

/// The main thread's scheduling id is the greatest number, a worker's is its index, and only a
/// worker has a worker index.
pub proof fn law_threads_have_ids<W>(thread: ThreadView<W>, i: u32)
    ensures
        MAIN_ID == u32::MAX,
        ThreadId::Main.raw() == MAIN_ID,
        ThreadId::Worker(i).raw() == i,
        thread.thread is None ==> thread.raw() is None && thread.worker() is None,
        thread.thread == Some(ThreadId::Main) ==> thread.raw() == Some(MAIN_ID)
            && thread.worker() is None,
        thread.thread == Some(ThreadId::Worker(i)) ==> thread.raw() == Some(i)
            && thread.worker() == Some(i),
{
}

/// A notification always bumps the word of its thread and always asks for a wake of it, whatever
/// the state, and does nothing else.
pub proof fn law_notification_wakes<F>(shared: SharedView<F>, id: u32)
    requires
        is_thread(shared, id),
    ensures
        shared.notified(id).wakes == shared.wakes.push(id),
        of(shared.notified(id), id).notify == one_up(of(shared, id).notify),
        of(shared.notified(id), id).load == of(shared, id).load,
        same_queues(of(shared.notified(id), id), of(shared, id)),
        same_but(shared, shared.notified(id), id),
{
}

/// Pinned work placed on a worker is its last placement, adds one to its load, and wakes it,
/// whether it is parked or not. Nothing else changes.
pub proof fn law_placement_wakes_its_worker<F>(
    shared: SharedView<F>,
    w: u32,
    pending: PendingSpawn<F>,
)
    requires
        is_thread(shared, w),
        w != MAIN_ID,
    ensures
        ({
            let after = shared.placed(w, pending);
            let slot = shared.slots[w as int];
            let slot_after = after.slots[w as int];
            &&& after.wakes == shared.wakes.push(w)
            &&& slot_after.notify == one_up(slot.notify)
            &&& slot_after.incoming == slot.incoming.push(pending)
            &&& slot_after.load == one_up(slot.load)
            &&& slot_after.ready == slot.ready
            &&& slot_after.local == slot.local
            &&& slot_after.busy == slot.busy
            &&& same_but(shared, after, w)
        }),
{
}

/// Pinned work placed on the main thread is its last placement and wakes it, whatever was placed or
/// notified before. Nothing else changes.
pub proof fn law_main_placement_wakes_main<F>(shared: SharedView<F>, pending: PendingSpawn<F>)
    requires
        shared.sized,
        shared.slots.len() <= MAX_WORKERS,
    ensures
        ({
            let after = shared.placed_on_main(pending);
            &&& after.wakes == shared.wakes.push(MAIN_ID)
            &&& after.main.notify == one_up(shared.main.notify)
            &&& after.main.incoming == shared.main.incoming.push(pending)
            &&& after.main.load == shared.main.load
            &&& after.main.ready == shared.main.ready
            &&& after.main.local == shared.main.local
            &&& after.main.busy == shared.main.busy
            &&& same_but(shared, after, MAIN_ID)
        }),
{
}

/// The state after the works `all` were placed on the main thread in turn.
pub open spec fn placed_all_on_main<F>(
    shared: SharedView<F>,
    all: Seq<PendingSpawn<F>>,
) -> SharedView<F>
    decreases all.len(),
{
    if all.len() == 0 {
        shared
    } else {
        placed_all_on_main(shared, all.drop_last()).placed_on_main(all.last())
    }
}

/// As many works as are placed on the main thread, as many wakes it gets, and it finds the works in
/// their order.
pub proof fn law_every_main_placement_wakes_main<F>(
    shared: SharedView<F>,
    all: Seq<PendingSpawn<F>>,
)
    requires
        shared.sized,
        shared.slots.len() <= MAX_WORKERS,
    ensures
        placed_all_on_main(shared, all).wakes == shared.wakes + Seq::new(
            all.len(),
            |i: int| MAIN_ID,
        ),
        placed_all_on_main(shared, all).main.incoming == shared.main.incoming + all,
        same_but(shared, placed_all_on_main(shared, all), MAIN_ID),
    decreases all.len(),
{
    let after = placed_all_on_main(shared, all);
    if all.len() == 0 {
        assert(after.wakes =~= shared.wakes + Seq::new(all.len(), |i: int| MAIN_ID));
        assert(after.main.incoming =~= shared.main.incoming + all);
    } else {
        let earlier = placed_all_on_main(shared, all.drop_last());
        law_every_main_placement_wakes_main(shared, all.drop_last());
        law_main_placement_wakes_main(earlier, all.last());
        assert(after.wakes =~= shared.wakes + Seq::new(all.len(), |i: int| MAIN_ID));
        assert(after.main.incoming =~= shared.main.incoming + all);
    }
}

/// A pinned task handed back is the last of its owner's ready tasks and wakes the owner. Nothing
/// else changes.
pub proof fn law_hand_back_wakes_the_owner<F>(shared: SharedView<F>, owner: u32, ptr: PinnedPtr)
    requires
        is_thread(shared, owner),
    ensures
        ({
            let after = shared.handed_back(owner, ptr);
            &&& after.wakes == shared.wakes.push(owner)
            &&& of(after, owner).notify == one_up(of(shared, owner).notify)
            &&& of(after, owner).ready == of(shared, owner).ready.push(ptr)
            &&& of(after, owner).incoming == of(shared, owner).incoming
            &&& of(after, owner).local == of(shared, owner).local
            &&& of(after, owner).load == of(shared, owner).load
            &&& of(after, owner).busy == of(shared, owner).busy
            &&& same_but(shared, after, owner)
        }),
{
}

/// A pinned task woken on its owner's thread, a worker or the main thread, waits there behind those
/// already woken, and a microtask to run it is on its way: the one asked for before, or one asked
/// for now. Woken anywhere else, it is handed back: the owner finds it among its ready tasks and is
/// woken.
pub proof fn law_woken_task_is_on_its_way<F, W>(
    shared: SharedView<F>,
    thread: ThreadView<W>,
    owner: u32,
    ptr: PinnedPtr,
    shared_after: SharedView<F>,
    thread_after: ThreadView<W>,
)
    requires
        routed_pinned(shared, thread, owner, ptr, shared_after, thread_after),
        thread.raw() == Some(owner) || is_thread(shared, owner),
    ensures
        thread.raw() == Some(owner) ==> {
            &&& shared_after == shared
            &&& thread_after.pending == thread.pending.push(ptr)
            &&& thread_after.scheduled
            &&& !thread.scheduled ==> thread_after.microtasks == thread.microtasks.push(
                Microtask::DrainPinned,
            )
            &&& thread.scheduled ==> thread_after.microtasks == thread.microtasks
            &&& thread_after.thread == thread.thread
            &&& thread_after.workers == thread.workers
        },
        thread.raw() != Some(owner) ==> {
            &&& thread_after == thread
            &&& of(shared_after, owner).ready == of(shared, owner).ready.push(ptr)
            &&& of(shared_after, owner).notify == one_up(of(shared, owner).notify)
            &&& shared_after.wakes == shared.wakes.push(owner)
            &&& same_but(shared, shared_after, owner)
        },
{
    if thread.raw() != Some(owner) {
        law_hand_back_wakes_the_owner(shared, owner, ptr);
    }
}

/// A pinned task kept for a thread's next microtask is behind those kept before, and the microtask
/// is on its way: asked for before, or asked for now, behind the microtasks asked for before.
pub proof fn law_kept_task_has_a_microtask<W>(thread: ThreadView<W>, ptr: PinnedPtr)
    ensures
        ({
            let after = thread.with_pinned(ptr);
            &&& after.pending == thread.pending.push(ptr)
            &&& after.scheduled
            &&& after.microtasks == if thread.scheduled {
                thread.microtasks
            } else {
                thread.microtasks.push(Microtask::DrainPinned)
            }
            &&& after.thread == thread.thread
            &&& after.workers == thread.workers
        }),
{
}

/// Handing out the tasks that wait for a microtask takes all of them, and the next task woken asks
/// for a microtask again.
pub proof fn law_drained_thread_asks_again<W>(thread: ThreadView<W>, ptr: PinnedPtr)
    ensures
        thread.drained().pending.len() == 0,
        !thread.drained().scheduled,
        thread.drained().thread == thread.thread,
        thread.drained().microtasks == thread.microtasks,
        thread.drained().workers == thread.workers,
        thread.drained().with_pinned(ptr).pending == seq![ptr],
        thread.drained().with_pinned(ptr).microtasks == thread.microtasks.push(
            Microtask::DrainPinned,
        ),
{
    assert(thread.drained().with_pinned(ptr).pending =~= seq![ptr]);
}

/// A deferred wake that is asked for is the last microtask asked for, and nothing else of the thread
/// changes.
pub proof fn law_deferred_wake_is_a_microtask<W>(thread: ThreadView<W>)
    ensures
        thread.rearmed().microtasks == thread.microtasks.push(Microtask::Rearm),
        thread.rearmed().pending == thread.pending,
        thread.rearmed().scheduled == thread.scheduled,
        thread.rearmed().thread == thread.thread,
        thread.rearmed().workers == thread.workers,
{
}

/// When a deferred wake comes, the worker that it comes on is notified.
pub proof fn law_deferred_wake_comes_home<F, W>(
    shared: SharedView<F>,
    thread: ThreadView<W>,
    id: u32,
)
    requires
        is_thread(shared, id),
        thread.thread == Some(ThreadId::Worker(id)),
    ensures
        rearm_fired(shared, thread).wakes == shared.wakes.push(id),
        of(rearm_fired(shared, thread), id).notify == one_up(of(shared, id).notify),
        of(rearm_fired(shared, thread), id).load == of(shared, id).load,
        same_queues(of(rearm_fired(shared, thread), id), of(shared, id)),
        same_but(shared, rearm_fired(shared, thread), id),
{
}

/// A deferred wake that comes on no worker does nothing.
pub proof fn law_deferred_wake_is_a_worker_s<F, W>(shared: SharedView<F>, thread: ThreadView<W>)
    requires
        thread.thread is None || thread.thread == Some(ThreadId::Main),
    ensures
        rearm_fired(shared, thread) == shared,
{
}

/// A stealable task that a worker queues is the last of its own queue. One that any other thread
/// queues is the last of the injector. Nothing else changes, and nobody is woken by it.
pub proof fn law_stealable_task_is_queued_last<F>(
    shared: SharedView<F>,
    from: Option<u32>,
    ptr: StealPtr,
)
    requires
        shared.sized,
        shared.slots.len() <= MAX_WORKERS,
        shared.knows(from),
    ensures
        ({
            let after = shared.with_stealable(from, ptr);
            &&& after.wakes == shared.wakes
            &&& after.idle == shared.idle
            &&& after.main == shared.main
            &&& after.lifecycle == shared.lifecycle
            &&& after.sized == shared.sized
            &&& after.slots.len() == shared.slots.len()
            &&& from is None || from == Some(MAIN_ID) ==> {
                &&& after.injector == shared.injector.push(ptr)
                &&& after.slots == shared.slots
            }
            &&& from is Some && from != Some(MAIN_ID) ==> {
                let i = from->Some_0 as int;
                &&& after.injector == shared.injector
                &&& after.slots[i].local == shared.slots[i].local.push(ptr)
                &&& after.slots[i].incoming == shared.slots[i].incoming
                &&& after.slots[i].ready == shared.slots[i].ready
                &&& after.slots[i].load == shared.slots[i].load
                &&& after.slots[i].notify == shared.slots[i].notify
                &&& after.slots[i].busy == shared.slots[i].busy
                &&& forall|j: int|
                    0 <= j < shared.slots.len() && j != i ==> #[trigger] after.slots[j]
                        == shared.slots[j]
            }
        }),
{
}

/// Whether `after` is `shared` after one of the workers in `candidates` that are parked, the one
/// with the least index, left the idle set and was notified; or `shared` itself if none is parked.
pub open spec fn least_was_woken<F>(
    shared: SharedView<F>,
    candidates: Set<u32>,
    after: SharedView<F>,
) -> bool {
    ||| after == shared && forall|j: u32|
        !(#[trigger] candidates.contains(j) && shared.idle.contains(j))
    ||| exists|w: u32|
        {
            &&& #[trigger] candidates.contains(w)
            &&& shared.idle.contains(w)
            &&& forall|j: u32| #[trigger]
                candidates.contains(j) && shared.idle.contains(j) ==> w <= j
            &&& forall|j: u32| #[trigger]
                after.idle.contains(j) <==> shared.idle.contains(j) && j != w
            &&& after.wakes == shared.wakes.push(w)
            &&& after.slots[w as int].notify == one_up(shared.slots[w as int].notify)
            &&& after.slots[w as int].load == shared.slots[w as int].load
            &&& same_queues(after.slots[w as int], shared.slots[w as int])
            &&& same_but(shared, SharedView { idle: shared.idle, ..after }, w)
        }
}

/// A producer wakes exactly one parked worker if there is one, the one with the least index, and
/// takes it out of the idle set; else it wakes nobody. A look that has gone stale never wakes a
/// worker that is not parked any more.
pub proof fn law_one_parked_worker_is_woken<F>(
    shared: SharedView<F>,
    candidates: Set<u32>,
    after: SharedView<F>,
)
    requires
        shared.sized,
        shared.slots.len() <= MAX_WORKERS,
        forall|i: u32| #[trigger] shared.idle.contains(i) ==> i < shared.slots.len(),
    ensures
        shared.woke_one(after) ==> least_was_woken(shared, shared.idle, after),
        shared.woke_one_of(candidates, after) ==> least_was_woken(shared, candidates, after),
{
    if shared.woke_one(after) && shared.idle != Set::<u32>::empty() {
        let w = choose|w: u32| #[trigger]
            is_least(shared.idle, w) && after == shared.claimed(w);
        assert(shared.idle.contains(w));
    }
    let claimable = candidates.intersect(shared.idle);
    if shared.woke_one_of(candidates, after) {
        if claimable == Set::<u32>::empty() {
            assert forall|j: u32|
                !(#[trigger] candidates.contains(j) && shared.idle.contains(j)) by {
                assert(!claimable.contains(j));
            }
        } else {
            let w = choose|w: u32| #[trigger]
                is_least(claimable, w) && after == shared.claimed(w);
            assert(claimable.contains(w));
            assert forall|j: u32| #[trigger]
                candidates.contains(j) && shared.idle.contains(j) implies w <= j by {
                assert(claimable.contains(j));
            }
            assert(candidates.contains(w));
        }
    }
}

/// Marking a worker as parked or active concerns that worker alone, and nothing but the idle set.
pub proof fn law_idle_marks_one_worker<F>(shared: SharedView<F>, id: u32, other: u32)
    ensures
        shared.idled(id).idle.contains(id),
        !shared.unidled(id).idle.contains(id),
        other != id ==> (shared.idled(id).idle.contains(other) <==> shared.idle.contains(other)),
        other != id ==> (shared.unidled(id).idle.contains(other) <==> shared.idle.contains(other)),
        shared.idled(id) == (SharedView { idle: shared.idled(id).idle, ..shared }),
        shared.unidled(id) == (SharedView { idle: shared.unidled(id).idle, ..shared }),
{
}

/// A share of load given back takes one off its worker's load and touches nothing else.
pub proof fn law_share_of_load_is_one<F>(shared: SharedView<F>, w: u32)
    requires
        is_thread(shared, w),
        w != MAIN_ID,
    ensures
        ({
            let after = shared.unloaded(w);
            &&& after.slots[w as int].load == one_down(shared.slots[w as int].load)
            &&& after.slots[w as int].notify == shared.slots[w as int].notify
            &&& same_queues(after.slots[w as int], shared.slots[w as int])
            &&& after.wakes == shared.wakes
            &&& same_but(shared, after, w)
        }),
{
}

/// The worker chosen for a placement has no more load than any other, and of those with least load
/// it is the first. There is always one, and only one.
pub proof fn law_chosen_worker_has_least_load<F>(shared: SharedView<F>, w: u32, v: u32)
    requires
        shared.slots.len() <= MAX_WORKERS,
    ensures
        shared.least_loaded(w) ==> {
            &&& w < shared.slots.len()
            &&& forall|i: int|
                0 <= i < shared.slots.len() ==> shared.slots[w as int].load
                    <= (#[trigger] shared.slots[i]).load
            &&& forall|i: int|
                0 <= i < shared.slots.len() && (#[trigger] shared.slots[i]).load
                    == shared.slots[w as int].load ==> w <= i
        },
        shared.least_loaded(w) && shared.least_loaded(v) ==> v == w,
        shared.slots.len() > 0 ==> exists|u: u32| #[trigger] shared.least_loaded(u),
{
    if shared.least_loaded(w) && shared.least_loaded(v) && v != w {
        assert(shared.slots[v as int].load <= shared.slots[w as int].load);
        assert(shared.slots[w as int].load <= shared.slots[v as int].load);
    }
    if shared.slots.len() > 0 {
        let u = lemma_least_loaded_exists(shared, shared.slots.len() as int);
        assert(shared.least_loaded(u));
    }
}

/// Among the first `k` workers one has the least load.
proof fn lemma_least_loaded_exists<F>(shared: SharedView<F>, k: int) -> (u: u32)
    requires
        1 <= k <= shared.slots.len() <= MAX_WORKERS,
    ensures
        u < k,
        forall|i: int|
            0 <= i < k ==> shared.slots[u as int].load <= (#[trigger] shared.slots[i]).load,
        forall|i: int|
            0 <= i < u ==> shared.slots[u as int].load < (#[trigger] shared.slots[i]).load,
    decreases k,
{
    if k == 1 {
        0
    } else {
        let u = lemma_least_loaded_exists(shared, k - 1);
        if shared.slots[k - 1].load < shared.slots[u as int].load {
            (k - 1) as u32
        } else {
            u
        }
    }
}

/// Whether nothing was ever placed on a slot.
pub open spec fn untouched<F>(slot: SlotView<F>) -> bool {
    &&& slot.incoming.len() == 0
    &&& slot.ready.len() == 0
    &&& slot.local.len() == 0
    &&& slot.load == 0
    &&& slot.notify == 0
}

/// A runtime starts with nothing on it, the first time and after every shutdown: it runs, it has as
/// many workers as asked for, and no slot, queue or mark holds anything of an earlier run.
pub proof fn law_start_finds_nothing<F>(shared: SharedView<F>, n: nat)
    requires
        shared.sized ==> shared.slots.len() == n,
    ensures
        ({
            let after = shared.started(n);
            &&& after.sized
            &&& after.lifecycle is Running
            &&& after.slots.len() == n
            &&& forall|i: int|
                0 <= i < n ==> untouched(#[trigger] after.slots[i]) && !after.slots[i].busy
            &&& untouched(after.main)
            &&& after.main.busy ==> shared.main.busy
            &&& after.injector.len() == 0
            &&& after.idle == Set::<u32>::empty()
            &&& after.wakes == shared.wakes
            &&& after.live_workers() == n
        }),
{
}

/// Clearing a sized runtime leaves nothing on it, and its lifecycle, its workers and the wakes to be
/// delivered as they are. A slot that was just made has nothing on it either.
pub proof fn law_clearing_keeps_the_lifecycle<F>(shared: SharedView<F>)
    ensures
        ({
            let after = shared.cleared();
            &&& after.lifecycle == shared.lifecycle
            &&& after.sized == shared.sized
            &&& after.wakes == shared.wakes
            &&& after.slots.len() == shared.slots.len()
            &&& forall|i: int|
                0 <= i < after.slots.len() ==> untouched(#[trigger] after.slots[i])
                    && !after.slots[i].busy
            &&& untouched(after.main)
            &&& after.main.busy == shared.main.busy
            &&& after.injector.len() == 0
            &&& after.idle == Set::<u32>::empty()
        }),
        untouched(SlotView::<F>::fresh()),
        !SlotView::<F>::fresh().busy,
{
}

/// A runtime that was never initialized has nothing, runs nothing and wakes nobody.
pub proof fn law_new_state_is_empty<F>()
    ensures
        ({
            let state = SharedView::<F>::unsized_state();
            &&& !state.sized
            &&& state.lifecycle is Uninit
            &&& state.slots.len() == 0
            &&& untouched(state.main)
            &&& state.injector.len() == 0
            &&& state.idle == Set::<u32>::empty()
            &&& state.wakes.len() == 0
            &&& state.live_workers() == 0
            &&& state.waiting() == 0
        }),
{
}

/// Workers are live only while the runtime runs, and then all of them are.
pub proof fn law_workers_live_while_running<F>(shared: SharedView<F>)
    ensures
        shared.lifecycle is Running ==> shared.live_workers() == shared.slots.len(),
        !(shared.lifecycle is Running) ==> shared.live_workers() == 0,
{
}

/// A shutdown marks an initialized runtime as shut down, bumps the word of every thread and asks for
/// one wake of each, and leaves every queue, load and flag as it is.
pub proof fn law_shutdown_wakes_everyone<F>(shared: SharedView<F>, id: u32)
    requires
        is_thread(shared, id),
        !(shared.lifecycle is Uninit),
    ensures
        ({
            let after = shared.shut_down();
            let n = shared.slots.len() as int;
            let old_len = shared.wakes.len() as int;
            &&& after.lifecycle is Shutdown
            &&& after.sized
            &&& after.slots.len() == n
            &&& of(after, id).notify == one_up(of(shared, id).notify)
            &&& of(after, id).load == of(shared, id).load
            &&& same_queues(of(after, id), of(shared, id))
            &&& after.injector == shared.injector
            &&& after.idle == shared.idle
            &&& after.wakes.len() == old_len + n + 1
            &&& forall|i: int| 0 <= i < old_len ==> #[trigger] after.wakes[i] == shared.wakes[i]
            &&& after.wakes[old_len + if id == MAIN_ID {
                n
            } else {
                id as int
            }] == id
        }),
{
}

/// A shutdown of a runtime that is not initialized, or has no slots to speak of, wakes nobody.
pub proof fn law_shutdown_without_threads_wakes_nobody<F>(shared: SharedView<F>)
    requires
        shared.lifecycle is Uninit || !shared.sized,
    ensures
        shared.lifecycle is Uninit ==> shared.shut_down() == shared,
        shared.shut_down() == (SharedView {
            lifecycle: shared.shut_down().lifecycle,
            ..shared
        }),
        !(shared.lifecycle is Uninit) ==> shared.shut_down().lifecycle is Shutdown,
{
}

/// A shutdown may terminate the workers once none is busy, and waits for a busy one only so long.
pub proof fn law_shutdown_waits_for_busy_workers<F>(shared: SharedView<F>, looks: u32, i: int)
    requires
        0 <= i < shared.slots.len(),
    ensures
        shared.slots[i].busy && looks < 5_000_000 ==> !shared.may_terminate(looks),
        looks >= 5_000_000 ==> shared.may_terminate(looks),
        (forall|j: int| 0 <= j < shared.slots.len() ==> !(#[trigger] shared.slots[j]).busy)
            ==> shared.may_terminate(looks),
{
}

/// What waits is what is placed on workers and not taken, what is in their queues and what is in the
/// injector: a taken placement counts no more, and what waits for the main thread or is ready to run
/// never counted.
pub proof fn law_waiting_counts_what_waits<F>(
    shared: SharedView<F>,
    id: u32,
    pending: PendingSpawn<F>,
    ptr: PinnedPtr,
)
    requires
        is_thread(shared, id),
    ensures
        id != MAIN_ID && shared.slots[id as int].incoming.len() > 0 ==> shared.incoming_popped(
            id,
        ).waiting() == shared.waiting() - 1,
        id == MAIN_ID ==> shared.incoming_popped(id).waiting() == shared.waiting(),
        of(shared, id).ready.len() > 0 ==> shared.ready_popped(id).waiting() == shared.waiting(),
        shared.placed_on_main(pending).waiting() == shared.waiting(),
        shared.handed_back(id, ptr).waiting() == shared.waiting(),
        shared.notified(id).waiting() == shared.waiting(),
        shared.waiting() >= shared.injector.len(),
        id != MAIN_ID ==> shared.waiting() >= shared.slots[id as int].incoming.len()
            + shared.slots[id as int].local.len() + shared.injector.len(),
{
    let n = shared.slots.len() as int;
    if id != MAIN_ID {
        lemma_waiting_update(shared, shared.incoming_popped(id), id as int, n);
        lemma_waiting_update(shared, shared.ready_popped(id), id as int, n);
        lemma_waiting_update(shared, shared.handed_back(id, ptr), id as int, n);
        lemma_waiting_update(shared, shared.notified(id), id as int, n);
        lemma_waiting_part(shared, id as int, n);
    } else if n > 0 {
        lemma_waiting_update(shared, shared.incoming_popped(id), 0, n);
        lemma_waiting_update(shared, shared.ready_popped(id), 0, n);
        lemma_waiting_update(shared, shared.handed_back(id, ptr), 0, n);
        lemma_waiting_update(shared, shared.notified(id), 0, n);
    }
    if n > 0 {
        lemma_waiting_update(shared, shared.placed_on_main(pending), 0, n);
    }
}

/// What waits at the first `k` workers changes with one worker's queues only.
proof fn lemma_waiting_update<F>(before: SharedView<F>, after: SharedView<F>, w: int, k: int)
    requires
        0 <= w < before.slots.len(),
        before.slots.len() == after.slots.len(),
        0 <= k <= before.slots.len(),
        forall|i: int|
            0 <= i < before.slots.len() && i != w ==> {
                &&& (#[trigger] after.slots[i]).incoming == before.slots[i].incoming
                &&& after.slots[i].local == before.slots[i].local
            },
    ensures
        after.waiting_at(k) - before.waiting_at(k) == if w < k {
            after.slots[w].incoming.len() + after.slots[w].local.len()
                - before.slots[w].incoming.len() - before.slots[w].local.len()
        } else {
            0
        },
    decreases k,
{
    if k > 0 {
        lemma_waiting_update(before, after, w, k - 1);
    }
}

/// What waits at one worker is part of what waits.
proof fn lemma_waiting_part<F>(shared: SharedView<F>, w: int, k: int)
    requires
        0 <= w < shared.slots.len(),
        0 <= k <= shared.slots.len(),
    ensures
        w < k ==> shared.waiting_at(k) >= shared.slots[w].incoming.len()
            + shared.slots[w].local.len(),
    decreases k,
{
    if k > 0 {
        lemma_waiting_part(shared, w, k - 1);
    }
}

/// A thread takes its ready tasks and its placements oldest first and one at a time, and touches
/// nothing else by it.
pub proof fn law_oldest_is_taken_first<F>(shared: SharedView<F>, id: u32)
    requires
        is_thread(shared, id),
    ensures
        of(shared, id).ready.len() > 0 ==> {
            let after = shared.ready_popped(id);
            &&& of(shared, id).ready == seq![of(shared, id).ready[0]] + of(after, id).ready
            &&& of(after, id).incoming == of(shared, id).incoming
            &&& of(after, id).local == of(shared, id).local
            &&& of(after, id).load == of(shared, id).load
            &&& of(after, id).notify == of(shared, id).notify
            &&& of(after, id).busy == of(shared, id).busy
            &&& after.wakes == shared.wakes
            &&& same_but(shared, after, id)
        },
        of(shared, id).incoming.len() > 0 ==> {
            let after = shared.incoming_popped(id);
            &&& of(shared, id).incoming == seq![of(shared, id).incoming[0]] + of(after, id).incoming
            &&& of(after, id).ready == of(shared, id).ready
            &&& of(after, id).local == of(shared, id).local
            &&& of(after, id).load == of(shared, id).load
            &&& of(after, id).notify == of(shared, id).notify
            &&& of(after, id).busy == of(shared, id).busy
            &&& after.wakes == shared.wakes
            &&& same_but(shared, after, id)
        },
{
    if of(shared, id).ready.len() > 0 {
        assert(of(shared, id).ready =~= seq![of(shared, id).ready[0]] + of(
            shared.ready_popped(id),
            id,
        ).ready);
    }
    if of(shared, id).incoming.len() > 0 {
        assert(of(shared, id).incoming =~= seq![of(shared, id).incoming[0]] + of(
            shared.incoming_popped(id),
            id,
        ).incoming);
    }
}

/// Whether `j` is the first worker behind `id`, counting on and round, that has a stealable task.
pub open spec fn next_with_work<F>(shared: SharedView<F>, id: u32, j: int) -> bool {
    &&& 0 <= j < shared.slots.len()
    &&& j != id
    &&& shared.slots[j].local.len() > 0
    &&& forall|i: int|
        0 <= i < shared.slots.len() && (if id < j {
            id < i < j
        } else {
            i > id || i < j
        }) ==> (#[trigger] shared.slots[i]).local.len() == 0
}

/// A worker that looks for stealable work turns to its own queue first and takes what it queued
/// last. With an empty queue it turns to the next sibling that has work, takes from it the oldest
/// tasks, keeps all but the last of them in their order and hands out that. Only if no worker has
/// work it turns to the injector, whose oldest task it hands out, the ones behind it following in
/// their order. Nothing but those queues changes.
pub proof fn law_search_order<F>(
    shared: SharedView<F>,
    id: u32,
    found: Search,
    after: SharedView<F>,
)
    requires
        shared.sized,
        shared.slots.len() <= MAX_WORKERS,
        id < shared.slots.len(),
        shared.searched(id, found, after),
    ensures
        ({
            let own = shared.slots[id as int].local;
            let own_after = after.slots[id as int].local;
            &&& own.len() > 0 ==> {
                &&& found == Search::Found(own[own.len() - 1])
                &&& own == own_after.push(own[own.len() - 1])
                &&& after.injector == shared.injector
                &&& forall|i: int|
                    0 <= i < shared.slots.len() && i != id ==> #[trigger] after.slots[i]
                        == shared.slots[i]
            }
            &&& own.len() == 0 && found is Found && after.injector.len() == shared.injector.len()
                ==> exists|j: int|
                {
                    &&& #[trigger] next_with_work(shared, id, j)
                    &&& shared.slots[j].local == own_after + seq![found->Found_0]
                        + after.slots[j].local
                    &&& after.injector == shared.injector
                    &&& forall|i: int|
                        0 <= i < shared.slots.len() && i != id && i != j
                            ==> #[trigger] after.slots[i] == shared.slots[i]
                }
            &&& own.len() == 0 && found is Found && after.injector.len() != shared.injector.len()
                ==> {
                &&& forall|i: int|
                    0 <= i < shared.slots.len() ==> (#[trigger] shared.slots[i]).local.len() == 0
                &&& shared.injector == seq![found->Found_0] + own_after.reverse() + after.injector
                &&& forall|i: int|
                    0 <= i < shared.slots.len() && i != id ==> #[trigger] after.slots[i]
                        == shared.slots[i]
            }
            &&& !(found is Found) ==> after == shared && forall|i: int|
                0 <= i < shared.slots.len() ==> (#[trigger] shared.slots[i]).local.len() == 0
            &&& found == Search::Nothing ==> shared.injector.len() == 0
            &&& found == Search::Contended ==> shared.injector.len() > 0
            &&& after.slots.len() == shared.slots.len()
            &&& after.main == shared.main
            &&& after.idle == shared.idle
            &&& after.wakes == shared.wakes
            &&& after.lifecycle == shared.lifecycle
            &&& after.sized == shared.sized
            &&& forall|i: int|
                0 <= i < shared.slots.len() ==> {
                    &&& (#[trigger] after.slots[i]).incoming == shared.slots[i].incoming
                    &&& after.slots[i].ready == shared.slots[i].ready
                    &&& after.slots[i].load == shared.slots[i].load
                    &&& after.slots[i].notify == shared.slots[i].notify
                    &&& after.slots[i].busy == shared.slots[i].busy
                }
        }),
{
    let n = shared.slots.len();
    let own = shared.slots[id as int].local;
    let own_after = after.slots[id as int].local;
    if own.len() > 0 {
        assert(own =~= own_after.push(own[own.len() - 1]));
    } else if shared.siblings_empty(id, n - 1) {
        assert forall|i: int| 0 <= i < n implies (#[trigger] shared.slots[i]).local.len() == 0 by {
            if i != id {
                let m = if i > id {
                    i - id
                } else {
                    i - id + n
                };
                lemma_sibling(id, m, n);
                assert(shared.local(sibling(id, m, n)).len() == 0);
            }
        }
        if found is Found {
            let moved = choose|moved: int| #[trigger]
                shared.stole_injected(id, moved, found, after);
            assert(shared.stole_injected(id, moved, found, after));
            let batch = shared.injector.subrange(1, 1 + moved);
            assert(own_after =~= batch.reverse());
            assert(own_after.reverse() =~= batch);
            assert(shared.injector =~= seq![found->Found_0] + own_after.reverse()
                + after.injector);
        }
    } else {
        let (k, moved) = choose|k: int, moved: int|
            {
                &&& 1 <= k < n
                &&& shared.siblings_empty(id, k - 1)
                &&& #[trigger] shared.stole_from(
                    id,
                    sibling(id, k, n),
                    moved,
                    found,
                    after,
                )
            };
        let j = sibling(id, k, n);
        lemma_sibling(id, k, n);
        assert(next_with_work(shared, id, j)) by {
            assert forall|i: int|
                0 <= i < n && (if id < j {
                    id < i < j
                } else {
                    i > id || i < j
                }) implies (#[trigger] shared.slots[i]).local.len() == 0 by {
                let m = if i > id {
                    i - id
                } else {
                    i - id + n
                };
                lemma_sibling(id, m, n);
                assert(1 <= m <= k - 1);
                assert(shared.local(sibling(id, m, n)).len() == 0);
            }
        }
        let victim = shared.slots[j].local;
        assert(own_after =~= victim.take(moved));
        assert(victim =~= own_after + seq![found->Found_0] + after.slots[j].local);
    }
}

/// A repeated attempt on the injector is to the injector what a search is that comes to it.
pub proof fn law_attempt_takes_the_oldest<F>(
    shared: SharedView<F>,
    id: u32,
    found: Search,
    after: SharedView<F>,
)
    requires
        shared.slots.len() <= MAX_WORKERS,
        id < shared.slots.len(),
        shared.tried_injector(id, found, after),
    ensures
        found == Search::Nothing <==> shared.injector.len() == 0,
        !(found is Found) ==> after == shared,
        found is Found ==> exists|behind: Seq<StealPtr>|
            {
                &&& shared.injector == seq![found->Found_0] + #[trigger] behind.reverse()
                    + after.injector
                &&& after.slots[id as int].local == shared.slots[id as int].local + behind
            },
        found is Found ==> {
            &&& after.main == shared.main
            &&& after.idle == shared.idle
            &&& after.wakes == shared.wakes
            &&& after.lifecycle == shared.lifecycle
            &&& after.slots.len() == shared.slots.len()
            &&& forall|i: int|
                0 <= i < shared.slots.len() && i != id ==> #[trigger] after.slots[i]
                    == shared.slots[i]
            &&& after.slots[id as int].incoming == shared.slots[id as int].incoming
            &&& after.slots[id as int].ready == shared.slots[id as int].ready
            &&& after.slots[id as int].load == shared.slots[id as int].load
            &&& after.slots[id as int].notify == shared.slots[id as int].notify
            &&& after.slots[id as int].busy == shared.slots[id as int].busy
        },
{
    if found is Found {
        let moved = choose|moved: int| #[trigger] shared.stole_injected(id, moved, found, after);
        assert(shared.stole_injected(id, moved, found, after));
        let behind = shared.injector.subrange(1, 1 + moved).reverse();
        assert(behind.reverse() =~= shared.injector.subrange(1, 1 + moved));
        assert(shared.injector =~= seq![found->Found_0] + behind.reverse() + after.injector);
    }
}

/// The first step of a drain tells its thread which worker it is. The look before parking asks for
/// one deferred wake if the worker's own queue or the injector holds a task, and for none
/// otherwise. No other step touches what the thread keeps to itself.
pub proof fn law_drain_asks_for_a_deferred_wake<F, W>(
    thread: ThreadView<W>,
    shared: SharedView<F>,
    id: u32,
    phase: DrainPhase,
)
    ensures
        ({
            let after = thread.drain_stepped(shared, id, phase);
            let work_left = shared.slots[id as int].local.len() > 0 || shared.injector.len() > 0;
            &&& after.microtasks == if phase is Settle && work_left {
                thread.microtasks.push(Microtask::Rearm)
            } else {
                thread.microtasks
            }
            &&& after.thread == if phase is Enter {
                Some(ThreadId::Worker(id))
            } else {
                thread.thread
            }
            &&& after.pending == thread.pending
            &&& after.scheduled == thread.scheduled
            &&& after.workers == thread.workers
        }),
{
}

/// A drain stops for good exactly if it finds the runtime shut down, at its start or once it has
/// announced itself, and then it has touched nothing. Otherwise it goes on to its end.
pub proof fn law_drain_stops_on_shutdown_only<F>(
    shared: SharedView<F>,
    id: u32,
    phase: DrainPhase,
    action: DrainAction<F>,
    next: DrainPhase,
    after: SharedView<F>,
)
    requires
        shared.drain_stepped(id, phase, action, next, after),
        id < shared.slots.len(),
        !(phase is Done),
    ensures
        action == DrainAction::<F>::Return(false) <==> (phase is Enter || phase is Recheck)
            && shared.lifecycle is Shutdown,
        action == DrainAction::<F>::Return(true) <==> phase is Release,
        action is Return ==> next == DrainPhase::Done(action->Return_0),
        !(action is Return) ==> !(next is Done),
        action == DrainAction::<F>::Return(false) ==> {
            &&& !after.slots[id as int].busy || phase is Enter
            &&& after.slots[id as int].incoming == shared.slots[id as int].incoming
            &&& after.slots[id as int].ready == shared.slots[id as int].ready
            &&& after.slots[id as int].local == shared.slots[id as int].local
            &&& after.injector == shared.injector
            &&& after.idle == shared.idle
        },
{
}

/// A drain never stands still: a step either hands out a task, or goes on to a later part of the
/// drain, or repeats an attempt on the injector that was made and failed.
pub proof fn law_drain_goes_on<F>(
    shared: SharedView<F>,
    id: u32,
    phase: DrainPhase,
    action: DrainAction<F>,
    next: DrainPhase,
    after: SharedView<F>,
)
    requires
        shared.drain_stepped(id, phase, action, next, after),
        id < shared.slots.len(),
    ensures
        phase is Enter ==> next is Announce || next == DrainPhase::Done(false),
        phase is Announce ==> next is Recheck,
        phase is Recheck ==> next is Ready || next == DrainPhase::Done(false),
        phase is Ready ==> (action is RunPinned && next is Ready) || next is Incoming,
        phase is Incoming ==> (action is RunPending && next is Incoming) || next is Stealable,
        phase is Stealable || phase is Injector ==> next is Park || (next is Injector
            && shared.injector.len() > 0 && after == shared),
        phase is Park ==> next is Settle,
        phase is Settle ==> next is Release,
        phase is Release ==> next == DrainPhase::Done(true),
        phase is Ready && next is Incoming ==> shared.slots[id as int].ready.len() == 0,
        phase is Incoming && next is Stealable ==> shared.slots[id as int].incoming.len() == 0,
        action is RunPinned ==> phase is Ready,
        action is RunPending ==> phase is Incoming,
        action is RunStealable ==> phase is Stealable || phase is Injector,
{
}

/// What a drain step may touch: of its own slot the queues that it takes from and its busy flag, of
/// the idle set its own mark, of its siblings their stealable tasks, and the injector. It wakes
/// nobody and changes no load, no notify word, nothing of the main thread and no other worker's
/// pinned work.
pub proof fn law_drain_touches_its_own<F>(
    shared: SharedView<F>,
    id: u32,
    phase: DrainPhase,
    action: DrainAction<F>,
    next: DrainPhase,
    after: SharedView<F>,
)
    requires
        shared.drain_stepped(id, phase, action, next, after),
        shared.sized,
        shared.slots.len() <= MAX_WORKERS,
        id < shared.slots.len(),
    ensures
        after.sized,
        phase is Enter || phase is Done ==> after == shared,
        after.wakes == shared.wakes,
        after.main == shared.main,
        after.lifecycle == shared.lifecycle,
        after.slots.len() == shared.slots.len(),
        forall|i: int|
            0 <= i < shared.slots.len() ==> {
                &&& (#[trigger] after.slots[i]).load == shared.slots[i].load
                &&& after.slots[i].notify == shared.slots[i].notify
                &&& i != id ==> after.slots[i].incoming == shared.slots[i].incoming
                    && after.slots[i].ready == shared.slots[i].ready && after.slots[i].busy
                    == shared.slots[i].busy
                &&& !(phase is Stealable || phase is Injector) ==> after.slots[i].local
                    == shared.slots[i].local
            },
        !(phase is Stealable || phase is Injector) ==> after.injector == shared.injector,
        forall|j: u32|
            j != id ==> (#[trigger] after.idle.contains(j) <==> shared.idle.contains(j)),
        phase is Recheck && !(shared.lifecycle is Shutdown) || (phase is Settle && (
        shared.slots[id as int].local.len() > 0 || shared.injector.len() > 0))
            ==> !after.idle.contains(id),
        phase is Park ==> after.idle.contains(id),
        !(phase is Recheck || phase is Park || phase is Settle) ==> after.idle == shared.idle,
        phase is Settle && shared.slots[id as int].local.len() == 0 && shared.injector.len() == 0
            ==> after == shared,
        after.slots[id as int].busy == if phase is Announce {
            true
        } else if phase is Release || (phase is Recheck && shared.lifecycle is Shutdown) {
            false
        } else {
            shared.slots[id as int].busy
        },
        !(phase is Ready) ==> after.slots[id as int].ready == shared.slots[id as int].ready,
        !(phase is Incoming) ==> after.slots[id as int].incoming
            == shared.slots[id as int].incoming,
        action matches DrainAction::RunPinned(ptr) ==> shared.slots[id as int].ready == seq![ptr]
            + after.slots[id as int].ready,
        action matches DrainAction::RunPending(pending) ==> shared.slots[id as int].incoming
            == seq![pending] + after.slots[id as int].incoming,
        !(action is RunPinned) ==> after.slots[id as int].ready == shared.slots[id as int].ready,
        !(action is RunPending) ==> after.slots[id as int].incoming
            == shared.slots[id as int].incoming,
{
    if let DrainAction::RunPinned(ptr) = action {
        assert(shared.slots[id as int].ready =~= seq![ptr] + after.slots[id as int].ready);
    }
    if let DrainAction::RunPending(pending) = action {
        assert(shared.slots[id as int].incoming =~= seq![pending]
            + after.slots[id as int].incoming);
    }
}

/// A drain runs the stealable task that its search found, and goes without one only if there was
/// none, or if it has an attempt on the injector to repeat.
pub proof fn law_drain_runs_what_it_found<F>(
    shared: SharedView<F>,
    id: u32,
    phase: DrainPhase,
    action: DrainAction<F>,
    next: DrainPhase,
    after: SharedView<F>,
)
    requires
        shared.drain_stepped(id, phase, action, next, after),
        shared.sized,
        shared.slots.len() <= MAX_WORKERS,
        id < shared.slots.len(),
        phase is Stealable || phase is Injector,
    ensures
        action matches DrainAction::RunStealable(ptr) ==> next is Park && if phase is Stealable {
            shared.searched(id, Search::Found(ptr), after)
        } else {
            shared.tried_injector(id, Search::Found(ptr), after)
        },
        !(action is RunStealable) ==> action is Continue && after == shared,
        !(action is RunStealable) && next is Park ==> {
            &&& shared.injector.len() == 0
            &&& phase is Stealable ==> forall|i: int|
                0 <= i < shared.slots.len() ==> (#[trigger] shared.slots[i]).local.len() == 0
        },
        next is Injector ==> {
            &&& shared.injector.len() > 0
            &&& phase is Stealable ==> forall|i: int|
                0 <= i < shared.slots.len() ==> (#[trigger] shared.slots[i]).local.len() == 0
        },
{
    if phase is Stealable {
        let found = choose|found: Search| #[trigger]
            shared.searched(id, found, after) && after_search(found, action, next);
        law_search_order(shared, id, found, after);
    } else {
        let found = choose|found: Search| #[trigger]
            shared.tried_injector(id, found, after) && after_search(found, action, next);
        law_attempt_takes_the_oldest(shared, id, found, after);
    }
}

/// The main thread drains its ready tasks and then its placements, oldest first, until there are
/// none, and touches nothing else.
pub proof fn law_main_drain_takes_everything<F>(
    shared: SharedView<F>,
    phase: MainPhase,
    action: DrainAction<F>,
    next: MainPhase,
    after: SharedView<F>,
)
    requires
        shared.main_stepped(phase, action, next, after),
        shared.slots.len() <= MAX_WORKERS,
    ensures
        phase is Ready && shared.main.ready.len() > 0 ==> {
            &&& action is RunPinned
            &&& next is Ready
            &&& shared.main.ready == seq![action->RunPinned_0] + after.main.ready
        },
        phase is Ready && shared.main.ready.len() == 0 ==> action is Continue && next is Incoming,
        phase is Incoming && shared.main.incoming.len() > 0 ==> {
            &&& action is RunPending
            &&& next is Incoming
            &&& shared.main.incoming == seq![action->RunPending_0] + after.main.incoming
        },
        phase is Incoming && shared.main.incoming.len() == 0 ==> action
            == DrainAction::<F>::Return(true) && next is Done,
        phase is Done ==> action == DrainAction::<F>::Return(true) && next is Done,
        !(action is RunPinned) ==> after.main.ready == shared.main.ready,
        !(action is RunPending) ==> after.main.incoming == shared.main.incoming,
        after.main.local == shared.main.local,
        after.main.load == shared.main.load,
        after.main.notify == shared.main.notify,
        after.main.busy == shared.main.busy,
        after.wakes == shared.wakes,
        same_but(shared, after, MAIN_ID),
{
    if let DrainAction::RunPinned(ptr) = action {
        assert(shared.main.ready =~= seq![ptr] + after.main.ready);
    }
    if let DrainAction::RunPending(pending) = action {
        assert(shared.main.incoming =~= seq![pending] + after.main.incoming);
    }
}

/// The main loop ends exactly if the runtime is shut down or its word cannot be read or waited on.
/// It waits for the very value that it read, and it comes back at once exactly if the wait did not
/// begin.
pub proof fn law_main_loop_goes_on(lifecycle: Lifecycle, seen: i32, wait: Wait)
    ensures
        tick_for(lifecycle, None) == Tick::Stop,
        lifecycle is Shutdown ==> tick_for(lifecycle, Some(seen)) == Tick::Stop,
        !(lifecycle is Shutdown) ==> tick_for(lifecycle, Some(seen)) == Tick::Drain(seen),
        reentry_after(wait) == Reentry::Stop <==> wait == Wait::Failed,
        reentry_after(wait) == Reentry::OnNotify <==> wait == Wait::Answered(Some(true)),
        reentry_after(wait) == Reentry::AtOnce <==> wait == Wait::Answered(Some(false)) || wait
            == Wait::Answered(None),
{
}

/// The number of cores to reckon with is what the machine reports, but never zero.
pub proof fn law_cores_are_clamped(n: usize)
    ensures
        n >= 1 ==> parallelism(Some(n)) == n,
        parallelism(Some(0)) == 1,
        parallelism(None) == 4,
{
}

/// A chosen worker count is what is started, whatever the machine reports. Only without one the
/// machine decides.
pub proof fn law_chosen_count_is_started(
    builder: WebbleBuilder,
    n: usize,
    cores: Option<usize>,
    reported: usize,
)
    ensures
        builder.num_workers == Some(n) ==> builder.count(cores) == n,
        builder.with_workers(n).count(cores) == n,
        builder.num_workers is None && cores is None ==> builder.count(cores) == 4,
        builder.num_workers is None && cores == Some(reported) ==> builder.count(cores)
            == if reported == 0 {
            1
        } else {
            reported as int
        },
{
}

/// A first `init` with a chosen count gives the runtime exactly that many workers, whatever the
/// machine reports.
pub proof fn law_first_init_has_the_chosen_workers<F>(
    builder: WebbleBuilder,
    n: usize,
    cores: Option<usize>,
    shared: SharedView<F>,
)
    requires
        !shared.sized,
    ensures
        shared.started(builder.with_workers(n).count(cores) as nat).slots.len() == n,
        shared.started(builder.with_workers(n).count(cores) as nat).live_workers() == n,
{
}

/// The choices on a builder are independent, and the last of each kind counts.
pub proof fn law_last_choice_counts(
    builder: WebbleBuilder,
    n: usize,
    m: usize,
    a: WorkerSource,
    b: WorkerSource,
)
    ensures
        builder.with_workers(n).num_workers == Some(n),
        builder.with_workers(n).source == builder.source,
        builder.with_source(a).source == Some(a),
        builder.with_source(a).num_workers == builder.num_workers,
        builder.with_workers(n).with_workers(m) == builder.with_workers(m),
        builder.with_source(a).with_source(b) == builder.with_source(b),
        builder.with_workers(n).with_source(a) == builder.with_source(a).with_workers(n),
{
}

/// An `init` is refused exactly if there are more than 32 workers to start, or no source was chosen,
/// or the runtime is running, or it was sized for another number of workers. The first of these
/// that holds is the reason given.
pub proof fn law_init_is_refused_for_a_reason<F>(
    builder: WebbleBuilder,
    shared: SharedView<F>,
    cores: Option<usize>,
)
    requires
        shared.slots.len() <= MAX_WORKERS,
    ensures
        ({
            let n = builder.count(cores);
            let refusal = builder.refusal(shared, cores);
            &&& refusal == Some(InitRefusal::TooManyWorkers) <==> n > 32
            &&& refusal == Some(InitRefusal::NoSource) <==> n <= 32 && builder.source is None
            &&& refusal == Some(InitRefusal::AlreadyRunning) <==> n <= 32 && builder.source is Some
                && shared.lifecycle is Running
            &&& refusal is None <==> {
                &&& n <= 32
                &&& builder.source is Some
                &&& !(shared.lifecycle is Running)
                &&& !shared.sized || shared.slots.len() == n
            }
            &&& refusal matches Some(InitRefusal::CountChanged(k)) ==> k == shared.slots.len() && k
                != n
        }),
{
}

/// The workers run the script whose URL was chosen, as it was given, or the script that was made of
/// the chosen path.
pub proof fn law_script_is_the_chosen_one<B: FnOnce(String) -> String>(
    builder: WebbleBuilder,
    blob_url: B,
    chosen: String,
    url: String,
)
    ensures
        builder.with_source(WorkerSource::WorkerUrl(chosen)).resolves(blob_url, url) <==> url
            == chosen,
        builder.with_source(WorkerSource::GluePath(chosen)).resolves(blob_url, url)
            <==> call_ensures(blob_url, (chosen,), url),
        builder.source is None ==> !builder.resolves(blob_url, url),
{
}

/// A start that was told of a failure gives up with it and leaves the runtime uninitialized, so that
/// it can be tried again. One whose workers were all started makes its thread the main thread and
/// the keeper of exactly those workers. Nothing else changes on the way.
pub proof fn law_start_ends_well_or_not_at_all<W, E, F>(
    startup: Startup<W>,
    event: StartEvent<W, E>,
    action: StartAction<E>,
    after: Startup<W>,
    shared: SharedView<F>,
    thread: ThreadView<W>,
)
    requires
        startup.wf(),
        startup.proceeded(event, action, after),
    ensures
        event matches StartEvent::Failed(e) ==> {
            &&& action == StartAction::<E>::Failed(e)
            &&& startup.state_after(event, shared).lifecycle is Uninit
            &&& startup.state_after(event, shared) == (SharedView {
                lifecycle: Lifecycle::Uninit,
                ..shared
            })
            &&& startup.thread_after(event, thread) == thread
        },
        !(event is Failed) ==> startup.state_after(event, shared) == shared,
        event is Begin ==> startup.phase is Begin && (if startup.total == 0 {
            action is Finished
        } else {
            action == StartAction::<E>::Start(0)
        }),
        event is Started ==> startup.phase is Awaiting && (if startup.workers@.len() + 1
            == startup.total {
            action is Finished
        } else {
            action == StartAction::<E>::Start((startup.workers@.len() + 1) as u32)
        }),
        action is Start ==> startup.thread_after(event, thread) == thread,
        action is Start ==> after.phase is Awaiting,
        !(action is Start) ==> after.phase == StartPhase::Over,
        action is Finished ==> {
            let done = startup.thread_after(event, thread);
            &&& done.thread == Some(ThreadId::Main)
            &&& done.workers.len() == startup.total
            &&& forall|i: int|
                0 <= i < startup.workers@.len() ==> #[trigger] done.workers[i]
                    == startup.workers@[i]
            &&& event matches StartEvent::Started(inner) ==> done.workers.last().inner == inner
                && done.workers.last().id == startup.total - 1
            &&& done.pending == thread.pending
            &&& done.scheduled == thread.scheduled
            &&& done.microtasks == thread.microtasks
        },
        after.url == startup.url,
        after.total == startup.total,
{
}

/// A look brings the message that was received and nothing otherwise. The first result that a handle
/// is brought stays: no later look changes it.
pub proof fn law_first_result_stays<T, E>(value: T, e: E, later: Option<T>, held: Option<T>)
    ensures
        brought(Ok::<T, E>(value)) == Some(value),
        brought(Err::<T, E>(e)) is None,
        kept(Some(value), later) == Some(value),
        kept(None, later) == later,
        kept(kept(held, Some(value)), later) == kept(held, Some(value)),
{
}

/// A handle brings what came out of its own channel: the very message that a receive on it got, and
/// nothing if that got none.
pub proof fn law_handle_brings_what_came<T>(handle: WorkerHandle<T>, output: Option<T>)
    requires
        handle.brings(output),
    ensures
        exists|received: Result<T, TryRecvError>|
            {
                &&& #[trigger] call_ensures(
                    Receiver::<T>::try_recv,
                    (&handle.channel(),),
                    received,
                )
                &&& output matches Some(value) ==> received == Ok::<T, TryRecvError>(value)
                &&& output is None ==> received is Err
            },
{
    let received = choose|received: Result<T, TryRecvError>| #[trigger]
        crate::channel::looked(handle.channel(), received) && output == brought(received);
    assert(call_ensures(Receiver::<T>::try_recv, (&handle.channel(),), received));
}

/// Pinned work is built with the sender of a new channel for one message, whose receiver is the
/// handle's, and with a share of the load of the very worker that it is placed on.
pub proof fn law_work_is_built_for_its_handle<T, F, B: FnOnce(Sender<T>, LoadGuard) -> F>(
    build: B,
    w: u32,
    rx: Receiver<T>,
    thunk: F,
)
    requires
        built_for::<T, F, B>(build, w, rx, thunk),
    ensures
        exists|tx: Sender<T>, guard: LoadGuard|
            {
                &&& call_ensures(async_channel::bounded::<T>, (1usize,), (tx, rx))
                &&& guard.holder() == w
                &&& #[trigger] call_ensures(build, (tx, guard), thunk)
            },
{
    let (tx, guard) = choose|tx: Sender<T>, guard: LoadGuard|
        {
            &&& crate::channel::is_result_channel(tx, rx)
            &&& guard.holder() == w
            &&& #[trigger] call_ensures(build, (tx, guard), thunk)
        };
    assert(call_ensures(build, (tx, guard), thunk));
}

/// Work for the main thread and stealable work is built with the sender of a new channel for one
/// message, whose receiver is the handle's.
pub proof fn law_work_is_built_from_its_channel<T, R, B: FnOnce(Sender<T>) -> R>(
    build: B,
    rx: Receiver<T>,
    made: R,
)
    requires
        built_from::<T, R, B>(build, rx, made),
    ensures
        exists|tx: Sender<T>|
            {
                &&& call_ensures(async_channel::bounded::<T>, (1usize,), (tx, rx))
                &&& #[trigger] call_ensures(build, (tx,), made)
            },
{
    let tx = choose|tx: Sender<T>|
        crate::channel::is_result_channel(tx, rx) && #[trigger] call_ensures(build, (tx,), made);
    assert(call_ensures(build, (tx,), made));
}

/// The notify word of thread `i` lies 64 bytes behind that of the thread before it, the main
/// thread's behind that of the last worker there can be.
pub proof fn law_words_lie_in_a_table(base: int, i: u32)
    requires
        i < MAX_WORKERS,
    ensures
        word_address(base, i) == base + 64 * i,
        word_address(base, MAIN_ID) == base + 64 * 32,
{
}

} // verus!
