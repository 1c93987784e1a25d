//! What holds of the runtime as a whole, across calls.

use vstd::prelude::*;

use crate::deque::StealPtr;
use crate::exec::{is_least, routed_pinned, word_address};
use crate::main_thread::MainPhase;
use crate::pool::{InitRefusal, StartAction, StartEvent, Startup, WebbleBuilder};
use crate::protocol::{
    law_init_establishes_invariant, law_steps_keep_invariant, lemma_micro_frame, Step, System,
};
use crate::state::{PendingSpawn, PinnedPtr, SharedView, SlotView, MAIN_ID, MAX_WORKERS};
use crate::thread::{Microtask, ThreadId, ThreadView, ThreadWorker};
use crate::worker::{after_search, lemma_sibling, sibling, DrainAction, DrainPhase, Search};

verus! {

/// The main thread's id is no worker's, so a thread's scheduling id tells which thread it is.
pub proof fn law_scheduling_ids_are_distinct<F>(shared: SharedView<F>, a: ThreadId, b: ThreadId)
    requires
        shared.slots.len() <= MAX_WORKERS,
        a matches ThreadId::Worker(i) ==> shared.has_worker(i),
        b matches ThreadId::Worker(i) ==> shared.has_worker(i),
        a.raw() == b.raw(),
    ensures
        a == b,
{
}

/// A notification reaches one thread: its word is bumped and its waiter woken, and no other
/// thread's slot changes.
pub proof fn law_notify_touches_one_thread<F>(shared: SharedView<F>, id: u32, other: u32)
    requires
        shared.has_slot(id),
        shared.has_slot(other),
        other != id,
    ensures
        shared.notified(id).slot(id).notify == shared.slot(id).notify.wrapping_add(1),
        shared.notified(id).slot(other) == shared.slot(other),
        shared.notified(id).wakes == shared.wakes.push(id),
{
}

/// A woken pinned task goes to its owner and to nobody else: into the owner's microtasks if it is
/// woken there, else to the end of the owner's ready tasks, and then the owner is notified. No
/// other thread's slot changes.
pub proof fn law_pinned_tasks_stay_with_their_owner<F, W>(
    shared: SharedView<F>,
    thread: ThreadView<W>,
    owner: u32,
    ptr: PinnedPtr,
    shared_after: SharedView<F>,
    thread_after: ThreadView<W>,
    other: u32,
)
    requires
        routed_pinned(shared, thread, owner, ptr, shared_after, thread_after),
        thread.raw() == Some(owner) || shared.has_slot(owner),
        shared.has_slot(other),
        other != owner,
    ensures
        shared_after.slot(other) == shared.slot(other),
        thread.raw() == Some(owner) ==> {
            &&& thread_after.pending == thread.pending.push(ptr)
            &&& shared_after == shared
        },
        thread.raw() != Some(owner) ==> {
            &&& thread_after == thread
            &&& shared_after.slot(owner).ready == shared.slot(owner).ready.push(ptr)
            &&& shared_after.wakes.last() == owner
        },
{
}

impl<W> ThreadView<W> {
    /// No woken pinned task waits without a microtask on its way.
    pub open spec fn micro_inv(self) -> bool {
        self.pending.len() > 0 ==> self.scheduled
    }

    /// After the tasks `ptrs` were woken in turn on this thread.
    pub open spec fn with_pinned_all(self, ptrs: Seq<PinnedPtr>) -> Self
        decreases ptrs.len(),
    {
        if ptrs.len() == 0 {
            self
        } else {
            self.with_pinned_all(ptrs.drop_last()).with_pinned(ptrs.last())
        }
    }
}

/// Pinned tasks woken on their owner's thread are batched: however many are woken before the
/// microtask runs, one microtask is asked for, and it hands out all of them in the order in which
/// they were woken.
pub proof fn law_microtasks_batch_in_order<W>(thread: ThreadView<W>, ptrs: Seq<PinnedPtr>)
    requires
        thread.pending.len() == 0,
        !thread.scheduled,
    ensures
        thread.with_pinned_all(ptrs).pending == ptrs,
        thread.with_pinned_all(ptrs).micro_inv(),
        thread.with_pinned_all(ptrs).microtasks == if ptrs.len() == 0 {
            thread.microtasks
        } else {
            thread.microtasks.push(Microtask::DrainPinned)
        },
        thread.with_pinned_all(ptrs).scheduled == (ptrs.len() > 0),
    decreases ptrs.len(),
{
    if ptrs.len() > 0 {
        law_microtasks_batch_in_order(thread, ptrs.drop_last());
        assert(ptrs.drop_last().push(ptrs.last()) =~= ptrs);
    } else {
        assert(thread.pending =~= ptrs);
    }
}

/// Placing pinned work and giving its share of the load back leaves every worker's load as it was.
pub proof fn law_load_returns<F>(shared: SharedView<F>, w: u32, pending: PendingSpawn<F>, i: int)
    requires
        shared.slots.len() <= MAX_WORKERS,
        shared.has_worker(w),
        0 <= i < shared.slots.len(),
    ensures
        shared.placed(w, pending).unloaded(w).slots[i].load == shared.slots[i].load,
        i != w ==> shared.placed(w, pending).slots[i].load == shared.slots[i].load,
        i == w ==> shared.placed(w, pending).slots[i].load == shared.slots[i].load.wrapping_add(1),
{
}

/// Whether `states` goes from one state to the next by placing pinned work on a least-loaded
/// worker, `chosen[k]` the one chosen in the `k`-th placement.
pub open spec fn is_placement_run<F>(states: Seq<SharedView<F>>, chosen: Seq<u32>) -> bool {
    &&& states.len() == chosen.len() + 1
    &&& forall|k: int|
        0 <= k < chosen.len() ==> {
            &&& states[k].least_loaded(#[trigger] chosen[k])
            &&& exists|pending: PendingSpawn<F>|
                states[k + 1] == #[trigger] states[k].placed(chosen[k], pending)
        }
}

/// Placement spreads: on workers of equal load, the first placements go to one worker each, in the
/// order of their ids.
pub proof fn law_placements_spread<F>(states: Seq<SharedView<F>>, chosen: Seq<u32>, load: u32)
    requires
        is_placement_run(states, chosen),
        states[0].slots.len() <= MAX_WORKERS,
        chosen.len() <= states[0].slots.len(),
        load < u32::MAX,
        forall|i: int|
            0 <= i < states[0].slots.len() ==> (#[trigger] states[0].slots[i]).load == load,
    ensures
        forall|k: int| 0 <= k < chosen.len() ==> #[trigger] chosen[k] == k,
        states.last().slots.len() == states[0].slots.len(),
        forall|i: int|
            0 <= i < states[0].slots.len() ==> (#[trigger] states.last().slots[i]).load == if i
                < chosen.len() {
                load + 1
            } else {
                load as int
            },
    decreases chosen.len(),
{
    if chosen.len() > 0 {
        let k = chosen.len() - 1;
        let earlier = states.drop_last();
        assert(is_placement_run(earlier, chosen.drop_last())) by {
            assert forall|j: int| 0 <= j < chosen.drop_last().len() implies {
                &&& earlier[j].least_loaded(#[trigger] chosen.drop_last()[j])
                &&& exists|pending: PendingSpawn<F>|
                    earlier[j + 1] == #[trigger] earlier[j].placed(
                        chosen.drop_last()[j],
                        pending,
                    )
            } by {
                assert(states[j].least_loaded(chosen[j]));
                let pending = choose|pending: PendingSpawn<F>|
                    states[j + 1] == #[trigger] states[j].placed(chosen[j], pending);
                assert(earlier[j + 1] == earlier[j].placed(chosen.drop_last()[j], pending));
            }
        }
        law_placements_spread(earlier, chosen.drop_last(), load);
        assert(earlier.last() == states[k]);
        let w = chosen[k];
        assert(states[k].least_loaded(w));
        assert(states[k].slots[k].load == load);
        assert(w == k) by {
            if w < k {
                assert(states[k].slots[w as int].load == load + 1);
            } else if w > k {
                assert(states[k].slots[w as int].load < states[k].slots[k].load);
            }
        }
        let pending = choose|pending: PendingSpawn<F>|
            states[k + 1] == #[trigger] states[k].placed(chosen[k], pending);
        assert forall|j: int| 0 <= j < chosen.len() implies #[trigger] chosen[j] == j by {
            if j < k {
                assert(chosen.drop_last()[j] == j);
            }
        }
        assert(states.last() == states[k + 1]);
    }
}

/// What a waiting count is made of changes with one worker's queues only.
proof fn lemma_waiting_at_update<F>(before: SharedView<F>, after: SharedView<F>, w: int, k: int)
    requires
        0 <= w < before.slots.len(),
        before.slots.len() == after.slots.len(),
        0 <= k <= before.slots.len(),
        forall|i: int|
            0 <= i < before.slots.len() && i != w ==> {
                &&& (#[trigger] after.slots[i]).incoming == before.slots[i].incoming
                &&& after.slots[i].local == before.slots[i].local
            },
    ensures
        after.waiting_at(k) - before.waiting_at(k) == if w < k {
            after.slots[w].incoming.len() + after.slots[w].local.len()
                - before.slots[w].incoming.len() - before.slots[w].local.len()
        } else {
            0
        },
    decreases k,
{
    if k > 0 {
        lemma_waiting_at_update(before, after, w, k - 1);
    }
}

/// A placement on a worker adds one to the number of tasks that wait.
pub proof fn law_placement_waits<F>(shared: SharedView<F>, w: u32, pending: PendingSpawn<F>)
    requires
        shared.slots.len() <= MAX_WORKERS,
        shared.has_worker(w),
    ensures
        shared.placed(w, pending).waiting() == shared.waiting() + 1,
{
    lemma_waiting_at_update(
        shared,
        shared.placed(w, pending),
        w as int,
        shared.slots.len() as int,
    );
}

/// Scheduling a stealable task, with the wake that comes with it, adds one to the number of tasks
/// that wait.
pub proof fn law_stealable_waits<F>(
    shared: SharedView<F>,
    from: Option<u32>,
    ptr: StealPtr,
    after: SharedView<F>,
)
    requires
        shared.slots.len() <= MAX_WORKERS,
        shared.knows(from),
        forall|i: u32| #[trigger] shared.idle.contains(i) ==> shared.has_worker(i),
        shared.with_stealable(from, ptr).woke_one(after),
    ensures
        after.waiting() == shared.waiting() + 1,
{
    let pushed = shared.with_stealable(from, ptr);
    let n = shared.slots.len() as int;
    if let Some(id) = from {
        if id != MAIN_ID {
            lemma_waiting_at_update(shared, pushed, id as int, n);
        } else if n > 0 {
            lemma_waiting_at_update(shared, pushed, 0, n);
        }
    } else if n > 0 {
        lemma_waiting_at_update(shared, pushed, 0, n);
    }
    if pushed.idle != Set::<u32>::empty() {
        let w = choose|w: u32| #[trigger] is_least(pushed.idle, w) && after == pushed.claimed(w);
        assert(shared.idle.contains(w));
        lemma_waiting_at_update(pushed, after, w as int, n);
    }
}

/// How often `ptr` occurs in `s`.
pub open spec fn occurrences(s: Seq<StealPtr>, ptr: StealPtr) -> nat
    decreases s.len(),
{
    if s.len() == 0 {
        0
    } else {
        occurrences(s.drop_last(), ptr) + if s.last() == ptr {
            1nat
        } else {
            0nat
        }
    }
}

/// Occurrences add up over a concatenation.
proof fn lemma_occurrences_add(a: Seq<StealPtr>, b: Seq<StealPtr>, ptr: StealPtr)
    ensures
        occurrences(a + b, ptr) == occurrences(a, ptr) + occurrences(b, ptr),
    decreases b.len(),
{
    if b.len() == 0 {
        assert(a + b =~= a);
    } else {
        assert((a + b).drop_last() =~= a + b.drop_last());
        lemma_occurrences_add(a, b.drop_last(), ptr);
    }
}

/// One task occurs once in the sequence of it.
proof fn lemma_occurrences_one(only: StealPtr, ptr: StealPtr)
    ensures
        occurrences(seq![only], ptr) == if only == ptr {
            1nat
        } else {
            0nat
        },
{
    assert(seq![only].drop_last() =~= Seq::<StealPtr>::empty());
    assert(occurrences(Seq::<StealPtr>::empty(), ptr) == 0);
}

/// Occurrences do not depend on the order.
proof fn lemma_occurrences_reverse(s: Seq<StealPtr>, ptr: StealPtr)
    ensures
        occurrences(s.reverse(), ptr) == occurrences(s, ptr),
    decreases s.len(),
{
    if s.len() == 0 {
        assert(s.reverse() =~= s);
    } else {
        lemma_occurrences_reverse(s.drop_last(), ptr);
        assert(s.reverse() =~= seq![s.last()] + s.drop_last().reverse());
        lemma_occurrences_add(seq![s.last()], s.drop_last().reverse(), ptr);
        lemma_occurrences_one(s.last(), ptr);
    }
}

/// A sequence is made of what is before one of its items, the item, and what is behind it.
proof fn lemma_occurrences_split(s: Seq<StealPtr>, at: int, ptr: StealPtr)
    requires
        0 <= at < s.len(),
    ensures
        occurrences(s, ptr) == occurrences(s.take(at), ptr) + occurrences(s.skip(at + 1), ptr)
            + if s[at] == ptr {
            1nat
        } else {
            0nat
        },
{
    assert(s =~= s.take(at) + seq![s[at]] + s.skip(at + 1));
    lemma_occurrences_add(s.take(at) + seq![s[at]], s.skip(at + 1), ptr);
    lemma_occurrences_add(s.take(at), seq![s[at]], ptr);
    lemma_occurrences_one(s[at], ptr);
}

impl<F> SharedView<F> {
    /// How often `ptr` occurs in the queues of the first `k` workers.
    pub open spec fn queued_at(self, ptr: StealPtr, k: int) -> nat
        decreases k,
    {
        if k <= 0 {
            0
        } else {
            self.queued_at(ptr, k - 1) + occurrences(self.local(k - 1), ptr)
        }
    }

    /// How often `ptr` occurs in all queues of stealable tasks.
    pub open spec fn queued(self, ptr: StealPtr) -> nat {
        self.queued_at(ptr, self.slots.len() as int) + occurrences(self.injector, ptr)
    }

    /// Whether there is no stealable task anywhere.
    pub open spec fn nothing_to_steal(self) -> bool {
        &&& self.injector.len() == 0
        &&& forall|i: int| 0 <= i < self.slots.len() ==> (#[trigger] self.local(i)).len() == 0
    }
}

/// Occurrences in the workers' queues change with the one queue that changes.
proof fn lemma_queued_at_update<F>(
    shared: SharedView<F>,
    i: int,
    local: Seq<StealPtr>,
    ptr: StealPtr,
    k: int,
)
    requires
        0 <= i < shared.slots.len(),
        0 <= k <= shared.slots.len(),
    ensures
        shared.with_local(i, local).queued_at(ptr, k) == shared.queued_at(ptr, k) + if i < k {
            occurrences(local, ptr) - occurrences(shared.local(i), ptr)
        } else {
            0
        },
    decreases k,
{
    if k > 0 {
        lemma_queued_at_update(shared, i, local, ptr, k - 1);
    }
}

/// Occurrences in the workers' queues depend on those alone.
proof fn lemma_queued_at_same<F>(a: SharedView<F>, b: SharedView<F>, ptr: StealPtr, k: int)
    requires
        a.slots.len() == b.slots.len(),
        forall|i: int| 0 <= i < a.slots.len() ==> #[trigger] a.local(i) == b.local(i),
        0 <= k <= a.slots.len(),
    ensures
        a.queued_at(ptr, k) == b.queued_at(ptr, k),
    decreases k,
{
    if k > 0 {
        lemma_queued_at_same(a, b, ptr, k - 1);
    }
}

/// An attempt on the injector neither loses nor doubles a task.
proof fn lemma_injector_conserves<F>(
    shared: SharedView<F>,
    id: u32,
    found: Search,
    after: SharedView<F>,
    ptr: StealPtr,
)
    requires
        shared.has_worker(id),
        shared.tried_injector(id, found, after),
    ensures
        shared.queued(ptr) == after.queued(ptr) + if found == Search::Found(ptr) {
            1nat
        } else {
            0nat
        },
{
    if shared.injector.len() > 0 && found is Found {
        let moved = choose|moved: int| #[trigger] shared.stole_injected(id, moved, found, after);
        let n = shared.slots.len() as int;
        let i = id as int;
        let batch = shared.injector.subrange(1, 1 + moved);
        let local = shared.local(i) + batch.reverse();
        lemma_queued_at_update(shared, i, local, ptr, n);
        lemma_queued_at_same(after, shared.with_local(i, local), ptr, n);
        lemma_occurrences_add(shared.local(i), batch.reverse(), ptr);
        lemma_occurrences_reverse(batch, ptr);
        lemma_occurrences_split(shared.injector, 0, ptr);
        assert(shared.injector.take(0) =~= Seq::<StealPtr>::empty());
        assert(shared.injector.skip(1) =~= batch + shared.injector.skip(1 + moved));
        lemma_occurrences_add(batch, shared.injector.skip(1 + moved), ptr);
    }
}

/// A search for stealable work neither loses nor doubles a task: what it found has left the queues,
/// once, and everything else is still queued somewhere, as often as before.
pub proof fn law_search_conserves_tasks<F>(
    shared: SharedView<F>,
    id: u32,
    found: Search,
    after: SharedView<F>,
    ptr: StealPtr,
)
    requires
        shared.has_worker(id),
        shared.slots.len() <= MAX_WORKERS,
        shared.searched(id, found, after),
    ensures
        shared.queued(ptr) == after.queued(ptr) + if found == Search::Found(ptr) {
            1nat
        } else {
            0nat
        },
{
    let n = shared.slots.len();
    let i = id as int;
    if shared.local(i).len() > 0 {
        let own = shared.local(i);
        lemma_queued_at_update(shared, i, own.drop_last(), ptr, n as int);
    } else if shared.siblings_empty(id, n - 1) {
        lemma_injector_conserves(shared, id, found, after, ptr);
    } else {
        let (k, moved) = choose|k: int, moved: int|
            {
                &&& 1 <= k < n
                &&& shared.siblings_empty(id, k - 1)
                &&& #[trigger] shared.stole_from(id, sibling(id, k, n), moved, found, after)
            };
        lemma_sibling(id, k, n);
        let j = sibling(id, k, n);
        let victim = shared.local(j);
        let robbed = shared.with_local(j, victim.skip(moved + 1));
        lemma_queued_at_update(shared, j, victim.skip(moved + 1), ptr, n as int);
        assert(robbed.local(i) == shared.local(i));
        lemma_queued_at_update(
            robbed,
            i,
            shared.local(i) + victim.take(moved),
            ptr,
            n as int,
        );
        lemma_occurrences_add(shared.local(i), victim.take(moved), ptr);
        lemma_occurrences_split(victim, moved, ptr);
    }
}

/// A search comes back with nothing exactly if there is no stealable task anywhere.
pub proof fn law_search_is_complete<F>(
    shared: SharedView<F>,
    id: u32,
    found: Search,
    after: SharedView<F>,
)
    requires
        shared.has_worker(id),
        shared.searched(id, found, after),
    ensures
        found == Search::Nothing <==> shared.nothing_to_steal(),
        found !is Found ==> after == shared,
{
    let n = shared.slots.len();
    if shared.nothing_to_steal() {
        assert forall|m: int| 1 <= m <= n - 1 implies shared.local(
            #[trigger] sibling(id, m, n),
        ).len() == 0 by {
            lemma_sibling(id, m, n);
        }
    } else if found == Search::Nothing {
        assert forall|i: int| 0 <= i < n implies (#[trigger] shared.local(i)).len() == 0 by {
            if i != id {
                let m = if i > id { i - id } else { i - id + n };
                lemma_sibling(id, m, n);
                assert(shared.local(sibling(id, m, n)).len() == 0);
            }
        }
    }
}

/// Every stealable task that is queued is handed out once, whatever the threads do: the number of
/// times that a task is queued goes up by one when it is scheduled, down by one when a worker is
/// told to run it, and changes at no other time.
pub proof fn law_stealable_tasks_run_once<F, W>(
    before: System<F, W>,
    step: Step<F>,
    after: System<F, W>,
    ptr: StealPtr,
)
    requires
        before.inv(),
        before.steps(step, after),
    ensures
        after.shared.queued(ptr) == before.shared.queued(ptr) + match step {
            Step::Enqueue(_, queued) if queued == ptr => 1int,
            Step::Drain(_, DrainAction::RunStealable(taken), _) if taken == ptr => -1int,
            _ => 0int,
        },
{
    let n = before.shared.slots.len() as int;
    match step {
        Step::Drain(i, action, next) => {
            let id = i as u32;
            let phase = before.workers[i].place->Draining_0;
            if phase is Stealable {
                let found = choose|found: Search| #[trigger]
                    before.shared.searched(id, found, after.shared) && after_search(
                        found,
                        action,
                        next,
                    );
                law_search_conserves_tasks(before.shared, id, found, after.shared, ptr);
            } else if phase is Injector {
                let found = choose|found: Search| #[trigger]
                    before.shared.tried_injector(id, found, after.shared)
                        && after_search(found, action, next);
                lemma_injector_conserves(before.shared, id, found, after.shared, ptr);
            } else {
                lemma_queued_at_same(after.shared, before.shared, ptr, n);
            }
        },
        Step::Enqueue(from, queued) => {
            match from {
                Some(id) if id != MAIN_ID => {
                    let i = id as int;
                    let local = before.shared.local(i);
                    lemma_queued_at_update(before.shared, i, local.push(queued), ptr, n);
                    assert(after.shared =~= before.shared.with_local(i, local.push(queued)));
                    assert(local.push(queued).drop_last() =~= local);
                },
                _ => {
                    lemma_queued_at_same(after.shared, before.shared, ptr, n);
                    assert(before.shared.injector.push(queued).drop_last()
                        =~= before.shared.injector);
                },
            }
        },
        Step::WakeOne => {
            if before.shared.idle != Set::<u32>::empty() {
                let w = choose|w: u32| #[trigger]
                    is_least(before.shared.idle, w) && after == (System {
                        shared: before.shared.claimed(w),
                        owing: (before.owing - 1) as nat,
                        ..before.bumped(w)
                    });
                assert(before.shared.idle.contains(w));
            }
            lemma_queued_at_same(after.shared, before.shared, ptr, n);
        },
        Step::Micro(id) => {
            lemma_micro_frame(before, id, after);
            lemma_queued_at_same(after.shared, before.shared, ptr, n);
        },
        _ => {
            lemma_queued_at_same(after.shared, before.shared, ptr, n);
        },
    }
}

/// Pinned work stays where it was put, whatever the threads do: the tasks handed back to a thread
/// and the work placed on it are taken by that thread alone, once each and oldest first.
pub proof fn law_pinned_work_runs_once<F, W>(
    before: System<F, W>,
    step: Step<F>,
    after: System<F, W>,
    id: u32,
)
    requires
        before.inv(),
        before.steps(step, after),
        before.shared.has_slot(id),
    ensures
        after.shared.slot(id).ready == match step {
            Step::HandBack(owner, ptr) if owner == id => before.shared.slot(id).ready.push(ptr),
            Step::Drain(i, DrainAction::RunPinned(_), _) if i == id => before.shared.slot(
                id,
            ).ready.skip(1),
            Step::MainDrain(DrainAction::RunPinned(_), _) if id == MAIN_ID => before.shared.slot(
                id,
            ).ready.skip(1),
            _ => before.shared.slot(id).ready,
        },
        after.shared.slot(id).incoming == match step {
            Step::Place(w, pending) if w == id => before.shared.slot(id).incoming.push(pending),
            Step::PlaceOnMain(pending) if id == MAIN_ID => before.shared.slot(id).incoming.push(
                pending,
            ),
            Step::Drain(i, DrainAction::RunPending(_), _) if i == id => before.shared.slot(
                id,
            ).incoming.skip(1),
            Step::MainDrain(DrainAction::RunPending(_), _) if id == MAIN_ID => before.shared.slot(
                id,
            ).incoming.skip(1),
            _ => before.shared.slot(id).incoming,
        },
        match step {
            Step::Drain(i, DrainAction::RunPinned(ptr), _) if i == id => {
                before.shared.slot(id).ready.len() > 0 && ptr == before.shared.slot(id).ready[0]
            },
            Step::MainDrain(DrainAction::RunPinned(ptr), _) if id == MAIN_ID => {
                before.shared.slot(id).ready.len() > 0 && ptr == before.shared.slot(id).ready[0]
            },
            Step::Drain(i, DrainAction::RunPending(pending), _) if i == id => {
                before.shared.slot(id).incoming.len() > 0 && pending == before.shared.slot(
                    id,
                ).incoming[0]
            },
            Step::MainDrain(DrainAction::RunPending(pending), _) if id == MAIN_ID => {
                before.shared.slot(id).incoming.len() > 0 && pending == before.shared.slot(
                    id,
                ).incoming[0]
            },
            _ => true,
        },
{
    if let Step::Micro(at) = step {
        lemma_micro_frame(before, at, after);
    }
    if let Step::WakeOne = step {
        if before.shared.idle != Set::<u32>::empty() {
            let w = choose|w: u32| #[trigger]
                is_least(before.shared.idle, w) && after == (System {
                    shared: before.shared.claimed(w),
                    owing: (before.owing - 1) as nat,
                    ..before.bumped(w)
                });
            assert(before.shared.idle.contains(w));
        }
    }
}

/// Whether a drain of worker `id` went through `phases` and called for `actions`, whatever other
/// threads did to the shared state between its steps.
pub open spec fn is_drain<F>(
    id: u32,
    phases: Seq<DrainPhase>,
    actions: Seq<DrainAction<F>>,
) -> bool {
    &&& phases.len() == actions.len() + 1
    &&& phases[0] is Enter
    &&& forall|k: int|
        0 <= k < actions.len() ==> may_step(id, phases[k], #[trigger] actions[k], phases[k + 1])
}

/// Whether a drain of worker `id` takes this step in some state.
pub open spec fn may_step<F>(
    id: u32,
    phase: DrainPhase,
    action: DrainAction<F>,
    next: DrainPhase,
) -> bool {
    exists|shared: SharedView<F>, after: SharedView<F>| #[trigger]
        shared.drain_stepped(id, phase, action, next, after)
}

/// How late in a drain a phase comes.
spec fn rank(phase: DrainPhase) -> int {
    match phase {
        DrainPhase::Enter => 0,
        DrainPhase::Announce => 1,
        DrainPhase::Recheck => 2,
        DrainPhase::Ready => 3,
        DrainPhase::Incoming => 4,
        DrainPhase::Stealable => 5,
        DrainPhase::Injector => 6,
        DrainPhase::Park => 7,
        DrainPhase::Settle => 8,
        DrainPhase::Release => 9,
        DrainPhase::Done(_) => 10,
    }
}

/// A drain only goes forward.
proof fn lemma_drain_goes_forward<F>(
    id: u32,
    phases: Seq<DrainPhase>,
    actions: Seq<DrainAction<F>>,
    k: int,
    j: int,
)
    requires
        is_drain(id, phases, actions),
        0 <= k <= j < phases.len(),
    ensures
        rank(phases[k]) <= rank(phases[j]),
        phases[k] is Done ==> phases[j] == phases[k],
    decreases j - k,
{
    if k < j {
        lemma_drain_goes_forward(id, phases, actions, k, j - 1);
        let action = actions[j - 1];
        assert(rank(phases[j - 1]) <= rank(phases[j - 1 + 1]));
    }
}

/// A drain runs the tasks handed back to its worker first, then the work placed on it, then one
/// stealable task at most, and nothing after it was told to return.
pub proof fn law_drain_keeps_order<F>(
    id: u32,
    phases: Seq<DrainPhase>,
    actions: Seq<DrainAction<F>>,
    k: int,
    j: int,
)
    requires
        is_drain(id, phases, actions),
        0 <= k < j < actions.len(),
    ensures
        actions[k] is RunPending ==> !(actions[j] is RunPinned),
        actions[k] is RunStealable ==> {
            &&& !(actions[j] is RunPinned)
            &&& !(actions[j] is RunPending)
            &&& !(actions[j] is RunStealable)
        },
        actions[k] is Return ==> actions[j] == actions[k],
{
    lemma_drain_goes_forward(id, phases, actions, k + 1, j);
}

/// The main thread never runs stealable work.
pub proof fn law_main_runs_no_stealable_work<F>(
    shared: SharedView<F>,
    phase: MainPhase,
    action: DrainAction<F>,
    next: MainPhase,
    after: SharedView<F>,
)
    requires
        shared.main_stepped(phase, action, next, after),
    ensures
        !(action is RunStealable),
        after.injector == shared.injector,
        after.slots == shared.slots,
{
}

/// Whether `states` goes from one state to the next by scheduling the stealable tasks `ptrs` from
/// thread `from`, each with the wake that comes with it.
pub open spec fn is_stealable_run<F>(
    states: Seq<SharedView<F>>,
    from: Option<u32>,
    ptrs: Seq<StealPtr>,
) -> bool {
    &&& states.len() == ptrs.len() + 1
    &&& forall|k: int|
        0 <= k < ptrs.len() ==> states[k].with_stealable(from, #[trigger] ptrs[k]).woke_one(
            states[k + 1],
        )
}

/// Whether the workers `woken`, all different and all parked before, were claimed and notified, and
/// no others.
pub open spec fn fanned_out<F>(
    before: SharedView<F>,
    after: SharedView<F>,
    woken: Seq<u32>,
) -> bool {
    &&& woken.no_duplicates()
    &&& forall|w: u32| woken.contains(w) ==> #[trigger] before.idle.contains(w)
    &&& forall|w: u32| #[trigger]
        after.idle.contains(w) <==> before.idle.contains(w) && !woken.contains(w)
    &&& after.wakes == before.wakes + woken
}

/// A batch of stealable tasks fans out: each push wakes another parked worker, until none is left.
pub proof fn law_batch_fans_out<F>(
    states: Seq<SharedView<F>>,
    from: Option<u32>,
    ptrs: Seq<StealPtr>,
) -> (woken: Seq<u32>)
    requires
        is_stealable_run(states, from, ptrs),
        states[0].slots.len() <= MAX_WORKERS,
        states[0].knows(from),
        forall|i: u32| #[trigger] states[0].idle.contains(i) ==> states[0].has_worker(i),
    ensures
        fanned_out(states[0], states.last(), woken),
        woken.len() <= ptrs.len(),
        woken.len() < ptrs.len() ==> states.last().idle == Set::<u32>::empty(),
        states.last().slots.len() == states[0].slots.len(),
    decreases ptrs.len(),
{
    if ptrs.len() == 0 {
        assert(fanned_out(states[0], states.last(), Seq::<u32>::empty()));
        Seq::<u32>::empty()
    } else {
        let k = ptrs.len() - 1;
        let earlier = states.drop_last();
        assert forall|j: int| 0 <= j < ptrs.drop_last().len() implies earlier[j].with_stealable(
            from,
            #[trigger] ptrs.drop_last()[j],
        ).woke_one(earlier[j + 1]) by {
            assert(states[j].with_stealable(from, ptrs[j]).woke_one(states[j + 1]));
        }
        let woken = law_batch_fans_out(earlier, from, ptrs.drop_last());
        let last = earlier.last();
        assert(last == states[k]);
        let pushed = last.with_stealable(from, ptrs[k]);
        let after = states.last();
        assert(pushed.woke_one(after));
        if pushed.idle == Set::<u32>::empty() {
            assert(fanned_out(states[0], after, woken));
            woken
        } else {
            let w = choose|w: u32| #[trigger]
                is_least(pushed.idle, w) && after == pushed.claimed(w);
            assert(last.idle.contains(w));
            assert(states[0].idle.contains(w));
            let more = woken.push(w);
            assert forall|v: u32| more.contains(v) <==> woken.contains(v) || v == w by {
                if woken.contains(v) {
                    let at = choose|at: int| 0 <= at < woken.len() && woken[at] == v;
                    assert(more[at] == v);
                }
                assert(more[woken.len() as int] == w);
                if more.contains(v) && v != w {
                    let at = choose|at: int| 0 <= at < more.len() && more[at] == v;
                    assert(woken[at] == v);
                }
            }
            assert(after.wakes =~= states[0].wakes + more);
            assert(fanned_out(states[0], after, more));
            more
        }
    }
}

/// A restart is a fresh start: whatever the previous run left, the slots, the injector and the idle
/// set are those of a first start with as many workers.
pub proof fn law_restart_is_fresh<F>(first: SharedView<F>, again: SharedView<F>, n: nat)
    requires
        !first.sized,
        again.sized,
        again.slots.len() == n,
        !again.main.busy,
    ensures
        again.started(n) == (SharedView { wakes: again.wakes, ..first.started(n) }),
        again.started(n).waiting() == 0,
        again.started(n).nothing_to_steal(),
{
    assert(again.started(n).slots =~= first.started(n).slots);
    lemma_fresh_waits_for_nothing(again.started(n), n as int);
}

/// Nothing waits at fresh slots.
proof fn lemma_fresh_waits_for_nothing<F>(shared: SharedView<F>, k: int)
    requires
        0 <= k <= shared.slots.len(),
        forall|i: int|
            0 <= i < shared.slots.len() ==> #[trigger] shared.slots[i] == SlotView::<F>::fresh(),
    ensures
        shared.waiting_at(k) == 0,
    decreases k,
{
    if k > 0 {
        lemma_fresh_waits_for_nothing(shared, k - 1);
    }
}

/// The lifecycle goes round: a running runtime refuses a second `init`; shut down, it accepts one
/// with the worker count that it had and any source, and refuses another count.
pub proof fn law_lifecycle_goes_round<F>(
    shared: SharedView<F>,
    builder: WebbleBuilder,
    cores: Option<usize>,
)
    requires
        shared.sized,
        shared.lifecycle is Running,
        builder.source is Some,
        builder.count(cores) <= MAX_WORKERS,
    ensures
        builder.refusal(shared, cores) == Some(InitRefusal::AlreadyRunning),
        shared.shut_down().lifecycle is Shutdown,
        builder.refusal(shared.shut_down(), cores) is None <==> builder.count(cores)
            == shared.slots.len(),
        shared.shut_down().started(builder.count(cores) as nat).lifecycle is Running,
{
}

/// A shutdown of a runtime that is not initialized does nothing.
pub proof fn law_shutdown_of_uninit_does_nothing<F>(shared: SharedView<F>)
    requires
        shared.lifecycle is Uninit,
    ensures
        shared.shut_down() == shared,
{
}

/// A shutdown notifies every thread once, and leaves all queued work where it is.
pub proof fn law_shutdown_notifies_all<F>(shared: SharedView<F>, id: u32)
    requires
        shared.sized,
        shared.slots.len() <= MAX_WORKERS,
        !(shared.lifecycle is Uninit),
        shared.has_slot(id),
    ensures
        shared.shut_down().slot(id) == shared.slot(id).bumped(),
        shared.shut_down().wakes.len() == shared.wakes.len() + shared.slots.len() + 1,
        exists|at: int|
            shared.wakes.len() <= at < shared.shut_down().wakes.len()
                && #[trigger] shared.shut_down().wakes[at] == id,
        shared.shut_down().injector == shared.injector,
{
    let after = shared.shut_down();
    let at: int = if id == MAIN_ID {
        shared.wakes.len() as int + shared.slots.len()
    } else {
        shared.wakes.len() + id
    };
    assert(after.wakes[at] == id);
}

/// Every thread waits on a word of its own: the notify words of two threads lie at different
/// addresses, a whole number of words apart, and none at address zero.
pub proof fn law_notify_words_are_distinct(base: int, i: u32, j: u32)
    requires
        base > 0,
        base % 4 == 0,
        i == MAIN_ID || i < MAX_WORKERS,
        j == MAIN_ID || j < MAX_WORKERS,
        i != j,
    ensures
        word_address(base, i) != word_address(base, j),
        word_address(base, i) % 4 == 0,
        word_address(base, i) / 4 > 0,
        word_address(base, i) / 4 != word_address(base, j) / 4,
{
}

/// Whether a start went through `starts`, on `events` that called for `actions`.
pub open spec fn is_start<W, E>(
    starts: Seq<Startup<W>>,
    events: Seq<StartEvent<W, E>>,
    actions: Seq<StartAction<E>>,
) -> bool {
    &&& starts.len() == actions.len() + 1
    &&& events.len() == actions.len()
    &&& starts[0].wf()
    &&& starts[0].phase is Begin
    &&& forall|k: int|
        0 <= k < actions.len() ==> starts[k].proceeded(
            events[k],
            #[trigger] actions[k],
            starts[k + 1],
        )
}

/// Workers `0..n` are started once each and in this order: the `k`-th action of a start asks for
/// worker `k`, until all were started or one failed. The runtime then keeps, under each index, the
/// handle that came of it.
pub proof fn law_workers_start_once_in_order<W, E>(
    starts: Seq<Startup<W>>,
    events: Seq<StartEvent<W, E>>,
    actions: Seq<StartAction<E>>,
    k: int,
)
    requires
        is_start(starts, events, actions),
        0 <= k < actions.len(),
    ensures
        forall|j: int| 0 <= j < k ==> #[trigger] actions[j] == StartAction::<E>::Start(j as u32),
        actions[k] is Start ==> k < starts[0].total && actions[k] == StartAction::<E>::Start(
            k as u32,
        ),
        actions[k] is Finished ==> k == starts[0].total,
        !(actions[k] is Failed) ==> starts[k].started(events[k]).len() == k,
        !(actions[k] is Failed) ==> forall|i: int|
            0 <= i < k ==> events[i + 1] == StartEvent::<W, E>::Started(
                (#[trigger] starts[k].started(events[k])[i]).inner,
            ),
        actions[k] is Start || k == actions.len() - 1,
        starts[k].total == starts[0].total,
    decreases k,
{
    assert(starts[k].proceeded(events[k], actions[k], starts[k + 1]));
    if k < actions.len() - 1 {
        assert(starts[k + 1].proceeded(events[k + 1], actions[k + 1], starts[k + 1 + 1]));
    }
    if k > 0 {
        law_workers_start_once_in_order(starts, events, actions, k - 1);
        assert(starts[k - 1].proceeded(events[k - 1], actions[k - 1], starts[k - 1 + 1]));
        assert(starts[k].workers@ == starts[k - 1].started(events[k - 1]));
        assert forall|i: int| !(actions[k] is Failed) && 0 <= i < k implies events[i + 1]
            == StartEvent::<W, E>::Started(
            (#[trigger] starts[k].started(events[k])[i]).inner,
        ) by {
            if i < k - 1 {
                assert(starts[k].started(events[k])[i] == starts[k - 1].started(events[k - 1])[i]);
            }
        }
    }
}

/// A successful search takes one task off the number that wait.
pub proof fn law_search_takes_one<F>(
    shared: SharedView<F>,
    id: u32,
    found: Search,
    after: SharedView<F>,
)
    requires
        shared.has_worker(id),
        shared.slots.len() <= MAX_WORKERS,
        found is Found,
        shared.searched(id, found, after) || shared.tried_injector(id, found, after),
    ensures
        after.waiting() + 1 == shared.waiting(),
{
    let n = shared.slots.len();
    let i = id as int;
    if shared.tried_injector(id, found, after) {
        let moved = choose|moved: int| #[trigger] shared.stole_injected(id, moved, found, after);
        assert(shared.stole_injected(id, moved, found, after));
        lemma_waiting_at_update(shared, after, i, n as int);
    } else if shared.local(i).len() > 0 {
        lemma_waiting_at_update(shared, after, i, n as int);
    } else {
        let (k, moved) = choose|k: int, moved: int|
            {
                &&& 1 <= k < n
                &&& shared.siblings_empty(id, k - 1)
                &&& #[trigger] shared.stole_from(id, sibling(id, k, n), moved, found, after)
            };
        lemma_sibling(id, k, n);
        let j = sibling(id, k, n);
        let robbed = shared.with_local(j, shared.local(j).skip(moved + 1));
        lemma_waiting_at_update(shared, robbed, j, n as int);
        lemma_waiting_at_update(robbed, after, i, n as int);
    }
}

/// Whether worker `id` drained undisturbed: `states` goes from one state to the next by the steps
/// of its drain alone.
pub open spec fn is_lone_drain<F>(
    id: u32,
    states: Seq<SharedView<F>>,
    phases: Seq<DrainPhase>,
    actions: Seq<DrainAction<F>>,
) -> bool {
    &&& states.len() == actions.len() + 1
    &&& phases.len() == actions.len() + 1
    &&& phases[0] is Enter
    &&& forall|k: int|
        0 <= k < actions.len() ==> states[k].drain_stepped(
            id,
            phases[k],
            #[trigger] actions[k],
            phases[k + 1],
            states[k + 1],
        )
}

/// What an undisturbed drain has done by its `k`-th step, if there was stealable work.
spec fn lone_drain_at<F>(
    id: u32,
    states: Seq<SharedView<F>>,
    phases: Seq<DrainPhase>,
    actions: Seq<DrainAction<F>>,
    k: int,
) -> bool {
    let first = states[0];
    let now = states[k];
    let own = now.slots[id as int];
    let rest = first.waiting() - first.slots[id as int].incoming.len();
    &&& now.slots.len() == first.slots.len()
    &&& now.lifecycle == first.lifecycle
    &&& phases[k] != DrainPhase::Done(false)
    &&& rank(phases[k]) >= 5 ==> own.incoming.len() == 0
    &&& rank(phases[k]) <= 6 ==> {
        &&& now.injector == first.injector
        &&& forall|i: int| 0 <= i < now.slots.len() ==> #[trigger] now.local(i) == first.local(i)
        &&& now.waiting() - own.incoming.len() == rest
        &&& phases[k] is Injector ==> now.injector.len() > 0
    }
    &&& rank(phases[k]) > 6 ==> {
        &&& exists|j: int| 0 <= j < k && (#[trigger] actions[j]) is RunStealable
        &&& now.waiting() == rest - 1
        &&& first.locals_empty() ==> own.local.len() + now.injector.len() + 1
            == first.injector.len()
    }
    &&& phases[k] is Settle ==> now.idle.contains(id)
    &&& rank(phases[k]) >= 9 ==> (now.idle.contains(id) <==> !now.must_stay(id))
}

impl<F> SharedView<F> {
    /// Whether no worker has a stealable task.
    pub open spec fn locals_empty(self) -> bool {
        forall|i: int| 0 <= i < self.slots.len() ==> (#[trigger] self.local(i)).len() == 0
    }
}

/// One step of an undisturbed drain.
proof fn lemma_lone_drain<F>(
    id: u32,
    states: Seq<SharedView<F>>,
    phases: Seq<DrainPhase>,
    actions: Seq<DrainAction<F>>,
    k: int,
)
    requires
        is_lone_drain(id, states, phases, actions),
        states[0].has_worker(id),
        states[0].slots.len() <= MAX_WORKERS,
        !(states[0].lifecycle is Shutdown),
        !states[0].nothing_to_steal(),
        0 <= k < phases.len(),
    ensures
        lone_drain_at(id, states, phases, actions, k),
    decreases k,
{
    if k > 0 {
        lemma_lone_drain(id, states, phases, actions, k - 1);
        let now = states[k - 1];
        let after = states[k];
        let phase = phases[k - 1];
        let action = actions[k - 1];
        let n = now.slots.len();
        assert(now.drain_stepped(id, phase, action, phases[k - 1 + 1], states[k - 1 + 1]));
        if phase is Stealable || phase is Injector {
            let found = if phase is Stealable {
                choose|found: Search| #[trigger]
                    now.searched(id, found, after) && after_search(found, action, phases[k])
            } else {
                choose|found: Search| #[trigger]
                    now.tried_injector(id, found, after) && after_search(found, action, phases[k])
            };
            if phase is Stealable {
                law_search_is_complete(now, id, found, after);
                assert(now.nothing_to_steal() ==> states[0].nothing_to_steal()) by {
                    if now.nothing_to_steal() {
                        assert forall|i: int| 0 <= i < states[0].slots.len() implies (
                        #[trigger] states[0].local(i)).len() == 0 by {
                            assert(now.local(i).len() == 0);
                        }
                    }
                }
            }
            if found is Found {
                law_search_takes_one(now, id, found, after);
                assert(actions[k - 1] is RunStealable);
                if states[0].locals_empty() {
                    assert(now.local(id as int).len() == 0);
                    assert(now.siblings_empty(id, n - 1)) by {
                        assert forall|m: int| 1 <= m <= n - 1 implies now.local(
                            #[trigger] sibling(id, m, n),
                        ).len() == 0 by {
                            lemma_sibling(id, m, n);
                        }
                    }
                    assert(now.tried_injector(id, found, after));
                }
            }
        } else {
            lemma_waiting_at_update(now, after, id as int, n as int);
            if rank(phase) > 6 {
                let j = choose|j: int| 0 <= j < k - 1 && (#[trigger] actions[j]) is RunStealable;
                assert(actions[j] is RunStealable);
            }
        }
        if rank(phases[k]) <= 6 {
            assert forall|i: int| 0 <= i < n implies #[trigger] after.local(i) == states[0].local(
                i,
            ) by {
                assert(now.local(i) == states[0].local(i));
            }
        }
    }
}

/// A drain takes one task: if there is a stealable task anywhere, a drain that is not disturbed and
/// not stopped by a shutdown hands out one of them, and all work placed on its worker. It leaves
/// its worker marked idle exactly if neither its own queue nor the injector holds a task.
pub proof fn law_drain_takes_one_task<F>(
    id: u32,
    states: Seq<SharedView<F>>,
    phases: Seq<DrainPhase>,
    actions: Seq<DrainAction<F>>,
)
    requires
        is_lone_drain(id, states, phases, actions),
        states[0].has_worker(id),
        states[0].slots.len() <= MAX_WORKERS,
        !(states[0].lifecycle is Shutdown),
        !states[0].nothing_to_steal(),
        phases.last() is Done,
    ensures
        phases.last() == DrainPhase::Done(true),
        exists|j: int| 0 <= j < actions.len() && (#[trigger] actions[j]) is RunStealable,
        states.last().waiting() == states[0].waiting() - states[0].slots[id as int].incoming.len()
            - 1,
        states.last().slots[id as int].incoming.len() == 0,
        states.last().idle.contains(id) <==> !states.last().must_stay(id),
{
    lemma_lone_drain(id, states, phases, actions, phases.len() - 1);
}

/// With tasks in the injector and nowhere else, such a drain takes one of them, and its worker
/// stays up exactly if there were more.
pub proof fn law_drain_takes_one_injected<F>(
    id: u32,
    states: Seq<SharedView<F>>,
    phases: Seq<DrainPhase>,
    actions: Seq<DrainAction<F>>,
)
    requires
        is_lone_drain(id, states, phases, actions),
        states[0].has_worker(id),
        states[0].slots.len() <= MAX_WORKERS,
        !(states[0].lifecycle is Shutdown),
        states[0].locals_empty(),
        states[0].injector.len() > 0,
        phases.last() is Done,
    ensures
        phases.last() == DrainPhase::Done(true),
        exists|j: int| 0 <= j < actions.len() && (#[trigger] actions[j]) is RunStealable,
        states.last().local(id as int).len() + states.last().injector.len()
            == states[0].injector.len() - 1,
        states.last().idle.contains(id) <==> states[0].injector.len() == 1,
{
    lemma_lone_drain(id, states, phases, actions, phases.len() - 1);
}

/// Whether `run` goes from an `init` with `n` workers through `steps`.
pub open spec fn is_run_by<F, W>(run: Seq<System<F, W>>, steps: Seq<Step<F>>, n: nat) -> bool {
    &&& run.len() == steps.len() + 1
    &&& run[0].initial(n)
    &&& forall|k: int|
        0 <= k < steps.len() ==> run[k].steps(#[trigger] steps[k], run[k + 1])
}

/// What holds in every state holds in the `k`-th.
proof fn lemma_run_by<F, W>(run: Seq<System<F, W>>, steps: Seq<Step<F>>, n: nat, k: int)
    requires
        is_run_by(run, steps, n),
        0 <= k < run.len(),
    ensures
        run[k].inv(),
        run[k].workers.len() == n,
    decreases k,
{
    if k == 0 {
        law_init_establishes_invariant(run[0], n);
    } else {
        lemma_run_by(run, steps, n, k - 1);
        assert(run[k - 1].steps(steps[k - 1], run[k - 1 + 1]));
        law_steps_keep_invariant(run[k - 1], steps[k - 1], run[k]);
    }
}

/// Whether `step` places `pending` on thread `id`.
pub open spec fn places<F>(step: Step<F>, id: u32, pending: PendingSpawn<F>) -> bool {
    if id == MAIN_ID {
        step == Step::<F>::PlaceOnMain(pending)
    } else {
        step == Step::<F>::Place(id, pending)
    }
}

/// Whether `step` queues the stealable task `ptr`.
pub open spec fn queues<F>(step: Step<F>, ptr: StealPtr) -> bool {
    step matches Step::Enqueue(_, queued) && queued == ptr
}

/// Nothing survives a restart: whatever pinned work a thread has been given after an `init` was
/// placed on it or handed back to it after that `init`. What an earlier run left is never run.
pub proof fn law_pinned_work_is_new<F, W>(
    run: Seq<System<F, W>>,
    steps: Seq<Step<F>>,
    n: nat,
    k: int,
    id: u32,
)
    requires
        is_run_by(run, steps, n),
        0 <= k < run.len(),
        id == MAIN_ID || id < n,
    ensures
        forall|i: int|
            0 <= i < run[k].shared.slot(id).incoming.len() ==> exists|j: int|
                0 <= j < k && places(
                    #[trigger] steps[j],
                    id,
                    #[trigger] run[k].shared.slot(id).incoming[i],
                ),
        forall|i: int|
            0 <= i < run[k].shared.slot(id).ready.len() ==> exists|j: int|
                0 <= j < k && #[trigger] steps[j] == Step::<F>::HandBack(
                    id,
                    #[trigger] run[k].shared.slot(id).ready[i],
                ),
    decreases k,
{
    lemma_run_by(run, steps, n, k);
    if k > 0 {
        let before = run[k - 1].shared.slot(id);
        let after = run[k].shared.slot(id);
        let step = steps[k - 1];
        lemma_run_by(run, steps, n, k - 1);
        law_pinned_work_is_new(run, steps, n, k - 1, id);
        assert(run[k - 1].steps(step, run[k - 1 + 1]));
        law_pinned_work_runs_once(run[k - 1], step, run[k], id);
        assert forall|i: int| 0 <= i < after.incoming.len() implies exists|j: int|
            0 <= j < k && places(#[trigger] steps[j], id, #[trigger] after.incoming[i]) by {
            let pending = after.incoming[i];
            if places(step, id, pending) {
                assert(places(steps[k - 1], id, pending));
            } else {
                let at: int = if after.incoming == before.incoming.skip(1) {
                    i + 1
                } else {
                    i
                };
                assert(before.incoming[at] == pending);
                let j = choose|j: int|
                    0 <= j < k - 1 && places(#[trigger] steps[j], id, before.incoming[at]);
                assert(places(steps[j], id, pending));
            }
        }
        assert forall|i: int| 0 <= i < after.ready.len() implies exists|j: int|
            0 <= j < k && #[trigger] steps[j] == Step::<F>::HandBack(
                id,
                #[trigger] after.ready[i],
            ) by {
            let ptr = after.ready[i];
            if step != Step::<F>::HandBack(id, ptr) {
                let at: int = if after.ready == before.ready.skip(1) {
                    i + 1
                } else {
                    i
                };
                assert(before.ready[at] == ptr);
                let j = choose|j: int|
                    0 <= j < k - 1 && #[trigger] steps[j] == Step::<F>::HandBack(
                        id,
                        before.ready[at],
                    );
                assert(steps[j] == Step::<F>::HandBack(id, ptr));
            } else {
                assert(steps[k - 1] == Step::<F>::HandBack(id, ptr));
            }
        }
    }
}

/// Nothing survives a restart: whatever stealable task is queued after an `init` was queued after
/// that `init`.
pub proof fn law_stealable_work_is_new<F, W>(
    run: Seq<System<F, W>>,
    steps: Seq<Step<F>>,
    n: nat,
    k: int,
    ptr: StealPtr,
)
    requires
        is_run_by(run, steps, n),
        0 <= k < run.len(),
        run[k].shared.queued(ptr) > 0,
    ensures
        exists|j: int| 0 <= j < k && queues(#[trigger] steps[j], ptr),
    decreases k,
{
    lemma_run_by(run, steps, n, k);
    if k == 0 {
        lemma_fresh_queues_nothing(run[0].shared, ptr, n as int);
    } else {
        let step = steps[k - 1];
        lemma_run_by(run, steps, n, k - 1);
        assert(run[k - 1].steps(step, run[k - 1 + 1]));
        law_stealable_tasks_run_once(run[k - 1], step, run[k], ptr);
        if queues(step, ptr) {
            assert(queues(steps[k - 1], ptr));
        } else {
            law_stealable_work_is_new(run, steps, n, k - 1, ptr);
        }
    }
}

/// Nothing is queued at fresh slots.
proof fn lemma_fresh_queues_nothing<F>(shared: SharedView<F>, ptr: StealPtr, k: int)
    requires
        0 <= k <= shared.slots.len(),
        forall|i: int|
            0 <= i < shared.slots.len() ==> #[trigger] shared.slots[i] == SlotView::<F>::fresh(),
    ensures
        shared.queued_at(ptr, k) == 0,
    decreases k,
{
    if k > 0 {
        lemma_fresh_queues_nothing(shared, ptr, k - 1);
    }
}

} // verus!
