//! What the handshakes between threads guarantee, however the threads' steps interleave.
//!
//! A [`System`] is the shared state together with what each thread keeps to itself and where it is
//! in its loop. A loop reads its notify word, drains, and waits: not at all if the word differs
//! from what it read, else until it is woken, and nothing wakes it but a wake that the embedder was
//! told to deliver. Likewise a microtask runs only if it was asked for. Each step of a system is one
//! call of a function of this crate, one step of a loop, or one effect that the embedder was asked
//! for.

use vstd::prelude::*;

use crate::deque::StealPtr;
use crate::exec::{is_least, rearm_fired, routed_pinned};
use crate::main_thread::MainPhase;
use crate::state::{Lifecycle, PendingSpawn, PinnedPtr, SharedView, MAIN_ID, MAX_WORKERS};
use crate::thread::{Microtask, ThreadId, ThreadView};
use crate::worker::{DrainAction, DrainPhase};

verus! {

/// The number of values that a notify word can take.
pub open spec fn word_values() -> int {
    0x1_0000_0000
}

/// Where a worker is.
pub enum Place {
    /// About to read its notify word and drain.
    Top,
    /// In a drain that has come this far.
    Draining(DrainPhase),
    /// About to wait, if its notify word is still what it read.
    Parking,
    /// Waiting to be woken.
    Waiting,
    /// Its loop has ended.
    Stopped,
}

/// A worker's loop.
pub struct WorkerLoop {
    /// Where it is.
    pub place: Place,
    /// What it read of its notify word last.
    pub seen: u32,
    /// How often the word was bumped since.
    pub bumps: nat,
    /// Whether it has queued a stealable task of its own since its last look at the queues.
    pub late: bool,
}

impl WorkerLoop {
    /// Whether the worker is at a point from which it will look at the injector again, or has been
    /// or will be told to. `thread` is what the worker keeps to itself.
    pub open spec fn returning<W>(self, thread: ThreadView<W>) -> bool {
        ||| self.place is Top
        ||| (self.place is Draining && !(self.place->Draining_0 is Release))
        ||| thread.microtasks.contains(Microtask::Rearm)
        ||| self.bumps > 0
    }

    /// Whether the worker has looked at the queues for the last time before it waits, or waits.
    pub open spec fn past_last_look(self) -> bool {
        ||| self.place is Waiting
        ||| self.place is Parking
        ||| self.place == Place::Draining(DrainPhase::Release)
    }

    /// Whether the worker has taken the first step of a drain.
    pub open spec fn past_enter(self) -> bool {
        match self.place {
            Place::Top => false,
            Place::Draining(phase) => !(phase is Enter),
            _ => true,
        }
    }

    /// Whether the worker is inside the part of its drain that touches shared queues, or on the
    /// way out of it.
    pub open spec fn inside(self) -> bool {
        self.place matches Place::Draining(phase) && touches_queues(phase)
    }
}

/// Whether a step from `phase` may touch a shared queue or depends on having done so.
pub open spec fn touches_queues(phase: DrainPhase) -> bool {
    match phase {
        DrainPhase::Ready
        | DrainPhase::Incoming
        | DrainPhase::Stealable
        | DrainPhase::Injector
        | DrainPhase::Park
        | DrainPhase::Settle
        | DrainPhase::Release => true,
        _ => false,
    }
}

/// Whether the ready tasks have been looked through in this drain.
pub open spec fn past_ready(place: Place) -> bool {
    match place {
        Place::Draining(phase) => touches_queues(phase) && !(phase is Ready),
        Place::Parking => true,
        Place::Waiting => true,
        _ => false,
    }
}

/// Whether the placements have been looked through in this drain.
pub open spec fn past_incoming(place: Place) -> bool {
    past_ready(place) && place != Place::Draining(DrainPhase::Incoming)
}

/// Whether no woken pinned task waits on a thread without a microtask on its way.
pub open spec fn micro_ok<W>(thread: ThreadView<W>) -> bool {
    &&& thread.pending.len() > 0 ==> thread.scheduled
    &&& thread.scheduled ==> thread.microtasks.contains(Microtask::DrainPinned)
}

/// Where the main thread is.
pub enum MainPlace {
    /// About to read its notify word and drain.
    Top,
    /// In a drain that has come this far.
    Draining(MainPhase),
    /// About to wait, if its notify word is still what it read.
    Parking,
    /// Waiting to be woken.
    Waiting,
    /// Its loop has ended.
    Stopped,
}

/// The main thread's loop.
pub struct MainLoop {
    /// Where it is.
    pub place: MainPlace,
    /// What it read of its notify word last.
    pub seen: u32,
    /// How often the word was bumped since.
    pub bumps: nat,
}

/// The runtime and its threads.
pub struct System<F, W> {
    /// The shared state.
    pub shared: SharedView<F>,
    /// The workers' loops, in the order of their ids.
    pub workers: Seq<WorkerLoop>,
    /// What each worker keeps to itself.
    pub threads: Seq<ThreadView<W>>,
    /// The main thread's loop.
    pub main: MainLoop,
    /// What the main thread keeps to itself.
    pub main_thread: ThreadView<W>,
    /// The producers that have queued stealable work and not yet looked for a worker to wake.
    pub owing: nat,
}

/// One step of a system.
pub enum Step<F> {
    /// Worker `i` reads its notify word and begins a drain.
    Read(int),
    /// Worker `i` takes one step of its drain, which calls for an action and goes on in a phase.
    Drain(int, DrainAction<F>, DrainPhase),
    /// Worker `i` begins to wait, or drains again at once because its notify word has changed.
    Park(int),
    /// The embedder delivers the wake that was asked for first.
    Deliver,
    /// Thread `id` runs the microtask that it asked for first.
    Micro(u32),
    /// A pinned task of thread `id` is woken on that thread.
    WokenAtHome(u32, PinnedPtr),
    /// A thread queues a stealable task.
    Enqueue(Option<u32>, StealPtr),
    /// A thread that queued a stealable task looks for a worker to wake.
    WakeOne,
    /// Pinned work is placed on a worker.
    Place(u32, PendingSpawn<F>),
    /// Pinned work is placed on the main thread.
    PlaceOnMain(PendingSpawn<F>),
    /// A pinned task woken elsewhere is handed back to its owner.
    HandBack(u32, PinnedPtr),
    /// A share of a worker's load is given back.
    Unload(u32),
    /// The runtime is shut down.
    Shutdown,
    /// The main thread reads its notify word; it ends its loop on a shutdown, else begins a drain.
    MainRead,
    /// The main thread takes one step of its drain.
    MainDrain(DrainAction<F>, MainPhase),
    /// The main thread begins to wait, or ticks again at once because its notify word has changed.
    MainPark,
}

impl<F, W> System<F, W> {
    /// The same system with another loop for worker `i`.
    pub open spec fn with_worker(self, i: int, worker: WorkerLoop) -> Self {
        System { workers: self.workers.update(i, worker), ..self }
    }

    /// The same system after the notify word of thread `id` was bumped.
    pub open spec fn bumped(self, id: u32) -> Self {
        if id == MAIN_ID {
            System { main: MainLoop { bumps: self.main.bumps + 1, ..self.main }, ..self }
        } else {
            let worker = self.workers[id as int];
            self.with_worker(id as int, WorkerLoop { bumps: worker.bumps + 1, ..worker })
        }
    }

    /// The same system after thread `from` queued a stealable task. A worker that does so outside
    /// its drain, or at the very end of it, does so after its last look at the queues.
    pub open spec fn queued_by(self, from: Option<u32>) -> Self {
        match from {
            Some(id) if id != MAIN_ID => {
                let worker = self.workers[id as int];
                self.with_worker(
                    id as int,
                    WorkerLoop { late: worker.late || worker.past_last_look(), ..worker },
                )
            },
            _ => self,
        }
    }

    /// What thread `id` keeps to itself.
    pub open spec fn thread(self, id: u32) -> ThreadView<W> {
        if id == MAIN_ID {
            self.main_thread
        } else {
            self.threads[id as int]
        }
    }

    /// The same system with something else that thread `id` keeps to itself.
    pub open spec fn with_thread(self, id: u32, thread: ThreadView<W>) -> Self {
        if id == MAIN_ID {
            System { main_thread: thread, ..self }
        } else {
            System { threads: self.threads.update(id as int, thread), ..self }
        }
    }

    /// The same system after a wake was delivered to thread `id`. It goes on if it waits.
    pub open spec fn woken(self, id: u32) -> Self {
        if id == MAIN_ID {
            if self.main.place is Waiting {
                System { main: MainLoop { place: MainPlace::Top, ..self.main }, ..self }
            } else {
                self
            }
        } else if id < self.workers.len() && self.workers[id as int].place is Waiting {
            self.with_worker(
                id as int,
                WorkerLoop { place: Place::Top, ..self.workers[id as int] },
            )
        } else {
            self
        }
    }

    /// Worker `i` exists.
    pub open spec fn has(self, i: int) -> bool {
        0 <= i < self.workers.len()
    }

    /// Whether `self` becomes `after` by `step`.
    pub open spec fn steps(self, step: Step<F>, after: Self) -> bool {
        match step {
            Step::Read(i) => {
                &&& self.has(i)
                &&& self.workers[i].place is Top
                &&& after == self.with_worker(
                    i,
                    WorkerLoop {
                        place: Place::Draining(DrainPhase::Enter),
                        seen: self.shared.slots[i].notify,
                        bumps: 0,
                        late: false,
                        ..self.workers[i]
                    },
                )
            },
            Step::Drain(i, action, next) => {
                let worker = self.workers[i];
                &&& self.has(i)
                &&& worker.place matches Place::Draining(phase)
                &&& !(phase is Done)
                &&& self.shared.drain_stepped(i as u32, phase, action, next, after.shared)
                &&& after == (System {
                    shared: after.shared,
                    threads: self.threads.update(
                        i,
                        self.threads[i].drain_stepped(self.shared, i as u32, phase),
                    ),
                    ..self.with_worker(
                        i,
                        WorkerLoop {
                            place: match next {
                                DrainPhase::Done(true) => Place::Parking,
                                DrainPhase::Done(false) => Place::Stopped,
                                _ => Place::Draining(next),
                            },
                            ..worker
                        },
                    )
                })
            },
            Step::Park(i) => {
                &&& self.has(i)
                &&& self.workers[i].place is Parking
                &&& after == self.with_worker(
                    i,
                    WorkerLoop {
                        place: if self.shared.slots[i].notify != self.workers[i].seen {
                            Place::Top
                        } else {
                            Place::Waiting
                        },
                        ..self.workers[i]
                    },
                )
            },
            Step::Deliver => {
                &&& self.shared.wakes.len() > 0
                &&& after == (System {
                    shared: SharedView { wakes: self.shared.wakes.skip(1), ..self.shared },
                    ..self.woken(self.shared.wakes[0])
                })
            },
            Step::Micro(id) => {
                let thread = self.thread(id);
                &&& self.shared.has_slot(id)
                &&& thread.microtasks.len() > 0
                &&& match thread.microtasks[0] {
                    Microtask::DrainPinned => after == self.with_thread(
                        id,
                        ThreadView { microtasks: thread.microtasks.skip(1), ..thread.drained() },
                    ),
                    Microtask::Rearm => after == (System {
                        shared: rearm_fired(self.shared, thread),
                        ..match thread.worker() {
                            Some(worker) => self.bumped(worker),
                            None => self,
                        }.with_thread(
                            id,
                            ThreadView { microtasks: thread.microtasks.skip(1), ..thread },
                        )
                    }),
                }
            },
            Step::WokenAtHome(id, ptr) => {
                &&& self.shared.has_slot(id)
                &&& self.thread(id).raw() == Some(id)
                &&& routed_pinned(
                    self.shared,
                    self.thread(id),
                    id,
                    ptr,
                    after.shared,
                    after.thread(id),
                )
                &&& after == (System {
                    shared: after.shared,
                    ..self.with_thread(id, after.thread(id))
                })
            },
            Step::Enqueue(from, ptr) => {
                &&& self.shared.knows(from)
                &&& after == (System {
                    shared: self.shared.with_stealable(from, ptr),
                    owing: self.owing + 1,
                    ..self.queued_by(from)
                })
            },
            Step::WakeOne => {
                &&& self.owing > 0
                &&& if self.shared.idle == Set::<u32>::empty() {
                    after == (System { owing: (self.owing - 1) as nat, ..self })
                } else {
                    exists|w: u32| #[trigger]
                        is_least(self.shared.idle, w) && after == (System {
                            shared: self.shared.claimed(w),
                            owing: (self.owing - 1) as nat,
                            ..self.bumped(w)
                        })
                }
            },
            Step::Place(w, pending) => {
                &&& self.shared.least_loaded(w)
                &&& after == (System { shared: self.shared.placed(w, pending), ..self.bumped(w) })
            },
            Step::PlaceOnMain(pending) => {
                after == (System {
                    shared: self.shared.placed_on_main(pending),
                    ..self.bumped(MAIN_ID)
                })
            },
            Step::HandBack(owner, ptr) => {
                &&& self.shared.has_slot(owner)
                &&& after == (System {
                    shared: self.shared.handed_back(owner, ptr),
                    ..self.bumped(owner)
                })
            },
            Step::Unload(w) => {
                &&& self.shared.has_worker(w)
                &&& after == (System { shared: self.shared.unloaded(w), ..self })
            },
            Step::Shutdown => {
                after == (System {
                    shared: self.shared.shut_down(),
                    workers: Seq::new(
                        self.workers.len(),
                        |i: int|
                            WorkerLoop { bumps: self.workers[i].bumps + 1, ..self.workers[i] },
                    ),
                    main: MainLoop { bumps: self.main.bumps + 1, ..self.main },
                    ..self
                })
            },
            Step::MainRead => {
                &&& self.main.place is Top
                &&& after == (System {
                    main: MainLoop {
                        place: if self.shared.lifecycle is Shutdown {
                            MainPlace::Stopped
                        } else {
                            MainPlace::Draining(MainPhase::Ready)
                        },
                        seen: self.shared.main.notify,
                        bumps: 0,
                    },
                    ..self
                })
            },
            Step::MainDrain(action, next) => {
                &&& self.main.place matches MainPlace::Draining(phase)
                &&& !(phase is Done)
                &&& self.shared.main_stepped(phase, action, next, after.shared)
                &&& after == (System {
                    shared: after.shared,
                    main: MainLoop {
                        place: if next is Done {
                            MainPlace::Parking
                        } else {
                            MainPlace::Draining(next)
                        },
                        ..self.main
                    },
                    ..self
                })
            },
            Step::MainPark => {
                &&& self.main.place is Parking
                &&& after == (System {
                    main: MainLoop {
                        place: if self.shared.main.notify != self.main.seen {
                            MainPlace::Top
                        } else {
                            MainPlace::Waiting
                        },
                        ..self.main
                    },
                    ..self
                })
            },
        }
    }

    /// Whether `self` is the system that a successful `init` with `n` workers starts.
    pub open spec fn initial(self, n: nat) -> bool {
        &&& n <= MAX_WORKERS
        &&& exists|before: SharedView<F>|
            #![trigger before.started(n)]
            {
                &&& before.sized ==> before.slots.len() == n
                &&& self.shared == before.started(n)
            }
        &&& self.workers.len() == n
        &&& forall|i: int|
            0 <= i < n ==> (#[trigger] self.workers[i]).place is Top
        &&& self.threads.len() == n
        &&& forall|i: int|
            0 <= i < n ==> {
                &&& (#[trigger] self.threads[i]).thread is None
                &&& self.threads[i].pending.len() == 0
                &&& !self.threads[i].scheduled
                &&& self.threads[i].microtasks.len() == 0
            }
        &&& self.main.place is Top
        &&& self.main_thread.thread == Some(ThreadId::Main)
        &&& micro_ok(self.main_thread)
        &&& !self.main_thread.microtasks.contains(Microtask::Rearm)
        &&& self.owing == 0
    }

    /// What holds of worker `i` in every state.
    pub open spec fn worker_inv(self, i: int) -> bool {
        let worker = self.workers[i];
        let slot = self.shared.slots[i];
        let thread = self.threads[i];
        // The word tells how often it was bumped, up to a full turn.
        &&& worker.place is Draining || worker.place is Parking || worker.place is Waiting
            ==> slot.notify == (worker.seen + worker.bumps) % word_values()
        // A bump while it waits comes with a wake that is still to be delivered.
        &&& worker.place is Waiting && 0 < worker.bumps < word_values()
            ==> self.shared.wakes.contains(i as u32)
        // The worker has announced itself.
        &&& slot.busy == (worker.inside() || worker.place == Place::Draining(DrainPhase::Recheck))
        // What was queued behind its back came with a bump.
        &&& past_ready(worker.place) && slot.ready.len() > 0 ==> worker.bumps > 0
        &&& past_incoming(worker.place) && slot.incoming.len() > 0 ==> worker.bumps > 0
        // Once it has settled it is marked idle, unless it will be woken.
        &&& worker.place == Place::Draining(DrainPhase::Settle) ==> self.shared.idle.contains(
            i as u32,
        ) || worker.bumps > 0
        &&& worker.past_last_look() ==> self.shared.idle.contains(i as u32) || worker.returning(
            thread,
        )
        // Its own queue was empty at that last look, unless it will be woken.
        &&& worker.past_last_look() && slot.local.len() > 0 ==> worker.returning(thread)
            || worker.late
        // Its thread knows which worker it is, once it has begun to drain.
        &&& thread.thread is Some ==> thread.thread == Some(ThreadId::Worker(i as u32))
        &&& thread.microtasks.len() > 0 || worker.past_enter() ==> thread.thread is Some
        &&& micro_ok(thread)
        &&& worker.place is Stopped ==> self.shared.lifecycle is Shutdown
        &&& !(worker.place matches Place::Draining(DrainPhase::Done(_)))
    }

    /// What holds of the main thread in every state.
    pub open spec fn main_inv(self) -> bool {
        let main = self.main;
        let slot = self.shared.main;
        &&& main.place is Draining || main.place is Parking || main.place is Waiting
            ==> slot.notify == (main.seen + main.bumps) % word_values()
        &&& main.place is Waiting && 0 < main.bumps < word_values() ==> self.shared.wakes.contains(
            MAIN_ID,
        )
        &&& main.place is Parking || main.place is Waiting || main.place == MainPlace::Draining(
            MainPhase::Incoming,
        ) ==> slot.ready.len() > 0 ==> main.bumps > 0
        &&& main.place is Parking || main.place is Waiting ==> slot.incoming.len() > 0
            ==> main.bumps > 0
        &&& !(main.place == MainPlace::Draining(MainPhase::Done))
        &&& self.main_thread.thread == Some(ThreadId::Main)
        &&& micro_ok(self.main_thread)
        &&& !self.main_thread.microtasks.contains(Microtask::Rearm)
    }

    /// Some worker will look at the injector again.
    pub open spec fn some_returning(self) -> bool {
        exists|i: int| self.has(i) && (#[trigger] self.workers[i]).returning(self.threads[i])
    }

    /// What holds in every state.
    pub open spec fn inv(self) -> bool {
        &&& self.shared.sized
        &&& self.workers.len() <= MAX_WORKERS
        &&& self.workers.len() == self.shared.slots.len()
        &&& self.threads.len() == self.workers.len()
        &&& forall|i: u32| #[trigger] self.shared.idle.contains(i) ==> i < self.workers.len()
        &&& !(self.shared.lifecycle is Uninit)
        &&& forall|i: int| self.has(i) ==> #[trigger] self.worker_inv(i)
        &&& self.main_inv()
        &&& !(self.shared.lifecycle is Shutdown) && self.shared.injector.len() > 0 && self.owing
            == 0 && self.workers.len() > 0 ==> self.some_returning()
    }

    /// Whether worker `i` sleeps or is about to: no deferred wake is on its way, and it waits or is
    /// about to while its notify word is what it read, or it waits and no wake is to be delivered
    /// to it.
    pub open spec fn asleep(self, i: int) -> bool {
        let worker = self.workers[i];
        &&& !self.threads[i].microtasks.contains(Microtask::Rearm)
        &&& {
            ||| (worker.place is Waiting || worker.place is Parking) && self.shared.slots[i].notify
                == worker.seen
            ||| worker.place is Waiting && !self.shared.wakes.contains(i as u32)
        }
    }

    /// Whether the main thread sleeps or is about to: it waits or is about to while its notify word
    /// is what it read, or it waits and no wake is to be delivered to it.
    pub open spec fn main_asleep(self) -> bool {
        ||| (self.main.place is Waiting || self.main.place is Parking) && self.shared.main.notify
            == self.main.seen
        ||| self.main.place is Waiting && !self.shared.wakes.contains(MAIN_ID)
    }

    /// Whether no notify word has made a full turn since its thread read it.
    pub open spec fn words_fresh(self) -> bool {
        &&& forall|i: int| self.has(i) ==> (#[trigger] self.workers[i]).bumps < word_values()
        &&& self.main.bumps < word_values()
    }
}

/// What is in a sequence stays in it when something is added.
proof fn lemma_contains_push<A>(s: Seq<A>, x: A)
    ensures
        s.push(x).contains(x),
        forall|y: A| #[trigger] s.contains(y) ==> s.push(x).contains(y),
        forall|y: A| #[trigger] s.push(x).contains(y) ==> s.contains(y) || y == x,
{
    assert(s.push(x)[s.len() as int] == x);
    assert forall|y: A| #[trigger] s.contains(y) implies s.push(x).contains(y) by {
        let at = choose|at: int| 0 <= at < s.len() && s[at] == y;
        assert(s.push(x)[at] == y);
    }
    assert forall|y: A| #[trigger] s.push(x).contains(y) implies s.contains(y) || y == x by {
        let at = choose|at: int| 0 <= at < s.push(x).len() && s.push(x)[at] == y;
        if at < s.len() {
            assert(s[at] == y);
        }
    }
}

/// What is in a sequence and is not its first is behind the first.
proof fn lemma_contains_skip<A>(s: Seq<A>)
    requires
        s.len() > 0,
    ensures
        forall|y: A| #[trigger] s.contains(y) && y != s[0] ==> s.skip(1).contains(y),
        forall|y: A| #[trigger] s.skip(1).contains(y) ==> s.contains(y),
{
    assert forall|y: A| #[trigger] s.contains(y) && y != s[0] implies s.skip(1).contains(y) by {
        let at = choose|at: int| 0 <= at < s.len() && s[at] == y;
        assert(s.skip(1)[at - 1] == y);
    }
    assert forall|y: A| #[trigger] s.skip(1).contains(y) implies s.contains(y) by {
        let at = choose|at: int| 0 <= at < s.skip(1).len() && s.skip(1)[at] == y;
        assert(s[at + 1] == y);
    }
}

/// What one drain step of worker `id` leaves alone.
proof fn lemma_drain_frame<F>(
    shared: SharedView<F>,
    id: u32,
    phase: DrainPhase,
    action: DrainAction<F>,
    next: DrainPhase,
    after: SharedView<F>,
)
    requires
        shared.drain_stepped(id, phase, action, next, after),
        shared.sized,
        id < shared.slots.len() <= MAX_WORKERS,
    ensures
        after.sized,
        after.slots.len() == shared.slots.len(),
        after.main == shared.main,
        after.lifecycle == shared.lifecycle,
        after.wakes == shared.wakes,
        forall|j: int|
            0 <= j < shared.slots.len() ==> (#[trigger] after.slots[j]).notify
                == shared.slots[j].notify,
        forall|j: int|
            0 <= j < shared.slots.len() && j != id ==> {
                &&& (#[trigger] after.slots[j]).ready == shared.slots[j].ready
                &&& after.slots[j].incoming == shared.slots[j].incoming
                &&& after.slots[j].busy == shared.slots[j].busy
            },
        forall|j: u32|
            j != id ==> (#[trigger] after.idle.contains(j) <==> shared.idle.contains(j)),
        after.injector.len() <= shared.injector.len(),
        phase is Stealable || phase is Injector ==> {
            &&& after.slots[id as int].ready == shared.slots[id as int].ready
            &&& after.slots[id as int].incoming == shared.slots[id as int].incoming
            &&& after.slots[id as int].busy == shared.slots[id as int].busy
            &&& after.idle == shared.idle
            &&& next is Park || next is Injector
        },
{
}

/// A drain step keeps the invariant.
proof fn lemma_drain_keeps<F, W>(
    before: System<F, W>,
    i: int,
    action: DrainAction<F>,
    next: DrainPhase,
    after: System<F, W>,
)
    requires
        before.inv(),
        before.steps(Step::Drain(i, action, next), after),
    ensures
        after.inv(),
{
    let phase = before.workers[i].place->Draining_0;
    lemma_drain_frame(before.shared, i as u32, phase, action, next, after.shared);
    lemma_contains_push(before.threads[i].microtasks, Microtask::Rearm);
    assert(before.worker_inv(i));
    assert forall|j: int| after.has(j) implies #[trigger] after.worker_inv(j) by {
        assert(before.worker_inv(j));
        if j != i {
            assert(after.workers[j] == before.workers[j]);
            assert(after.shared.idle.contains(j as u32) <==> before.shared.idle.contains(j as u32));
        }
    }
    if !(after.shared.lifecycle is Shutdown) && after.shared.injector.len() > 0 && after.owing
        == 0 {
        let k = choose|k: int|
            before.has(k) && (#[trigger] before.workers[k]).returning(before.threads[k]);
        if k == i {
            assert(after.workers[i].returning(after.threads[i]));
        } else {
            assert(after.workers[k] == before.workers[k]);
        }
    }
}

/// A bump of one notify word keeps the invariant, whatever is queued with it.
proof fn lemma_notify_keeps<F, W>(before: System<F, W>, id: u32, after: System<F, W>)
    requires
        before.inv(),
        before.shared.has_slot(id),
        after.workers == before.bumped(id).workers,
        after.main == before.bumped(id).main,
        after.threads == before.threads,
        after.main_thread == before.main_thread,
        after.owing == before.owing,
        after.shared.wakes == before.shared.wakes.push(id),
        after.shared.sized,
        after.shared.lifecycle == before.shared.lifecycle,
        after.shared.injector == before.shared.injector,
        after.shared.idle == before.shared.idle,
        after.shared.slots.len() == before.shared.slots.len(),
        forall|j: u32|
            #![trigger after.shared.slot(j)]
            before.shared.has_slot(j) ==> {
                &&& after.shared.slot(j).busy == before.shared.slot(j).busy
                &&& j != id ==> after.shared.slot(j) == before.shared.slot(j)
                &&& j == id ==> after.shared.slot(j).notify == before.shared.slot(
                    j,
                ).notify.wrapping_add(1)
            },
    ensures
        after.inv(),
{
    assert(after.shared.slot(MAIN_ID) == after.shared.main);
    lemma_contains_push(before.shared.wakes, id);
    assert forall|j: int| after.has(j) implies #[trigger] after.worker_inv(j) by {
        assert(before.worker_inv(j));
        assert(after.shared.slot(j as u32) == after.shared.slots[j]);
        assert(before.shared.has_slot(j as u32));
    }
    if !(after.shared.lifecycle is Shutdown) && after.shared.injector.len() > 0 && after.owing == 0
        && after.workers.len() > 0 {
        let k = choose|k: int|
            before.has(k) && (#[trigger] before.workers[k]).returning(before.threads[k]);
        assert(after.workers[k].returning(after.threads[k]));
    }
}

/// A look for a worker to wake keeps the invariant.
proof fn lemma_wake_one_keeps<F, W>(before: System<F, W>, after: System<F, W>)
    requires
        before.inv(),
        before.steps(Step::WakeOne, after),
    ensures
        after.inv(),
{
    if before.shared.idle == Set::<u32>::empty() {
        assert forall|j: int| after.has(j) implies #[trigger] after.worker_inv(j) by {
            assert(before.worker_inv(j));
        }
        if !(after.shared.lifecycle is Shutdown) && after.workers.len() > 0 {
            assert(before.worker_inv(0));
            assert(after.workers[0].returning(after.threads[0]));
        }
    } else {
        let w = choose|w: u32| #[trigger]
            is_least(before.shared.idle, w) && after == (System {
                shared: before.shared.claimed(w),
                owing: (before.owing - 1) as nat,
                ..before.bumped(w)
            });
        assert(before.shared.idle.contains(w));
        lemma_contains_push(before.shared.wakes, w);
        assert forall|j: int| after.has(j) implies #[trigger] after.worker_inv(j) by {
            assert(before.worker_inv(j));
        }
        assert(after.workers[w as int].returning(after.threads[w as int]));
    }
}

/// A worker that will return still will if no worker gives up a reason to.
proof fn lemma_same_returning<F, W>(before: System<F, W>, after: System<F, W>)
    requires
        before.some_returning(),
        after.workers.len() == before.workers.len(),
        forall|i: int|
            before.has(i) && (#[trigger] before.workers[i]).returning(before.threads[i])
                ==> after.workers[i].returning(after.threads[i]),
    ensures
        after.some_returning(),
{
    let k = choose|k: int|
        before.has(k) && (#[trigger] before.workers[k]).returning(before.threads[k]);
    assert(after.workers[k].returning(after.threads[k]));
}

/// A shutdown asks for a wake of every thread, and takes none back.
proof fn lemma_shutdown_wakes<F>(shared: SharedView<F>)
    requires
        shared.sized,
        !(shared.lifecycle is Uninit),
        shared.slots.len() <= MAX_WORKERS,
    ensures
        shared.shut_down().wakes.contains(MAIN_ID),
        forall|i: int|
            0 <= i < shared.slots.len() ==> #[trigger] shared.shut_down().wakes.contains(i as u32),
        forall|id: u32| #[trigger]
            shared.wakes.contains(id) ==> shared.shut_down().wakes.contains(id),
{
    let after = shared.shut_down();
    let old_len = shared.wakes.len() as int;
    assert(after.wakes[old_len + shared.slots.len()] == MAIN_ID);
    assert forall|i: int| 0 <= i < shared.slots.len() implies #[trigger] after.wakes.contains(
        i as u32,
    ) by {
        assert(after.wakes[old_len + i] == i as u32);
    }
    assert forall|id: u32| #[trigger] shared.wakes.contains(id) implies after.wakes.contains(
        id,
    ) by {
        let at = choose|at: int| 0 <= at < old_len && shared.wakes[at] == id;
        assert(after.wakes[at] == id);
    }
}

/// What a microtask of thread `id` does to the rest of the system: nothing, or a notification of
/// that thread.
pub proof fn lemma_micro_frame<F, W>(before: System<F, W>, id: u32, after: System<F, W>)
    requires
        before.inv(),
        before.steps(Step::Micro(id), after),
    ensures
        before.shared.has_slot(id),
        after.workers.len() == before.workers.len(),
        after.owing == before.owing,
        before.thread(id).microtasks[0] == Microtask::DrainPinned ==> {
            &&& after.shared == before.shared
            &&& after.workers == before.workers
            &&& after.main == before.main
        },
        before.thread(id).microtasks[0] == Microtask::Rearm ==> {
            &&& id != MAIN_ID
            &&& after.shared == before.shared.notified(id)
            &&& after.workers == before.bumped(id).workers
            &&& after.main == before.main
        },
{
    let thread = before.thread(id);
    assert(thread.microtasks.contains(thread.microtasks[0]));
    if id != MAIN_ID {
        assert(before.worker_inv(id as int));
    }
}

/// A delivered wake keeps the invariant.
proof fn lemma_deliver_keeps<F, W>(before: System<F, W>, after: System<F, W>)
    requires
        before.inv(),
        before.steps(Step::Deliver, after),
    ensures
        after.inv(),
{
    lemma_contains_skip(before.shared.wakes);
    assert forall|j: int| after.has(j) implies #[trigger] after.worker_inv(j) by {
        assert(before.worker_inv(j));
    }
    if before.some_returning() {
        lemma_same_returning(before, after);
    }
}

/// A microtask keeps the invariant.
proof fn lemma_micro_keeps<F, W>(before: System<F, W>, id: u32, after: System<F, W>)
    requires
        before.inv(),
        before.steps(Step::Micro(id), after),
    ensures
        after.inv(),
{
    let thread = before.thread(id);
    lemma_contains_skip(thread.microtasks);
    assert(thread.microtasks.contains(thread.microtasks[0]));
    if thread.microtasks[0] == Microtask::Rearm {
        assert(id != MAIN_ID);
        assert(before.worker_inv(id as int));
        lemma_contains_push(before.shared.wakes, id);
    }
    assert forall|j: int| after.has(j) implies #[trigger] after.worker_inv(j) by {
        assert(before.worker_inv(j));
    }
    if before.some_returning() {
        lemma_same_returning(before, after);
    }
}

/// A pinned task woken on its own thread keeps the invariant.
proof fn lemma_woken_at_home_keeps<F, W>(
    before: System<F, W>,
    id: u32,
    ptr: PinnedPtr,
    after: System<F, W>,
)
    requires
        before.inv(),
        before.steps(Step::WokenAtHome(id, ptr), after),
    ensures
        after.inv(),
{
    lemma_contains_push(before.thread(id).microtasks, Microtask::DrainPinned);
    assert forall|j: int| after.has(j) implies #[trigger] after.worker_inv(j) by {
        assert(before.worker_inv(j));
    }
    if before.some_returning() {
        lemma_same_returning(before, after);
    }
}

/// Every step keeps what holds in every state.
pub proof fn law_steps_keep_invariant<F, W>(
    before: System<F, W>,
    step: Step<F>,
    after: System<F, W>,
)
    requires
        before.inv(),
        before.steps(step, after),
    ensures
        after.inv(),
{
    match step {
        Step::Drain(i, action, next) => {
            lemma_drain_keeps(before, i, action, next, after);
        },
        Step::WakeOne => {
            lemma_wake_one_keeps(before, after);
        },
        Step::Place(w, pending) => {
            lemma_notify_keeps(before, w, after);
        },
        Step::PlaceOnMain(pending) => {
            lemma_notify_keeps(before, MAIN_ID, after);
        },
        Step::HandBack(owner, ptr) => {
            lemma_notify_keeps(before, owner, after);
        },
        Step::Shutdown => {
            lemma_shutdown_wakes(before.shared);
            assert forall|j: int| after.has(j) implies #[trigger] after.worker_inv(j) by {
                assert(before.worker_inv(j));
            }
        },
        Step::Read(i) => {
            assert forall|j: int| after.has(j) implies #[trigger] after.worker_inv(j) by {
                assert(before.worker_inv(j));
            }
            assert(after.workers[i].returning(after.threads[i]));
        },
        Step::Park(i) => {
            assert forall|j: int| after.has(j) implies #[trigger] after.worker_inv(j) by {
                assert(before.worker_inv(j));
            }
            if before.some_returning() {
                lemma_same_returning(before, after);
            }
        },
        Step::Deliver => {
            lemma_deliver_keeps(before, after);
        },
        Step::Micro(id) => {
            lemma_micro_keeps(before, id, after);
        },
        Step::WokenAtHome(id, ptr) => {
            lemma_woken_at_home_keeps(before, id, ptr, after);
        },
        Step::Enqueue(from, ptr) => {
            assert forall|j: int| after.has(j) implies #[trigger] after.worker_inv(j) by {
                assert(before.worker_inv(j));
            }
        },
        Step::Unload(w) => {
            assert forall|j: int| after.has(j) implies #[trigger] after.worker_inv(j) by {
                assert(before.worker_inv(j));
            }
        },
        Step::MainRead | Step::MainDrain(..) | Step::MainPark => {
            assert forall|j: int| after.has(j) implies #[trigger] after.worker_inv(j) by {
                assert(before.worker_inv(j));
            }
        },
    }
}

/// A successful `init` establishes what holds in every state.
pub proof fn law_init_establishes_invariant<F, W>(system: System<F, W>, n: nat)
    requires
        system.initial(n),
    ensures
        system.inv(),
{
    assert forall|j: int| system.has(j) implies #[trigger] system.worker_inv(j) by {}
}

/// Whether `run` is a run of the system from an `init` with `n` workers.
pub open spec fn is_run<F, W>(run: Seq<System<F, W>>, n: nat) -> bool {
    &&& run.len() > 0
    &&& run[0].initial(n)
    &&& forall|k: int|
        0 <= k < run.len() - 1 ==> exists|step: Step<F>| #[trigger]
            run[k].steps(step, #[trigger] run[k + 1])
}

/// In every state of every run, what holds in every state holds.
pub proof fn law_runs_keep_invariant<F, W>(run: Seq<System<F, W>>, n: nat, k: int)
    requires
        is_run(run, n),
        0 <= k < run.len(),
    ensures
        run[k].inv(),
    decreases k,
{
    if k == 0 {
        law_init_establishes_invariant(run[0], n);
    } else {
        law_runs_keep_invariant(run, n, k - 1);
        assert(exists|step: Step<F>| #[trigger] run[k - 1].steps(step, run[k - 1 + 1]));
        let step = choose|step: Step<F>| #[trigger] run[k - 1].steps(step, run[k - 1 + 1]);
        law_steps_keep_invariant(run[k - 1], step, run[k]);
    }
}

/// The workers stay the same through a run.
proof fn lemma_run_keeps_workers<F, W>(run: Seq<System<F, W>>, n: nat, k: int)
    requires
        is_run(run, n),
        0 <= k < run.len(),
    ensures
        run[k].workers.len() == n,
    decreases k,
{
    if k > 0 {
        lemma_run_keeps_workers(run, n, k - 1);
        law_runs_keep_invariant(run, n, k - 1);
        let before = run[k - 1];
        let step = choose|step: Step<F>| #[trigger] before.steps(step, run[k - 1 + 1]);
        law_steps_keep_invariant(before, step, run[k]);
    }
}

/// No wakeup for the injector is lost. While the runtime has workers and is not shut down, work in
/// the injector never finds all workers asleep, unless a producer that queued some has yet to look
/// for a worker to wake.
pub proof fn law_no_lost_wakeup<F, W>(run: Seq<System<F, W>>, n: nat, k: int)
    requires
        is_run(run, n),
        0 <= k < run.len(),
        run[k].words_fresh(),
        !(run[k].shared.lifecycle is Shutdown),
        run[k].shared.injector.len() > 0,
        run[k].owing == 0,
        n > 0,
    ensures
        exists|i: int| run[k].has(i) && !#[trigger] run[k].asleep(i),
{
    law_runs_keep_invariant(run, n, k);
    lemma_run_keeps_workers(run, n, k);
    let system = run[k];
    let i = choose|i: int|
        system.has(i) && (#[trigger] system.workers[i]).returning(system.threads[i]);
    assert(system.worker_inv(i));
    assert(!system.asleep(i));
}

/// No stealable work is stranded. While the runtime has workers and is not shut down, all workers
/// are asleep only if no queue holds a stealable task, unless a producer has yet to look for a
/// worker to wake, or a worker queued a task of its own after its last look at the queues.
pub proof fn law_stealable_work_is_not_stranded<F, W>(run: Seq<System<F, W>>, n: nat, k: int)
    requires
        is_run(run, n),
        0 <= k < run.len(),
        run[k].words_fresh(),
        !(run[k].shared.lifecycle is Shutdown),
        run[k].owing == 0,
        n > 0,
        forall|i: int| run[k].has(i) ==> run[k].asleep(i) && !(#[trigger] run[k].workers[i]).late,
    ensures
        run[k].shared.nothing_to_steal(),
{
    law_runs_keep_invariant(run, n, k);
    let system = run[k];
    if system.shared.injector.len() > 0 {
        law_no_lost_wakeup(run, n, k);
        let i = choose|i: int| system.has(i) && !#[trigger] system.asleep(i);
        assert(!system.workers[i].late);
    }
    assert forall|i: int| 0 <= i < system.shared.slots.len() implies (
    #[trigger] system.shared.local(i)).len() == 0 by {
        assert(system.worker_inv(i));
        assert(!system.workers[i].late);
    }
}

/// A worker's own queue is not stranded with it: a worker that sleeps has no stealable task, unless
/// it queued one after its last look at the queues.
pub proof fn law_own_queue_is_not_stranded<F, W>(run: Seq<System<F, W>>, n: nat, k: int, i: int)
    requires
        is_run(run, n),
        0 <= k < run.len(),
        run[k].words_fresh(),
        run[k].has(i),
        run[k].asleep(i),
        !run[k].workers[i].late,
    ensures
        run[k].shared.local(i).len() == 0,
{
    law_runs_keep_invariant(run, n, k);
    assert(run[k].worker_inv(i));
}

/// Pinned work is never stranded: a worker that sleeps has neither placements nor tasks handed back
/// to it.
pub proof fn law_pinned_work_is_not_stranded<F, W>(run: Seq<System<F, W>>, n: nat, k: int, i: int)
    requires
        is_run(run, n),
        0 <= k < run.len(),
        run[k].words_fresh(),
        run[k].has(i),
        run[k].asleep(i),
    ensures
        run[k].shared.slots[i].ready.len() == 0,
        run[k].shared.slots[i].incoming.len() == 0,
{
    law_runs_keep_invariant(run, n, k);
    assert(run[k].worker_inv(i));
}

/// Work for the main thread is never stranded: while the main thread sleeps, it has neither
/// placements nor tasks handed back to it.
pub proof fn law_main_work_is_not_stranded<F, W>(run: Seq<System<F, W>>, n: nat, k: int)
    requires
        is_run(run, n),
        0 <= k < run.len(),
        run[k].words_fresh(),
        run[k].main_asleep(),
    ensures
        run[k].shared.main.ready.len() == 0,
        run[k].shared.main.incoming.len() == 0,
{
    law_runs_keep_invariant(run, n, k);
}

/// A worker that is inside the part of its drain that touches shared queues is marked busy.
pub proof fn law_busy_while_touching_queues<F, W>(run: Seq<System<F, W>>, n: nat, k: int, i: int)
    requires
        is_run(run, n),
        0 <= k < run.len(),
        run[k].has(i),
        run[k].workers[i].inside(),
    ensures
        run[k].shared.slots[i].busy,
{
    law_runs_keep_invariant(run, n, k);
    assert(run[k].worker_inv(i));
}

/// No step takes a worker into the queues once a shutdown is stored.
proof fn lemma_safe_point_keeps<F, W>(
    before: System<F, W>,
    step: Step<F>,
    after: System<F, W>,
    i: int,
)
    requires
        before.inv(),
        before.steps(step, after),
        before.has(i),
        before.shared.lifecycle is Shutdown,
        !before.workers[i].inside(),
    ensures
        after.has(i),
        after.shared.lifecycle is Shutdown,
        !after.workers[i].inside(),
{
    match step {
        Step::Drain(j, action, next) => {
            lemma_drain_frame(
                before.shared,
                j as u32,
                before.workers[j].place->Draining_0,
                action,
                next,
                after.shared,
            );
        },
        Step::Micro(id) => {
            lemma_micro_frame(before, id, after);
        },
        _ => {},
    }
}

/// The handshake of a shutdown with a drain. Once a shutdown is stored, a worker that is then seen
/// not to be busy never touches a shared queue again, so it may be terminated at any time.
pub proof fn law_shutdown_finds_safe_point<F, W>(
    run: Seq<System<F, W>>,
    n: nat,
    k: int,
    later: int,
    i: int,
)
    requires
        is_run(run, n),
        0 <= k <= later < run.len(),
        run[k].has(i),
        run[k].shared.lifecycle is Shutdown,
        !run[k].shared.slots[i].busy,
    ensures
        run[later].has(i),
        run[later].shared.lifecycle is Shutdown,
        !run[later].workers[i].inside(),
    decreases later,
{
    law_runs_keep_invariant(run, n, later);
    if later == k {
        assert(run[k].worker_inv(i));
    } else {
        law_shutdown_finds_safe_point(run, n, k, later - 1, i);
        law_runs_keep_invariant(run, n, later - 1);
        let before = run[later - 1];
        let after = run[later];
        assert(exists|step: Step<F>| #[trigger] before.steps(step, run[later - 1 + 1]));
        let step = choose|step: Step<F>| #[trigger] before.steps(step, run[later - 1 + 1]);
        lemma_safe_point_keeps(before, step, after, i);
    }
}

/// A drain that is told to wait leaves its worker marked idle and unarmed only if its last look
/// found its own queue and the injector empty; else it asked for a deferred wake.
pub proof fn law_parks_only_without_work<F, W>(
    before: System<F, W>,
    i: int,
    action: DrainAction<F>,
    next: DrainPhase,
    after: System<F, W>,
)
    requires
        before.inv(),
        before.has(i),
        before.workers[i].place == Place::Draining(DrainPhase::Settle),
        before.steps(Step::Drain(i, action, next), after),
    ensures
        before.shared.local(i).len() > 0 || before.shared.injector.len() > 0 ==> {
            &&& after.threads[i].microtasks == before.threads[i].microtasks.push(Microtask::Rearm)
            &&& !after.shared.idle.contains(i as u32)
        },
        before.shared.local(i).len() == 0 && before.shared.injector.len() == 0 ==> {
            &&& after.threads == before.threads
            &&& after.shared == before.shared
        },
{
}

/// A woken pinned task never waits in vain: while one waits on a thread of the runtime, a microtask
/// that runs it is on its way there.
pub proof fn law_woken_tasks_get_a_microtask<F, W>(
    run: Seq<System<F, W>>,
    n: nat,
    k: int,
    id: u32,
)
    requires
        is_run(run, n),
        0 <= k < run.len(),
        id == MAIN_ID || id < run[k].workers.len(),
        run[k].thread(id).pending.len() > 0,
    ensures
        run[k].thread(id).microtasks.contains(Microtask::DrainPinned),
{
    law_runs_keep_invariant(run, n, k);
    if id != MAIN_ID {
        assert(run[k].worker_inv(id as int));
    }
}

impl<F, W> System<F, W> {
    /// The wakes that were asked for on the way from `self` to `after`.
    pub open spec fn asked(self, after: Self) -> Seq<u32> {
        after.shared.wakes.skip(self.shared.wakes.len() as int)
    }
}

/// The notify word of thread `id`.
pub open spec fn word<F>(shared: SharedView<F>, id: u32) -> u32 {
    if id == MAIN_ID {
        shared.main.notify
    } else {
        shared.slots[id as int].notify
    }
}

/// A notify word and the wake of its waiter go together: whatever step bumps the word of a thread
/// also asks for a wake of that thread, once, and no step asks for a wake without a bump. Wakes
/// asked for earlier stay, in their order.
pub proof fn law_bump_comes_with_a_wake<F, W>(
    before: System<F, W>,
    step: Step<F>,
    after: System<F, W>,
    id: u32,
)
    requires
        before.inv(),
        before.steps(step, after),
        !(step is Deliver),
        id == MAIN_ID || id < before.workers.len(),
    ensures
        before.shared.wakes.len() <= after.shared.wakes.len(),
        forall|i: int|
            0 <= i < before.shared.wakes.len() ==> #[trigger] after.shared.wakes[i]
                == before.shared.wakes[i],
        before.asked(after).no_duplicates(),
        before.asked(after).contains(id) ==> word(after.shared, id) == if word(before.shared, id)
            == u32::MAX {
            0
        } else {
            word(before.shared, id) + 1
        },
        !before.asked(after).contains(id) ==> word(after.shared, id) == word(before.shared, id),
{
    law_steps_wake_whom_they_must(before, step, after);
    let asked = before.asked(after);
    match step {
        Step::Shutdown => {
            let old_len = before.shared.wakes.len() as int;
            let n = before.shared.slots.len() as int;
            assert(asked.contains(id)) by {
                let at: int = if id == MAIN_ID {
                    n
                } else {
                    id as int
                };
                assert(after.shared.wakes[old_len + at] == id);
                assert(asked[at] == id);
            }
        },
        Step::Drain(i, action, next) => {
            lemma_drain_frame(
                before.shared,
                i as u32,
                before.workers[i].place->Draining_0,
                action,
                next,
                after.shared,
            );
        },
        Step::Micro(at) => {
            lemma_micro_frame(before, at, after);
            assert(seq![at].contains(id) <==> at == id) by {
                assert(seq![at][0] == at);
            }
        },
        Step::WakeOne => {
            if before.shared.idle != Set::<u32>::empty() {
                let w = choose|w: u32| #[trigger]
                    is_least(before.shared.idle, w) && after == (System {
                        shared: before.shared.claimed(w),
                        owing: (before.owing - 1) as nat,
                        ..before.bumped(w)
                    });
                assert(before.shared.idle.contains(w));
                assert(asked =~= seq![w]);
                assert(seq![w][0] == w);
            }
        },
        Step::Place(w, _) => {
            assert(seq![w][0] == w);
        },
        Step::PlaceOnMain(_) => {
            assert(seq![MAIN_ID][0] == MAIN_ID);
        },
        Step::HandBack(owner, _) => {
            assert(seq![owner][0] == owner);
        },
        _ => {},
    }
}

/// Whom each step wakes: a placement the worker or the main thread that got it, a task handed back
/// its owner, a deferred wake the worker that asked for it, a producer's look one parked worker if
/// there is one, and a shutdown everyone. No other step wakes anybody.
pub proof fn law_steps_wake_whom_they_must<F, W>(
    before: System<F, W>,
    step: Step<F>,
    after: System<F, W>,
)
    requires
        before.inv(),
        before.steps(step, after),
        !(step is Deliver),
    ensures
        ({
            let asked = before.asked(after);
            match step {
                Step::Place(w, _) => asked == seq![w],
                Step::PlaceOnMain(_) => asked == seq![MAIN_ID],
                Step::HandBack(owner, _) => asked == seq![owner],
                Step::Micro(id) => asked == if before.thread(id).microtasks[0] == Microtask::Rearm {
                    seq![id]
                } else {
                    Seq::empty()
                },
                Step::WakeOne => if before.shared.idle == Set::<u32>::empty() {
                    asked == Seq::<u32>::empty()
                } else {
                    &&& asked.len() == 1
                    &&& before.shared.idle.contains(asked[0])
                    &&& !after.shared.idle.contains(asked[0])
                    &&& forall|j: u32| #[trigger]
                        before.shared.idle.contains(j) ==> asked[0] <= j
                },
                Step::Shutdown => asked == Seq::new(
                    before.shared.slots.len(),
                    |i: int| i as u32,
                ).push(MAIN_ID),
                _ => asked == Seq::<u32>::empty(),
            }
        }),
{
    let asked = before.asked(after);
    match step {
        Step::Place(w, _) => {
            assert(asked =~= seq![w]);
        },
        Step::PlaceOnMain(_) => {
            assert(asked =~= seq![MAIN_ID]);
        },
        Step::HandBack(owner, _) => {
            assert(asked =~= seq![owner]);
        },
        Step::Micro(id) => {
            lemma_micro_frame(before, id, after);
            if before.thread(id).microtasks[0] == Microtask::Rearm {
                assert(asked =~= seq![id]);
            } else {
                assert(asked =~= Seq::<u32>::empty());
            }
        },
        Step::WakeOne => {
            if before.shared.idle == Set::<u32>::empty() {
                assert(asked =~= Seq::<u32>::empty());
            } else {
                let w = choose|w: u32| #[trigger]
                    is_least(before.shared.idle, w) && after == (System {
                        shared: before.shared.claimed(w),
                        owing: (before.owing - 1) as nat,
                        ..before.bumped(w)
                    });
                assert(asked =~= seq![w]);
            }
        },
        Step::Shutdown => {
            assert(asked =~= Seq::new(before.shared.slots.len(), |i: int| i as u32).push(MAIN_ID));
        },
        Step::Drain(i, action, next) => {
            lemma_drain_frame(
                before.shared,
                i as u32,
                before.workers[i].place->Draining_0,
                action,
                next,
                after.shared,
            );
            assert(asked =~= Seq::<u32>::empty());
        },
        _ => {
            assert(asked =~= Seq::<u32>::empty());
        },
    }
}

} // verus!
