//! Starting and stopping the runtime, and placing work on it.

use async_channel::{Receiver, Sender};
use vstd::prelude::*;

use crate::channel::{is_result_channel, result_channel};
use crate::deque::{StealPtr, StealQueue};
use crate::exec::{notify_worker, schedule_stealable};
use crate::handle::WorkerHandle;
use crate::main_thread::start_main_loop;
use crate::spawn::{Spawn, SpawnStealable};
use crate::state::{
    clear_runtime_state, Lifecycle, PendingSpawn, SharedState, SharedView, Slot, SlotView, MAIN_ID,
    MAX_WORKERS,
};
use crate::task::{lies_at, Steal};
use crate::thread::{ThreadId, ThreadState, ThreadView, ThreadWorker};

verus! {

/// Upper bound on the number of looks that a shutdown takes at the busy flags before the workers
/// are terminated regardless.
pub const QUIESCE_SPINS: u32 = 5_000_000;

/// Where the worker bootstrap script comes from.
pub enum WorkerSource {
    /// A path relative to the server origin pointing at the JS glue, to be wrapped in a generated
    /// script.
    GluePath(String),
    /// An absolute worker-script URL, used verbatim.
    WorkerUrl(String),
}

/// Builder for the runtime. See [`builder`].
pub struct WebbleBuilder {
    /// The worker count, if one was chosen.
    pub num_workers: Option<usize>,
    /// The source of the worker script, if one was chosen.
    pub source: Option<WorkerSource>,
}

/// Entry point for configuring and starting the runtime.
pub fn builder() -> (builder: WebbleBuilder)
    ensures
        builder == (WebbleBuilder { num_workers: None, source: None }),
{
    WebbleBuilder { num_workers: None, source: None }
}

/// Why a runtime cannot be initialized.
#[derive(Clone, Copy, PartialEq, Eq, Structural, Debug)]
pub enum InitRefusal {
    /// More than [`MAX_WORKERS`] workers.
    TooManyWorkers,
    /// Neither [`WebbleBuilder::glue_path`] nor [`WebbleBuilder::worker_url`] was called.
    NoSource,
    /// The runtime is running.
    AlreadyRunning,
    /// A restart must reuse the original worker count, which is this.
    CountChanged(usize),
}

/// The number of logical cores to reckon with, given what the machine reports: at least 1, and 4 if
/// it reports nothing.
pub open spec fn parallelism(cores: Option<usize>) -> usize {
    match cores {
        Some(n) if n > 0 => n,
        Some(_) => 1,
        None => 4,
    }
}

impl<F> SharedView<F> {
    /// The state that `init` with `n` workers puts the runtime into: sized if it never was, else
    /// cleared.
    pub open spec fn started(self, n: nat) -> Self {
        SharedView {
            lifecycle: Lifecycle::Running,
            ..if self.sized {
                self.cleared()
            } else {
                self.sized_for(n)
            }
        }
    }

    /// After `shutdown`: every thread is notified, the workers in the order of their ids and the
    /// main thread last. A runtime that is not initialized stays as it is.
    pub open spec fn shut_down(self) -> Self {
        if self.lifecycle is Uninit {
            self
        } else if !self.sized {
            SharedView { lifecycle: Lifecycle::Shutdown, ..self }
        } else {
            SharedView {
                lifecycle: Lifecycle::Shutdown,
                slots: Seq::new(self.slots.len(), |i: int| self.slots[i].bumped()),
                main: self.main.bumped(),
                wakes: self.wakes + Seq::new(self.slots.len(), |i: int| i as u32) + seq![MAIN_ID],
                ..self
            }
        }
    }

    /// Whether no worker is inside a drain.
    pub open spec fn quiescent(self) -> bool {
        forall|i: int| 0 <= i < self.slots.len() ==> !(#[trigger] self.slots[i]).busy
    }

    /// Whether a shutdown that has looked at the busy flags `looks` times before may terminate the
    /// workers.
    pub open spec fn may_terminate(self, looks: u32) -> bool {
        looks >= QUIESCE_SPINS || self.quiescent()
    }

    /// The number of live workers.
    pub open spec fn live_workers(self) -> nat {
        if self.lifecycle is Running {
            self.slots.len()
        } else {
            0
        }
    }

    /// Whether `w` is the least-loaded worker, the first of them if there are several.
    pub open spec fn least_loaded(self, w: u32) -> bool {
        &&& self.has_worker(w)
        &&& forall|i: int|
            0 <= i < self.slots.len() ==> self.slots[w as int].load
                <= (#[trigger] self.slots[i]).load
        &&& forall|i: int|
            0 <= i < w ==> self.slots[w as int].load < (#[trigger] self.slots[i]).load
    }

    /// After pinned work was placed on worker `w`, which is then notified.
    pub open spec fn placed(self, w: u32, pending: PendingSpawn<F>) -> Self {
        let slot = self.slot(w);
        self.with_slot(
            w,
            SlotView { load: slot.load.wrapping_add(1), ..slot.with_incoming(pending) },
        ).notified(w)
    }

    /// After pinned work was placed on the main thread, which is then notified.
    pub open spec fn placed_on_main(self, pending: PendingSpawn<F>) -> Self {
        self.with_slot(MAIN_ID, self.main.with_incoming(pending)).notified(MAIN_ID)
    }

    /// After a share of worker `w`'s load was given back.
    pub open spec fn unloaded(self, w: u32) -> Self {
        let slot = self.slot(w);
        self.with_slot(w, SlotView { load: slot.load.wrapping_sub(1), ..slot })
    }

    /// The pinned placements and stealable tasks waiting at the first `k` workers.
    pub open spec fn waiting_at(self, k: int) -> nat
        decreases k,
    {
        if k <= 0 {
            0
        } else {
            self.waiting_at(k - 1) + self.slots[k - 1].incoming.len() + self.slots[k
                - 1].local.len()
        }
    }

    /// The number of tasks not currently being worked on.
    pub open spec fn waiting(self) -> nat {
        self.waiting_at(self.slots.len() as int) + self.injector.len()
    }
}

/// How far the start of a runtime's workers has come.
#[derive(Clone, Copy, PartialEq, Eq, Structural, Debug)]
pub enum StartPhase {
    /// Not begun.
    Begin,
    /// The embedder is starting a worker.
    Awaiting,
    /// Over.
    Over,
}

/// What has come of a start since the last step.
pub enum StartEvent<W, E> {
    /// Nothing was asked for yet.
    Begin,
    /// The worker asked for was started: the embedder's handle to it.
    Started(W),
    /// The worker asked for could not be started.
    Failed(E),
}

/// What the embedder has to do next.
pub enum StartAction<E> {
    /// Start this worker, once.
    Start(u32),
    /// Run the main loop: all workers were started.
    Finished,
    /// Give up: a worker could not be started, and the runtime is uninitialized again.
    Failed(E),
}

/// The start of a runtime's workers, from [`WebbleBuilder::init`] on.
pub struct Startup<W> {
    /// The URL of the worker script.
    pub url: String,
    /// The number of workers to start.
    pub total: usize,
    /// The workers started so far.
    pub workers: Vec<ThreadWorker<W>>,
    /// How far the start has come.
    pub phase: StartPhase,
}

impl<W> Startup<W> {
    /// Worker `i` is the `i`-th that was started, and there is one left while one is awaited.
    pub open spec fn wf(self) -> bool {
        &&& self.total <= MAX_WORKERS
        &&& self.workers@.len() <= self.total
        &&& forall|i: int| 0 <= i < self.workers@.len() ==> (#[trigger] self.workers@[i]).id == i
        &&& self.phase is Begin ==> self.workers@.len() == 0
        &&& self.phase is Awaiting ==> self.workers@.len() < self.total
    }

    /// Whether `event` can come now.
    pub open spec fn expects<E>(self, event: StartEvent<W, E>) -> bool {
        if event is Begin {
            self.phase is Begin
        } else {
            self.phase is Awaiting
        }
    }

    /// The workers started once `event` has come.
    pub open spec fn started<E>(self, event: StartEvent<W, E>) -> Seq<ThreadWorker<W>> {
        match event {
            StartEvent::Started(inner) => self.workers@.push(
                ThreadWorker { id: self.workers@.len() as u32, inner },
            ),
            _ => self.workers@,
        }
    }

    /// What has to be done once `event` has come: the next worker is started, until all are or one
    /// fails.
    pub open spec fn next_action<E>(self, event: StartEvent<W, E>) -> StartAction<E> {
        match event {
            StartEvent::Failed(e) => StartAction::Failed(e),
            _ => if self.started(event).len() < self.total {
                StartAction::Start(self.started(event).len() as u32)
            } else {
                StartAction::Finished
            },
        }
    }

    /// The start after a step that called for `action`.
    pub open spec fn proceeded<E>(
        self,
        event: StartEvent<W, E>,
        action: StartAction<E>,
        after: Self,
    ) -> bool {
        &&& self.expects(event)
        &&& action == self.next_action(event)
        &&& after.url == self.url
        &&& after.total == self.total
        &&& match action {
            StartAction::Start(_) => after.phase is Awaiting && after.workers@ == self.started(
                event,
            ),
            StartAction::Finished => after.phase is Over && after.workers@.len() == 0,
            StartAction::Failed(_) => after.phase is Over && after.workers@ == self.workers@,
        }
    }

    /// The shared state once `event` has come: a failed start leaves it uninitialized.
    pub open spec fn state_after<F, E>(
        self,
        event: StartEvent<W, E>,
        shared: SharedView<F>,
    ) -> SharedView<F> {
        if self.next_action(event) is Failed {
            SharedView { lifecycle: Lifecycle::Uninit, ..shared }
        } else {
            shared
        }
    }

    /// The state of the main thread once `event` has come: when all workers were started, it is the
    /// runtime's main thread and keeps them.
    pub open spec fn thread_after<E>(
        self,
        event: StartEvent<W, E>,
        thread: ThreadView<W>,
    ) -> ThreadView<W> {
        if self.next_action(event) is Finished {
            ThreadView {
                thread: Some(ThreadId::Main),
                workers: self.started(event),
                ..thread
            }
        } else {
            thread
        }
    }

    /// One step of the start. On the **main thread**, which `thread` is the state of.
    ///
    /// The embedder performs the action and comes back with what it came to. The last step makes
    /// this thread the main thread of the runtime and its keeper of the workers. If a worker cannot
    /// be started, the runtime is left uninitialized, so that `init` can be retried.
    pub fn proceed<F, E>(
        &mut self,
        state: &mut SharedState<F>,
        thread: &mut ThreadState<W>,
        event: StartEvent<W, E>,
    ) -> (action: StartAction<E>)
        requires
            old(self).wf(),
            old(self).expects(event),
            old(state).wf(),
        ensures
            final(self).wf(),
            old(self).proceeded(event, action, *final(self)),
            final(state).wf(),
            final(state)@ == old(self).state_after(event, old(state)@),
            final(thread)@ == old(self).thread_after(event, old(thread)@),
    {
        match event {
            StartEvent::Begin => {},
            StartEvent::Started(inner) => {
                let id: u32 = self.workers.len() as u32;
                self.workers.push(ThreadWorker { id, inner });
            },
            StartEvent::Failed(e) => {
                self.phase = StartPhase::Over;
                state.state = Lifecycle::Uninit;
                return StartAction::Failed(e);
            },
        }
        if self.workers.len() < self.total {
            self.phase = StartPhase::Awaiting;
            return StartAction::Start(self.workers.len() as u32);
        }
        self.phase = StartPhase::Over;
        let mut workers: Vec<ThreadWorker<W>> = Vec::new();
        core::mem::swap(&mut workers, &mut self.workers);
        thread.workers = workers;
        // `on_main` work runs on this thread.
        start_main_loop(thread);
        StartAction::Finished
    }
}

impl WebbleBuilder {
    /// The number of workers to start on a machine that reports `cores` logical cores.
    pub open spec fn count(self, cores: Option<usize>) -> usize {
        match self.num_workers {
            Some(n) => n,
            None => parallelism(cores),
        }
    }

    /// The same builder with a chosen worker count.
    pub open spec fn with_workers(self, num_workers: usize) -> Self {
        WebbleBuilder { num_workers: Some(num_workers), ..self }
    }

    /// The same builder with a chosen source.
    pub open spec fn with_source(self, source: WorkerSource) -> Self {
        WebbleBuilder { source: Some(source), ..self }
    }

    /// Why [`init`](Self::init) would be refused, the first reason of several.
    pub open spec fn refusal<F>(self, shared: SharedView<F>, cores: Option<usize>) -> Option<
        InitRefusal,
    > {
        let n = self.count(cores);
        if n > MAX_WORKERS {
            Some(InitRefusal::TooManyWorkers)
        } else if self.source is None {
            Some(InitRefusal::NoSource)
        } else if shared.lifecycle is Running {
            Some(InitRefusal::AlreadyRunning)
        } else if shared.sized && shared.slots.len() != n {
            Some(InitRefusal::CountChanged(shared.slots.len() as usize))
        } else {
            None
        }
    }

    /// Whether `url` is the URL of the worker script: as given, or made by `blob_url` from the path
    /// of the glue.
    pub open spec fn resolves<B: FnOnce(String) -> String>(self, blob_url: B, url: String) -> bool {
        match self.source {
            Some(WorkerSource::GluePath(path)) => call_ensures(blob_url, (path,), url),
            Some(WorkerSource::WorkerUrl(given)) => url == given,
            None => false,
        }
    }

    /// Set the worker count. Defaults to [`available_parallelism`]. At most [`MAX_WORKERS`].
    pub fn workers(self, num_workers: usize) -> (builder: Self)
        ensures
            builder == self.with_workers(num_workers),
    {
        WebbleBuilder { num_workers: Some(num_workers), source: self.source }
    }

    /// Point the workers at the JS glue, relative to the server origin. Mutually exclusive with
    /// [`Self::worker_url`]: the last call counts.
    pub fn glue_path(self, path: String) -> (builder: Self)
        ensures
            builder == self.with_source(WorkerSource::GluePath(path)),
    {
        WebbleBuilder { num_workers: self.num_workers, source: Some(WorkerSource::GluePath(path)) }
    }

    /// Use an absolute worker-script URL verbatim. Mutually exclusive with [`Self::glue_path`]: the
    /// last call counts.
    pub fn worker_url(self, url: String) -> (builder: Self)
        ensures
            builder == self.with_source(WorkerSource::WorkerUrl(url)),
    {
        WebbleBuilder { num_workers: self.num_workers, source: Some(WorkerSource::WorkerUrl(url)) }
    }

    /// Whether [`init`](Self::init) may be called, and if not, why.
    pub fn check<F>(&self, state: &SharedState<F>, cores: Option<usize>) -> (refusal: Option<
        InitRefusal,
    >)
        requires
            state.wf(),
        ensures
            refusal == self.refusal(state@, cores),
    {
        let n: usize = self.worker_count(cores);
        if n > MAX_WORKERS {
            Some(InitRefusal::TooManyWorkers)
        } else if self.source.is_none() {
            Some(InitRefusal::NoSource)
        } else if matches!(state.lifecycle(), Lifecycle::Running) {
            Some(InitRefusal::AlreadyRunning)
        } else if state.slots.is_some() && state.slots().len() != n {
            Some(InitRefusal::CountChanged(state.slots().len()))
        } else {
            None
        }
    }

    /// The number of workers to start.
    fn worker_count(&self, cores: Option<usize>) -> (n: usize)
        ensures
            n == self.count(cores),
    {
        match self.num_workers {
            Some(n) => n,
            None => available_parallelism(cores),
        }
    }

    /// Install the runtime and begin to start its workers. Must be called on the **main thread**.
    ///
    /// `cores` is the number of logical cores that the machine reports, and `blob_url` makes a
    /// worker script from the path of the glue. [`Startup::proceed`] then says which workers to
    /// start.
    pub fn init<F, W, B>(
        self,
        state: &mut SharedState<F>,
        cores: Option<usize>,
        blob_url: B,
    ) -> (startup: Startup<W>) where B: FnOnce(String) -> String
        requires
            old(state).wf(),
            self.refusal(old(state)@, cores) is None,
            self.source matches Some(WorkerSource::GluePath(path)) ==> call_requires(
                blob_url,
                (path,),
            ),
        ensures
            final(state).wf(),
            final(state)@ == old(state)@.started(self.count(cores) as nat),
            startup.wf(),
            self.resolves(blob_url, startup.url),
            startup.total == self.count(cores),
            startup.workers@.len() == 0,
            startup.phase is Begin,
    {
        let n: usize = self.worker_count(cores);
        // The worker URL first, so that nothing is half done if there is none.
        let ghost builder = self;
        let url: String = match self.source {
            Some(WorkerSource::GluePath(path)) => blob_url(path),
            Some(WorkerSource::WorkerUrl(url)) => url,
            None => String::new(),
        };
        assert(builder.resolves(blob_url, url));
        // The first call sizes the slots. A restart reuses them, after clearing what the previous
        // run left.
        if state.slots.is_none() {
            assert(state@.idle =~= Set::<u32>::empty());
            size_slots(state, n);
        } else {
            clear_runtime_state(state);
        }
        state.state = Lifecycle::Running;
        Startup { url, total: n, workers: Vec::new(), phase: StartPhase::Begin }
    }
}

/// Give the runtime `n` fresh slots, a main slot and an injector.
fn size_slots<F>(state: &mut SharedState<F>, n: usize)
    requires
        !old(state)@.sized,
        old(state).slots is None && old(state).main_slot is None && old(state).injector is None,
        old(state)@.idle == Set::<u32>::empty(),
        n <= MAX_WORKERS,
    ensures
        final(state).wf(),
        final(state)@ == old(state)@.sized_for(n as nat),
{
    let mut slots: Vec<Slot<F>> = Vec::new();
    while slots.len() < n
        invariant
            slots@.len() <= n,
            forall|i: int|
                0 <= i < slots@.len() ==> (#[trigger] slots@[i]).wf() && slots@[i]@
                    == SlotView::<F>::fresh(),
        decreases n - slots@.len(),
    {
        slots.push(Slot::new());
    }
    state.slots = Some(slots);
    state.injector = Some(StealQueue::new());
    state.main_slot = Some(Slot::new());
    assert(state@ =~= old(state)@.sized_for(n as nat));
}

/// A share of a worker's load, held for as long as a pinned future lives. A future that never ends
/// never gives it back, which reflects that it occupies its worker for good.
pub struct LoadGuard {
    worker: u32,
}

impl LoadGuard {
    /// The worker whose load this is a share of.
    pub closed spec fn holder(self) -> u32 {
        self.worker
    }

    /// The worker whose load this is a share of.
    pub fn worker(&self) -> (worker: u32)
        ensures
            worker == self.holder(),
    {
        self.worker
    }

    /// Give the share back: the future has completed, or was dropped.
    pub fn release<F>(self, state: &mut SharedState<F>)
        requires
            old(state).wf(),
            old(state)@.has_worker(self.holder()),
        ensures
            final(state).wf(),
            final(state)@ == old(state)@.unloaded(self.holder()),
    {
        let slot = state.slot_for_mut(self.worker);
        slot.load.0 = slot.load.0.wrapping_sub(1);
    }
}

/// Whether `build` makes `thunk` from the sender of a channel for one result, whose other half is
/// `rx`, and a share of worker `w`'s load.
pub open spec fn built_for<T, F, B: FnOnce(Sender<T>, LoadGuard) -> F>(
    build: B,
    w: u32,
    rx: Receiver<T>,
    thunk: F,
) -> bool {
    exists|tx: Sender<T>, guard: LoadGuard|
        {
            &&& is_result_channel(tx, rx)
            &&& guard.holder() == w
            &&& #[trigger] call_ensures(build, (tx, guard), thunk)
        }
}

/// Whether `build` makes `made` from the sender of a channel for one result, whose other half is
/// `rx`.
pub open spec fn built_from<T, R, B: FnOnce(Sender<T>) -> R>(
    build: B,
    rx: Receiver<T>,
    made: R,
) -> bool {
    exists|tx: Sender<T>|
        is_result_channel(tx, rx) && #[trigger] call_ensures(build, (tx,), made)
}

/// Place pinned work on the least-loaded worker, which will own it forever. `build` makes its thunk
/// from the sender of its result and its share of that worker's load.
pub fn place_local<F, T, B>(state: &mut SharedState<F>, build: B) -> (handle: WorkerHandle<
    T,
>) where B: FnOnce(Sender<T>, LoadGuard) -> F
    requires
        old(state).wf(),
        old(state)@.slots.len() > 0,
        forall|tx: Sender<T>, guard: LoadGuard| #[trigger] call_requires(build, (tx, guard)),
    ensures
        final(state).wf(),
        handle.received() is None,
        exists|w: u32, pending: PendingSpawn<F>|
            {
                &&& old(state)@.least_loaded(w)
                &&& built_for::<T, F, B>(build, w, handle.channel(), pending.thunk())
                &&& final(state)@ == #[trigger] old(state)@.placed(w, pending)
            },
{
    let (tx, rx): (Sender<T>, Receiver<T>) = result_channel();
    let w: u32 = pick_worker(state);
    let slot = state.slot_for_mut(w);
    slot.load.0 = slot.load.0.wrapping_add(1);
    let guard = LoadGuard { worker: w };
    let thunk = build(tx, guard);
    let pending = PendingSpawn::new(thunk);
    assert(built_for::<T, F, B>(build, w, rx, pending.thunk()));
    let slot = state.slot_for_mut(w);
    slot.incoming.push_back(pending);
    notify_worker(state, w);
    assert(state@ =~= old(state)@.placed(w, pending));
    WorkerHandle::new(rx)
}

/// Place pinned work on the **main thread**. This is the way to main-thread-only work from a
/// worker. `build` makes its thunk from the sender of its result.
pub fn on_main<F, T, B>(state: &mut SharedState<F>, build: B) -> (handle: WorkerHandle<
    T,
>) where B: FnOnce(Sender<T>) -> F
    requires
        old(state).wf(),
        old(state)@.sized,
        forall|tx: Sender<T>| #[trigger] call_requires(build, (tx,)),
    ensures
        final(state).wf(),
        handle.received() is None,
        exists|pending: PendingSpawn<F>|
            {
                &&& built_from::<T, F, B>(build, handle.channel(), pending.thunk())
                &&& final(state)@ == #[trigger] old(state)@.placed_on_main(pending)
            },
{
    let (tx, rx): (Sender<T>, Receiver<T>) = result_channel();
    let thunk = build(tx);
    let pending = PendingSpawn::new(thunk);
    assert(built_from::<T, F, B>(build, rx, pending.thunk()));
    state.slot_for_mut(MAIN_ID).incoming.push_back(pending);
    notify_worker(state, MAIN_ID);
    assert(state@ =~= old(state)@.placed_on_main(pending));
    WorkerHandle::new(rx)
}

/// Put a task on the work-stealing track. `build` makes it from the sender of its result.
pub fn place_stealable<F, W, T, B>(
    state: &mut SharedState<F>,
    thread: &ThreadState<W>,
    build: B,
) -> (handle: WorkerHandle<T>) where B: FnOnce(Sender<T>) -> Steal
    requires
        old(state).wf(),
        old(state)@.sized,
        old(state)@.knows(thread@.raw()),
        forall|tx: Sender<T>| #[trigger] call_requires(build, (tx,)),
    ensures
        final(state).wf(),
        handle.received() is None,
        exists|runnable: Steal, ptr: StealPtr|
            {
                &&& #[trigger] built_from::<T, Steal, B>(build, handle.channel(), runnable)
                &&& lies_at(runnable, ptr.0)
                &&& (#[trigger] old(state)@.with_stealable(thread@.raw(), ptr)).woke_one(
                    final(state)@,
                )
            },
{
    let (tx, rx): (Sender<T>, Receiver<T>) = result_channel();
    let runnable = build(tx);
    assert(built_from::<T, Steal, B>(build, rx, runnable));
    schedule_stealable(state, thread, runnable);
    WorkerHandle::new(rx)
}

/// Spawn work on the **pinned track**: on the least-loaded worker, which runs it to completion.
///
/// Prefer this over [`spawn_stealable`] for I/O and CPU-light workloads.
pub fn spawn<M, F, S: Spawn<M, F>>(state: &mut SharedState<F>, work: S) -> (handle: WorkerHandle<
    S::Value,
>)
    requires
        old(state).wf(),
        old(state)@.slots.len() > 0,
    ensures
        final(state).wf(),
        handle.received() is None,
        exists|w: u32, pending: PendingSpawn<F>, tx: Sender<S::Value>, guard: LoadGuard|
            {
                &&& old(state)@.least_loaded(w)
                &&& is_result_channel(tx, handle.channel())
                &&& guard.holder() == w
                &&& #[trigger] call_ensures(S::into_thunk, (work, tx, guard), pending.thunk())
                &&& final(state)@ == #[trigger] old(state)@.placed(w, pending)
            },
{
    let build = |tx: Sender<S::Value>, guard: LoadGuard| -> (thunk: F)
        ensures
            call_ensures(S::into_thunk, (work, tx, guard), thunk),
        { work.into_thunk(tx, guard) };
    place_local(state, build)
}

/// Spawn work on the **work-stealing track**. Prefer this for CPU-heavy work that has to be
/// balanced.
pub fn spawn_stealable<M, F, W, S: SpawnStealable<M>>(
    state: &mut SharedState<F>,
    thread: &ThreadState<W>,
    work: S,
) -> (handle: WorkerHandle<S::Value>)
    requires
        old(state).wf(),
        old(state)@.sized,
        old(state)@.knows(thread@.raw()),
    ensures
        final(state).wf(),
        handle.received() is None,
        exists|runnable: Steal, tx: Sender<S::Value>, ptr: StealPtr|
            {
                &&& is_result_channel(tx, handle.channel())
                &&& #[trigger] call_ensures(S::into_runnable, (work, tx), runnable)
                &&& lies_at(runnable, ptr.0)
                &&& (#[trigger] old(state)@.with_stealable(thread@.raw(), ptr)).woke_one(
                    final(state)@,
                )
            },
{
    let build = |tx: Sender<S::Value>| -> (runnable: Steal)
        ensures
            call_ensures(S::into_runnable, (work, tx), runnable),
        { work.into_runnable(tx) };
    place_stealable(state, thread, build)
}

/// Pick the least-loaded worker for the next pinned placement, the first of several.
pub fn pick_worker<F>(state: &SharedState<F>) -> (w: u32)
    requires
        state.wf(),
        state@.slots.len() > 0,
    ensures
        state@.least_loaded(w),
{
    let slots = state.slots();
    let n: usize = slots.len();
    let mut best: usize = 0;
    let mut i: usize = 1;
    while i < n
        invariant
            n == slots@.len(),
            n == state@.slots.len(),
            n <= MAX_WORKERS,
            forall|j: int| 0 <= j < n ==> (#[trigger] slots@[j])@ == state@.slots[j],
            best < i <= n,
            forall|j: int|
                0 <= j < i ==> state@.slots[best as int].load <= (#[trigger] state@.slots[j]).load,
            forall|j: int|
                0 <= j < best ==> state@.slots[best as int].load
                    < (#[trigger] state@.slots[j]).load,
        decreases n - i,
    {
        assert(slots@[i as int]@ == state@.slots[i as int]);
        assert(slots@[best as int]@ == state@.slots[best as int]);
        if slots[i].load.0 < slots[best].load.0 {
            best = i;
        }
        i = i + 1;
    }
    best as u32
}

/// Signal all threads to stop and move the runtime to [`Lifecycle::Shutdown`]. A runtime that is
/// not initialized is left alone. For the main thread only.
///
/// The embedder then waits until [`quiesced`] and terminates the workers that
/// [`ThreadState::take_workers`] hands out. A later [`init`](WebbleBuilder::init) restarts the
/// runtime.
pub fn shutdown<F>(state: &mut SharedState<F>)
    requires
        old(state).wf(),
    ensures
        final(state).wf(),
        final(state)@ == old(state)@.shut_down(),
{
    if matches!(state.lifecycle(), Lifecycle::Uninit) {
        return;
    }
    // The shutdown is stored before any busy flag is read.
    state.state = Lifecycle::Shutdown;
    if state.slots.is_none() {
        return;
    }
    let n: usize = state.slots().len();
    let mut i: usize = 0;
    while i < n
        invariant
            state.wf(),
            n <= MAX_WORKERS,
            0 <= i <= n,
            old(state)@.sized,
            n == old(state)@.slots.len(),
            state@ == (SharedView {
                lifecycle: Lifecycle::Shutdown,
                slots: Seq::new(
                    n as nat,
                    |j: int|
                        if j < i {
                            old(state)@.slots[j].bumped()
                        } else {
                            old(state)@.slots[j]
                        },
                ),
                wakes: old(state)@.wakes + Seq::new(i as nat, |j: int| j as u32),
                ..old(state)@
            }),
        decreases n - i,
    {
        let ghost before = state@;
        notify_worker(state, i as u32);
        i = i + 1;
        assert(state@ =~= (SharedView {
            lifecycle: Lifecycle::Shutdown,
            slots: Seq::new(
                n as nat,
                |j: int|
                    if j < i {
                        old(state)@.slots[j].bumped()
                    } else {
                        old(state)@.slots[j]
                    },
            ),
            wakes: old(state)@.wakes + Seq::new(i as nat, |j: int| j as u32),
            ..old(state)@
        }));
    }
    // The main loop too, so that it sees the shutdown and stops.
    notify_worker(state, MAIN_ID);
    assert(state@ =~= old(state)@.shut_down());
}

/// Whether a shutdown that has looked at the busy flags `looks` times before may terminate the
/// workers: none is inside a drain, or the wait has been long enough. Workers settle quickly; the
/// bound keeps one that is stuck in a task from holding the shutdown up.
pub fn quiesced<F>(state: &SharedState<F>, looks: u32) -> (done: bool)
    requires
        state.wf(),
    ensures
        done == state@.may_terminate(looks),
{
    if looks >= QUIESCE_SPINS || state.slots.is_none() {
        return true;
    }
    let slots = state.slots();
    let n: usize = slots.len();
    let mut i: usize = 0;
    while i < n
        invariant
            n == slots@.len(),
            n == state@.slots.len(),
            forall|j: int| 0 <= j < n ==> (#[trigger] slots@[j])@ == state@.slots[j],
            forall|j: int| 0 <= j < i ==> !(#[trigger] state@.slots[j]).busy,
            i <= n,
        decreases n - i,
    {
        assert(slots@[i as int]@ == state@.slots[i as int]);
        if slots[i].busy.0 {
            return looks >= QUIESCE_SPINS;
        }
        i = i + 1;
    }
    true
}

/// The number of live workers in the runtime, or 0 when not [`Running`](Lifecycle::Running).
pub fn num_workers<F>(state: &SharedState<F>) -> (n: usize)
    requires
        state.wf(),
    ensures
        n == state@.live_workers(),
{
    if matches!(state.lifecycle(), Lifecycle::Running) {
        state.slots().len()
    } else {
        0
    }
}

/// [`num_tasks_waiting`], or `None` if the number is too large to be written down.
pub fn checked_num_tasks_waiting<F>(state: &SharedState<F>) -> (n: Option<usize>)
    requires
        state.wf(),
        state@.sized,
    ensures
        n matches Some(n) ==> n == state@.waiting(),
        n is Some <==> state@.waiting() <= usize::MAX,
{
    let slots = state.slots();
    let len: usize = slots.len();
    let mut waiting: usize = 0;
    let mut i: usize = 0;
    while i < len
        invariant
            len == slots@.len(),
            len == state@.slots.len(),
            forall|j: int|
                0 <= j < len ==> (#[trigger] slots@[j]).wf() && slots@[j]@ == state@.slots[j],
            0 <= i <= len,
            waiting == state@.waiting_at(i as int),
        decreases len - i,
    {
        assert(slots@[i as int]@ == state@.slots[i as int]);
        proof {
            lemma_waiting_at_grows(state@, i + 1, len as int);
        }
        waiting = match waiting.checked_add(slots[i].incoming.len()) {
            Some(sum) => match sum.checked_add(slots[i].local.len()) {
                Some(sum) => sum,
                None => return None,
            },
            None => return None,
        };
        i = i + 1;
    }
    waiting.checked_add(state.injector().len())
}

/// What waits at the first workers is part of what waits at all.
proof fn lemma_waiting_at_grows<F>(shared: SharedView<F>, k: int, n: int)
    requires
        0 <= k <= n,
    ensures
        shared.waiting_at(k) <= shared.waiting_at(n),
    decreases n,
{
    if k < n {
        lemma_waiting_at_grows(shared, k, n - 1);
    }
}

/// The number of tasks not currently being worked on (pinned placements and stealable work).
pub fn num_tasks_waiting<F>(state: &SharedState<F>) -> (n: usize)
    requires
        state.wf(),
        state@.sized,
        state@.waiting() <= usize::MAX,
    ensures
        n == state@.waiting(),
{
    checked_num_tasks_waiting(state).unwrap()
}

/// The current runtime [`Lifecycle`].
pub fn lifecycle<F>(state: &SharedState<F>) -> (lifecycle: Lifecycle)
    ensures
        lifecycle == state@.lifecycle,
{
    state.lifecycle()
}

/// Whether the runtime has been shut down (i.e. [`lifecycle`] is [`Lifecycle::Shutdown`]).
pub fn is_shutdown<F>(state: &SharedState<F>) -> (shutdown: bool)
    ensures
        shutdown == (state@.lifecycle is Shutdown),
{
    state.is_shutdown()
}

/// The number of logical cores available: what the machine reports, clamped to at least 1, or 4 if
/// it reports nothing.
pub fn available_parallelism(cores: Option<usize>) -> (n: usize)
    ensures
        n == parallelism(cores),
        n >= 1,
{
    match cores {
        Some(n) if n > 0 => n,
        Some(_) => 1,
        None => 4,
    }
}

} // verus!
