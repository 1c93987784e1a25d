//! What each thread of the runtime keeps to itself.

use std::collections::VecDeque;

use vstd::prelude::*;

use crate::state::{PinnedPtr, MAIN_ID};

verus! {

/// A thread of the runtime.
///
/// Every thread that takes part has an identity: the main thread (the one that called `init`,
/// which runs [`on_main`](crate::pool::on_main) work) and each worker.
#[derive(Clone, Copy, PartialEq, Eq, Structural, Debug, Hash)]
pub enum ThreadId {
    /// The main thread.
    Main,
    /// Worker number `0..num_workers`.
    Worker(u32),
}

impl ThreadId {
    /// The scheduling id: a worker index, or [`MAIN_ID`] for the main thread.
    pub open spec fn raw(self) -> u32 {
        match self {
            ThreadId::Main => MAIN_ID,
            ThreadId::Worker(i) => i,
        }
    }

    /// The scheduling id: a worker index, or [`MAIN_ID`] for the main thread.
    pub fn to_raw(self) -> (raw: u32)
        ensures
            raw == self.raw(),
    {
        match self {
            ThreadId::Main => MAIN_ID,
            ThreadId::Worker(i) => i,
        }
    }
}

/// A worker of the runtime and the embedder's handle to it.
pub struct ThreadWorker<W> {
    /// The worker's index.
    pub id: u32,
    /// The embedder's handle.
    pub inner: W,
}

impl<W> ThreadWorker<W> {
    /// The worker's index.
    pub fn id(&self) -> (id: u32)
        ensures
            id == self.id,
    {
        self.id
    }
}

/// A job that the embedder is to put on the thread's microtask queue.
#[derive(Clone, Copy, PartialEq, Eq, Structural, Debug)]
pub enum Microtask {
    /// Run the pinned tasks that [`drain_microtasks`](crate::exec::drain_microtasks) hands out.
    DrainPinned,
    /// Call [`fire_rearm`](crate::exec::fire_rearm).
    Rearm,
}

/// The pinned tasks that wait for this thread's next microtask.
pub struct Micro {
    /// The tasks, oldest first.
    pub pending: VecDeque<PinnedPtr>,
    /// Whether a microtask that drains them has been asked for and has not run yet.
    pub scheduled: bool,
}

/// The state of one thread. No other thread looks at it.
pub struct ThreadState<W> {
    /// Which thread of the runtime this is, if it is one.
    pub thread: Option<ThreadId>,
    /// The pinned tasks woken here.
    pub micro: Micro,
    /// The microtasks that the embedder has yet to queue, oldest first.
    pub microtasks: Vec<Microtask>,
    /// The workers that this thread started. Only the main thread starts any.
    pub workers: Vec<ThreadWorker<W>>,
}

/// What a [`ThreadState`] holds.
#[verifier::ext_equal]
pub struct ThreadView<W> {
    /// Which thread of the runtime this is.
    pub thread: Option<ThreadId>,
    /// The pinned tasks woken here, oldest first.
    pub pending: Seq<PinnedPtr>,
    /// Whether a microtask that drains them is on its way.
    pub scheduled: bool,
    /// The microtasks still to be queued, oldest first.
    pub microtasks: Seq<Microtask>,
    /// The workers that this thread started.
    pub workers: Seq<ThreadWorker<W>>,
}

impl<W> View for ThreadState<W> {
    type V = ThreadView<W>;

    open spec fn view(&self) -> ThreadView<W> {
        ThreadView {
            thread: self.thread,
            pending: self.micro.pending@,
            scheduled: self.micro.scheduled,
            microtasks: self.microtasks@,
            workers: self.workers@,
        }
    }
}

impl<W> ThreadView<W> {
    /// The worker index of this thread.
    pub open spec fn worker(self) -> Option<u32> {
        match self.thread {
            Some(ThreadId::Worker(i)) => Some(i),
            _ => None,
        }
    }

    /// The scheduling id of this thread.
    pub open spec fn raw(self) -> Option<u32> {
        match self.thread {
            Some(thread) => Some(thread.raw()),
            None => None,
        }
    }

    /// With a pinned task added for the next microtask, which is asked for unless it already was.
    pub open spec fn with_pinned(self, ptr: PinnedPtr) -> Self {
        ThreadView {
            pending: self.pending.push(ptr),
            scheduled: true,
            microtasks: if self.scheduled {
                self.microtasks
            } else {
                self.microtasks.push(Microtask::DrainPinned)
            },
            ..self
        }
    }

    /// With the waiting pinned tasks handed out and no microtask for them on its way.
    pub open spec fn drained(self) -> Self {
        ThreadView { pending: Seq::empty(), scheduled: false, ..self }
    }

    /// With a deferred wake of this thread asked for.
    pub open spec fn rearmed(self) -> Self {
        ThreadView { microtasks: self.microtasks.push(Microtask::Rearm), ..self }
    }
}

impl<W> ThreadState<W> {
    /// The state of a thread that the runtime does not know.
    pub fn new() -> (state: Self)
        ensures
            state@ == (ThreadView::<W> {
                thread: None,
                pending: Seq::empty(),
                scheduled: false,
                microtasks: Seq::empty(),
                workers: Seq::empty(),
            }),
    {
        ThreadState {
            thread: None,
            micro: Micro { pending: VecDeque::new(), scheduled: false },
            microtasks: Vec::new(),
            workers: Vec::new(),
        }
    }

    /// Hand out the microtasks to be queued, in order, and forget them.
    pub fn take_microtasks(&mut self) -> (microtasks: Vec<Microtask>)
        ensures
            microtasks@ == old(self)@.microtasks,
            final(self)@ == (ThreadView { microtasks: Seq::empty(), ..old(self)@ }),
    {
        let mut microtasks: Vec<Microtask> = Vec::new();
        core::mem::swap(&mut microtasks, &mut self.microtasks);
        microtasks
    }

    /// Hand out the workers that this thread started, in the order of their ids, and forget them.
    /// The embedder terminates them.
    pub fn take_workers(&mut self) -> (workers: Vec<ThreadWorker<W>>)
        ensures
            workers@ == old(self)@.workers,
            final(self)@ == (ThreadView { workers: Seq::empty(), ..old(self)@ }),
    {
        let mut workers: Vec<ThreadWorker<W>> = Vec::new();
        core::mem::swap(&mut workers, &mut self.workers);
        workers
    }
}

/// Record which thread of the runtime the current thread is. Called on each drain entry.
///
/// A thread usually keeps one identity, and then this changes nothing after the first call. A
/// thread that plays several takes the last one given.
pub fn set_thread_id<W>(state: &mut ThreadState<W>, thread: ThreadId)
    ensures
        final(state)@ == (ThreadView { thread: Some(thread), ..old(state)@ }),
{
    state.thread = Some(thread);
}

/// The current thread, or `None` if it is not part of the runtime (e.g. before `init`).
pub fn current_thread<W>(state: &ThreadState<W>) -> (thread: Option<ThreadId>)
    ensures
        thread == state@.thread,
{
    state.thread
}

/// The current **worker index**, or `None` on the main thread or off the runtime. Use
/// [`current_thread`] to tell these two apart.
pub fn thread_id<W>(state: &ThreadState<W>) -> (id: Option<u32>)
    ensures
        id == state@.worker(),
{
    match current_thread(state) {
        Some(ThreadId::Worker(i)) => Some(i),
        _ => None,
    }
}

/// The scheduling id (worker index or [`MAIN_ID`]) of the current thread. The schedulers use it to
/// decide whether a task can run here.
pub fn current_raw<W>(state: &ThreadState<W>) -> (raw: Option<u32>)
    ensures
        raw == state@.raw(),
{
    match current_thread(state) {
        Some(thread) => Some(thread.to_raw()),
        None => None,
    }
}

} // verus!
