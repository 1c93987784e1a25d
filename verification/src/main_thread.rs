//! The main thread's part in the pinned track.

use vstd::prelude::*;

use crate::exec::{pop_incoming, pop_ready};
use crate::state::{Lifecycle, SharedState, SharedView, MAIN_ID};
use crate::thread::{set_thread_id, ThreadId, ThreadState, ThreadView};
use crate::worker::DrainAction;

verus! {

/// How far a drain of the main thread has come.
#[derive(Clone, Copy, PartialEq, Eq, Structural, Debug)]
pub enum MainPhase {
    /// To run the pinned tasks that workers handed back.
    Ready,
    /// To take the `on_main` work newly placed.
    Incoming,
    /// Over.
    Done,
}

impl<F> SharedView<F> {
    /// One step of the main thread's drain.
    pub open spec fn main_stepped(
        self,
        phase: MainPhase,
        action: DrainAction<F>,
        next: MainPhase,
        after: Self,
    ) -> bool {
        match phase {
            MainPhase::Ready => if self.main.ready.len() > 0 {
                &&& after == self.ready_popped(MAIN_ID)
                &&& action == DrainAction::<F>::RunPinned(self.main.ready[0])
                &&& next == MainPhase::Ready
            } else {
                &&& after == self
                &&& action == DrainAction::<F>::Continue
                &&& next == MainPhase::Incoming
            },
            MainPhase::Incoming => if self.main.incoming.len() > 0 {
                &&& after == self.incoming_popped(MAIN_ID)
                &&& action == DrainAction::<F>::RunPending(self.main.incoming[0])
                &&& next == MainPhase::Incoming
            } else {
                &&& after == self
                &&& action == DrainAction::<F>::Return(true)
                &&& next == MainPhase::Done
            },
            MainPhase::Done => {
                &&& after == self
                &&& action == DrainAction::<F>::Return(true)
                &&& next == MainPhase::Done
            },
        }
    }
}

/// Make the current thread the main thread of the runtime. Its loop, which the embedder runs, then
/// begins with a tick.
pub fn start_main_loop<W>(thread: &mut ThreadState<W>)
    ensures
        final(thread)@ == (ThreadView { thread: Some(ThreadId::Main), ..old(thread)@ }),
{
    set_thread_id(thread, ThreadId::Main);
}

/// One step of draining the main thread's pinned work: first the tasks woken on other threads, then
/// newly placed [`on_main`](crate::pool::on_main) work. The main thread never runs stealable work
/// (it must not stall the page) and has no idle bit.
pub fn drain_main<F>(phase: &mut MainPhase, state: &mut SharedState<F>) -> (action: DrainAction<F>)
    requires
        old(state).wf(),
        old(state)@.sized,
    ensures
        final(state).wf(),
        old(state)@.main_stepped(*old(phase), action, *final(phase), final(state)@),
{
    match *phase {
        MainPhase::Ready => {
            match pop_ready(state, MAIN_ID) {
                Some(ptr) => DrainAction::RunPinned(ptr),
                None => {
                    *phase = MainPhase::Incoming;
                    DrainAction::Continue
                },
            }
        },
        MainPhase::Incoming => {
            match pop_incoming(state, MAIN_ID) {
                Some(pending) => DrainAction::RunPending(pending),
                None => {
                    *phase = MainPhase::Done;
                    DrainAction::Return(true)
                },
            }
        },
        MainPhase::Done => DrainAction::Return(true),
    }
}

/// What a tick of the main loop does once it has read the notify word.
#[derive(Clone, Copy, PartialEq, Eq, Structural, Debug)]
pub enum Tick {
    /// End the loop.
    Stop,
    /// Drain, and then wait for the word to differ from this value.
    Drain(i32),
}

/// The outcome of asking for an asynchronous wait.
#[derive(Clone, Copy, PartialEq, Eq, Structural, Debug)]
pub enum Wait {
    /// The call failed.
    Failed,
    /// The call answered. `Some(true)`: it waits, and its promise resolves on a notification.
    /// `Some(false)`: the word had already changed. `None`: it said neither.
    Answered(Option<bool>),
}

/// How the main loop comes to its next tick.
#[derive(Clone, Copy, PartialEq, Eq, Structural, Debug)]
pub enum Reentry {
    /// It does not.
    Stop,
    /// When the promise of the wait resolves.
    OnNotify,
    /// At once, off a promise that is already resolved (never by a call from within the tick).
    AtOnce,
}

/// What a tick of the main loop does that read `seen` while the runtime was in `lifecycle`.
pub open spec fn tick_for(lifecycle: Lifecycle, seen: Option<i32>) -> Tick {
    match seen {
        Some(seen) if !(lifecycle is Shutdown) => Tick::Drain(seen),
        _ => Tick::Stop,
    }
}

/// How the main loop goes on after a call that waits came to `wait`.
pub open spec fn reentry_after(wait: Wait) -> Reentry {
    match wait {
        Wait::Failed => Reentry::Stop,
        Wait::Answered(Some(true)) => Reentry::OnNotify,
        Wait::Answered(_) => Reentry::AtOnce,
    }
}

/// The first half of a tick of the main loop. `seen` is the notify word, or `None` if it could not
/// be read.
///
/// The word is read **before** the drain: if a producer bumps it while the drain is under way, the
/// wait that follows does not begin, and the loop drains again.
pub fn main_loop_tick<F>(state: &SharedState<F>, seen: Option<i32>) -> (tick: Tick)
    ensures
        tick == tick_for(state@.lifecycle, seen),
{
    match seen {
        Some(seen) => {
            if state.is_shutdown() {
                return Tick::Stop;
            }
            Tick::Drain(seen)
        },
        None => Tick::Stop,
    }
}

/// The second half of a tick of the main loop, after the drain and the call that waits.
pub fn main_loop_park(wait: Wait) -> (reentry: Reentry)
    ensures
        reentry == reentry_after(wait),
{
    match wait {
        Wait::Failed => Reentry::Stop,
        Wait::Answered(Some(true)) => Reentry::OnNotify,
        Wait::Answered(_) => Reentry::AtOnce,
    }
}

} // verus!
