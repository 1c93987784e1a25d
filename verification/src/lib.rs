//! The scheduler of webble, an async multithreaded runtime for the web.
//!
//! A runtime has one main thread and up to 32 workers, and runs work on two tracks:
//!
//! - **pinned** work ([`spawn`], [`on_main`]) is placed on the least-loaded worker, or on the main
//!   thread, and runs there and nowhere else;
//! - **stealable** work ([`spawn_stealable`]) waits in the queue of the worker that produced it, or
//!   in a common injector, and may move to another worker on every wake.
//!
//! The crate holds all decisions: where work goes, who is woken for it, what a worker runs next,
//! when it may park, how a shutdown finds the workers at a safe point, and what a restart keeps. It
//! does not touch the browser. Every function takes the state that it works on, one
//! [`SharedState`](state::SharedState) for all threads and one [`ThreadState`](thread::ThreadState)
//! for each, and leaves in it what the embedder has to do: waiters to wake
//! ([`take_wakes`](state::SharedState::take_wakes)), microtasks to queue
//! ([`take_microtasks`](thread::ThreadState::take_microtasks)), workers to terminate
//! ([`take_workers`](thread::ThreadState::take_workers)). Loops that run tasks or start workers are
//! cut into steps ([`__worker_drain`](worker::__worker_drain),
//! [`drain_main`](main_thread::drain_main), [`Startup::proceed`](pool::Startup::proceed)), so that
//! the embedder acts while no state is borrowed, and other threads run between any two steps.
//!
//! What one call does is stated in its contract. What each operation owes, of the fields of the
//! state, is stated in [`effects`], what holds across calls in [`laws`], and what holds however the
//! threads' steps interleave in [`protocol`].
//!
//! Three outside crates take part: `crossbeam_deque` (see [`deque`]), `async_task` (see [`task`])
//! and `async_channel` (see [`channel`]). Those modules say what is relied on of them.

pub mod bitmask;
pub mod channel;
pub mod deque;
pub mod effects;
pub mod exec;
pub mod handle;
pub mod laws;
pub mod main_thread;
pub mod pool;
pub mod prelude;
pub mod protocol;
pub mod spawn;
pub mod state;
pub mod task;
pub mod thread;
pub mod worker;

pub use crate::pool::{
    available_parallelism, builder, is_shutdown, lifecycle, num_tasks_waiting, num_workers,
    on_main, place_local, place_stealable, shutdown, spawn, spawn_stealable, WebbleBuilder,
};
