//! Everything that an embedder needs, in one place.

pub use crate::channel::deliver;
pub use crate::deque::{LocalDeque, StealPtr, StealQueue};
pub use crate::exec::{
    __notify_index, drain_microtasks, fire_rearm, idle_clear, idle_set, notify_worker, rearm_self,
    schedule, schedule_stealable, try_schedule,
};
pub use crate::handle::{completed, Reception, WorkerHandle};
pub use crate::main_thread::{
    drain_main, main_loop_park, main_loop_tick, MainPhase, Reentry, Tick, Wait,
};
pub use crate::pool::{
    available_parallelism, builder, checked_num_tasks_waiting, is_shutdown, lifecycle,
    num_tasks_waiting, num_workers, on_main, place_local, place_stealable, quiesced, shutdown,
    spawn, spawn_stealable, InitRefusal, LoadGuard, StartAction, StartEvent, StartPhase, Startup,
    WebbleBuilder, WorkerSource,
};
pub use crate::spawn::{AsyncFnMarker, ClosureMarker, FutureMarker, Spawn, SpawnStealable};
pub use crate::state::{
    Lifecycle, Padded, PendingSpawn, PinnedPtr, SharedState, Slot, MAIN_ID, MAX_WORKERS,
    WORD_STRIDE,
};
pub use crate::task::{Run, Steal};
pub use crate::thread::{
    current_thread, thread_id, Microtask, ThreadId, ThreadState, ThreadWorker,
};
pub use crate::worker::{__worker_drain, Drain, DrainAction};
