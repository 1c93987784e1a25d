//! Work that can be spawned.

use async_channel::Sender;
use vstd::prelude::*;

use crate::pool::LoadGuard;
use crate::task::Steal;

verus! {

/// Marks work that is a closure, run to completion.
pub struct ClosureMarker;

/// Marks work that is a future.
pub struct FutureMarker;

/// Marks work that is a closure that makes a future.
pub struct AsyncFnMarker;

/// Work for the pinned track of a runtime whose thunks are `F`. The marker `M` lets one type be
/// work in several ways.
pub trait Spawn<M, F>: Sized {
    /// What the work results in.
    type Value;

    /// The thunk that runs the work on the worker that takes it. It sends the result through `tx`
    /// and keeps `guard` for as long as the work lives.
    fn into_thunk(self, tx: Sender<Self::Value>, guard: LoadGuard) -> F;
}

/// Work for the stealing track.
pub trait SpawnStealable<M>: Sized {
    /// What the work results in.
    type Value;

    /// The task that does the work and sends the result through `tx`.
    fn into_runnable(self, tx: Sender<Self::Value>) -> Steal;
}

} // verus!
