//! The runnables of `async_task`, and what this crate relies on of them.

use async_task::Runnable;
use vstd::prelude::*;

verus! {

/// A schedulable, thread-pinned task. Its metadata is the id of the thread that owns it.
pub type Run = async_task::Runnable<u32>;

/// A schedulable, stealable task. It has no owner, so any worker may run it.
pub type Steal = async_task::Runnable<()>;

/// `async_task::Runnable`, a handle to a task that is ready to be polled.
#[verifier::external_type_specification]
#[verifier::external_body]
#[verifier::reject_recursive_types(M)]
pub struct ExRunnable<M>(async_task::Runnable<M>);

/// The metadata that a pinned task was built with: the id of the thread that owns it.
pub uninterp spec fn runnable_owner(runnable: Runnable<u32>) -> u32;

/// `Runnable::metadata`: the metadata that the task was built with.
#[verifier::external_body]
pub(crate) fn owner_of(runnable: &Runnable<u32>) -> (owner: u32)
    ensures
        owner == runnable_owner(*runnable),
{
    *runnable.metadata()
}

/// `Runnable::into_raw`: the address of the task. Where a task lies is up to the allocator, so
/// nothing is claimed of it.
#[verifier::external_body]
fn into_address<M>(runnable: Runnable<M>) -> (address: u32) {
    runnable.into_raw().as_ptr().expose_provenance() as u32
}

/// Whether `address` is what `Runnable::into_raw` made of `runnable`.
pub closed spec fn lies_at<M>(runnable: Runnable<M>, address: u32) -> bool {
    call_ensures(into_address::<M>, (runnable,), address)
}

/// An address that a runnable is said to lie at came out of `Runnable::into_raw` on that runnable.
proof fn law_address_is_the_runnables<M>(runnable: Runnable<M>, address: u32)
    requires
        lies_at(runnable, address),
    ensures
        call_ensures(into_address::<M>, (runnable,), address),
{
}

/// Give a runnable up for its address.
pub(crate) fn address_of<M>(runnable: Runnable<M>) -> (address: u32)
    ensures
        lies_at(runnable, address),
{
    into_address(runnable)
}

} // verus!
