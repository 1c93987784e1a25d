//! The channels of `async_channel` that carry a task's result, and what this crate relies on of
//! them.

use async_channel::{Receiver, Sender, TryRecvError};
use vstd::prelude::*;

verus! {

/// `async_channel::Sender`, the half of a channel that messages go into.
#[verifier::external_type_specification]
#[verifier::external_body]
#[verifier::reject_recursive_types(T)]
pub struct ExSender<T>(async_channel::Sender<T>);

/// `async_channel::Receiver`, the half of a channel that messages come out of.
#[verifier::external_type_specification]
#[verifier::external_body]
#[verifier::reject_recursive_types(T)]
pub struct ExReceiver<T>(async_channel::Receiver<T>);

/// `async_channel::TryRecvError`: the channel is empty, or empty and closed.
#[verifier::external_type_specification]
#[verifier::external_body]
pub struct ExTryRecvError(async_channel::TryRecvError);

/// `async_channel::RecvError`: the channel is empty and closed.
#[verifier::external_type_specification]
#[verifier::external_body]
pub struct ExRecvError(async_channel::RecvError);

/// `async_channel::bounded`: the two halves of a new channel that holds up to `cap` messages. What
/// a receiver gets depends on what other threads send, so nothing more is claimed of the pair. A
/// capacity of zero panics.
pub assume_specification<T>[ async_channel::bounded::<T> ](cap: usize) -> (halves: (
    Sender<T>,
    Receiver<T>,
))
    requires
        cap > 0,
;

/// `Receiver::try_recv`: a message if one is there. Whether one is, and which, is up to the
/// sender's thread, so nothing is claimed of it.
pub assume_specification<T>[ Receiver::<T>::try_recv ](rx: &Receiver<T>) -> (received: Result<
    T,
    TryRecvError,
>);

/// Whether `tx` and `rx` are the two halves of one channel for one message, as a call of
/// `async_channel::bounded` made them.
pub open spec fn is_result_channel<T>(tx: Sender<T>, rx: Receiver<T>) -> bool {
    call_ensures(async_channel::bounded::<T>, (1usize,), (tx, rx))
}

/// Whether a call of `Receiver::try_recv` on `rx` came to `received`.
pub open spec fn looked<T>(rx: Receiver<T>, received: Result<T, TryRecvError>) -> bool {
    call_ensures(Receiver::<T>::try_recv, (&rx,), received)
}

/// Whether a call of `Sender::try_send` on `tx` with `message` came to `sent`, a refused message
/// being handed back.
pub closed spec fn offered<T>(tx: Sender<T>, message: T, sent: Result<(), T>) -> bool {
    call_ensures(channel_try_send::<T>, (&tx, message), sent)
}

/// `Sender::try_send`: a message that the channel does not take is handed back. Whether it takes
/// it is up to the receiver's thread.
#[verifier::external_body]
fn channel_try_send<T>(tx: &Sender<T>, message: T) -> (sent: Result<(), T>)
    ensures
        sent matches Err(refused) ==> refused == message,
{
    match tx.try_send(message) {
        Ok(()) => Ok(()),
        Err(refused) => Err(refused.into_inner()),
    }
}

/// A message that is said to be offered went into `Sender::try_send` on that sender, and one that
/// comes back is that message.
proof fn law_offer_is_made<T>(tx: Sender<T>, message: T, sent: Result<(), T>)
    requires
        offered(tx, message, sent),
    ensures
        call_ensures(channel_try_send::<T>, (&tx, message), sent),
        sent matches Err(refused) ==> refused == message,
{
}

/// A channel for the one result of a task.
pub(crate) fn result_channel<T>() -> (halves: (Sender<T>, Receiver<T>))
    ensures
        is_result_channel(halves.0, halves.1),
{
    async_channel::bounded(1)
}

/// Send a task's result to its handle. A handle that is gone, or that has been sent a result
/// before, takes none: the result is then handed back.
pub fn deliver<T>(tx: &Sender<T>, result: T) -> (refused: Option<T>)
    ensures
        refused is Some ==> refused == Some(result),
        exists|sent: Result<(), T>| #[trigger]
            offered(*tx, result, sent) && refused == match sent {
                Ok(()) => None,
                Err(message) => Some(message),
            },
{
    let sent = channel_try_send(tx, result);
    assert(offered(*tx, result, sent));
    match sent {
        Ok(()) => None,
        Err(refused) => Some(refused),
    }
}

} // verus!
