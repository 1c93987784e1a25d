//! The handle through which a task's result comes back.

use async_channel::{Receiver, RecvError, TryRecvError};
use vstd::prelude::*;

use crate::channel::looked;

verus! {

/// A handle to the result of a spawned task. Looking at it never blocks.
#[verifier::reject_recursive_types(T)]
pub struct WorkerHandle<T> {
    rx: Receiver<T>,
    result: Option<T>,
}

impl<T> WorkerHandle<T> {
    /// The channel that the result comes through.
    pub closed spec fn channel(self) -> Receiver<T> {
        self.rx
    }

    /// The result, if it was received and has not been taken.
    pub closed spec fn received(self) -> Option<T> {
        self.result
    }

    /// Whether one look at the channel came to `output`: the message that was there, or `None`.
    pub open spec fn brings(self, output: Option<T>) -> bool {
        exists|received: Result<T, TryRecvError>| #[trigger]
            looked(self.channel(), received) && output == brought(received)
    }

    /// A handle to the result that comes through `rx`.
    pub fn new(rx: Receiver<T>) -> (handle: Self)
        ensures
            handle.channel() == rx,
            handle.received() is None,
    {
        WorkerHandle { rx, result: None }
    }

    /// Take a result off the channel, if one is there. A result that [`try_recv`](Self::try_recv)
    /// already received stays where it is.
    pub fn check_release(&mut self) -> (output: Option<T>)
        ensures
            *final(self) == *old(self),
            old(self).brings(output),
    {
        let received = self.rx.try_recv();
        assert(looked(old(self).channel(), received));
        released(received)
    }

    /// The result, if there is one yet. Once there is, it stays.
    pub fn try_recv(&mut self) -> (result: Option<&T>)
        ensures
            final(self).channel() == old(self).channel(),
            old(self).received() is Some ==> final(self).received() == old(self).received(),
            old(self).received() is None ==> old(self).brings(final(self).received()),
            result == match final(self).received() {
                Some(value) => Some(&value),
                None => None,
            },
    {
        if self.result.is_none() {
            let received = self.rx.try_recv();
            assert(looked(self.rx, received));
            self.keep(released(received));
        }
        self.result.as_ref()
    }

    /// The result, if there is one.
    pub fn into_inner(self) -> (result: Option<T>)
        ensures
            self.received() is Some ==> result == self.received(),
            self.received() is None ==> self.brings(result),
    {
        let mut handle = self;
        if handle.result.is_none() {
            let received = handle.rx.try_recv();
            assert(looked(self.rx, received));
            handle.keep(released(received));
        }
        handle.result
    }

    /// Keep what a look at the channel brought, unless a result is already there.
    pub fn keep(&mut self, received: Option<T>)
        ensures
            final(self).channel() == old(self).channel(),
            final(self).received() == kept(old(self).received(), received),
    {
        if self.result.is_none() {
            self.result = received;
        }
    }

    /// Begin to wait for the result: either it was received already, or it is still to come through
    /// the channel. Waiting is the embedder's; [`completed`] says what its outcome means.
    pub fn recv(self) -> (reception: Reception<T>)
        ensures
            reception == match self.received() {
                Some(value) => Reception::Ready(value),
                None => Reception::Pending(self.channel()),
            },
    {
        match self.result {
            Some(value) => Reception::Ready(value),
            None => Reception::Pending(self.rx),
        }
    }
}

/// What a look that came to `received` brings.
pub open spec fn brought<T, E>(received: Result<T, E>) -> Option<T> {
    match received {
        Ok(value) => Some(value),
        Err(_) => None,
    }
}

/// What a handle holds that held `held` and to which a look brought `received`.
pub open spec fn kept<T>(held: Option<T>, received: Option<T>) -> Option<T> {
    if held is Some {
        held
    } else {
        received
    }
}

/// The first half of waiting for a result.
#[verifier::reject_recursive_types(T)]
pub enum Reception<T> {
    /// The result.
    Ready(T),
    /// The channel to receive it from.
    Pending(Receiver<T>),
}

/// What a look at the channel of a handle came to: `None` while there is no result.
pub fn released<T>(received: Result<T, TryRecvError>) -> (output: Option<T>)
    ensures
        output == brought(received),
{
    match received {
        Ok(value) => Some(value),
        Err(_) => None,
    }
}

/// What a receive on the channel of a handle came to: `None` if the task was dropped before it
/// produced a result.
pub fn completed<T>(received: Result<T, RecvError>) -> (result: Option<T>)
    ensures
        result == brought(received),
{
    match received {
        Ok(value) => Some(value),
        Err(_) => None,
    }
}

} // verus!
