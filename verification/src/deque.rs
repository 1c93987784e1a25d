//! The work-stealing queues of `crossbeam_deque`, and what this crate relies on of them.
//!
//! `crossbeam_deque` lets many threads work on one queue. Here each queue has one owner at a time:
//! [`LocalDeque`] and [`StealQueue`] keep the outside queue private and change it only through
//! `&mut`, so the contracts below describe calls that no other thread interferes with.

use crossbeam_deque::{Injector, Steal, Worker};
use vstd::prelude::*;

verus! {

/// A stealable, `Send` task: the address of its runnable. Any worker may run it.
#[derive(Clone, Copy, PartialEq, Eq, Structural, Debug)]
pub struct StealPtr(pub u32);

/// `crossbeam_deque::Worker`, the owner half of a worker queue.
#[verifier::external_type_specification]
#[verifier::external_body]
#[verifier::reject_recursive_types(T)]
pub struct ExWorker<T>(crossbeam_deque::Worker<T>);

/// `crossbeam_deque::Injector`, a shared first-in first-out queue.
#[verifier::external_type_specification]
#[verifier::external_body]
#[verifier::reject_recursive_types(T)]
pub struct ExInjector<T>(crossbeam_deque::Injector<T>);

/// What a worker queue holds, from the end that thieves take from to the end that its owner
/// pushes to.
pub uninterp spec fn deque_contents(worker: Worker<StealPtr>) -> Seq<StealPtr>;

/// Whether a worker queue was made by `Worker::new_lifo` and no `Stealer` of it is alive.
pub uninterp spec fn deque_is_private(worker: Worker<StealPtr>) -> bool;

/// What an injector holds, oldest first.
pub uninterp spec fn injector_contents(injector: Injector<StealPtr>) -> Seq<StealPtr>;

/// The outcome of one attempt to steal.
#[derive(Clone, Copy, PartialEq, Eq, Structural, Debug)]
pub enum StealOutcome {
    /// There was nothing to steal.
    Empty,
    /// One task was handed out.
    Success(StealPtr),
    /// The attempt lost a race, or failed spuriously, and changed nothing.
    Retry,
}

/// What one successful steal from a sibling does: `moved` tasks change queues and the next is
/// handed out.
pub open spec fn sibling_stolen(
    victim: Seq<StealPtr>,
    dest: Seq<StealPtr>,
    moved: int,
    outcome: StealOutcome,
    victim_after: Seq<StealPtr>,
    dest_after: Seq<StealPtr>,
) -> bool {
    &&& 0 <= moved < victim.len()
    &&& outcome == StealOutcome::Success(victim[moved])
    &&& victim_after == victim.skip(moved + 1)
    &&& dest_after == dest + victim.take(moved)
}

/// What one successful steal from the injector does: the oldest task is handed out and the
/// `moved` tasks behind it go to the thief, who will pop them oldest first.
pub open spec fn injector_stolen(
    injector: Seq<StealPtr>,
    dest: Seq<StealPtr>,
    moved: int,
    outcome: StealOutcome,
    injector_after: Seq<StealPtr>,
    dest_after: Seq<StealPtr>,
) -> bool {
    &&& 0 <= moved < injector.len()
    &&& outcome == StealOutcome::Success(injector[0])
    &&& injector_after == injector.skip(1 + moved)
    &&& dest_after == dest + injector.subrange(1, 1 + moved).reverse()
}

/// `Worker::new_lifo`: an empty queue that its owner pushes to and pops from at the same end.
#[verifier::external_body]
fn deque_new() -> (worker: Worker<StealPtr>)
    ensures
        deque_is_private(worker),
        deque_contents(worker) == Seq::<StealPtr>::empty(),
{
    Worker::new_lifo()
}

/// `Worker::push`: the task goes to the owner's end.
#[verifier::external_body]
fn deque_push(worker: &mut Worker<StealPtr>, ptr: StealPtr)
    requires
        deque_is_private(*old(worker)),
    ensures
        deque_is_private(*final(worker)),
        deque_contents(*final(worker)) == deque_contents(*old(worker)).push(ptr),
{
    worker.push(ptr)
}

/// `Worker::pop`: the task that was pushed last, if there is one.
#[verifier::external_body]
fn deque_pop(worker: &mut Worker<StealPtr>) -> (popped: Option<StealPtr>)
    requires
        deque_is_private(*old(worker)),
    ensures
        deque_is_private(*final(worker)),
        deque_contents(*old(worker)).len() == 0 ==> {
            &&& popped is None
            &&& deque_contents(*final(worker)) == deque_contents(*old(worker))
        },
        deque_contents(*old(worker)).len() > 0 ==> {
            &&& popped == Some(deque_contents(*old(worker)).last())
            &&& deque_contents(*final(worker)) == deque_contents(*old(worker)).drop_last()
        },
{
    worker.pop()
}

/// `Worker::is_empty`.
#[verifier::external_body]
fn deque_is_empty(worker: &Worker<StealPtr>) -> (empty: bool)
    requires
        deque_is_private(*worker),
    ensures
        empty == (deque_contents(*worker).len() == 0),
{
    worker.is_empty()
}

/// `Stealer::len`: the number of tasks in the queue.
#[verifier::external_body]
fn deque_len(worker: &Worker<StealPtr>) -> (len: usize)
    requires
        deque_is_private(*worker),
    ensures
        len == deque_contents(*worker).len(),
{
    worker.stealer().len()
}

/// `Stealer::steal_batch_and_pop` between two last-in first-out queues.
///
/// Tasks leave `victim` at the end that its owner does not use. All but the last of them go to
/// the owner's end of `dest` in that order, and the last is handed out. How many they are is not
/// specified. Neither queue is shared, so no attempt is lost to another thread.
#[verifier::external_body]
fn deque_steal(victim: &mut Worker<StealPtr>, dest: &mut Worker<StealPtr>) -> (outcome:
    StealOutcome)
    requires
        deque_is_private(*old(victim)),
        deque_is_private(*old(dest)),
    ensures
        deque_is_private(*final(victim)),
        deque_is_private(*final(dest)),
        deque_contents(*old(victim)).len() == 0 ==> {
            &&& outcome == StealOutcome::Empty
            &&& deque_contents(*final(victim)) == deque_contents(*old(victim))
            &&& deque_contents(*final(dest)) == deque_contents(*old(dest))
        },
        deque_contents(*old(victim)).len() > 0 ==> exists|moved: int| #[trigger]
            sibling_stolen(
                deque_contents(*old(victim)),
                deque_contents(*old(dest)),
                moved,
                outcome,
                deque_contents(*final(victim)),
                deque_contents(*final(dest)),
            ),
{
    match victim.stealer().steal_batch_and_pop(dest) {
        Steal::Empty => StealOutcome::Empty,
        Steal::Success(ptr) => StealOutcome::Success(ptr),
        Steal::Retry => StealOutcome::Retry,
    }
}

/// `Injector::new`: an empty queue.
#[verifier::external_body]
fn injector_new() -> (injector: Injector<StealPtr>)
    ensures
        injector_contents(injector) == Seq::<StealPtr>::empty(),
{
    Injector::new()
}

/// `Injector::push`: the task goes behind all others.
#[verifier::external_body]
fn injector_push(injector: &mut Injector<StealPtr>, ptr: StealPtr)
    ensures
        injector_contents(*final(injector)) == injector_contents(*old(injector)).push(ptr),
{
    injector.push(ptr)
}

/// `Injector::is_empty`.
#[verifier::external_body]
fn injector_is_empty(injector: &Injector<StealPtr>) -> (empty: bool)
    ensures
        empty == (injector_contents(*injector).len() == 0),
{
    injector.is_empty()
}

/// `Injector::len`: the number of tasks in the queue.
#[verifier::external_body]
fn injector_len(injector: &Injector<StealPtr>) -> (len: usize)
    ensures
        len == injector_contents(*injector).len(),
{
    injector.len()
}

/// `Injector::steal_batch_and_pop` into a last-in first-out queue.
///
/// The oldest task is handed out. Some of the tasks behind it, how many is not specified, go to
/// the owner's end of `dest`, the youngest first, so that `dest` pops them oldest first. The
/// attempt may fail spuriously (`Retry`), and then changes nothing.
#[verifier::external_body]
fn injector_steal(injector: &mut Injector<StealPtr>, dest: &mut Worker<StealPtr>) -> (outcome:
    StealOutcome)
    requires
        deque_is_private(*old(dest)),
    ensures
        deque_is_private(*final(dest)),
        outcome == StealOutcome::Empty <==> injector_contents(*old(injector)).len() == 0,
        outcome is Success ==> exists|moved: int| #[trigger]
            injector_stolen(
                injector_contents(*old(injector)),
                deque_contents(*old(dest)),
                moved,
                outcome,
                injector_contents(*final(injector)),
                deque_contents(*final(dest)),
            ),
        outcome !is Success ==> {
            &&& injector_contents(*final(injector)) == injector_contents(*old(injector))
            &&& deque_contents(*final(dest)) == deque_contents(*old(dest))
        },
{
    match injector.steal_batch_and_pop(dest) {
        Steal::Empty => StealOutcome::Empty,
        Steal::Success(ptr) => StealOutcome::Success(ptr),
        Steal::Retry => StealOutcome::Retry,
    }
}

/// Whether a call of `Injector::steal_batch_and_pop` on an injector that held `queue`, for a worker
/// whose own queue held `dest`, came to `outcome`.
pub closed spec fn attempted(
    queue: Seq<StealPtr>,
    dest: Seq<StealPtr>,
    outcome: StealOutcome,
) -> bool {
    exists|q: &mut Injector<StealPtr>, d: &mut Worker<StealPtr>|
        {
            &&& #[trigger] call_ensures(injector_steal, (q, d), outcome)
            &&& injector_contents(*q) == queue
            &&& deque_contents(*d) == dest
        }
}

/// An attempt that is said to be made was made by `Injector::steal_batch_and_pop`, on queues that
/// held just that, and it finds an injector empty exactly if it is.
proof fn law_attempt_is_made(queue: Seq<StealPtr>, dest: Seq<StealPtr>, outcome: StealOutcome)
    requires
        attempted(queue, dest, outcome),
    ensures
        exists|q: &mut Injector<StealPtr>, d: &mut Worker<StealPtr>|
            {
                &&& #[trigger] call_ensures(injector_steal, (q, d), outcome)
                &&& injector_contents(*q) == queue
                &&& deque_contents(*d) == dest
            },
        outcome == StealOutcome::Empty <==> queue.len() == 0,
{
}

/// A worker's own queue of stealable tasks. The worker pushes and pops at one end, and its
/// siblings steal from the other.
pub struct LocalDeque {
    worker: Worker<StealPtr>,
}

impl View for LocalDeque {
    type V = Seq<StealPtr>;

    closed spec fn view(&self) -> Seq<StealPtr> {
        deque_contents(self.worker)
    }
}

impl LocalDeque {
    /// The queue is a last-in first-out queue that nothing else has a handle on.
    pub closed spec fn wf(&self) -> bool {
        deque_is_private(self.worker)
    }

    /// An empty queue.
    pub fn new() -> (deque: Self)
        ensures
            deque.wf(),
            deque@ == Seq::<StealPtr>::empty(),
    {
        LocalDeque { worker: deque_new() }
    }

    /// Add a task at the owner's end.
    pub fn push(&mut self, ptr: StealPtr)
        requires
            old(self).wf(),
        ensures
            final(self).wf(),
            final(self)@ == old(self)@.push(ptr),
    {
        deque_push(&mut self.worker, ptr)
    }

    /// Take the task that was added last.
    pub fn pop(&mut self) -> (popped: Option<StealPtr>)
        requires
            old(self).wf(),
        ensures
            final(self).wf(),
            popped == if old(self)@.len() == 0 {
                None
            } else {
                Some(old(self)@.last())
            },
            final(self)@ == if old(self)@.len() == 0 {
                old(self)@
            } else {
                old(self)@.drop_last()
            },
    {
        deque_pop(&mut self.worker)
    }

    /// Whether there is no task.
    pub fn is_empty(&self) -> (empty: bool)
        requires
            self.wf(),
        ensures
            empty == (self@.len() == 0),
    {
        deque_is_empty(&self.worker)
    }

    /// The number of tasks.
    pub fn len(&self) -> (len: usize)
        requires
            self.wf(),
        ensures
            len == self@.len(),
    {
        deque_len(&self.worker)
    }

    /// Steal a batch for `dest` and hand one task of it out.
    pub fn steal_batch_and_pop(&mut self, dest: &mut LocalDeque) -> (outcome: StealOutcome)
        requires
            old(self).wf(),
            old(dest).wf(),
        ensures
            final(self).wf(),
            final(dest).wf(),
            outcome == StealOutcome::Empty <==> old(self)@.len() == 0,
            outcome !is Retry,
            outcome is Empty ==> final(self)@ == old(self)@ && final(dest)@ == old(dest)@,
            outcome is Success ==> exists|moved: int|
                #[trigger] sibling_stolen(
                    old(self)@,
                    old(dest)@,
                    moved,
                    outcome,
                    final(self)@,
                    final(dest)@,
                ),
    {
        let outcome = deque_steal(&mut self.worker, &mut dest.worker);
        assert(old(self)@ == deque_contents(old(self).worker) && self@ == deque_contents(
            self.worker,
        ));
        assert(old(dest)@ == deque_contents(old(dest).worker) && dest@ == deque_contents(
            dest.worker,
        ));
        outcome
    }
}

/// The queue of stealable tasks that belong to no worker, first in, first out.
pub struct StealQueue {
    injector: Injector<StealPtr>,
}

impl View for StealQueue {
    type V = Seq<StealPtr>;

    closed spec fn view(&self) -> Seq<StealPtr> {
        injector_contents(self.injector)
    }
}

impl StealQueue {
    /// An empty queue.
    pub fn new() -> (queue: Self)
        ensures
            queue@ == Seq::<StealPtr>::empty(),
    {
        StealQueue { injector: injector_new() }
    }

    /// Add a task behind all others.
    pub fn push(&mut self, ptr: StealPtr)
        ensures
            final(self)@ == old(self)@.push(ptr),
    {
        injector_push(&mut self.injector, ptr)
    }

    /// Whether there is no task.
    pub fn is_empty(&self) -> (empty: bool)
        ensures
            empty == (self@.len() == 0),
    {
        injector_is_empty(&self.injector)
    }

    /// The number of tasks.
    pub fn len(&self) -> (len: usize)
        ensures
            len == self@.len(),
    {
        injector_len(&self.injector)
    }

    /// Steal a batch for `dest` and hand its oldest task out.
    pub fn steal_batch_and_pop(&mut self, dest: &mut LocalDeque) -> (outcome: StealOutcome)
        requires
            old(dest).wf(),
        ensures
            final(dest).wf(),
            attempted(old(self)@, old(dest)@, outcome),
            outcome == StealOutcome::Empty <==> old(self)@.len() == 0,
            outcome !is Success ==> final(self)@ == old(self)@ && final(dest)@ == old(dest)@,
            outcome is Success ==> exists|moved: int|
                #[trigger] injector_stolen(
                    old(self)@,
                    old(dest)@,
                    moved,
                    outcome,
                    final(self)@,
                    final(dest)@,
                ),
    {
        let outcome = injector_steal(&mut self.injector, &mut dest.worker);
        assert(old(self)@ == injector_contents(old(self).injector) && self@ == injector_contents(
            self.injector,
        ));
        assert(old(dest)@ == deque_contents(old(dest).worker) && dest@ == deque_contents(
            dest.worker,
        ));
        outcome
    }
}

} // verus!
