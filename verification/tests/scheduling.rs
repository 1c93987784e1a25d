//! Single calls of the scheduler on states made by hand.

use webble::channel::deliver;
use webble::deque::{LocalDeque, StealOutcome, StealPtr, StealQueue};
use webble::exec::{
    drain_microtasks, enqueue_stealable, fire_rearm, idle_clear, idle_set, notify_worker,
    push_microtask, push_stealable, rearm_self, route_pinned, schedule, schedule_stealable,
    try_schedule, wake_one, wake_one_of,
};
use webble::handle::{completed, released, Reception, WorkerHandle};
use webble::main_thread::{
    drain_main, main_loop_park, main_loop_tick, start_main_loop, MainPhase, Reentry, Tick, Wait,
};
use webble::pool::{
    checked_num_tasks_waiting, pick_worker, quiesced, InitRefusal, LoadGuard, StartAction,
    StartEvent, StartPhase, WebbleBuilder, WorkerSource, QUIESCE_SPINS,
};
use webble::spawn::{AsyncFnMarker, ClosureMarker, FutureMarker, Spawn, SpawnStealable};
use webble::state::{
    clear_runtime_state, Lifecycle, Padded, PendingSpawn, PinnedPtr, SharedState, Slot, MAIN_ID,
    MAX_WORKERS,
};
use webble::task::{Run, Steal};
use webble::thread::{
    current_raw, current_thread, set_thread_id, thread_id, Microtask, ThreadId, ThreadState,
};
use webble::worker::{
    __worker_drain, find_stealable_work, steal_injected, Drain, DrainAction, DrainPhase, Search,
};

type Thunk = Box<dyn FnOnce(u32)>;

/// Initialize a runtime, each worker started by `start`.
fn init<W, E>(
    builder: WebbleBuilder,
    state: &mut SharedState<Thunk>,
    thread: &mut ThreadState<W>,
    cores: Option<usize>,
    mut start: impl FnMut(&str, u32) -> Result<W, E>,
) -> Result<(), E> {
    let mut startup = builder.init(state, cores, |path| format!("blob of {path}"));
    let mut event = StartEvent::Begin;
    loop {
        match startup.proceed(state, thread, event) {
            StartAction::Start(id) => {
                event = match start(&startup.url, id) {
                    Ok(worker) => StartEvent::Started(worker),
                    Err(e) => StartEvent::Failed(e),
                };
            }
            StartAction::Finished => return Ok(()),
            StartAction::Failed(e) => return Err(e),
        }
    }
}

fn running(n: usize) -> SharedState<Thunk> {
    let mut state = SharedState::new();
    let mut thread: ThreadState<u32> = ThreadState::new();
    let builder = webble::builder()
        .workers(n)
        .worker_url(String::from("https://example.org/worker.js"));
    let outcome: Result<(), ()> = init(builder, &mut state, &mut thread, None, |_, id| Ok(id));
    assert!(outcome.is_ok());
    state
}

fn thread_of(thread: ThreadId) -> ThreadState<u32> {
    let mut state = ThreadState::new();
    set_thread_id(&mut state, thread);
    state
}

fn pinned_task(owner: u32) -> Run {
    let (runnable, task) = async_task::Builder::new()
        .metadata(owner)
        .spawn(|_| std::future::ready(()), |_: Run| {});
    task.detach();
    runnable
}

fn stealable_task() -> Steal {
    let (runnable, task) = async_task::spawn(std::future::ready(()), |_: Steal| {});
    task.detach();
    runnable
}

fn contents(deque: &mut LocalDeque) -> Vec<u32> {
    let mut popped = Vec::new();
    while let Some(ptr) = deque.pop() {
        popped.push(ptr.0);
    }
    popped
}

#[test]
fn a_local_deque_is_last_in_first_out() {
    let mut deque = LocalDeque::new();
    assert!(deque.is_empty());
    assert_eq!(deque.len(), 0);
    assert_eq!(deque.pop(), None);
    for i in 1..=3 {
        deque.push(StealPtr(i));
    }
    assert!(!deque.is_empty());
    assert_eq!(deque.len(), 3);
    assert_eq!(deque.pop(), Some(StealPtr(3)));
    assert_eq!(deque.pop(), Some(StealPtr(2)));
    assert_eq!(deque.len(), 1);
    assert_eq!(deque.pop(), Some(StealPtr(1)));
    assert_eq!(deque.pop(), None);
}

#[test]
fn thieves_take_the_oldest_tasks_of_a_sibling() {
    let mut victim = LocalDeque::new();
    let mut dest = LocalDeque::new();
    assert_eq!(victim.steal_batch_and_pop(&mut dest), StealOutcome::Empty);
    dest.push(StealPtr(100));
    for i in 0..10 {
        victim.push(StealPtr(i));
    }
    let outcome = victim.steal_batch_and_pop(&mut dest);
    let StealOutcome::Success(StealPtr(taken)) = outcome else {
        panic!("nothing was stolen");
    };
    // All up to the one handed out changed queues, in their order.
    let mut expected: Vec<u32> = (0..taken).rev().collect();
    expected.push(100);
    assert_eq!(contents(&mut dest), expected);
    let rest: Vec<u32> = (taken + 1..10).rev().collect();
    assert_eq!(contents(&mut victim), rest);
}

#[test]
fn the_injector_is_first_in_first_out() {
    let mut queue = StealQueue::new();
    let mut dest = LocalDeque::new();
    assert!(queue.is_empty());
    assert_eq!(queue.steal_batch_and_pop(&mut dest), StealOutcome::Empty);
    for i in 0..10 {
        queue.push(StealPtr(i));
    }
    assert_eq!(queue.len(), 10);
    let mut seen = Vec::new();
    loop {
        match queue.steal_batch_and_pop(&mut dest) {
            StealOutcome::Success(StealPtr(ptr)) => {
                seen.push(ptr);
                seen.append(&mut contents(&mut dest));
            }
            StealOutcome::Retry => {}
            StealOutcome::Empty => break,
        }
    }
    assert_eq!(seen, (0..10).collect::<Vec<u32>>());
    assert_eq!(queue.len(), 0);
}

#[test]
fn a_fresh_state_is_uninitialized() {
    let mut state: SharedState<Thunk> = SharedState::new();
    assert_eq!(webble::lifecycle(&state), Lifecycle::Uninit);
    assert!(!webble::is_shutdown(&state));
    assert_eq!(webble::num_workers(&state), 0);
    assert!(!state.has_slot(0));
    assert!(!state.has_slot(MAIN_ID));
    // A shutdown does nothing.
    webble::shutdown(&mut state);
    assert_eq!(webble::lifecycle(&state), Lifecycle::Uninit);
    assert!(state.take_wakes().is_empty());
    assert!(quiesced(&state, 0));
}

#[test]
fn the_builder_keeps_what_it_was_given() {
    let builder = webble::builder();
    assert!(builder.num_workers.is_none());
    assert!(builder.source.is_none());
    let builder = builder.glue_path(String::from("/app.js")).workers(3);
    assert_eq!(builder.num_workers, Some(3));
    assert!(matches!(&builder.source, Some(WorkerSource::GluePath(p)) if p == "/app.js"));
    let builder = builder.worker_url(String::from("w.js"));
    assert!(matches!(&builder.source, Some(WorkerSource::WorkerUrl(u)) if u == "w.js"));
    assert_eq!(builder.num_workers, Some(3));
}

#[test]
fn init_is_refused() {
    let fresh: SharedState<Thunk> = SharedState::new();
    let url = || String::from("w.js");
    assert_eq!(
        webble::builder().worker_url(url()).workers(33).check(&fresh, None),
        Some(InitRefusal::TooManyWorkers)
    );
    assert_eq!(
        webble::builder().worker_url(url()).check(&fresh, Some(64)),
        Some(InitRefusal::TooManyWorkers)
    );
    assert_eq!(
        webble::builder().worker_url(url()).workers(MAX_WORKERS).check(&fresh, None),
        None
    );
    assert_eq!(
        webble::builder().worker_url(url()).check(&fresh, Some(0)),
        None
    );
    // A reported count of zero stands for one core.
    let one = running(1);
    assert_eq!(
        webble::builder().worker_url(url()).check(&one, Some(0)),
        Some(InitRefusal::AlreadyRunning)
    );
    let mut stopped = running(1);
    webble::shutdown(&mut stopped);
    assert_eq!(
        webble::builder().worker_url(url()).check(&stopped, Some(0)),
        None
    );
    assert_eq!(
        webble::builder().workers(2).check(&fresh, None),
        Some(InitRefusal::NoSource)
    );
    let mut state = running(2);
    assert_eq!(
        webble::builder().worker_url(url()).workers(2).check(&state, None),
        Some(InitRefusal::AlreadyRunning)
    );
    webble::shutdown(&mut state);
    assert_eq!(
        webble::builder().worker_url(url()).workers(3).check(&state, None),
        Some(InitRefusal::CountChanged(2))
    );
    assert_eq!(
        webble::builder().worker_url(url()).workers(2).check(&state, None),
        None
    );
}

#[test]
fn init_starts_the_workers_in_order() {
    let mut state: SharedState<Thunk> = SharedState::new();
    let mut thread: ThreadState<String> = ThreadState::new();
    let builder = webble::builder().glue_path(String::from("/app.js"));
    let mut asked = Vec::new();
    let outcome: Result<(), ()> = init(builder, &mut state, &mut thread, Some(3), |url, id| {
        asked.push(id);
        Ok(format!("{id} from {url}"))
    });
    assert_eq!(asked, vec![0, 1, 2]);
    assert_eq!(outcome, Ok(()));
    assert_eq!(webble::num_workers(&state), 3);
    assert_eq!(current_thread(&thread), Some(ThreadId::Main));
    let workers = thread.take_workers();
    for (i, worker) in workers.iter().enumerate() {
        assert_eq!(worker.id(), i as u32);
        assert_eq!(worker.inner, format!("{i} from blob of /app.js"));
    }
    assert_eq!(workers.len(), 3);
    assert!(thread.take_workers().is_empty());
}

#[test]
fn a_failed_init_can_be_retried() {
    let mut state: SharedState<Thunk> = SharedState::new();
    let mut thread: ThreadState<u32> = ThreadState::new();
    let builder = || webble::builder().worker_url(String::from("w.js")).workers(4);
    let mut asked = Vec::new();
    let outcome = init(builder(), &mut state, &mut thread, None, |url, id| {
        assert_eq!(url, "w.js");
        asked.push(id);
        if id < 2 {
            Ok(id)
        } else {
            Err(format!("no worker {id}"))
        }
    });
    assert_eq!(asked, vec![0, 1, 2]);
    assert_eq!(outcome, Err(String::from("no worker 2")));
    assert_eq!(webble::lifecycle(&state), Lifecycle::Uninit);
    assert_eq!(webble::num_workers(&state), 0);
    assert_eq!(current_thread(&thread), None);
    assert!(thread.workers.is_empty());
    assert_eq!(builder().check(&state, None), None);
    let outcome: Result<(), ()> = init(builder(), &mut state, &mut thread, None, |_, id| Ok(id));
    assert_eq!(outcome, Ok(()));
    assert_eq!(webble::num_workers(&state), 4);
}

#[test]
fn a_start_is_over_when_it_says_so() {
    let mut state: SharedState<Thunk> = SharedState::new();
    let mut thread: ThreadState<u32> = ThreadState::new();
    let builder = webble::builder().worker_url(String::from("w.js")).workers(1);
    let mut startup = builder.init(&mut state, None, |path| path);
    assert_eq!(startup.phase, StartPhase::Begin);
    assert_eq!(startup.total, 1);
    assert_eq!(webble::lifecycle(&state), Lifecycle::Running);
    let begin: StartEvent<u32, ()> = StartEvent::Begin;
    assert!(matches!(
        startup.proceed(&mut state, &mut thread, begin),
        StartAction::Start(0)
    ));
    assert_eq!(startup.phase, StartPhase::Awaiting);
    assert_eq!(current_thread(&thread), None);
    let started: StartEvent<u32, ()> = StartEvent::Started(50);
    assert!(matches!(
        startup.proceed(&mut state, &mut thread, started),
        StartAction::Finished
    ));
    assert_eq!(startup.phase, StartPhase::Over);
    assert_eq!(current_thread(&thread), Some(ThreadId::Main));
    assert_eq!(thread.workers[0].inner, 50);
}

#[test]
fn a_runtime_without_workers_still_has_a_main_thread() {
    let mut state = running(0);
    assert_eq!(webble::num_workers(&state), 0);
    assert!(state.has_slot(MAIN_ID));
    assert!(!state.has_slot(0));
    notify_worker(&mut state, MAIN_ID);
    assert_eq!(state.slot_for(MAIN_ID).notify.0, 1);
    assert_eq!(webble::num_tasks_waiting(&state), 0);
}

#[test]
fn a_shutdown_notifies_every_thread() {
    let mut state = running(3);
    push_stealable(&mut state, &thread_of(ThreadId::Main), StealPtr(8));
    webble::shutdown(&mut state);
    assert_eq!(state.take_wakes(), vec![0, 1, 2, MAIN_ID]);
    for id in [0, 1, 2, MAIN_ID] {
        assert_eq!(state.slot_for(id).notify.0, 1);
    }
    assert_eq!(state.injector().len(), 1);
    assert!(webble::is_shutdown(&state));
    assert_eq!(webble::num_workers(&state), 0);
}

#[test]
fn a_shutdown_waits_for_busy_workers_only_so_long() {
    let mut state = running(2);
    assert!(quiesced(&state, 0));
    state.slot_for_mut(1).busy.0 = true;
    assert!(!quiesced(&state, 0));
    assert!(!quiesced(&state, QUIESCE_SPINS - 1));
    assert!(quiesced(&state, QUIESCE_SPINS));
    assert_eq!(QUIESCE_SPINS, 5_000_000);
}

#[test]
fn clearing_leaves_a_fresh_state() {
    let mut state = running(2);
    {
        let slot = state.slot_for_mut(1);
        slot.ready.push_back(PinnedPtr(1));
        slot.incoming.push_back(PendingSpawn::new(Box::new(|_| {})));
        slot.local.push(StealPtr(2));
        slot.local.push(StealPtr(3));
        slot.load.0 = 7;
        slot.notify.0 = 9;
        slot.busy.0 = true;
    }
    state.slot_for_mut(MAIN_ID).ready.push_back(PinnedPtr(4));
    state.slot_for_mut(MAIN_ID).notify.0 = 5;
    push_stealable(&mut state, &thread_of(ThreadId::Main), StealPtr(5));
    idle_set(&mut state, 0);
    clear_runtime_state(&mut state);
    for id in [0, 1, MAIN_ID] {
        let slot = state.slot_for(id);
        assert!(slot.ready.is_empty() && slot.incoming.is_empty() && slot.local.is_empty());
        assert_eq!((slot.load.0, slot.notify.0, slot.busy.0), (0, 0, false));
    }
    assert!(state.injector().is_empty());
    assert_eq!(state.idle, 0);
    assert_eq!(webble::num_tasks_waiting(&state), 0);
    assert_eq!(webble::lifecycle(&state), Lifecycle::Running);
}

#[test]
fn a_fresh_slot_is_empty() {
    let slot: Slot<Thunk> = Slot::new();
    assert!(slot.ready.is_empty() && slot.incoming.is_empty() && slot.local.is_empty());
    let Padded(load) = slot.load;
    assert_eq!((load, slot.notify.0, slot.busy.0), (0, 0, false));
}

#[test]
fn pending_work_is_called_with_the_id_of_its_thread() {
    let (tx, rx) = async_channel::bounded(1);
    let pending = PendingSpawn::new(move |id: u32| {
        tx.try_send(id).unwrap();
    });
    pending.run(7);
    assert_eq!(rx.try_recv(), Ok(7));
}

#[test]
fn threads_know_who_they_are() {
    let mut thread: ThreadState<u32> = ThreadState::new();
    assert_eq!(current_thread(&thread), None);
    assert_eq!(thread_id(&thread), None);
    assert_eq!(current_raw(&thread), None);
    set_thread_id(&mut thread, ThreadId::Worker(3));
    assert_eq!(current_thread(&thread), Some(ThreadId::Worker(3)));
    assert_eq!(thread_id(&thread), Some(3));
    assert_eq!(current_raw(&thread), Some(3));
    start_main_loop(&mut thread);
    assert_eq!(current_thread(&thread), Some(ThreadId::Main));
    assert_eq!(thread_id(&thread), None);
    assert_eq!(current_raw(&thread), Some(MAIN_ID));
    assert_eq!(ThreadId::Main.to_raw(), u32::MAX);
    assert_eq!(ThreadId::Worker(31).to_raw(), 31);
}

#[test]
fn a_notify_word_wraps() {
    let mut state = running(1);
    state.slot_for_mut(0).notify.0 = u32::MAX;
    notify_worker(&mut state, 0);
    assert_eq!(state.slot_for(0).notify.0, 0);
}

#[test]
fn a_pinned_task_woken_at_home_waits_for_a_microtask() {
    let mut state = running(2);
    let mut home = thread_of(ThreadId::Worker(1));
    route_pinned(&mut state, &mut home, 1, PinnedPtr(10));
    route_pinned(&mut state, &mut home, 1, PinnedPtr(20));
    assert!(state.take_wakes().is_empty());
    assert!(state.slot_for(1).ready.is_empty());
    assert_eq!(home.take_microtasks(), vec![Microtask::DrainPinned]);
    assert_eq!(drain_microtasks(&mut home), vec![PinnedPtr(10), PinnedPtr(20)]);
    assert!(drain_microtasks(&mut home).is_empty());
    push_microtask(&mut home, PinnedPtr(30));
    assert_eq!(home.take_microtasks(), vec![Microtask::DrainPinned]);
}

#[test]
fn a_pinned_task_woken_elsewhere_is_handed_back() {
    let mut state = running(2);
    for mut thread in [
        thread_of(ThreadId::Worker(0)),
        thread_of(ThreadId::Main),
        ThreadState::new(),
    ] {
        route_pinned(&mut state, &mut thread, 1, PinnedPtr(10));
        assert!(thread.take_microtasks().is_empty());
        assert_eq!(state.slot_for_mut(1).ready.pop_front(), Some(PinnedPtr(10)));
        assert_eq!(state.take_wakes(), vec![1]);
    }
    // The main thread is an owner like any other.
    let mut worker = thread_of(ThreadId::Worker(0));
    route_pinned(&mut state, &mut worker, MAIN_ID, PinnedPtr(11));
    assert_eq!(state.slot_for_mut(MAIN_ID).ready.pop_front(), Some(PinnedPtr(11)));
    assert_eq!(state.take_wakes(), vec![MAIN_ID]);
    let mut main = thread_of(ThreadId::Main);
    route_pinned(&mut state, &mut main, MAIN_ID, PinnedPtr(12));
    assert_eq!(drain_microtasks(&mut main), vec![PinnedPtr(12)]);
}

#[test]
fn a_runnable_is_scheduled_on_its_owner() {
    let mut state = running(4);
    let mut main = thread_of(ThreadId::Main);
    schedule(&mut state, &mut main, pinned_task(3));
    assert_eq!(state.slot_for(3).ready.len(), 1);
    assert_ne!(state.slot_for(3).ready[0], PinnedPtr(0));
    assert_eq!(state.take_wakes(), vec![3]);
    let mut home = thread_of(ThreadId::Worker(2));
    schedule(&mut state, &mut home, pinned_task(2));
    assert_eq!(home.take_microtasks(), vec![Microtask::DrainPinned]);
    assert_eq!(drain_microtasks(&mut home).len(), 1);
    assert!(state.take_wakes().is_empty());
}

#[test]
fn a_runnable_without_an_owner_comes_back() {
    let mut state = running(2);
    let mut main = thread_of(ThreadId::Main);
    assert!(try_schedule(&mut state, &mut main, pinned_task(1)).is_none());
    assert_eq!(state.take_wakes(), vec![1]);
    let refused = try_schedule(&mut state, &mut main, pinned_task(2));
    assert_eq!(*refused.expect("there is no worker 2").metadata(), 2);
    assert!(state.take_wakes().is_empty());
    let mut fresh: SharedState<Thunk> = SharedState::new();
    let refused = try_schedule(&mut fresh, &mut main, pinned_task(0));
    assert!(refused.is_some());
    // On its own thread a task needs no slot.
    assert!(try_schedule(&mut fresh, &mut main, pinned_task(MAIN_ID)).is_none());
    assert_eq!(drain_microtasks(&mut main).len(), 1);
}

#[test]
fn a_stealable_task_goes_to_its_producer() {
    let mut state = running(3);
    schedule_stealable(&mut state, &thread_of(ThreadId::Worker(2)), stealable_task());
    assert_eq!(state.slot_for(2).local.len(), 1);
    assert!(state.injector().is_empty());
    schedule_stealable(&mut state, &thread_of(ThreadId::Main), stealable_task());
    schedule_stealable(&mut state, &ThreadState::<u32>::new(), stealable_task());
    assert_eq!(state.injector().len(), 2);
    assert_eq!(webble::num_tasks_waiting(&state), 3);
    assert_ne!(state.slot_for_mut(2).local.pop(), Some(StealPtr(0)));
    enqueue_stealable(&mut state, &thread_of(ThreadId::Worker(1)), StealPtr(5));
    assert_eq!(state.slot_for_mut(1).local.pop(), Some(StealPtr(5)));
    assert!(state.take_wakes().is_empty());
}

#[test]
fn the_idle_set_is_a_mask() {
    let mut state = running(32);
    for id in [0, 5, 31] {
        idle_set(&mut state, id);
    }
    assert_eq!(state.idle, 1 | 1 << 5 | 1 << 31);
    idle_set(&mut state, 5);
    idle_clear(&mut state, 0);
    idle_clear(&mut state, 7);
    assert_eq!(state.idle, 1 << 5 | 1 << 31);
    wake_one(&mut state);
    assert_eq!(state.idle, 1 << 31);
    wake_one(&mut state);
    assert_eq!(state.idle, 0);
    wake_one(&mut state);
    assert_eq!(state.take_wakes(), vec![5, 31]);
}

#[test]
fn a_claimed_worker_is_passed_over() {
    let mut state = running(4);
    state.idle = 0b1101;
    let seen = state.idle;
    // Another producer claims worker 0 first.
    wake_one(&mut state);
    wake_one_of(&mut state, seen);
    assert_eq!(state.take_wakes(), vec![0, 2]);
    assert_eq!(state.idle, 0b1000);
    // All that were seen have gone.
    wake_one_of(&mut state, 0b0111);
    assert!(state.take_wakes().is_empty());
    assert_eq!(state.idle, 0b1000);
}

#[test]
fn a_rearm_notifies_the_worker_it_runs_on() {
    let mut state = running(2);
    let mut thread = thread_of(ThreadId::Worker(1));
    rearm_self(&mut thread, 1);
    assert_eq!(thread.take_microtasks(), vec![Microtask::Rearm]);
    assert!(state.take_wakes().is_empty());
    fire_rearm(&mut state, &thread);
    assert_eq!(state.take_wakes(), vec![1]);
    fire_rearm(&mut state, &thread_of(ThreadId::Main));
    assert!(state.take_wakes().is_empty());
}

#[test]
fn a_search_turns_to_its_own_queue_first() {
    let mut state = running(3);
    state.slot_for_mut(1).local.push(StealPtr(1));
    state.slot_for_mut(1).local.push(StealPtr(2));
    state.slot_for_mut(2).local.push(StealPtr(3));
    push_stealable(&mut state, &thread_of(ThreadId::Main), StealPtr(4));
    assert_eq!(find_stealable_work(&mut state, 1), Search::Found(StealPtr(2)));
    assert_eq!(find_stealable_work(&mut state, 1), Search::Found(StealPtr(1)));
    // The next sibling, and then the injector.
    assert_eq!(find_stealable_work(&mut state, 1), Search::Found(StealPtr(3)));
    let mut found = find_stealable_work(&mut state, 1);
    while found == Search::Contended {
        found = steal_injected(&mut state, 1);
    }
    assert_eq!(found, Search::Found(StealPtr(4)));
    assert_eq!(find_stealable_work(&mut state, 1), Search::Nothing);
    assert_eq!(steal_injected(&mut state, 1), Search::Nothing);
}

#[test]
fn a_search_counts_on_from_its_worker() {
    let mut state = running(4);
    state.slot_for_mut(1).local.push(StealPtr(10));
    state.slot_for_mut(0).local.push(StealPtr(20));
    // From worker 2: 3, 0, 1.
    assert_eq!(find_stealable_work(&mut state, 2), Search::Found(StealPtr(20)));
    assert_eq!(find_stealable_work(&mut state, 2), Search::Found(StealPtr(10)));
}

#[test]
fn searches_lose_and_double_nothing() {
    let mut state = running(3);
    for i in 0..20 {
        push_stealable(&mut state, &thread_of(ThreadId::Worker(i % 3)), StealPtr(i));
        push_stealable(&mut state, &thread_of(ThreadId::Main), StealPtr(100 + i));
    }
    assert_eq!(webble::num_tasks_waiting(&state), 40);
    let mut found = Vec::new();
    let mut id: u32 = 0;
    loop {
        id = (id + 1) % 3;
        match find_stealable_work(&mut state, id) {
            Search::Found(ptr) => {
                found.push(ptr.0);
                assert_eq!(webble::num_tasks_waiting(&state), 40 - found.len());
            }
            Search::Contended => {}
            Search::Nothing => break,
        }
    }
    found.sort();
    let expected: Vec<u32> = (0..20).chain(100..120).collect();
    assert_eq!(found, expected);
}

#[test]
fn placements_spread_in_the_order_of_ids() {
    let mut state = running(3);
    let mut chosen = Vec::new();
    for _ in 0..4 {
        let w = pick_worker(&state);
        let handle: WorkerHandle<u32> =
            webble::place_local(&mut state, |_, _| -> Thunk { Box::new(|_| {}) });
        drop(handle);
        chosen.push(w);
    }
    assert_eq!(chosen, vec![0, 1, 2, 0]);
    assert_eq!(state.take_wakes(), vec![0, 1, 2, 0]);
    assert_eq!(state.slot_for(0).load.0, 2);
    assert_eq!(checked_num_tasks_waiting(&state), Some(4));
}

#[test]
fn the_least_loaded_worker_is_the_first_of_several() {
    let mut state = running(3);
    for id in 0..3 {
        state.slot_for_mut(id).load.0 = u32::MAX;
    }
    assert_eq!(pick_worker(&state), 0);
    state.slot_for_mut(1).load.0 = 4;
    state.slot_for_mut(2).load.0 = 4;
    assert_eq!(pick_worker(&state), 1);
    state.slot_for_mut(2).load.0 = 3;
    assert_eq!(pick_worker(&state), 2);
}

#[test]
fn a_share_of_the_load_is_given_back() {
    let mut state = running(2);
    state.slot_for_mut(0).load.0 = 5;
    let (give, take) = async_channel::bounded::<LoadGuard>(1);
    let _handle: WorkerHandle<u32> = webble::place_local(&mut state, |_, guard| -> Thunk {
        Box::new(move |_| {
            assert!(give.try_send(guard).is_ok());
        })
    });
    assert_eq!(state.slot_for(1).load.0, 1);
    state.slot_for_mut(1).incoming.pop_front().unwrap().run(1);
    let guard = take.try_recv().unwrap();
    assert_eq!(guard.worker(), 1);
    guard.release(&mut state);
    assert_eq!(state.slot_for(1).load.0, 0);
    assert_eq!(state.slot_for(0).load.0, 5);
}

#[test]
fn results_come_through_the_channel_of_the_handle() {
    let mut state = running(1);
    let mut handle: WorkerHandle<u32> = webble::place_local(&mut state, |tx, _| -> Thunk {
        Box::new(move |id| {
            assert_eq!(deliver(&tx, 40 + id), None);
            // A channel takes one result.
            assert_eq!(deliver(&tx, 99), Some(99));
        })
    });
    assert_eq!(handle.check_release(), None);
    assert_eq!(handle.try_recv(), None);
    state.slot_for_mut(0).incoming.pop_front().unwrap().run(2);
    assert_eq!(handle.try_recv(), Some(&42));
    assert_eq!(handle.try_recv(), Some(&42));
    // Received already, so there is nothing left on the channel.
    assert_eq!(handle.check_release(), None);
    assert!(matches!(handle.recv(), Reception::Ready(42)));
}

#[test]
fn a_result_can_be_taken_at_once() {
    let (tx, rx) = async_channel::bounded(1);
    let mut handle = WorkerHandle::new(rx);
    assert_eq!(deliver(&tx, "a"), None);
    assert_eq!(handle.check_release(), Some("a"));
    assert_eq!(handle.check_release(), None);
    assert_eq!(deliver(&tx, "b"), None);
    assert_eq!(handle.into_inner(), Some("b"));
    assert_eq!(deliver(&tx, "c"), Some("c"));
}

#[test]
fn a_task_that_is_dropped_has_no_result() {
    let (tx, rx) = async_channel::bounded::<u32>(1);
    let handle = WorkerHandle::new(rx);
    drop(tx);
    let Reception::Pending(rx) = handle.recv() else {
        panic!("nothing was received");
    };
    assert_eq!(completed(rx.recv_blocking()), None);
    assert_eq!(completed::<u32>(Ok(3)), Some(3));
    assert_eq!(released(rx.try_recv()), None);
    assert_eq!(released::<u32>(Ok(4)), Some(4));
    let (_tx, rx) = async_channel::bounded::<u32>(1);
    assert_eq!(released(rx.try_recv()), None);
    assert_eq!(WorkerHandle::new(rx).into_inner(), None);
}

#[test]
fn a_kept_result_stays() {
    let (_tx, rx) = async_channel::bounded::<u32>(1);
    let mut handle = WorkerHandle::new(rx);
    handle.keep(None);
    assert_eq!(handle.try_recv(), None);
    handle.keep(Some(1));
    handle.keep(Some(2));
    handle.keep(None);
    assert_eq!(handle.into_inner(), Some(1));
}

#[test]
fn main_work_waits_for_the_main_thread() {
    let mut state = running(1);
    let mut handle: WorkerHandle<u32> = webble::on_main(&mut state, |tx| -> Thunk {
        Box::new(move |id| {
            assert_eq!(id, MAIN_ID);
            deliver(&tx, 6);
        })
    });
    assert_eq!(state.take_wakes(), vec![MAIN_ID]);
    // It is no work of a worker's.
    assert_eq!(webble::num_tasks_waiting(&state), 0);
    state.slot_for_mut(MAIN_ID).ready.push_back(PinnedPtr(1));
    let mut phase = MainPhase::Ready;
    assert!(matches!(
        drain_main(&mut phase, &mut state),
        DrainAction::RunPinned(PinnedPtr(1))
    ));
    assert!(matches!(drain_main(&mut phase, &mut state), DrainAction::Continue));
    match drain_main(&mut phase, &mut state) {
        DrainAction::RunPending(pending) => pending.run(MAIN_ID),
        _ => panic!("the placed work comes next"),
    }
    assert!(matches!(drain_main(&mut phase, &mut state), DrainAction::Return(true)));
    assert_eq!(phase, MainPhase::Done);
    assert!(matches!(drain_main(&mut phase, &mut state), DrainAction::Return(true)));
    assert_eq!(handle.try_recv(), Some(&6));
}

#[test]
fn the_main_loop_ticks_until_a_shutdown() {
    let mut state = running(1);
    assert_eq!(main_loop_tick(&state, Some(-3)), Tick::Drain(-3));
    assert_eq!(main_loop_tick(&state, None), Tick::Stop);
    webble::shutdown(&mut state);
    assert_eq!(main_loop_tick(&state, Some(0)), Tick::Stop);
    assert_eq!(main_loop_park(Wait::Failed), Reentry::Stop);
    assert_eq!(main_loop_park(Wait::Answered(Some(true))), Reentry::OnNotify);
    assert_eq!(main_loop_park(Wait::Answered(Some(false))), Reentry::AtOnce);
    assert_eq!(main_loop_park(Wait::Answered(None)), Reentry::AtOnce);
}

#[test]
fn a_drain_goes_through_its_phases() {
    let mut state = running(1);
    let mut thread: ThreadState<u32> = ThreadState::new();
    idle_set(&mut state, 0);
    let mut drain = Drain::new(0);
    let mut phases = vec![drain.phase];
    loop {
        let action = __worker_drain(&mut drain, &mut state, &mut thread);
        phases.push(drain.phase);
        if drain.phase == DrainPhase::Recheck {
            assert!(state.slot_for(0).busy.0);
        }
        if drain.phase == DrainPhase::Ready {
            assert_eq!(state.idle, 0);
        }
        if let DrainAction::Return(answer) = action {
            assert!(answer);
            break;
        }
    }
    assert_eq!(
        phases,
        vec![
            DrainPhase::Enter,
            DrainPhase::Announce,
            DrainPhase::Recheck,
            DrainPhase::Ready,
            DrainPhase::Incoming,
            DrainPhase::Stealable,
            DrainPhase::Park,
            DrainPhase::Settle,
            DrainPhase::Release,
            DrainPhase::Done(true),
        ]
    );
    assert!(!state.slot_for(0).busy.0);
    assert_eq!(state.idle, 1);
    assert_eq!(thread_id(&thread), Some(0));
    assert!(thread.take_microtasks().is_empty());
}

#[test]
fn a_task_pushed_before_the_last_look_keeps_the_worker_up() {
    let mut state = running(2);
    let mut thread: ThreadState<u32> = ThreadState::new();
    let mut drain = Drain::new(1);
    while drain.phase != DrainPhase::Settle {
        __worker_drain(&mut drain, &mut state, &mut thread);
    }
    assert_eq!(state.idle, 0b10);
    enqueue_stealable(&mut state, &thread_of(ThreadId::Main), StealPtr(4));
    __worker_drain(&mut drain, &mut state, &mut thread);
    assert_eq!(state.idle, 0);
    assert_eq!(thread.take_microtasks(), vec![Microtask::Rearm]);
}

#[test]
fn a_drain_of_a_shut_down_runtime_ends_at_once() {
    let mut state = running(1);
    webble::shutdown(&mut state);
    let mut thread: ThreadState<u32> = ThreadState::new();
    let mut drain = Drain::new(0);
    assert!(matches!(
        __worker_drain(&mut drain, &mut state, &mut thread),
        DrainAction::Return(false)
    ));
    assert_eq!(drain.phase, DrainPhase::Done(false));
    assert!(!state.slot_for(0).busy.0);
}

struct Sum(Vec<u32>);

impl Spawn<ClosureMarker, Thunk> for Sum {
    type Value = u32;

    fn into_thunk(self, tx: async_channel::Sender<u32>, guard: LoadGuard) -> Thunk {
        Box::new(move |id| {
            assert_eq!(guard.worker(), id);
            deliver(&tx, self.0.iter().sum());
        })
    }
}

impl Spawn<AsyncFnMarker, Thunk> for Sum {
    type Value = String;

    fn into_thunk(self, tx: async_channel::Sender<String>, _guard: LoadGuard) -> Thunk {
        Box::new(move |_| {
            deliver(&tx, format!("{:?}", self.0));
        })
    }
}

impl SpawnStealable<FutureMarker> for Sum {
    type Value = u32;

    fn into_runnable(self, tx: async_channel::Sender<u32>) -> Steal {
        let (runnable, task) = async_task::spawn(
            async move {
                deliver(&tx, self.0.iter().sum());
            },
            |_: Steal| {},
        );
        task.detach();
        runnable
    }
}

#[test]
fn work_is_spawned_by_its_marker() {
    let mut state = running(2);
    let mut sum = webble::spawn::<ClosureMarker, Thunk, Sum>(&mut state, Sum(vec![1, 2, 3]));
    let mut text = webble::spawn::<AsyncFnMarker, Thunk, Sum>(&mut state, Sum(vec![4, 5]));
    for id in 0..2 {
        state.slot_for_mut(id).incoming.pop_front().unwrap().run(id);
    }
    assert_eq!(sum.try_recv(), Some(&6));
    assert_eq!(text.check_release(), Some(String::from("[4, 5]")));
}

#[test]
fn stealable_work_is_spawned_into_a_queue() {
    let mut state = running(2);
    idle_set(&mut state, 1);
    let mut handle = webble::spawn_stealable::<FutureMarker, Thunk, u32, Sum>(
        &mut state,
        &thread_of(ThreadId::Main),
        Sum(vec![1]),
    );
    assert_eq!(state.injector().len(), 1);
    assert_eq!(state.take_wakes(), vec![1]);
    assert_eq!(handle.try_recv(), None);
    let worker = thread_of(ThreadId::Worker(0));
    let _handle: WorkerHandle<()> =
        webble::place_stealable(&mut state, &worker, |_tx| stealable_task());
    assert_eq!(state.slot_for(0).local.len(), 1);
    assert_eq!(webble::num_tasks_waiting(&state), 2);
    assert!(state.take_wakes().is_empty());
}
