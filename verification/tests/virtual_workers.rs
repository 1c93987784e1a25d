//! The runtime driven by hand, with virtual threads in place of real ones.

use std::collections::{HashMap, HashSet};
use std::future::Future;
use std::pin::Pin;
use std::rc::Rc;
use std::sync::atomic::{AtomicBool, Ordering};
use std::sync::{Arc, Mutex};
use std::task::{Context, Poll};

use webble::channel::deliver;
use webble::deque::StealPtr;
use webble::exec::{
    __notify_index, drain_microtasks, fire_rearm, notify_worker, push_stealable, route_pinned,
};
use webble::handle::{completed, Reception, WorkerHandle};
use webble::main_thread::{drain_main, MainPhase};
use webble::pool::{StartAction, StartEvent};
use webble::state::{Lifecycle, PinnedPtr, SharedState, MAIN_ID};
use webble::task::{Run, Steal};
use webble::thread::{
    current_thread, thread_id, Microtask, ThreadId, ThreadState, ThreadWorker,
};
use webble::worker::{__worker_drain, Drain, DrainAction};

const N: usize = 4;

type Thunk = Box<dyn FnOnce(u32) + Send>;

struct Inner {
    state: SharedState<Thunk>,
    threads: HashMap<u32, ThreadState<&'static str>>,
    current: u32,
    pinned: HashMap<u32, Run>,
    stealable: HashMap<u32, Steal>,
    next: u32,
    terminated: Vec<u32>,
}

impl Inner {
    fn here(&mut self) -> (&mut SharedState<Thunk>, &mut ThreadState<&'static str>) {
        let thread = self
            .threads
            .entry(self.current)
            .or_insert_with(ThreadState::new);
        (&mut self.state, thread)
    }

    fn key(&mut self) -> u32 {
        self.next += 1;
        self.next
    }
}

#[derive(Clone)]
struct Pool(Arc<Mutex<Inner>>);

impl Pool {
    fn for_test(n: usize) -> Pool {
        let pool = Pool(Arc::new(Mutex::new(Inner {
            state: SharedState::new(),
            threads: HashMap::new(),
            current: MAIN_ID,
            pinned: HashMap::new(),
            stealable: HashMap::new(),
            next: 0,
            terminated: Vec::new(),
        })));
        pool.init(n);
        pool
    }

    fn init(&self, n: usize) {
        let mut inner = self.0.lock().unwrap();
        let (state, thread) = inner.here();
        let builder = webble::builder()
            .workers(n)
            .glue_path(String::from("/app.js"));
        assert_eq!(builder.check(state, None), None);
        let mut startup = builder.init(state, None, |path| format!("blob:{path}"));
        assert_eq!(startup.url, "blob:/app.js");
        let mut event: StartEvent<&'static str, ()> = StartEvent::Begin;
        let mut started: usize = 0;
        loop {
            match startup.proceed(state, thread, event) {
                StartAction::Start(id) => {
                    assert_eq!(id as usize, started);
                    started += 1;
                    event = StartEvent::Started("worker");
                }
                StartAction::Finished => break,
                StartAction::Failed(()) => panic!("no start failed"),
            }
        }
        assert_eq!(started, n);
    }

    fn shutdown(&self) {
        let mut inner = self.0.lock().unwrap();
        webble::shutdown(&mut inner.state);
        let mut looks: u32 = 0;
        while !webble::pool::quiesced(&inner.state, looks) {
            looks += 1;
        }
        let workers: Vec<ThreadWorker<&'static str>> = inner.here().1.take_workers();
        for worker in workers {
            inner.terminated.push(worker.id());
            inner.threads.remove(&worker.id());
        }
    }

    fn with<R>(&self, f: impl FnOnce(&mut SharedState<Thunk>) -> R) -> R {
        f(&mut self.0.lock().unwrap().state)
    }

    fn current_thread(&self) -> Option<ThreadId> {
        current_thread(self.0.lock().unwrap().here().1)
    }

    fn thread_id(&self) -> Option<u32> {
        thread_id(self.0.lock().unwrap().here().1)
    }

    fn load(&self, i: usize) -> u32 {
        self.with(|state| state.slots()[i].load.0)
    }

    fn waiting(&self) -> usize {
        self.with(|state| webble::num_tasks_waiting(state))
    }

    fn words(&self) -> Vec<u32> {
        self.with(|state| state.slots().iter().map(|slot| slot.notify.0).collect())
    }

    fn on_worker<Fut, T>(&self, owner: u32, fut: Fut, done: impl FnOnce(T) + 'static)
    where
        Fut: Future<Output = T> + 'static,
    {
        let pool = self.clone();
        let (runnable, task) = async_task::Builder::new().metadata(owner).spawn_local(
            move |_| async move { done(fut.await) },
            move |runnable: Run| pool.wake_pinned(runnable),
        );
        task.detach();
        runnable.run();
    }

    fn wake_pinned(&self, runnable: Run) {
        let mut inner = self.0.lock().unwrap();
        let owner = *runnable.metadata();
        let key = inner.key();
        inner.pinned.insert(key, runnable);
        let (state, thread) = inner.here();
        route_pinned(state, thread, owner, PinnedPtr(key));
    }

    fn spawn_local<F, Fut, T>(&self, make: F) -> WorkerHandle<T>
    where
        F: FnOnce() -> Fut + Send + 'static,
        Fut: Future<Output = T> + 'static,
        T: Send + 'static,
    {
        let pool = self.clone();
        self.with(|state| {
            webble::place_local(state, move |tx, guard| -> Thunk {
                Box::new(move |worker_id| {
                    let home = pool.clone();
                    assert_eq!(guard.worker(), worker_id);
                    pool.on_worker(worker_id, make(), move |result: T| {
                        deliver(&tx, result);
                        home.with(|state| guard.release(state));
                    });
                })
            })
        })
    }

    fn on_main<F, Fut, T>(&self, make: F) -> WorkerHandle<T>
    where
        F: FnOnce() -> Fut + Send + 'static,
        Fut: Future<Output = T> + 'static,
        T: Send + 'static,
    {
        let pool = self.clone();
        self.with(|state| {
            webble::on_main(state, move |tx| -> Thunk {
                Box::new(move |id| {
                    pool.on_worker(id, make(), move |result: T| {
                        deliver(&tx, result);
                    });
                })
            })
        })
    }

    fn spawn_stealable<Fut, T>(&self, fut: Fut) -> WorkerHandle<T>
    where
        Fut: Future<Output = T> + Send + 'static,
        T: Send + 'static,
    {
        let (tx, rx) = async_channel::bounded(1);
        let pool = self.clone();
        let (runnable, task) = async_task::spawn(
            async move {
                deliver(&tx, fut.await);
            },
            move |runnable: Steal| pool.wake_stealable(runnable),
        );
        task.detach();
        runnable.schedule();
        WorkerHandle::new(rx)
    }

    fn wake_stealable(&self, runnable: Steal) {
        let mut inner = self.0.lock().unwrap();
        let key = inner.key();
        inner.stealable.insert(key, runnable);
        let (state, thread) = inner.here();
        push_stealable(state, thread, StealPtr(key));
    }

    fn run_pinned(&self, ptr: PinnedPtr) {
        let runnable = self.0.lock().unwrap().pinned.remove(&ptr.0);
        runnable.expect("a pinned task is handed out once").run();
    }

    fn run_stealable(&self, ptr: StealPtr) {
        let runnable = self.0.lock().unwrap().stealable.remove(&ptr.0);
        runnable.expect("a stealable task is handed out once").run();
    }

    fn enter(&self, id: u32) -> u32 {
        std::mem::replace(&mut self.0.lock().unwrap().current, id)
    }

    fn drain(&self, id: u32) -> bool {
        let back = self.enter(id);
        let mut drain = Drain::new(id);
        let answer = loop {
            let action = {
                let mut inner = self.0.lock().unwrap();
                let (state, thread) = inner.here();
                __worker_drain(&mut drain, state, thread)
            };
            match action {
                DrainAction::Continue => {}
                DrainAction::RunPinned(ptr) => self.run_pinned(ptr),
                DrainAction::RunPending(pending) => pending.run(id),
                DrainAction::RunStealable(ptr) => self.run_stealable(ptr),
                DrainAction::Return(answer) => break answer,
            }
        };
        self.enter(back);
        answer
    }

    fn drain_main(&self) {
        let back = self.enter(MAIN_ID);
        let mut phase = MainPhase::Ready;
        loop {
            let action = self.with(|state| drain_main(&mut phase, state));
            match action {
                DrainAction::Continue => {}
                DrainAction::RunPinned(ptr) => self.run_pinned(ptr),
                DrainAction::RunPending(pending) => pending.run(MAIN_ID),
                DrainAction::RunStealable(_) => panic!("the main thread got stealable work"),
                DrainAction::Return(answer) => {
                    assert!(answer);
                    break;
                }
            }
        }
        self.enter(back);
    }

    fn microtasks(&self, id: u32) {
        let back = self.enter(id);
        let queued = self.0.lock().unwrap().here().1.take_microtasks();
        for microtask in queued {
            match microtask {
                Microtask::DrainPinned => {
                    let batch = drain_microtasks(self.0.lock().unwrap().here().1);
                    for ptr in batch {
                        self.run_pinned(ptr);
                    }
                }
                Microtask::Rearm => {
                    let mut inner = self.0.lock().unwrap();
                    let (state, thread) = inner.here();
                    fire_rearm(state, thread);
                }
            }
        }
        self.enter(back);
    }

    fn tick(&self) {
        let n = self.with(|state| state.slots().len()) as u32;
        for id in 0..n {
            assert!(self.drain(id));
            self.microtasks(id);
        }
        self.drain_main();
        self.microtasks(MAIN_ID);
    }
}

/// A future that is pending exactly once and wakes itself at once.
struct YieldNow {
    yielded: bool,
}

impl YieldNow {
    fn new() -> Self {
        Self { yielded: false }
    }
}

impl Future for YieldNow {
    type Output = ();

    fn poll(mut self: Pin<&mut Self>, cx: &mut Context<'_>) -> Poll<()> {
        if self.yielded {
            Poll::Ready(())
        } else {
            self.yielded = true;
            cx.waker().wake_by_ref();
            Poll::Pending
        }
    }
}

/// Wait for the result of pinned work on worker 0 by microtasks alone.
fn recv<T>(pool: &Pool, mut h: WorkerHandle<T>) -> T {
    for _ in 0..10_000 {
        if h.try_recv().is_some() {
            return h.into_inner().expect("result present after try_recv");
        }
        pool.microtasks(0);
    }
    panic!("future did not complete within the microtask budget");
}

/// Wait for the result of stealable work by draining worker 0.
fn recv_stealable<T>(pool: &Pool, mut h: WorkerHandle<T>) -> T {
    for _ in 0..10_000 {
        pool.drain(0);
        if h.try_recv().is_some() {
            return h.into_inner().expect("result present after try_recv");
        }
        pool.microtasks(0);
    }
    panic!("stealable future did not complete within the drain budget");
}

/// Wait for a result with all threads taking turns.
fn await_result<T>(pool: &Pool, mut h: WorkerHandle<T>) -> T {
    for _ in 0..500 {
        if h.try_recv().is_some() {
            return h.into_inner().expect("result present after try_recv");
        }
        pool.tick();
    }
    panic!("no result within the timeout");
}

#[test]
fn notify_index_is_distinct_per_worker() {
    let base: usize = 4096;
    let mut seen = HashSet::new();
    for id in (0..N as u32).chain([MAIN_ID]) {
        let index = __notify_index(base, id);
        assert!(index > 0);
        assert!(seen.insert(index));
        assert_eq!(__notify_index(base, id), index);
    }
    assert_eq!(__notify_index(base, 0), 1024);
    assert_eq!(__notify_index(base, 1), 1040);
    assert_eq!(__notify_index(base, 31), 1520);
    assert_eq!(__notify_index(base, MAIN_ID), 1536);
}

#[test]
fn notify_worker_bumps_its_own_word() {
    let pool = Pool::for_test(N);
    let before = pool.words();
    pool.with(|state| notify_worker(state, 2));
    let after = pool.words();
    assert_eq!(after[2], before[2] + 1);
    assert_eq!(after[3], before[3]);
    assert_eq!(after[0], before[0]);
    assert_eq!(after[1], before[1]);
    assert_eq!(pool.with(|state| state.take_wakes()), vec![2]);
    assert!(pool.with(|state| state.take_wakes()).is_empty());
}

#[test]
fn available_parallelism_is_positive() {
    for cores in [None, Some(0), Some(1), Some(2), Some(64)] {
        assert!(webble::available_parallelism(cores) >= 1);
    }
    assert_eq!(webble::available_parallelism(Some(8)), 8);
    assert_eq!(webble::available_parallelism(None), 4);
    assert_eq!(webble::available_parallelism(Some(0)), 1);
}

#[test]
fn places_on_least_loaded_worker() {
    let pool = Pool::for_test(N);
    pool.with(|state| {
        for (i, load) in [5u32, 2, 9, 7].into_iter().enumerate() {
            state.slot_for_mut(i as u32).load.0 = load;
        }
    });
    let _h = pool.spawn_local(|| async { 0u8 });
    pool.with(|state| {
        assert_eq!(state.slots()[1].incoming.len(), 1);
        for i in [0usize, 2, 3] {
            assert_eq!(state.slots()[i].incoming.len(), 0);
        }
        assert_eq!(state.slots()[1].load.0, 3);
        assert_eq!(state.take_wakes(), vec![1]);
    });
}

#[test]
fn num_tasks_waiting_counts_pending_placements() {
    let pool = Pool::for_test(N);
    assert_eq!(pool.waiting(), 0);
    let _a = pool.spawn_local(|| async { 1u8 });
    let _b = pool.spawn_local(|| async { 2u8 });
    assert_eq!(pool.waiting(), 2);
    assert_eq!(
        pool.with(|state| webble::pool::checked_num_tasks_waiting(state)),
        Some(2)
    );
}

#[test]
fn delivers_immediate_result() {
    let pool = Pool::for_test(N);
    let h = pool.spawn_local(|| async { 41u32 + 1 });
    assert!(pool.drain(0));
    assert_eq!(recv(&pool, h), 42);
}

#[test]
fn yielding_future_completes_via_microtasks() {
    let pool = Pool::for_test(N);
    let h = pool.spawn_local(|| async {
        YieldNow::new().await;
        YieldNow::new().await;
        7u32
    });
    pool.drain(0);
    assert_eq!(recv(&pool, h), 7);
}

#[test]
fn non_send_value_held_across_await() {
    let pool = Pool::for_test(N);
    let h = pool.spawn_local(|| async {
        let local = Rc::new(20u32);
        YieldNow::new().await;
        *local + 1
    });
    pool.drain(0);
    assert_eq!(recv(&pool, h), 21);
}

#[test]
fn many_futures_run_concurrently_on_one_worker() {
    let pool = Pool::for_test(N);
    pool.with(|state| {
        for i in 1..N as u32 {
            state.slot_for_mut(i).load.0 = 1000;
        }
    });
    let mut handles = Vec::new();
    for n in 0..8u32 {
        handles.push(pool.spawn_local(move || async move {
            YieldNow::new().await;
            n * 2
        }));
    }
    assert_eq!(pool.load(0), 8);
    pool.drain(0);
    for (n, h) in handles.into_iter().enumerate() {
        assert_eq!(recv(&pool, h), n as u32 * 2);
    }
    assert_eq!(pool.load(0), 0);
}

#[test]
fn load_returns_to_zero_after_completion() {
    let pool = Pool::for_test(N);
    let h = pool.spawn_local(|| async {
        YieldNow::new().await;
        0u8
    });
    assert_eq!(pool.load(0), 1);
    pool.drain(0);
    let _ = recv(&pool, h);
    assert_eq!(pool.load(0), 0);
}

#[test]
fn dropping_handle_does_not_cancel() {
    let pool = Pool::for_test(N);
    let flag = Arc::new(AtomicBool::new(false));
    let f = flag.clone();
    let h = pool.spawn_local(move || async move {
        YieldNow::new().await;
        f.store(true, Ordering::SeqCst);
    });
    drop(h);
    pool.drain(0);
    for _ in 0..10_000 {
        if flag.load(Ordering::SeqCst) {
            break;
        }
        pool.microtasks(0);
    }
    assert!(flag.load(Ordering::SeqCst));
}

#[test]
fn stealable_delivers_immediate_result() {
    let pool = Pool::for_test(N);
    let h = pool.spawn_stealable(async { 41u32 + 1 });
    assert_eq!(recv_stealable(&pool, h), 42);
}

#[test]
fn stealable_yielding_future_completes_via_drains() {
    let pool = Pool::for_test(N);
    let h = pool.spawn_stealable(async {
        YieldNow::new().await;
        YieldNow::new().await;
        7u32
    });
    assert_eq!(recv_stealable(&pool, h), 7);
}

#[test]
fn stealable_enqueues_until_drained() {
    let pool = Pool::for_test(N);
    assert_eq!(pool.waiting(), 0);
    let h = pool.spawn_stealable(async { 5u8 });
    assert_eq!(pool.waiting(), 1);
    assert_eq!(recv_stealable(&pool, h), 5);
    assert_eq!(pool.waiting(), 0);
}

#[test]
fn drain_marks_worker_idle_when_no_stealable_work() {
    let pool = Pool::for_test(N);
    pool.drain(0);
    assert_eq!(pool.with(|state| state.idle) & 1, 1);
    assert_eq!(pool.with(|state| state.idle), 1);
}

#[test]
fn schedule_stealable_wakes_exactly_one_idle_worker() {
    let pool = Pool::for_test(N);
    pool.with(|state| state.idle = 0b1110);
    let before = pool.words();
    let _h = pool.spawn_stealable(async { 7u8 });
    let after = pool.words();
    let bumped: Vec<usize> = (0..N).filter(|&i| after[i] == before[i] + 1).collect();
    assert_eq!(bumped, vec![1]);
    assert!((0..N).filter(|&i| i != 1).all(|i| after[i] == before[i]));
    assert_eq!(pool.with(|state| state.idle), 0b1100);
}

#[test]
fn schedule_stealable_with_no_idle_workers_wakes_none() {
    let pool = Pool::for_test(N);
    pool.with(|state| state.idle = 0);
    let before = pool.words();
    let _h = pool.spawn_stealable(async { 1u8 });
    assert_eq!(pool.words(), before);
    assert!(pool.with(|state| state.take_wakes()).is_empty());
}

#[test]
fn real_workers_execute_on_a_worker_thread() {
    let pool = Pool::for_test(N);
    let here = pool.clone();
    let who = await_result(&pool, pool.spawn_local(move || async move { here.current_thread() }));
    let Some(ThreadId::Worker(who)) = who else {
        panic!("work must run on a worker");
    };
    assert!((who as usize) < N);
}

#[test]
fn on_main_runs_closure_on_the_main_thread() {
    let pool = Pool::for_test(N);
    let here = pool.clone();
    let h = pool.spawn_local(move || async move {
        let on_worker = here.current_thread();
        let main = here.clone();
        let handle = here.on_main(move || async move { main.current_thread() });
        let on_main = match handle.recv() {
            Reception::Ready(value) => Some(value),
            Reception::Pending(rx) => completed(rx.recv().await),
        };
        (on_worker, on_main, here.current_thread())
    });
    let (on_worker, on_main, back) = await_result(&pool, h);
    assert!(matches!(on_worker, Some(ThreadId::Worker(_))));
    assert_eq!(on_main, Some(Some(ThreadId::Main)));
    assert_eq!(back, on_worker);
}

#[test]
fn runtime_can_be_shut_down_and_restarted() {
    let pool = Pool::for_test(N);
    assert_eq!(pool.with(|s| webble::lifecycle(s)), Lifecycle::Running);
    assert_eq!(pool.with(|s| webble::num_workers(s)), N);
    assert_eq!(await_result(&pool, pool.spawn_local(|| async { 1u32 + 1 })), 2);

    // Left over from the first run.
    let mut stale = pool.spawn_local(|| async { 0u8 });
    let _stolen = pool.spawn_stealable(async { 0u8 });
    assert_eq!(pool.waiting(), 2);

    pool.shutdown();
    assert!(pool.with(|s| webble::is_shutdown(s)));
    assert_eq!(pool.with(|s| webble::lifecycle(s)), Lifecycle::Shutdown);
    assert_eq!(pool.with(|s| webble::num_workers(s)), 0);
    assert_eq!(pool.0.lock().unwrap().terminated, vec![0, 1, 2, 3]);
    for id in 0..N as u32 {
        assert!(!pool.drain(id));
    }

    pool.init(N);
    assert_eq!(pool.with(|s| webble::lifecycle(s)), Lifecycle::Running);
    assert_eq!(pool.waiting(), 0);
    assert_eq!(pool.words(), vec![0; N]);
    assert_eq!(pool.with(|s| s.idle), 0);
    assert_eq!(await_result(&pool, pool.spawn_local(|| async { 40u32 + 2 })), 42);
    assert!(stale.try_recv().is_none());

    let here = pool.clone();
    let who = await_result(&pool, pool.spawn_local(move || async move { here.thread_id() }));
    assert!(who.is_some());

    let here = pool.clone();
    let h = pool.on_main(move || async move { (here.current_thread(), here.thread_id()) });
    assert_eq!(await_result(&pool, h), (Some(ThreadId::Main), None));
}

#[test]
fn real_workers_spread_placement_across_workers() {
    let pool = Pool::for_test(N);
    let mut handles = Vec::new();
    let mut releases = Vec::new();
    for _ in 0..N {
        let (tx, rx) = async_channel::bounded::<()>(1);
        releases.push(tx);
        let here = pool.clone();
        handles.push(pool.spawn_local(move || async move {
            _ = rx.recv().await;
            here.thread_id()
        }));
    }
    pool.tick();
    for tx in releases {
        _ = tx.try_send(());
    }
    let mut seen: HashSet<u32> = HashSet::new();
    for h in handles {
        seen.insert(await_result(&pool, h).expect("on a worker"));
    }
    assert_eq!(seen.len(), N);
}

#[test]
fn cross_worker_wake_from_main_thread() {
    let pool = Pool::for_test(N);
    let (tx, rx) = async_channel::bounded::<u32>(1);
    let h = pool.spawn_local(move || async move { rx.recv().await.unwrap() });
    pool.tick();
    pool.with(|state| state.take_wakes());
    tx.try_send(777).unwrap();
    pool.with(|state| {
        assert_eq!(state.slots()[0].ready.len(), 1);
        assert_eq!(state.take_wakes(), vec![0]);
    });
    assert_eq!(await_result(&pool, h), 777);
}

#[test]
fn real_worker_runs_non_send_future() {
    let pool = Pool::for_test(N);
    let (tx, rx) = async_channel::bounded::<u32>(1);
    let h = pool.spawn_local(|| async move {
        let local = Rc::new(5u32);
        let got = rx.recv().await.unwrap();
        *local + got
    });
    pool.tick();
    tx.try_send(10).unwrap();
    assert_eq!(await_result(&pool, h), 15);
}

#[test]
fn stealable_work_is_claimed_and_runs() {
    let pool = Pool::for_test(N);
    assert_eq!(
        await_result(&pool, pool.spawn_stealable(async { 100u32 + 1 })),
        101
    );
    let here = pool.clone();
    let who = await_result(&pool, pool.spawn_stealable(async move { here.thread_id() }));
    assert!((who.expect("stolen work must run on a worker") as usize) < N);
}

#[test]
fn stealable_work_spreads_across_workers() {
    let pool = Pool::for_test(N);
    let seen = Arc::new(Mutex::new(HashSet::new()));
    let mut handles = Vec::new();
    let mut releases = Vec::new();
    for _ in 0..(2 * N) {
        let (tx, rx) = async_channel::bounded::<()>(1);
        releases.push(tx);
        let seen = seen.clone();
        let here = pool.clone();
        handles.push(pool.spawn_stealable(async move {
            seen.lock().unwrap().insert(here.thread_id().expect("on a worker"));
            _ = rx.recv().await;
            seen.lock().unwrap().insert(here.thread_id().expect("on a worker"));
        }));
    }
    for _ in 0..4 {
        pool.tick();
    }
    for tx in releases {
        _ = tx.try_send(());
    }
    for h in handles {
        await_result(&pool, h);
    }
    assert!(seen.lock().unwrap().len() >= 2);
}

#[test]
fn stealable_future_parks_and_resumes_to_completion() {
    let pool = Pool::for_test(N);
    let (tx, rx) = async_channel::bounded::<u32>(1);
    let here = pool.clone();
    let h = pool.spawn_stealable(async move {
        let first = here.thread_id();
        let got = rx.recv().await.unwrap();
        let second = here.thread_id();
        (first, second, got)
    });
    pool.tick();
    tx.try_send(55).unwrap();
    let (first, second, got) = await_result(&pool, h);
    assert_eq!(got, 55);
    assert!((first.expect("on a worker") as usize) < N);
    assert!((second.expect("on a worker") as usize) < N);
}

#[test]
fn a_worker_with_work_left_asks_for_a_deferred_wake() {
    let pool = Pool::for_test(N);
    let _a = pool.spawn_stealable(async { 1u8 });
    let _b = pool.spawn_stealable(async { 2u8 });
    pool.drain(0);
    // One task was run, and one is left: the worker does not count as parked.
    assert_eq!(pool.waiting(), 1);
    assert_eq!(pool.with(|state| state.idle), 0);
    pool.with(|state| state.take_wakes());
    let before = pool.words();
    pool.microtasks(0);
    assert_eq!(pool.words()[0], before[0] + 1);
    assert_eq!(pool.with(|state| state.take_wakes()), vec![0]);
    pool.drain(0);
    assert_eq!(pool.waiting(), 0);
    assert_eq!(pool.with(|state| state.idle), 1);
}

#[test]
fn a_drain_takes_one_of_two_injected_tasks() {
    let pool = Pool::for_test(N);
    let mut a = pool.spawn_stealable(async { 1u8 });
    let mut b = pool.spawn_stealable(async { 2u8 });
    assert!(pool.drain(0));
    let came = [a.try_recv().is_some(), b.try_recv().is_some()];
    assert_eq!(came.iter().filter(|came| **came).count(), 1);
    assert_eq!(pool.waiting(), 1);
    assert_eq!(pool.with(|state| state.idle) & 1, 0);
}

#[test]
fn a_batch_of_pushes_fans_out() {
    let pool = Pool::for_test(N);
    pool.with(|state| state.idle = 0b1011);
    pool.with(|state| state.take_wakes());
    let mut handles = Vec::new();
    for i in 0..5u32 {
        handles.push(pool.spawn_stealable(async move { i }));
    }
    assert_eq!(pool.with(|state| state.take_wakes()), vec![0, 1, 3]);
    assert_eq!(pool.with(|state| state.idle), 0);
    for (i, h) in handles.into_iter().enumerate() {
        assert_eq!(recv_stealable(&pool, h), i as u32);
    }
}

#[test]
fn microtasks_batch_in_the_order_of_their_wakes() {
    let pool = Pool::for_test(1);
    let order = Arc::new(Mutex::new(Vec::new()));
    for i in 0..3u32 {
        let order = order.clone();
        let _ = pool.spawn_local(move || async move {
            YieldNow::new().await;
            order.lock().unwrap().push(i);
        });
    }
    pool.drain(0);
    assert!(order.lock().unwrap().is_empty());
    let queued = pool.0.lock().unwrap().threads[&0].microtasks.clone();
    assert_eq!(queued, vec![Microtask::DrainPinned]);
    pool.microtasks(0);
    assert_eq!(*order.lock().unwrap(), vec![0, 1, 2]);
}

#[test]
fn a_drain_keeps_its_order() {
    let pool = Pool::for_test(1);
    let order = Arc::new(Mutex::new(Vec::new()));
    let (tx, rx) = async_channel::bounded::<()>(1);
    let log = order.clone();
    let _first = pool.spawn_local(move || async move {
        _ = rx.recv().await;
        log.lock().unwrap().push("ready");
    });
    pool.drain(0);
    let log = order.clone();
    let _stolen = pool.spawn_stealable(async move {
        log.lock().unwrap().push("stealable");
    });
    let log = order.clone();
    let _other = pool.spawn_stealable(async move {
        log.lock().unwrap().push("another stealable");
    });
    let log = order.clone();
    let _second = pool.spawn_local(move || async move {
        log.lock().unwrap().push("incoming");
    });
    tx.try_send(()).unwrap();
    pool.drain(0);
    assert_eq!(*order.lock().unwrap(), vec!["ready", "incoming", "stealable"]);
    pool.drain(0);
    assert_eq!(order.lock().unwrap().len(), 4);
}

#[test]
fn a_shutdown_between_two_looks_stops_a_drain() {
    let pool = Pool::for_test(2);
    let _h = pool.spawn_local(|| async { 0u8 });
    let mut drain = Drain::new(0);
    pool.enter(0);
    let mut step = || {
        let mut inner = pool.0.lock().unwrap();
        let (state, thread) = inner.here();
        __worker_drain(&mut drain, state, thread)
    };
    // In, and announced.
    assert!(matches!(step(), DrainAction::Continue));
    assert!(matches!(step(), DrainAction::Continue));
    pool.with(|state| {
        webble::shutdown(state);
        assert!(!webble::pool::quiesced(state, 0));
    });
    assert!(matches!(step(), DrainAction::Return(false)));
    assert!(matches!(step(), DrainAction::Return(false)));
    pool.with(|state| {
        assert!(webble::pool::quiesced(state, 0));
        assert_eq!(state.slots()[0].incoming.len(), 1);
    });
}

#[test]
fn a_parked_worker_that_queues_a_task_wakes_one() {
    let pool = Pool::for_test(2);
    pool.drain(0);
    pool.drain(1);
    pool.with(|state| state.take_wakes());
    assert_eq!(pool.with(|state| state.idle), 0b11);
    // A microtask of worker 1, which is parked.
    pool.enter(1);
    let h = pool.spawn_stealable(async { 9u8 });
    pool.enter(MAIN_ID);
    assert_eq!(pool.with(|state| state.slots()[1].local.len()), 1);
    assert_eq!(pool.with(|state| state.take_wakes()), vec![0]);
    assert_eq!(pool.with(|state| state.idle), 0b10);
    // The woken worker finds the task with its sibling.
    assert_eq!(recv_stealable(&pool, h), 9);
}
