# webble

A general-purpose async multithreaded runtime for the web, with a verified scheduler.

Webble runs Rust futures and closures across a pool of Web Workers that share the WASM module's
linear memory, without blocking the main thread or the workers' event loops. There is one runtime per
module. Its lifecycle is `Uninit`, `Running`, `Shutdown`; calling `init()` after a shutdown restarts
it with the same number of workers.

Work runs on one of two tracks:

| Track | Spawn with | Behavior |
|---|---|---|
| Pinned | `spawn` | placed on the least-loaded worker and owned by it forever |
| Stealable | `spawn_stealable` | enters a work-stealing queue; may migrate between workers on every wake |

The main thread takes part in the pinned track: `on_main` runs a closure there.

## Layout

- `src/` is the scheduler, a library verified with Verus. It decides where work goes, who is woken,
  what a worker runs next, when it may park, how a shutdown finds the workers at a safe point and what
  a restart keeps. It works on states that are handed to it and leaves the effects to its caller.
  - `state`, `thread`: what all threads share, and what each keeps to itself.
  - `exec`: where a woken task goes, and whom it wakes.
  - `worker`, `main_thread`: the drains, cut into steps.
  - `pool`: starting, stopping, placing.
  - `spawn`, `handle`: work, and the way its result comes back.
  - `deque`, `task`, `channel`: what is relied on of `crossbeam_deque`, `async_task` and
    `async_channel`.
  - `laws`, `protocol`: what holds across calls, and however the threads' steps interleave: no wakeup
    is lost, no task is lost or doubled, pinned work stays where it is, a worker is not terminated
    while it touches a shared queue.
- `app/` is the runtime itself: the one global state behind a lock, the workers' JS loop, futex wakes,
  microtasks, and the calls into `async_task` that need `unsafe`.
- `tests/` drives the scheduler by hand, with virtual threads.

## Using it

```rust
builder().workers(8).glue_path("/my_app.js").init()?;

let mut sum = spawn(|| (0..1_000_000u64).sum::<u64>());
if let Some(total) = sum.try_recv() {
    // ...
}
```

Shared-memory WASM needs a nightly toolchain with `std` rebuilt with atomics, the target features
`+atomics,+bulk-memory,+mutable-globals`, shared and imported memory, `wasm-bindgen --target web`, and
a server that sends the cross-origin isolation headers.
