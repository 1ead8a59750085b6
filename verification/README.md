# single_player_game_physics

A single-player physics game in the browser, spread over several wasm threads that share one
memory: main (DOM, input), render, physics and a pool of solver workers. Poses, input, pacing and
solver tasks cross the threads through shared words; only the cold paths are messages.

`src/` is a Verus library with everything the threads agree on and the rules of each of them:

- the shared blocks as plain values (`pose_ring`, `body_motion`, `ball_motions`, `input_state`,
  `physics_tasks`) and as operations on shared words (`seqlock`, `shared_ring`, `edge`, `blocks`,
  `shared_pool`, `layout`), with what holds of several threads at work on them (`ball_history`,
  `pool_history`);
- the rules of the threads (`physics_thread`, `render_thread`, `main_thread`, `controls`, `scene`,
  `stats`, `boot`).

The contracts of the operations on shared words say which calls of the standard library's atomics a
thread makes, on which words, when it runs a task, and what it does with what it saw. The laws
beside them say what follows when accesses take effect one at a time: a pose is never read torn, the
latest pose can always be read, a ball that render can see has a pose that physics published, a
request is never read stale, a task runs exactly once with its own context and has run when it is
seen complete, a waiter never sleeps over a task that it could run.

`app/` is the page around the library: the DOM, the workers, the renderer, the physics engine and
all floating-point work. `tests/` runs the library on concrete values.
