# cordis

A verified kernel for programs assembled from plugins.

A plugin declares the services it requires and provides services of its own.
The kernel keeps the dependency graph: it loads a plugin once all its services
are there, unloads it when one goes, and loads it again when it returns. What a
plugin registers while it runs (services, listeners, timers, cleanup routines)
is an effect of its fiber and ends with it, newest first.

- `src/` is the kernel, a state machine proved with Verus. It owns no thread, no
  clock and no future: a transition changes the state and says what has to be
  performed. Values, closures and cleanup routines are known to it by number.
- `app/` is the asynchronous runtime around it, on tokio: it performs what the
  kernel says, keeps what stands behind the numbers for as long as the kernel
  refers to them, and offers the typed API.
- `tests/` run the kernel with plain closures for plugins and listeners.

Where to start reading:

| module | what it holds |
| --- | --- |
| `root` | the state of one root, its invariant, the commands it leaves |
| `fiber`, `lifecycle` | one fiber: epochs, effects, states, transitions |
| `drive`, `driver` | what a driver does to its fiber, and in which order |
| `resolve`, `effects` | who sees which service, who is told, how it is undone |
| `dispatch`, `bus` | the modes in which events are dispatched |
| `convergence`, `reactivity`, `reload`, `disposal` | what holds of all of this |
| `retention` | which numbers the kernel still refers to |
