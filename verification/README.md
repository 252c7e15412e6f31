# mar

The core of a small single-threaded async runtime and of an HTTP/1.1 client, written
in Rust and verified with Verus.

## What is verified

`src/` is the library. Its functions carry contracts, and Verus proves that the code keeps
them, but for the few calls named below. Proof functions whose names begin with `law_`
state what holds of several functions together.

| Module | What it holds |
| --- | --- |
| `future` | `Poll`, and the trait that everything with a `poll` implements |
| `runtime_state`, `waker`, `task` | tasks, their ids and wakers, the ready queue |
| `task::all`, `task::yield_now` | joining futures, giving way |
| `task::blocking`, `task::worker_pool`, `blocking` | closures on worker threads |
| `deadline_queue`, `time`, `timer_wheel` | timers, and how long a runtime parks |
| `mar`, `executor` | the two runtimes, as state machines |
| `context` | what a task reaches of its runtime |
| `reactor`, `io` | who waits for which event; reading and writing |
| `rrest` | the HTTP client: URLs, requests, responses, TLS |
| `rrest::wire` | what holds of the bytes that go through a TLS stream over a whole run |
| `life` | what a turn does to the tasks of either runtime, and a whole run |
| `lemmas` | facts about sequences and maps |

A runtime does not loop, park or look at the clock by itself. `run` takes an event (the
clock moved on, or the thread came back from parking) and returns an action (run me
again, park for so long, done). In the same way a `Request` takes one step at a time over
a `Connection`.

Instants and durations are nanoseconds in a `u128`.

## What is trusted

Calls into `url`, `httparse`, `http`, `rustls` and a few functions of the standard
library stand behind small functions marked `#[verifier::external_body]`. The doc comment
of each says which function it calls and what is claimed of it, or that nothing is.
A TLS `Session` also records, for specifications only, what was asked of it and what came
of it. Results that are functions of their arguments but take pages to state have a name,
such as `http_head`; contracts speak of the name.

## What is left

`app/` is ordinary Rust around the library: the event loop over `mio`, the worker
threads, the thread-local slots, futures of the standard library, TCP.

`tests/` runs the library.
