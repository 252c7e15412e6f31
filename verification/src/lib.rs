//! The core of a single-threaded async runtime, and of an HTTP client for it.
//!
//! A runtime here is a state machine: it is told what the clock shows and which
//! events have come, and says what it wants done next. Tasks are futures that are
//! polled with what they can reach of their runtime. Threads, sockets and the clock
//! itself are left to the caller.
pub mod blocking;
pub mod context;
pub mod deadline_queue;
pub mod executor;
pub mod future;
pub mod io;
pub mod lemmas;
pub mod life;
pub mod mar;
pub mod reactor;
pub mod rrest;
pub mod runtime_state;
pub mod task;
pub mod time;
pub mod timer_wheel;
pub mod waker;
