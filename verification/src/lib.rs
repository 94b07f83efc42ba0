//! Local emulator core for a serverless invocation runtime.
//!
//! Invocation requests are queued per function name, each function is served
//! by a lazily started child process, and computed responses are routed back
//! to the caller that is still waiting on them.  This crate holds the queueing,
//! registry, routing and supervision logic; process I/O and the HTTP layer
//! live outside it.

pub mod cargo;
pub mod deploy;
pub mod lambda;
pub mod package;
pub mod scheduler;
pub mod strmap;
pub mod template;
pub mod tls;
