//! A greeting service and the load generator that measures it.
//!
//! The service answers `GET /greeting?name=..` with a greeting for the
//! percent-decoded name. The load generator builds such requests for names
//! drawn from a fixed pool, tallies how each request ended and how long it
//! took, and drives its workers and its shutdown as explicit state machines.
//! Sockets, timers and signals stay with the caller: every function here takes
//! plain values and returns plain values.
//!
//! - [`greeting`]: the service, from a request to its response.
//! - [`percent`]: percent-encoding, and that decoding undoes it.
//! - [`bench`]: the load generator's configuration and its requests.
//! - [`histogram`] and [`metrics`]: what a run counts and reports.
//! - [`worker`]: what one worker does on each event.
//! - [`orchestrator`]: the phases of a run, from start to exit.

pub mod bench;
pub mod greeting;
pub mod histogram;
pub mod metrics;
pub mod orchestrator;
pub mod percent;
pub mod worker;
