//! A simulated network between two QUIC endpoints.
//!
//! Two protocol endpoints, a client and a server, are joined by a link with a
//! fixed one-way latency and driven by a virtual clock. The library holds the
//! link, the timers and the clock and decides what happens next; performing
//! the calls on the protocol endpoints is left to the caller.
pub mod behaviour;
pub mod config;
pub mod endpoint;
pub mod laws;
pub mod log;
pub mod packet;
pub mod pair;
pub mod ports;
pub mod proto;
pub mod run;
