//! A TCP proxy that injects network faults (latency, drops, corruption, closes)
//! for testing how applications behave under adverse network conditions.
//!
//! This crate is the decision-making core of the proxy: configuration, the fault
//! pipeline, counters and the connection state machines. It performs no I/O.

pub mod bits;
pub mod config;
pub mod fault;
pub mod laws;
pub mod probability;
pub mod proxy;
pub mod rng;
pub mod seed;
pub mod stats;
