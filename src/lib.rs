//! A compute-dispatch engine: named GPU buffers, an ordered sequence of
//! compute passes and buffer swaps, and the per-tick state machine that
//! decides when a cycle is recorded, submitted and read back.
//!
//! The engine works on plain values. Buffers and shaders are named by small
//! integers; device allocations get integer handles from the engine, and
//! compiled pipelines are known by the handles of the host's cache. Everything
//! the device must do is returned as a list of [`command::Command`]s for the
//! host to perform in order.
pub mod command;
pub mod error;
pub mod laws;
pub mod pipeline_cache;
pub mod staging;
pub mod steps;
pub mod worker;
pub mod worker_builder;
