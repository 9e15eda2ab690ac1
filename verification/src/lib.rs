//! A render-farm worker engine.
//!
//! The worker pulls render tasks off a shared queue, fetches and optimizes
//! the scene file each task needs, dispatches an external renderer, stats
//! and hashes the produced frames, uploads them, and finally reclaims local
//! disk space once the parent job is done on the server side.
//!
//! This crate holds the verified core: the configuration, the rate limiter
//! with its exponential backoff, the scene-file records, the task model,
//! and the `Work` engine that drives each task through the pipeline.  All
//! outside effects (broker, HTTP, subprocesses, the file system, the clock)
//! are performed by the caller, which hands their outcomes to the engine as
//! plain values; every decision the engine takes is specified and proved.

pub mod blend;

pub mod blendfile;

pub mod config;

pub mod ratelimit;

pub mod shell;

pub mod task;

pub mod textutil;

pub mod work;
