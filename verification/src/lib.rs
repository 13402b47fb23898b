//! Core library of an HTTP client and load-testing workbench.
//!
//! The centerpiece is the benchmark engine: spec validation
//! (`orchestrate`), the request template builder (`template`), the sample
//! classifier (`sample`), the cancellation registry (`registry`), and the
//! metrics aggregator (`metrics` over `kernel` and `qhist`) that reduces
//! per-request outcomes into summary statistics, percentile latencies, a
//! bucketed histogram, a per-second time series and a ranked top-K error
//! list. Around it stand the client's variable system (`envres`,
//! `environment`), request history, collections, and wire-level protobuf
//! primitives for gRPC reflection (`proto`).

pub mod abstractions;
pub mod benchmark_types;
pub mod collections;
pub mod domain;
pub mod environment;
pub mod envres;
pub mod history;
pub mod http_types;
pub mod kernel;
pub mod metrics;
pub mod misc;
pub mod orchestrate;
pub mod proto;
pub mod qhist;
pub mod registry;
pub mod sample;
pub mod strmap;
pub mod template;
pub mod tenant;
pub mod testing;
pub mod text;
