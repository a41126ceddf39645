//! Bootstrap and cross-cutting runtime core of a backend service.
//!
//! The crate assembles process-wide configuration from environment-sourced
//! values, plans database connectivity (a pooled primary connection plus an
//! optional read replica), decides whether the metrics exporter is wired,
//! and defines the error taxonomy that every request handler funnels through
//! to produce a uniform JSON response envelope.

pub mod bootstrap;
pub mod codec;
pub mod config;
pub mod envelope;
pub mod metrics;
pub mod error;
pub mod parse;
pub mod pool;
pub mod util;
