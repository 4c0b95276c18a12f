//! Core of a transaction-indexing pipeline: the step abstraction with its
//! connector, a gap-aware progress tracker that maintains the high-water mark
//! of contiguously processed transaction versions, a status store with
//! monotonic upserts, and the reply shaping of a mock upstream server.
//!
//! Everything here is pure logic over plain values; the asynchronous runtime,
//! the gRPC transport and the SQL driver live outside this crate and hand
//! values in and out.

pub mod config;
pub mod errors;
pub mod mock_grpc;
pub mod runtime;
pub mod status_store;
pub mod step;
pub mod tracker;
pub mod tracker_laws;
pub mod transaction_context;
