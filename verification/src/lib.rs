//! A client library for a JSON-over-HTTP API with continuation-based
//! pagination. A deep-merge algorithm folds response pages into one
//! logical result, a continuation engine decides how a multi-page fetch
//! proceeds and when it ends, and session state carries cookies and user
//! identity across the repeated requests. Transport, body decoding, and
//! the live fetch loop are left to the caller, who drives the engine with
//! plain values.

pub mod assoc;
pub mod value;
pub mod merge;
pub mod error;
pub mod params;
pub mod engine;
pub mod session;
pub mod api;
pub mod laws;
