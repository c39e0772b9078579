//! Core of a minimal serverless function platform: worker lifecycle and
//! liveness tracking, function registration and routing, the execution
//! state machine, the dispatch policy, and the sandboxed WASM execution
//! boundary. Transport, process bootstrap and logging live outside.

pub mod numeral;
pub mod types;
pub mod worker;
pub mod registry;
pub mod catalog;
pub mod execution;
pub mod dispatch;
pub mod sandbox;
pub mod wire;
