//! A completion-request gateway library: preset merging, usage and telemetry
//! extraction, streaming chunk handling, and an audit log of every proxied
//! exchange, with machine-checked contracts.
//!
//! - [`json`] — ordered JSON objects and the trusted boundary to serde_json
//! - [`preset`] — provider profiles and the preset merger
//! - [`request`] — prompt classification, model/stream defaults, usage opt-in
//! - [`usage`] — the usage extractor and its accumulator
//! - [`telemetry`] — throughput and the tokenizer-fallback decisions
//! - [`stream`] — the streaming bridge session
//! - [`audit`] — the audit log store
//! - [`engine`] — the forwarding engine tying an exchange together
//! - [`config`] — gateway configuration state and its mutations
//! - [`models`] — the model-listing filter
//! - [`logview`] — log-listing query parameters

pub mod audit;
pub mod config;
pub mod engine;
pub mod json;
pub mod logview;
pub mod models;
pub mod preset;
pub mod request;
pub mod stream;
pub mod telemetry;
pub mod usage;
