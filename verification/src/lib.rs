//! Activity-telemetry pipeline: ingestion, field normalization, privacy
//! redaction, in-memory durable-store model with processing state, windowed
//! batch scheduling, and a provider-agnostic summarization adapter.
//!
//! The redaction engine, the document model, the store contracts and the
//! scheduling decisions are verified; network and process plumbing lives
//! outside the library and hands it plain values.

pub mod doc;
pub mod history;
pub mod ingest;
pub mod models;
pub mod redact;
pub mod rows;
pub mod scheduler;
pub mod settings;
pub mod store;
pub mod summarize;
pub mod time;
