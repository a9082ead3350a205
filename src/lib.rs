//! Single-pass summary statistics over a stream of journal records:
//! per-message frequency, bounded rankings of the most frequent and the
//! largest messages, and per-process message volume.
pub mod counter;
pub mod engine;
pub mod filter;
pub mod laws;
pub mod ranking;
pub mod record;
pub mod report;
