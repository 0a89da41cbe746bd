//! Supervised execution of an external device tool: line framing and
//! deduplication of its two output streams, an inactivity watchdog,
//! single-flight admission and cancellation, and the result handed back to
//! callers; with the tool's argument lists, its partition listing, scatter
//! files, self-update checks and the application's error taxonomy.

pub mod config;
pub mod diagnostics;
pub mod engine;
pub mod error;
pub mod executor;
pub mod lines;
pub mod models;
pub mod partitions;
pub mod scatter;
pub mod scatter_xml;
pub mod scatter_yaml;
pub mod text;
pub mod update;
