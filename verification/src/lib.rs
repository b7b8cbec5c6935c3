//! Verified core of an area-book statistics tool.
//!
//! Raw per-area batches of contact, event, drop, reset and sacrament
//! records are turned into per-person timelines (`builder`), and the
//! timelines are replayed through a windowed state machine to measure
//! the time elapsed between consecutive qualifying contacts (`stats`).
//! Network retrieval, caching and export formatting are left to the
//! surrounding application; the library only computes.

pub mod api;
pub mod builder;
pub mod date;
pub mod info;
pub mod kic;
pub mod stats;
pub mod timeline;
