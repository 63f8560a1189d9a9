//! Core engine of a release-version exporter.
//!
//! Three pieces make up the library: a time-to-live cache bounding how often
//! external feeds are re-fetched ([`cache`]), a bounded-concurrency collector
//! that isolates per-feed failures ([`collector`]), and a label-join evaluator
//! that classifies each observed instance as up-to-date, upgrade-available, or
//! unknown ([`upgrade_pending`]).

pub mod cache;
pub mod collector;
pub mod extractor;
pub mod labels;
pub mod metrics;
pub mod providers;
pub mod upgrade_pending;
