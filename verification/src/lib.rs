//! A verified ingestion-and-aggregation pipeline for a time-series revenue
//! feed: tolerant normalization of raw wire entries, an idempotent
//! keyed-by-timestamp store, and time-bucketed aggregation views.

pub mod amount;
pub mod calendar;
pub mod feed;
pub mod pipeline;
pub mod store;
