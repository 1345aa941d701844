//! Decoder and aggregator for an NYSE TAQ-style trade feed.
//!
//! Lines of the feed are classified, decoded into typed records, filtered by
//! their condition codes, and folded into per-symbol, per-second event
//! buckets and cross-symbol statistics. Times are held as nanoseconds since
//! midnight and prices as integer multiples of 10^-9, so that every sum and
//! comparison is exact.
pub mod text;
pub mod error;
pub mod time_funcs;
pub mod mt220;
pub mod mt3;
pub mod mt34;
pub mod data_types;
pub mod symbols;
pub mod event_structs;
pub mod ranking;
pub mod base_funcs;
pub mod parsing;
