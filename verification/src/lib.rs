//! A flattening JSON encoder for metric snapshots.
//!
//! The encoder turns an ordered sequence of metric families — counters,
//! gauges and histograms, each sample optionally labelled — into a flat
//! map from one dot-joined string key to one numeric value, and renders
//! that map as a single JSON object.
pub mod flatten;
pub mod json_encoder;
pub mod model;
