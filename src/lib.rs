//! Incremental shader build pipeline: staleness detection for shader source
//! pairs, discovery of shader objects in generated modules, and synthesis of
//! the aggregator modules that re-export them.
pub mod error;
pub mod listing;
pub mod names;
pub mod provision;
pub mod scan;
pub mod symbols;
pub mod synth;
