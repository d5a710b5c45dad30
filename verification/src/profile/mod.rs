//! Sampled CPU profiles: the raw tables, their resolution and their symbols.
pub mod dwarf;
pub mod laws;
pub mod markers;
pub mod parse;
pub mod resolve;
pub mod resolved;
pub mod symbols;
pub mod types;
