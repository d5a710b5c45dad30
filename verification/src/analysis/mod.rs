//! Questions asked of a resolved profile.
pub mod laws;
pub mod samples;
pub mod symbols;
pub mod call_tree;
pub mod functions;
pub mod flamegraph;
pub mod context_switch;
pub mod source;
