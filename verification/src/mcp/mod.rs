//! What the tools of the server compute.
pub mod analysis_cache;
pub mod cache;
pub mod events;
pub mod focus;
pub mod functions;
pub mod hotspots;
pub mod laws;
pub mod lookup;
pub mod overview;
pub mod scope;
pub mod source;
pub mod stacks;
pub mod summary;
pub mod thread_groups;
pub mod threads;
pub mod trees;
pub mod under_caller;
