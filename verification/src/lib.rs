//! Verified analysis core of a profile-inspection server.
//!
//! The crate resolves sampled CPU profiles and `perf c2c` recordings into
//! plain data and answers questions about them: hot functions, call trees,
//! flamegraphs, context switches, source lines and shared cache lines.
pub mod analysis;
pub mod c2c;
pub mod filters;
pub mod fnv;
pub mod groups;
pub mod mcp;
pub mod profile;
pub mod rank;
pub mod sets;
pub mod shared;
pub mod sums;
pub mod text;
pub mod units;
