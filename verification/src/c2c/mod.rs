//! Memory-access recordings: shared cache lines and the instructions behind them.
pub mod address;
pub mod classes;
pub mod data_source;
pub mod detail;
pub mod filter;
pub mod laws;
pub mod listings;
pub mod orders;
pub mod parse;
pub mod raw_record;
pub mod record;
pub mod rows;
pub mod site;
pub mod tools;
pub mod types;
