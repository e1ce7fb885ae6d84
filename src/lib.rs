//! Aggregation and ranking of per-user gameplay counters read from
//! semicolon-delimited CSV data.

pub mod record;
pub mod tally;
pub mod aggregate;
pub mod rank;
pub mod decimal;
pub mod reader;
