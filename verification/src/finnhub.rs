//! The Finnhub market-data source.

pub mod engine;
pub mod schema;
