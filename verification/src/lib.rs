//! Verified core of a small finance-data loader: the SEC company-facts
//! schema, the rows it puts into PostgreSQL, the CIK formatting rules, the
//! download-target naming, the configuration and the environment template.
//! I/O (HTTP, files, the database, the terminal) lives in the `app/` binary.

pub mod cik;
pub mod config;
pub mod engine;
pub mod finnhub;
pub mod keyed_map;
pub mod schema;
pub mod sec;
pub mod text;
