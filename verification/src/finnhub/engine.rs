//! Access parameters of the Finnhub API.

use vstd::prelude::*;

pub use crate::finnhub::schema::StockSymbol;

verus! {

/// Base of all Finnhub API endpoints.
pub const FINNHUB_BASE_URL: &'static str = "https://finnhub.io/api/v1/";

/// Calls per second that the API accepts; more are answered with status 429.
pub const FINNHUB_CALLS_PER_SECOND: u32 = 30;

} // verus!
