//! Finnhub's response records.

use vstd::prelude::*;

verus! {

/// One entry of Finnhub's stock-symbol list.
pub struct StockSymbol {
    pub currency: String,
    pub description: String,
    /// The JSON field `displaySymbol`.
    pub display_symbol: String,
    pub figi: String,
    pub mic: String,
    pub symbol: String,
    /// The JSON field `type`.
    pub stock_type: String,
}

} // verus!
