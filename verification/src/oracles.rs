//! Price feeds.

use vstd::prelude::*;

verus! {

/// A feed of the price of one symbol.
#[derive(Clone, Debug)]
pub struct PriceFeed {
    pub symbol: String,
}

impl PriceFeed {
    /// A feed for `symbol`.
    pub fn new(symbol: &str) -> (feed: Self)
        ensures
            feed.symbol@ == symbol@,
    {
        PriceFeed { symbol: symbol.to_owned() }
    }
}

} // verus!
