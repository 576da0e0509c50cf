//! Normalized market-event vocabulary shared by every venue feed.
//!
//! Prices are integer exchange-native ticks; sizes are integer size units.
//! A full-book snapshot from a venue is encoded as `Clear` followed by a
//! sequence of `LevelSet` events.

use vstd::prelude::*;

verus! {

/// Side of the book an event or order belongs to.
#[derive(Clone, Copy, Debug, PartialEq, Eq, Structural)]
pub enum Side {
    Buy,
    Sell,
}

/// One price level: a price in ticks carrying a strictly positive size.
#[derive(Clone, Copy, Debug, PartialEq, Eq, Structural)]
pub struct PriceLevel {
    pub price: u64,
    pub size: u64,
}

/// A normalized market event. `LevelSet` with size 0 removes the level;
/// `Trade` is informational and never mutates a book.
#[derive(Clone, Copy, Debug, PartialEq, Eq, Structural)]
pub enum MarketEvent {
    Clear,
    LevelSet(Side, u64, u64),
    Trade(Side, u64, u64),
}

/// Closed enumeration of the remote venues consulted for price signals,
/// each with a stable integer index into fixed-length per-venue state.
#[derive(Clone, Copy, Debug, PartialEq, Eq, Structural)]
pub enum Exchange {
    OkexSpot,
    OkexSwap,
    OkexQuarterly,
    BybitUsdt,
    Bitmex,
    HuobiSpot,
    HuobiSwap,
    HuobiQuarterly,
    Ftx,
}

/// Number of venues in `Exchange`; per-venue arrays have this length.
pub const EXCHANGE_COUNT: usize = 9;

impl Exchange {
    /// The stable index of this venue.
    pub open spec fn index_spec(self) -> int {
        match self {
            Exchange::OkexSpot => 0,
            Exchange::OkexSwap => 1,
            Exchange::OkexQuarterly => 2,
            Exchange::BybitUsdt => 3,
            Exchange::Bitmex => 4,
            Exchange::HuobiSpot => 5,
            Exchange::HuobiSwap => 6,
            Exchange::HuobiQuarterly => 7,
            Exchange::Ftx => 8,
        }
    }

    /// Stable integer index used for fixed-length arrays of per-venue state.
    pub fn index(self) -> (i: usize)
        ensures
            i == self.index_spec(),
            i < EXCHANGE_COUNT,
    {
        match self {
            Exchange::OkexSpot => 0,
            Exchange::OkexSwap => 1,
            Exchange::OkexQuarterly => 2,
            Exchange::BybitUsdt => 3,
            Exchange::Bitmex => 4,
            Exchange::HuobiSpot => 5,
            Exchange::HuobiSwap => 6,
            Exchange::HuobiQuarterly => 7,
            Exchange::Ftx => 8,
        }
    }
}

/// A block of events from one venue, applied atomically in order.
pub struct MarketEventBlock {
    pub exchange: Exchange,
    pub events: Vec<MarketEvent>,
}

} // verus!
