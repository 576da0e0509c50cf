//! Port for the fair-value pricing formula.
//!
//! The formula itself is outside this crate's scope: the tactic treats it as
//! a pure function from a populated book and its BBO to a (price, shares)
//! reading. The logic around it is verified for every implementation.

use vstd::prelude::*;

use crate::order_book::OrderBook;

verus! {

/// A venue-local fair-value estimate: a price in ticks and the share size
/// backing it.
#[derive(Clone, Copy, Debug, PartialEq, Eq, Structural)]
pub struct FairReading {
    pub fair_price: u64,
    pub fair_shares: u64,
}

/// The fair-value pricing port. Implementations hold their tuning and
/// compute a reading from book depth; they carry no tactic state.
pub trait FairValuer: Sized {
    /// Compute a fair reading from a book whose BBO prices are `bid` and
    /// `ask`.
    fn fair_value(&self, book: &OrderBook, bid: u64, ask: u64) -> FairReading;
}

/// A simple default valuer: the BBO midpoint, backed by the size quoted at
/// the top of both sides.
#[derive(Clone, Copy, Debug)]
pub struct MidValuer;

impl FairValuer for MidValuer {
    fn fair_value(&self, book: &OrderBook, bid: u64, ask: u64) -> FairReading {
        let bids = book.bids();
        let asks = book.asks();
        let mut shares: u64 = 0;
        if bids.len() > 0 {
            shares = bids[0].size;
        }
        if asks.len() > 0 {
            let extra = asks[0].size;
            if shares <= u64::MAX - extra {
                shares = shares + extra;
            } else {
                shares = u64::MAX;
            }
        }
        let mid = bid / 2 + ask / 2 + (bid % 2 + ask % 2) / 2;
        FairReading { fair_price: mid, fair_shares: shares }
    }
}

} // verus!
