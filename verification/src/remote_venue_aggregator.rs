//! Cross-venue aggregator: per-remote-venue order books, fair readings and
//! size smoothing, blended into one consensus fair value.
//!
//! Venue fair prices are in ticks; the blended price is returned in
//! hundredths of a tick. Each venue's smoothed size is weighted by a
//! venue-specific trust factor in tenths (configuration, not law). The
//! blended reading is unavailable until the adjusted sizes reach the
//! blending threshold; otherwise it is exactly the weight-averaged price,
//! rounding down, as `blended_fair` states.
//!
//! Fair readings beyond `FAIR_PRICE_MAX` or `FAIR_SHARES_MAX` are discarded
//! rather than stored: stored values must fit those machine limits so the
//! scaled blend arithmetic stays exact in 64 bits.

use vstd::prelude::*;

use crate::ema::{ema_step, Ema};
use crate::events::{Exchange, MarketEventBlock, PriceLevel, EXCHANGE_COUNT};
use crate::fair_value::{FairReading, FairValuer};
use crate::order_book::{apply_events_to_side, OrderBook};

verus! {

/// Largest fair price (in ticks) the aggregator stores.
pub const FAIR_PRICE_MAX: u64 = 0xFFFF_FFFF;

/// Largest fair share size the aggregator stores.
pub const FAIR_SHARES_MAX: u64 = 0xFFFF_FFFF;

/// Largest trust factor, in tenths.
pub const FACTOR_TENTHS_MAX: u64 = 1000;

/// A venue's smoothed size must reach this many units to join the blend.
pub const MIN_VENUE_SIZE: u64 = 10;

/// The blend is unavailable below this total adjusted size, in tenths of a
/// unit (100 units).
pub const MIN_BLEND_WEIGHT_TENTHS: u64 = 1000;

/// The blended price is returned in hundredths of a tick.
pub const BLEND_PRICE_SCALE: u64 = 100;

/// A venue's smoothed size, or zero before any observation.
pub open spec fn ema_value_or_zero(e: Ema) -> int {
    match e.value_spec() {
        Some(x) => x as int,
        None => 0,
    }
}

/// A venue's adjusted weight in tenths: its smoothed size times its trust
/// factor, or zero while the smoothed size is below `MIN_VENUE_SIZE`.
pub open spec fn venue_weight(e: Ema, factor: u64) -> int {
    let sz = ema_value_or_zero(e);
    if sz >= MIN_VENUE_SIZE as int {
        sz * factor
    } else {
        0
    }
}

/// Total adjusted weight of the first `n` venues.
pub open spec fn total_weight(emas: Seq<Ema>, factors: Seq<u64>, n: int) -> int
    decreases n,
{
    if n <= 0 {
        0
    } else {
        total_weight(emas, factors, n - 1) + venue_weight(emas[n - 1], factors[n - 1])
    }
}

/// Weight-scaled price sum of the first `n` venues.
pub open spec fn weighted_price_sum(
    fairs: Seq<u64>,
    emas: Seq<Ema>,
    factors: Seq<u64>,
    n: int,
) -> int
    decreases n,
{
    if n <= 0 {
        0
    } else {
        weighted_price_sum(fairs, emas, factors, n - 1) + fairs[n - 1] * venue_weight(
            emas[n - 1],
            factors[n - 1],
        )
    }
}

/// The blended reading: unavailable while the total adjusted weight is below
/// the threshold, else the weighted average price in hundredths of a tick
/// (rounding down) together with the total weight in tenths.
pub open spec fn blended_fair(fairs: Seq<u64>, emas: Seq<Ema>, factors: Seq<u64>) -> Option<
    (int, int),
> {
    let tw = total_weight(emas, factors, EXCHANGE_COUNT as int);
    if tw < MIN_BLEND_WEIGHT_TENTHS as int {
        None
    } else {
        Some(
            (
                (weighted_price_sum(fairs, emas, factors, EXCHANGE_COUNT as int) * (
                BLEND_PRICE_SCALE as int)) / tw,
                tw,
            ),
        )
    }
}

/// The default trust factor of a venue, in tenths: slow feeds carry 0.7,
/// one high-volume venue carries 2.5, everyone else 1.0.
pub open spec fn default_factor_spec(i: int) -> u64 {
    if i == Exchange::HuobiSpot.index_spec() || i == Exchange::HuobiSwap.index_spec() || i
        == Exchange::HuobiQuarterly.index_spec() {
        7
    } else if i == Exchange::Ftx.index_spec() {
        25
    } else {
        10
    }
}

/// Bounds on the blend sums: the total weight of `n` venues is at most
/// `n` times the largest venue weight, and the weighted price sum at most
/// the largest storable fair price times the total weight.
pub proof fn lemma_blend_sum_bounds(fairs: Seq<u64>, emas: Seq<Ema>, factors: Seq<u64>, n: int)
    requires
        0 <= n <= emas.len(),
        emas.len() == factors.len(),
        emas.len() == fairs.len(),
        forall|i: int|
            0 <= i < emas.len() ==> ema_value_or_zero(emas[i]) <= FAIR_SHARES_MAX as int,
        forall|i: int| 0 <= i < emas.len() ==> 0 <= ema_value_or_zero(emas[i]),
        forall|i: int| 0 <= i < factors.len() ==> factors[i] <= FACTOR_TENTHS_MAX,
        forall|i: int| 0 <= i < fairs.len() ==> fairs[i] <= FAIR_PRICE_MAX,
    ensures
        0 <= total_weight(emas, factors, n),
        total_weight(emas, factors, n) <= n * (FAIR_SHARES_MAX as int * FACTOR_TENTHS_MAX as int),
        0 <= weighted_price_sum(fairs, emas, factors, n),
        weighted_price_sum(fairs, emas, factors, n) <= FAIR_PRICE_MAX as int * total_weight(
            emas,
            factors,
            n,
        ),
    decreases n,
{
    let wmax: int = FAIR_SHARES_MAX as int * FACTOR_TENTHS_MAX as int;
    if n <= 0 {
        assert(0 * wmax == 0) by (nonlinear_arith);
        assert(FAIR_PRICE_MAX as int * 0 == 0) by (nonlinear_arith);
    } else {
        lemma_blend_sum_bounds(fairs, emas, factors, n - 1);
        let vw = venue_weight(emas[n - 1], factors[n - 1]);
        assert(0 <= vw && vw <= wmax) by (nonlinear_arith)
            requires
                vw == venue_weight(emas[n - 1], factors[n - 1]),
                0 <= ema_value_or_zero(emas[n - 1]) <= FAIR_SHARES_MAX as int,
                0 <= factors[n - 1] <= FACTOR_TENTHS_MAX,
                wmax == FAIR_SHARES_MAX as int * FACTOR_TENTHS_MAX as int,
        ;
        assert((n - 1) * wmax + wmax == n * wmax) by (nonlinear_arith);
        assert(fairs[n - 1] as int * vw <= FAIR_PRICE_MAX as int * vw) by (nonlinear_arith)
            requires
                0 <= vw,
                fairs[n - 1] <= FAIR_PRICE_MAX,
        ;
        assert(0 <= fairs[n - 1] as int * vw) by (nonlinear_arith)
            requires
                0 <= vw,
                0 <= fairs[n - 1] as int,
        ;
        assert(FAIR_PRICE_MAX as int * total_weight(emas, factors, n - 1) + FAIR_PRICE_MAX as int
            * vw == FAIR_PRICE_MAX as int * total_weight(emas, factors, n)) by (nonlinear_arith)
            requires
                total_weight(emas, factors, n) == total_weight(emas, factors, n - 1) + vw,
        ;
    }
}

/// Owns one book, one last-known fair price and one size average per remote
/// venue, and blends them into a consensus fair value.
pub struct RemoteVenueAggregator<V: FairValuer> {
    books: Vec<OrderBook>,
    fairs: Vec<u64>,
    size_ema: Vec<Ema>,
    factors: Vec<u64>,
    valuer: V,
}

impl<V: FairValuer> RemoteVenueAggregator<V> {
    /// Per-venue books, indexed by `Exchange::index`.
    pub closed spec fn books_spec(&self) -> Seq<OrderBook> {
        self.books@
    }

    /// Per-venue last-known fair prices in ticks.
    pub closed spec fn fairs_spec(&self) -> Seq<u64> {
        self.fairs@
    }

    /// Per-venue smoothed fair sizes.
    pub closed spec fn emas_spec(&self) -> Seq<Ema> {
        self.size_ema@
    }

    /// Per-venue trust factors in tenths.
    pub closed spec fn factors_spec(&self) -> Seq<u64> {
        self.factors@
    }

    /// Fixed-length per-venue state, well-formed books, and every stored
    /// value within the blending machine limits.
    pub open spec fn wf(&self) -> bool {
        &&& self.books_spec().len() == EXCHANGE_COUNT
        &&& self.fairs_spec().len() == EXCHANGE_COUNT
        &&& self.emas_spec().len() == EXCHANGE_COUNT
        &&& self.factors_spec().len() == EXCHANGE_COUNT
        &&& forall|i: int| 0 <= i < EXCHANGE_COUNT ==> self.books_spec()[i].wf()
        &&& forall|i: int| 0 <= i < EXCHANGE_COUNT ==> self.fairs_spec()[i] <= FAIR_PRICE_MAX
        &&& forall|i: int|
            0 <= i < EXCHANGE_COUNT ==> self.emas_spec()[i].wf() && ema_value_or_zero(
                self.emas_spec()[i],
            ) <= FAIR_SHARES_MAX as int
        &&& forall|i: int| 0 <= i < EXCHANGE_COUNT ==> self.factors_spec()[i] <= FACTOR_TENTHS_MAX
    }

    /// A fresh aggregator: empty books, zero fair prices, empty averages
    /// with the given smoothing ratio (in thousandths), default trust
    /// factors.
    pub fn new(valuer: V, size_ratio: u64) -> (r: RemoteVenueAggregator<V>)
        requires
            size_ratio <= 1000,
        ensures
            r.wf(),
            forall|i: int|
                0 <= i < EXCHANGE_COUNT ==> r.books_spec()[i].bids_spec() == Seq::<
                    PriceLevel,
                >::empty() && r.books_spec()[i].asks_spec() == Seq::<PriceLevel>::empty(),
            forall|i: int| 0 <= i < EXCHANGE_COUNT ==> r.fairs_spec()[i] == 0,
            forall|i: int| 0 <= i < EXCHANGE_COUNT ==> r.emas_spec()[i].value_spec() is None,
            forall|i: int| 0 <= i < EXCHANGE_COUNT ==> r.factors_spec()[i] == default_factor_spec(i),
    {
        let mut books: Vec<OrderBook> = Vec::new();
        let mut fairs: Vec<u64> = Vec::new();
        let mut size_ema: Vec<Ema> = Vec::new();
        let mut factors: Vec<u64> = Vec::new();
        let mut i: usize = 0;
        while i < EXCHANGE_COUNT
            invariant
                size_ratio <= 1000,
                0 <= i <= EXCHANGE_COUNT,
                books@.len() == i,
                fairs@.len() == i,
                size_ema@.len() == i,
                factors@.len() == i,
                forall|j: int|
                    0 <= j < i ==> books@[j].wf() && books@[j].bids_spec() == Seq::<
                        PriceLevel,
                    >::empty() && books@[j].asks_spec() == Seq::<PriceLevel>::empty(),
                forall|j: int| 0 <= j < i ==> fairs@[j] == 0,
                forall|j: int|
                    0 <= j < i ==> size_ema@[j].wf() && size_ema@[j].value_spec() is None,
                forall|j: int| 0 <= j < i ==> factors@[j] == default_factor_spec(j),
            decreases EXCHANGE_COUNT - i,
        {
            books.push(OrderBook::new());
            fairs.push(0);
            size_ema.push(Ema::new(size_ratio));
            let f: u64 = if i == 5 || i == 6 || i == 7 {
                7
            } else if i == 8 {
                25
            } else {
                10
            };
            factors.push(f);
            i = i + 1;
        }
        proof {
            assert forall|j: int| 0 <= j < EXCHANGE_COUNT implies factors@[j]
                <= FACTOR_TENTHS_MAX by {
                assert(factors@[j] == default_factor_spec(j));
            }
            assert forall|j: int| 0 <= j < EXCHANGE_COUNT implies ema_value_or_zero(size_ema@[j])
                <= FAIR_SHARES_MAX as int by {
                assert(size_ema@[j].value_spec() is None);
            }
        }
        RemoteVenueAggregator { books, fairs, size_ema, factors, valuer }
    }

    /// Apply one venue's event block to its book; if the book then quotes
    /// both sides, store the valuer's fair price and fold its fair shares
    /// into the venue's size average. Readings beyond the machine limits are
    /// discarded; other venues' state is untouched.
    pub fn update_fair_for(&mut self, block: &MarketEventBlock)
        requires
            old(self).wf(),
        ensures
            final(self).wf(),
            final(self).factors_spec() == old(self).factors_spec(),
            ({
                let idx = block.exchange.index_spec();
                &&& final(self).books_spec()[idx].bids_spec() == apply_events_to_side(
                    old(self).books_spec()[idx].bids_spec(),
                    block.events@,
                    true,
                )
                &&& final(self).books_spec()[idx].asks_spec() == apply_events_to_side(
                    old(self).books_spec()[idx].asks_spec(),
                    block.events@,
                    false,
                )
                &&& forall|j: int|
                    0 <= j < EXCHANGE_COUNT && j != idx ==> final(self).books_spec()[j]
                        == old(self).books_spec()[j] && final(self).fairs_spec()[j] == old(self).fairs_spec()[j] && final(self).emas_spec()[j] == old(self).emas_spec()[j]
                &&& (final(self).books_spec()[idx].bids_spec().len() == 0 || final(self).books_spec()[idx].asks_spec().len() == 0 ==> final(self).fairs_spec()[idx] == old(self).fairs_spec()[idx] && final(self).emas_spec()[idx] == old(self).emas_spec()[idx])
                &&& final(self).emas_spec()[idx].ratio_spec() == old(self).emas_spec()[idx].ratio_spec()
            }),
    {
        let idx = block.exchange.index();
        let mut book = self.books.remove(idx);
        book.apply_all(&block.events);
        let (bb, ba) = book.bbo();
        let reading = match (bb, ba) {
            (Some(best_bid), Some(best_ask)) => Some(
                self.valuer.fair_value(&book, best_bid.price, best_ask.price),
            ),
            _ => None,
        };
        self.books.insert(idx, book);
        proof {
            assert(self.books@ =~= old(self).books@.update(idx as int, self.books@[idx as int]));
        }
        if let Some(reading) = reading {
            self.record_fair_reading(block.exchange, reading);
        }
    }

    /// Store one fair reading for a venue: the fair price replaces the
    /// venue's last-known one and the fair shares are folded into its size
    /// average — unless the reading exceeds the machine limits, in which
    /// case it is discarded whole. No other venue's state moves.
    pub fn record_fair_reading(&mut self, exch: Exchange, reading: FairReading)
        requires
            old(self).wf(),
        ensures
            final(self).wf(),
            final(self).books_spec() == old(self).books_spec(),
            final(self).factors_spec() == old(self).factors_spec(),
            ({
                let idx = exch.index_spec();
                &&& forall|j: int|
                    0 <= j < EXCHANGE_COUNT && j != idx ==> final(self).fairs_spec()[j] == old(self).fairs_spec()[j] && final(self).emas_spec()[j] == old(self).emas_spec()[j]
                &&& final(self).emas_spec()[idx].ratio_spec() == old(self).emas_spec()[idx].ratio_spec()
                &&& if reading.fair_price <= FAIR_PRICE_MAX && reading.fair_shares
                    <= FAIR_SHARES_MAX {
                    &&& final(self).fairs_spec()[idx] == reading.fair_price
                    &&& match (
                        old(self).emas_spec()[idx].value_spec(),
                        final(self).emas_spec()[idx].value_spec(),
                    ) {
                        (None, Some(x)) => x == reading.fair_shares,
                        (Some(cur), Some(x)) => x as int == ema_step(
                            cur as int,
                            reading.fair_shares as int,
                            old(self).emas_spec()[idx].ratio_spec() as int,
                        ),
                        _ => false,
                    }
                } else {
                    final(self).fairs_spec()[idx] == old(self).fairs_spec()[idx] && final(self).emas_spec()[idx] == old(self).emas_spec()[idx]
                }
            }),
    {
        let idx = exch.index();
        if reading.fair_price <= FAIR_PRICE_MAX && reading.fair_shares <= FAIR_SHARES_MAX {
            self.fairs[idx] = reading.fair_price;
            let mut e = self.size_ema.remove(idx);
            e.add_value(reading.fair_shares);
            self.size_ema.insert(idx, e);
            proof {
                assert(self.size_ema@ =~= old(self).size_ema@.update(
                    idx as int,
                    self.size_ema@[idx as int],
                ));
            }
        }
    }

    /// The blended consensus fair value: `None` while the total adjusted
    /// weight is below the threshold, else exactly the weighted average
    /// price in hundredths of a tick and the total weight in tenths.
    pub fn calculate_fair(&self) -> (r: Option<(u64, u64)>)
        requires
            self.wf(),
        ensures
            match blended_fair(self.fairs_spec(), self.emas_spec(), self.factors_spec()) {
                None => r is None,
                Some(pw) => r matches Some(x) && x.0 as int == pw.0 && x.1 as int == pw.1,
            },
    {
        let ghost fairs = self.fairs_spec();
        let ghost emas = self.emas_spec();
        let ghost factors = self.factors_spec();
        let ghost wmax: int = FAIR_SHARES_MAX as int * FACTOR_TENTHS_MAX as int;
        let mut total_price: u128 = 0;
        let mut total_size: u128 = 0;
        let mut i: usize = 0;
        while i < EXCHANGE_COUNT
            invariant
                self.wf(),
                fairs == self.fairs_spec(),
                emas == self.emas_spec(),
                factors == self.factors_spec(),
                wmax == FAIR_SHARES_MAX as int * FACTOR_TENTHS_MAX as int,
                0 <= i <= EXCHANGE_COUNT,
                total_size as int == total_weight(emas, factors, i as int),
                total_price as int == weighted_price_sum(fairs, emas, factors, i as int),
            decreases EXCHANGE_COUNT - i,
        {
            proof {
                lemma_blend_sum_bounds(fairs, emas, factors, i as int);
                lemma_blend_sum_bounds(fairs, emas, factors, i + 1);
                assert((i + 1) * wmax <= EXCHANGE_COUNT * wmax) by (nonlinear_arith)
                    requires
                        0 <= wmax,
                        i + 1 <= EXCHANGE_COUNT,
                ;
            }
            let sz: u64 = match self.size_ema[i].get_value() {
                Some(x) => x,
                None => 0,
            };
            if sz >= MIN_VENUE_SIZE {
                let factor = self.factors[i];
                let fair = self.fairs[i];
                proof {
                    assert(sz as int * factor as int <= wmax && 0 <= sz as int * factor as int)
                        by (nonlinear_arith)
                        requires
                            sz <= FAIR_SHARES_MAX,
                            factor <= FACTOR_TENTHS_MAX,
                            wmax == FAIR_SHARES_MAX as int * FACTOR_TENTHS_MAX as int,
                    ;
                    assert(fair as int * (sz as int * factor as int) <= FAIR_PRICE_MAX as int
                        * wmax) by (nonlinear_arith)
                        requires
                            fair <= FAIR_PRICE_MAX,
                            0 <= sz as int * factor as int <= wmax,
                    ;
                }
                let w: u128 = (sz as u128) * (factor as u128);
                proof {
                    assert(total_price as int + fair as int * w as int == weighted_price_sum(
                        fairs,
                        emas,
                        factors,
                        i + 1,
                    ));
                    assert(total_size as int + w as int == total_weight(emas, factors, i + 1));
                    assert(FAIR_PRICE_MAX as int * total_weight(emas, factors, i + 1)
                        <= FAIR_PRICE_MAX as int * (EXCHANGE_COUNT * wmax)) by (nonlinear_arith)
                        requires
                            total_weight(emas, factors, i + 1) <= EXCHANGE_COUNT * wmax,
                            0 <= FAIR_PRICE_MAX as int,
                    ;
                }
                total_price = total_price + (fair as u128) * w;
                total_size = total_size + w;
            }
            i = i + 1;
        }
        if total_size < MIN_BLEND_WEIGHT_TENTHS as u128 {
            return None;
        }
        proof {
            lemma_blend_sum_bounds(fairs, emas, factors, EXCHANGE_COUNT as int);
            assert(EXCHANGE_COUNT * wmax < 0xFFFF_FFFF_FFFF_FFFFint) by (nonlinear_arith)
                requires
                    wmax == FAIR_SHARES_MAX as int * FACTOR_TENTHS_MAX as int,
            ;
            assert((total_price as int * (BLEND_PRICE_SCALE as int)) / (total_size as int)
                <= FAIR_PRICE_MAX as int * BLEND_PRICE_SCALE as int) by (nonlinear_arith)
                requires
                    total_price as int <= FAIR_PRICE_MAX as int * (total_size as int),
                    total_size as int >= 1,
                    0 <= total_price as int,
            ;
            assert(wmax == 4294967295000int);
            assert(FAIR_PRICE_MAX as int * (EXCHANGE_COUNT * wmax) * (BLEND_PRICE_SCALE as int)
                < u128::MAX as int) by (nonlinear_arith)
                requires
                    wmax == 4294967295000int,
                    FAIR_PRICE_MAX as int == 0xFFFF_FFFFint,
                    EXCHANGE_COUNT == 9,
                    BLEND_PRICE_SCALE as int == 100,
            ;
            assert(total_price as int * BLEND_PRICE_SCALE as int <= FAIR_PRICE_MAX as int * (
            EXCHANGE_COUNT * wmax) * (BLEND_PRICE_SCALE as int)) by (nonlinear_arith)
                requires
                    0 <= total_price as int,
                    total_price as int <= FAIR_PRICE_MAX as int * (total_size as int),
                    total_size as int <= EXCHANGE_COUNT * wmax,
                    0 <= wmax,
            ;
        }
        let q: u128 = (total_price * (BLEND_PRICE_SCALE as u128)) / total_size;
        Some((q as u64, total_size as u64))
    }

    /// A venue's last-known fair price in ticks (zero until its book first
    /// quotes both sides).
    pub fn venue_fair(&self, exch: Exchange) -> (r: u64)
        requires
            self.wf(),
        ensures
            r == self.fairs_spec()[exch.index_spec()],
    {
        self.fairs[exch.index()]
    }

    /// A venue's smoothed fair size, absent until its first reading.
    pub fn venue_smoothed_size(&self, exch: Exchange) -> (r: Option<u64>)
        requires
            self.wf(),
        ensures
            r == self.emas_spec()[exch.index_spec()].value_spec(),
    {
        self.size_ema[exch.index()].get_value()
    }
}

} // verus!
