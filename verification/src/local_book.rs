//! Home-venue book with detection of new inside orders and gap-fill
//! synthesis.
//!
//! `handle_book_update` applies a block of events and reports every level
//! now quoting strictly inside the previous BBO, plus a synthetic order on
//! the opposite side whenever a side's best worsened, so that the tactic
//! chases the gap instead of sitting on stale quotes. The emitted sequence
//! is pinned exactly by `inside_orders`, and the completeness and gap-
//! synthesis laws are proved of that model.

use vstd::prelude::*;

use crate::events::{MarketEvent, PriceLevel, Side};
use crate::fair_value::{FairReading, FairValuer};
use crate::order_book::{apply_events_to_side, has_level, ranks_before, side_wf, OrderBook};

verus! {

/// A real or synthetic signal that a level appeared strictly inside the
/// previous BBO, or that a gap opened and should be chased.
#[derive(Clone, Copy, Debug, PartialEq, Eq, Structural)]
pub struct InsideOrder {
    pub insert_price: u64,
    pub insert_size: u64,
    pub side: Side,
}

/// Previous top-of-book snapshot: the BBO prices and the fair reading taken
/// when they were recorded.
#[derive(Clone, Copy, Debug, PartialEq, Eq, Structural)]
pub struct TobSnapshot {
    pub bid_price: u64,
    pub ask_price: u64,
    pub fair: FairReading,
}

/// The side reported for levels of a descending (bid) or ascending (ask)
/// book side.
pub open spec fn side_of(desc: bool) -> Side {
    if desc {
        Side::Buy
    } else {
        Side::Sell
    }
}

/// The inside order announcing one book level.
pub open spec fn inside_order_of(l: PriceLevel, desc: bool) -> InsideOrder {
    InsideOrder { insert_price: l.price, insert_size: l.size, side: side_of(desc) }
}

/// The new inside orders of one side: its levels strictly better than the
/// old best, taken from the best down until the first that is not.
pub open spec fn new_inside(s: Seq<PriceLevel>, old_best: u64, desc: bool) -> Seq<InsideOrder>
    decreases s.len(),
{
    if s.len() == 0 {
        Seq::empty()
    } else if ranks_before(desc, s[0].price, old_best) {
        seq![inside_order_of(s[0], desc)] + new_inside(s.drop_first(), old_best, desc)
    } else {
        Seq::empty()
    }
}

/// Synthetic gap-chasing orders: when the ask strictly worsened, a Buy at
/// the old ask with size 1; when the bid strictly worsened, a Sell at the
/// old bid with size 1.
pub open spec fn gap_orders(bid: u64, ask: u64, old_bid: u64, old_ask: u64) -> Seq<InsideOrder> {
    (if ask > old_ask {
        seq![InsideOrder { insert_price: old_ask, insert_size: 1, side: Side::Buy }]
    } else {
        Seq::empty()
    }) + (if bid < old_bid {
        seq![InsideOrder { insert_price: old_bid, insert_size: 1, side: Side::Sell }]
    } else {
        Seq::empty()
    })
}

/// Everything `handle_book_update` emits once both sides are populated and a
/// previous snapshot exists: new bid-side inside orders, then new ask-side
/// inside orders, then the synthetic gap orders.
pub open spec fn inside_orders(
    bids: Seq<PriceLevel>,
    asks: Seq<PriceLevel>,
    old_bid: u64,
    old_ask: u64,
) -> Seq<InsideOrder>
    recommends
        bids.len() > 0,
        asks.len() > 0,
{
    new_inside(bids, old_bid, true) + new_inside(asks, old_ask, false) + gap_orders(
        bids[0].price,
        asks[0].price,
        old_bid,
        old_ask,
    )
}

/// How many orders of `s` quote side `side` at price `p`.
pub open spec fn count_orders(s: Seq<InsideOrder>, side: Side, p: u64) -> nat
    decreases s.len(),
{
    if s.len() == 0 {
        0
    } else {
        (if s[0].side == side && s[0].insert_price == p {
            1nat
        } else {
            0nat
        }) + count_orders(s.drop_first(), side, p)
    }
}

proof fn lemma_count_concat(a: Seq<InsideOrder>, b: Seq<InsideOrder>, side: Side, p: u64)
    ensures
        count_orders(a + b, side, p) == count_orders(a, side, p) + count_orders(b, side, p),
    decreases a.len(),
{
    if a.len() == 0 {
        assert(a + b =~= b);
    } else {
        assert((a + b)[0] == a[0]);
        assert((a + b).drop_first() =~= a.drop_first() + b);
        lemma_count_concat(a.drop_first(), b, side, p);
    }
}

proof fn lemma_count_singleton(o: InsideOrder, side: Side, p: u64)
    ensures
        count_orders(seq![o], side, p) == if o.side == side && o.insert_price == p {
            1nat
        } else {
            0nat
        },
{
    let s1 = seq![o];
    assert(s1.len() == 1);
    assert(s1[0] == o);
    assert(s1.drop_first() =~= Seq::<InsideOrder>::empty());
    assert(count_orders(Seq::<InsideOrder>::empty(), side, p) == 0);
}

/// Orders of `new_inside` all carry the side of their book side.
proof fn lemma_new_inside_other_side(
    s: Seq<PriceLevel>,
    old_best: u64,
    desc: bool,
    side: Side,
    p: u64,
)
    requires
        side != side_of(desc),
    ensures
        count_orders(new_inside(s, old_best, desc), side, p) == 0,
    decreases s.len(),
{
    if s.len() > 0 && ranks_before(desc, s[0].price, old_best) {
        lemma_new_inside_other_side(s.drop_first(), old_best, desc, side, p);
        lemma_count_concat(
            seq![inside_order_of(s[0], desc)],
            new_inside(s.drop_first(), old_best, desc),
            side,
            p,
        );
        lemma_count_singleton(inside_order_of(s[0], desc), side, p);
    }
}

/// On a well-formed side, `new_inside` emits exactly one order for each
/// price the side quotes strictly better than the old best, and no other.
proof fn lemma_new_inside_count(s: Seq<PriceLevel>, old_best: u64, desc: bool, p: u64)
    requires
        side_wf(s, desc),
    ensures
        count_orders(new_inside(s, old_best, desc), side_of(desc), p) == if has_level(s, p)
            && ranks_before(desc, p, old_best) {
            1nat
        } else {
            0nat
        },
    decreases s.len(),
{
    if s.len() == 0 {
    } else if ranks_before(desc, s[0].price, old_best) {
        let rest = s.drop_first();
        assert(forall|j: int| 0 <= j < rest.len() ==> rest[j] == s[j + 1]);
        lemma_new_inside_count(rest, old_best, desc, p);
        lemma_count_concat(
            seq![inside_order_of(s[0], desc)],
            new_inside(rest, old_best, desc),
            side_of(desc),
            p,
        );
        lemma_count_singleton(inside_order_of(s[0], desc), side_of(desc), p);
        if s[0].price == p {
            assert(!has_level(rest, p)) by {
                if has_level(rest, p) {
                    let i = choose|i: int| 0 <= i < rest.len() && rest[i].price == p;
                    assert(ranks_before(desc, s[0].price, s[i + 1].price));
                }
            }
        } else {
            if has_level(s, p) {
                let i = choose|i: int| 0 <= i < s.len() && s[i].price == p;
                assert(rest[i - 1].price == p);
                assert(has_level(rest, p));
            }
            if has_level(rest, p) {
                let i = choose|i: int| 0 <= i < rest.len() && rest[i].price == p;
                assert(s[i + 1].price == p);
                assert(has_level(s, p));
            }
        }
    } else {
        if has_level(s, p) && ranks_before(desc, p, old_best) {
            let i = choose|i: int| 0 <= i < s.len() && s[i].price == p;
            if i > 0 {
                assert(ranks_before(desc, s[0].price, s[i].price));
            }
            assert(ranks_before(desc, s[0].price, old_best));
        }
    }
}

/// The count a real (non-synthetic) inside order contributes for `(side, p)`.
pub open spec fn real_inside_count(
    bids: Seq<PriceLevel>,
    asks: Seq<PriceLevel>,
    old_bid: u64,
    old_ask: u64,
    side: Side,
    p: u64,
) -> nat {
    if side is Buy {
        if has_level(bids, p) && p > old_bid {
            1nat
        } else {
            0nat
        }
    } else {
        if has_level(asks, p) && p < old_ask {
            1nat
        } else {
            0nat
        }
    }
}

/// The count the synthetic gap orders contribute for `(side, p)`.
pub open spec fn gap_count(
    bid: u64,
    ask: u64,
    old_bid: u64,
    old_ask: u64,
    side: Side,
    p: u64,
) -> nat {
    (if side is Buy && ask > old_ask && p == old_ask {
        1nat
    } else {
        0nat
    }) + (if side is Sell && bid < old_bid && p == old_bid {
        1nat
    } else {
        0nat
    })
}

/// Exact accounting of `inside_orders`: for every side and price, the number
/// of emitted orders is the real inside-order count plus the synthetic gap
/// count. Inside-order completeness and gap synthesis both read off this.
pub proof fn lemma_inside_order_count(
    bids: Seq<PriceLevel>,
    asks: Seq<PriceLevel>,
    old_bid: u64,
    old_ask: u64,
    side: Side,
    p: u64,
)
    requires
        side_wf(bids, true),
        side_wf(asks, false),
        bids.len() > 0,
        asks.len() > 0,
    ensures
        count_orders(inside_orders(bids, asks, old_bid, old_ask), side, p) == real_inside_count(
            bids,
            asks,
            old_bid,
            old_ask,
            side,
            p,
        ) + gap_count(bids[0].price, asks[0].price, old_bid, old_ask, side, p),
{
    let nb = new_inside(bids, old_bid, true);
    let na = new_inside(asks, old_ask, false);
    let g = gap_orders(bids[0].price, asks[0].price, old_bid, old_ask);
    lemma_count_concat(nb + na, g, side, p);
    lemma_count_concat(nb, na, side, p);
    if side is Buy {
        lemma_new_inside_count(bids, old_bid, true, p);
        lemma_new_inside_other_side(asks, old_ask, false, side, p);
    } else {
        lemma_new_inside_other_side(bids, old_bid, true, side, p);
        lemma_new_inside_count(asks, old_ask, false, p);
    }
    let ga: Seq<InsideOrder> = if asks[0].price > old_ask {
        seq![InsideOrder { insert_price: old_ask, insert_size: 1, side: Side::Buy }]
    } else {
        Seq::empty()
    };
    let gb: Seq<InsideOrder> = if bids[0].price < old_bid {
        seq![InsideOrder { insert_price: old_bid, insert_size: 1, side: Side::Sell }]
    } else {
        Seq::empty()
    };
    lemma_count_concat(ga, gb, side, p);
    if asks[0].price > old_ask {
        lemma_count_singleton(
            InsideOrder { insert_price: old_ask, insert_size: 1, side: Side::Buy },
            side,
            p,
        );
    }
    if bids[0].price < old_bid {
        lemma_count_singleton(
            InsideOrder { insert_price: old_bid, insert_size: 1, side: Side::Sell },
            side,
            p,
        );
    }
}

/// Inside-order completeness: for every price the new book quotes strictly
/// inside the previous BBO on either side, exactly one inside order for that
/// price and side is emitted — provided no synthetic gap order lands on the
/// same price and side.
pub proof fn lemma_inside_order_completeness(
    bids: Seq<PriceLevel>,
    asks: Seq<PriceLevel>,
    old_bid: u64,
    old_ask: u64,
    side: Side,
    p: u64,
)
    requires
        side_wf(bids, true),
        side_wf(asks, false),
        bids.len() > 0,
        asks.len() > 0,
        side is Buy ==> has_level(bids, p) && p > old_bid,
        side is Sell ==> has_level(asks, p) && p < old_ask,
        gap_count(bids[0].price, asks[0].price, old_bid, old_ask, side, p) == 0,
    ensures
        count_orders(inside_orders(bids, asks, old_bid, old_ask), side, p) == 1,
{
    lemma_inside_order_count(bids, asks, old_bid, old_ask, side, p);
}

/// Gap synthesis: if the best bid strictly worsened, exactly one synthetic
/// Sell at the old bid (size 1) is emitted — provided the ask side does not
/// also quote a real inside order at that price; symmetric for the ask.
pub proof fn lemma_gap_synthesis(
    bids: Seq<PriceLevel>,
    asks: Seq<PriceLevel>,
    old_bid: u64,
    old_ask: u64,
)
    requires
        side_wf(bids, true),
        side_wf(asks, false),
        bids.len() > 0,
        asks.len() > 0,
    ensures
        bids[0].price < old_bid && !(has_level(asks, old_bid) && old_bid < old_ask)
            ==> count_orders(
            inside_orders(bids, asks, old_bid, old_ask),
            Side::Sell,
            old_bid,
        ) == 1,
        asks[0].price > old_ask && !(has_level(bids, old_ask) && old_ask > old_bid)
            ==> count_orders(
            inside_orders(bids, asks, old_bid, old_ask),
            Side::Buy,
            old_ask,
        ) == 1,
{
    lemma_inside_order_count(bids, asks, old_bid, old_ask, Side::Sell, old_bid);
    lemma_inside_order_count(bids, asks, old_bid, old_ask, Side::Buy, old_ask);
}

proof fn lemma_new_inside_chars(s: Seq<PriceLevel>, old_best: u64, desc: bool, k: int)
    requires
        0 <= k <= s.len(),
        forall|j: int| 0 <= j < k ==> ranks_before(desc, s[j].price, old_best),
        k < s.len() ==> !ranks_before(desc, s[k].price, old_best),
    ensures
        new_inside(s, old_best, desc).len() == k,
        forall|j: int|
            0 <= j < k ==> new_inside(s, old_best, desc)[j] == inside_order_of(s[j], desc),
    decreases s.len(),
{
    if k == 0 {
    } else {
        let rest = s.drop_first();
        assert(forall|j: int| 0 <= j < rest.len() ==> rest[j] == s[j + 1]);
        lemma_new_inside_chars(rest, old_best, desc, k - 1);
        let r = new_inside(s, old_best, desc);
        assert(r == seq![inside_order_of(s[0], desc)] + new_inside(rest, old_best, desc));
        assert forall|j: int| 0 <= j < k implies r[j] == inside_order_of(s[j], desc) by {
            if j > 0 {
                assert(r[j] == new_inside(rest, old_best, desc)[j - 1]);
            }
        }
    }
}

/// Home-venue book plus the previous top-of-book snapshot.
pub struct LocalBook<V: FairValuer> {
    fair: V,
    tob: Option<TobSnapshot>,
    book: OrderBook,
}

impl<V: FairValuer> LocalBook<V> {
    /// The bid side of the home book.
    pub closed spec fn book_bids(&self) -> Seq<PriceLevel> {
        self.book.bids_spec()
    }

    /// The ask side of the home book.
    pub closed spec fn book_asks(&self) -> Seq<PriceLevel> {
        self.book.asks_spec()
    }

    /// The previous top-of-book snapshot, if one was taken.
    pub closed spec fn tob_spec(&self) -> Option<TobSnapshot> {
        self.tob
    }

    /// Both book sides sorted with positive sizes.
    pub closed spec fn wf(&self) -> bool {
        self.book.wf()
    }

    /// An empty local book with no snapshot.
    pub fn new(fair: V) -> (r: LocalBook<V>)
        ensures
            r.wf(),
            r.tob_spec() is None,
            r.book_bids() == Seq::<PriceLevel>::empty(),
            r.book_asks() == Seq::<PriceLevel>::empty(),
    {
        LocalBook { fair, tob: None, book: OrderBook::new() }
    }

    /// The previous top-of-book snapshot.
    pub fn get_local_tob(&self) -> (r: Option<TobSnapshot>)
        ensures
            r == self.tob_spec(),
    {
        self.tob
    }

    /// The home-venue book.
    pub fn book(&self) -> (r: &OrderBook)
        ensures
            r.bids_spec() == self.book_bids(),
            r.asks_spec() == self.book_asks(),
            r.wf() == self.wf(),
    {
        &self.book
    }

    /// Apply a block of events and report the orders now quoting strictly
    /// inside the previous BBO, with gap-chasing synthetics appended. Until
    /// both sides are populated, or on the very first populated BBO, nothing
    /// is emitted; the snapshot is refreshed whenever both sides quote.
    pub fn handle_book_update(&mut self, events: &Vec<MarketEvent>) -> (out: Vec<InsideOrder>)
        requires
            old(self).wf(),
        ensures
            final(self).wf(),
            final(self).book_bids() == apply_events_to_side(old(self).book_bids(), events@, true),
            final(self).book_asks() == apply_events_to_side(old(self).book_asks(), events@, false),
            ({
                let bids = final(self).book_bids();
                let asks = final(self).book_asks();
                if bids.len() > 0 && asks.len() > 0 {
                    &&& (match old(self).tob_spec() {
                        Some(t) => out@ == inside_orders(bids, asks, t.bid_price, t.ask_price),
                        None => out@ == Seq::<InsideOrder>::empty(),
                    })
                    &&& (match final(self).tob_spec() {
                        Some(t2) => t2.bid_price == bids[0].price && t2.ask_price == asks[0].price,
                        None => false,
                    })
                } else {
                    out@ == Seq::<InsideOrder>::empty() && final(self).tob_spec() == old(
                        self,
                    ).tob_spec()
                }
            }),
    {
        self.book.apply_all(events);
        let (bb, ba) = self.book.bbo();
        match (bb, ba) {
            (Some(best_bid), Some(best_ask)) => {
                let bid = best_bid.price;
                let ask = best_ask.price;
                let reading = self.fair.fair_value(&self.book, bid, ask);
                let mut out: Vec<InsideOrder> = Vec::new();
                if let Some(t) = self.tob {
                    let old_bid = t.bid_price;
                    let old_ask = t.ask_price;
                    let bids = self.book.bids();
                    let mut i: usize = 0;
                    loop
                        invariant
                            self.wf(),
                            bids@ == self.book_bids(),
                            0 <= i <= bids@.len(),
                            out@.len() == i,
                            forall|j: int| 0 <= j < i ==> ranks_before(true, bids@[j].price, old_bid),
                            forall|j: int| 0 <= j < i ==> out@[j] == inside_order_of(bids@[j], true),
                        ensures
                            0 <= i <= bids@.len(),
                            out@.len() == i,
                            forall|j: int| 0 <= j < i ==> ranks_before(true, bids@[j].price, old_bid),
                            forall|j: int| 0 <= j < i ==> out@[j] == inside_order_of(bids@[j], true),
                            i < bids@.len() ==> !ranks_before(true, bids@[i as int].price, old_bid),
                        decreases bids@.len() - i,
                    {
                        if i >= bids.len() {
                            break ;
                        }
                        if bids[i].price <= old_bid {
                            break ;
                        }
                        out.push(
                            InsideOrder {
                                side: Side::Buy,
                                insert_price: bids[i].price,
                                insert_size: bids[i].size,
                            },
                        );
                        i = i + 1;
                    }
                    proof {
                        lemma_new_inside_chars(bids@, old_bid, true, i as int);
                        assert(out@ =~= new_inside(bids@, old_bid, true));
                    }
                    let ghost buys = out@;
                    let asks = self.book.asks();
                    let mut k: usize = 0;
                    loop
                        invariant
                            self.wf(),
                            asks@ == self.book_asks(),
                            0 <= k <= asks@.len(),
                            out@.len() == buys.len() + k,
                            out@.subrange(0, buys.len() as int) == buys,
                            forall|j: int| 0 <= j < k ==> ranks_before(false, asks@[j].price, old_ask),
                            forall|j: int|
                                0 <= j < k ==> out@[buys.len() + j] == inside_order_of(
                                    asks@[j],
                                    false,
                                ),
                        ensures
                            0 <= k <= asks@.len(),
                            out@.len() == buys.len() + k,
                            out@.subrange(0, buys.len() as int) == buys,
                            forall|j: int| 0 <= j < k ==> ranks_before(false, asks@[j].price, old_ask),
                            forall|j: int|
                                0 <= j < k ==> out@[buys.len() + j] == inside_order_of(
                                    asks@[j],
                                    false,
                                ),
                            k < asks@.len() ==> !ranks_before(false, asks@[k as int].price, old_ask),
                        decreases asks@.len() - k,
                    {
                        if k >= asks.len() {
                            break ;
                        }
                        if asks[k].price >= old_ask {
                            break ;
                        }
                        let ghost before = out@;
                        out.push(
                            InsideOrder {
                                side: Side::Sell,
                                insert_price: asks[k].price,
                                insert_size: asks[k].size,
                            },
                        );
                        proof {
                            assert(out@.subrange(0, buys.len() as int) =~= before.subrange(
                                0,
                                buys.len() as int,
                            ));
                        }
                        k = k + 1;
                    }
                    proof {
                        lemma_new_inside_chars(asks@, old_ask, false, k as int);
                        assert(out@ =~= buys + new_inside(asks@, old_ask, false));
                    }
                    let ghost reals = out@;
                    if ask > old_ask {
                        out.push(
                            InsideOrder { side: Side::Buy, insert_price: old_ask, insert_size: 1 },
                        );
                    }
                    if bid < old_bid {
                        out.push(
                            InsideOrder { side: Side::Sell, insert_price: old_bid, insert_size: 1 },
                        );
                    }
                    proof {
                        assert(out@ =~= reals + gap_orders(bid, ask, old_bid, old_ask));
                        assert(out@ =~= inside_orders(
                            self.book_bids(),
                            self.book_asks(),
                            old_bid,
                            old_ask,
                        ));
                    }
                }
                self.tob = Some(TobSnapshot { bid_price: bid, ask_price: ask, fair: reading });
                out
            },
            _ => Vec::new(),
        }
    }
}

} // verus!
