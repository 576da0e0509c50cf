//! Side-sorted price-level order book.
//!
//! Each side is a vector of levels with strictly positive sizes, strictly
//! sorted by price: bids descending, asks ascending, so the first level of a
//! side is its best. `apply` is specified exactly by the functional model
//! `apply_to_side`, and the book invariants (positivity, sortedness, and —
//! for non-crossing event blocks — best bid below best ask) are proved of
//! that model.

use vstd::prelude::*;

use crate::events::{MarketEvent, PriceLevel, Side};

verus! {

/// Price ordering within a side: on a descending (bid) side `a` stands
/// before `b` when `a > b`; on an ascending (ask) side when `a < b`.
pub open spec fn ranks_before(desc: bool, a: u64, b: u64) -> bool {
    if desc {
        a > b
    } else {
        a < b
    }
}

/// Well-formedness of one side: strictly sorted by price in the side's
/// direction (hence prices are unique) and every stored size is positive.
pub open spec fn side_wf(s: Seq<PriceLevel>, desc: bool) -> bool {
    &&& forall|i: int, j: int|
        0 <= i < j < s.len() ==> ranks_before(desc, s[i].price, s[j].price)
    &&& forall|i: int| 0 <= i < s.len() ==> s[i].size > 0
}

/// Whether some level of side `s` sits at price `p`.
pub open spec fn has_level(s: Seq<PriceLevel>, p: u64) -> bool {
    exists|i: int| 0 <= i < s.len() && s[i].price == p
}

/// The position where price `p` lives or would be inserted: the index of the
/// first level that does not rank strictly before `p`.
pub open spec fn find_pos(s: Seq<PriceLevel>, p: u64, desc: bool) -> int
    decreases s.len(),
{
    if s.len() == 0 {
        0
    } else if ranks_before(desc, s[0].price, p) {
        1 + find_pos(s.drop_first(), p, desc)
    } else {
        0
    }
}

/// One side after a `LevelSet(p, size)`: size 0 removes the level at `p` (if
/// any), a positive size inserts or replaces it, keeping the side sorted.
pub open spec fn with_level_set(s: Seq<PriceLevel>, p: u64, size: u64, desc: bool) -> Seq<
    PriceLevel,
> {
    let i = find_pos(s, p, desc);
    if i < s.len() && s[i].price == p {
        if size == 0 {
            s.subrange(0, i) + s.subrange(i + 1, s.len() as int)
        } else {
            s.update(i, PriceLevel { price: p, size })
        }
    } else {
        if size == 0 {
            s
        } else {
            s.subrange(0, i) + seq![PriceLevel { price: p, size }] + s.subrange(i, s.len() as int)
        }
    }
}

/// One side after one market event. `Clear` empties it, a `LevelSet` for the
/// side applies `with_level_set`, everything else leaves it unchanged.
pub open spec fn apply_to_side(s: Seq<PriceLevel>, event: MarketEvent, desc: bool) -> Seq<
    PriceLevel,
> {
    match event {
        MarketEvent::Clear => Seq::empty(),
        MarketEvent::LevelSet(side, p, size) => if (side is Buy) == desc {
            with_level_set(s, p, size, desc)
        } else {
            s
        },
        MarketEvent::Trade(_, _, _) => s,
    }
}

/// One side after a whole block of events, applied in order.
pub open spec fn apply_events_to_side(
    s: Seq<PriceLevel>,
    events: Seq<MarketEvent>,
    desc: bool,
) -> Seq<PriceLevel>
    decreases events.len(),
{
    if events.len() == 0 {
        s
    } else {
        apply_events_to_side(apply_to_side(s, events[0], desc), events.drop_first(), desc)
    }
}

/// The best level of a side, if the side is populated.
pub open spec fn best_of(s: Seq<PriceLevel>) -> Option<PriceLevel> {
    if s.len() == 0 {
        None
    } else {
        Some(s[0])
    }
}

/// Best bid strictly below best ask whenever both sides are populated.
pub open spec fn uncrossed(bids: Seq<PriceLevel>, asks: Seq<PriceLevel>) -> bool {
    bids.len() > 0 && asks.len() > 0 ==> bids[0].price < asks[0].price
}

/// An event that cannot cross the book in its current state: an insertion on
/// one side must rank strictly worse than the best of the other side.
pub open spec fn event_keeps_uncrossed(
    bids: Seq<PriceLevel>,
    asks: Seq<PriceLevel>,
    event: MarketEvent,
) -> bool {
    match event {
        MarketEvent::Clear => true,
        MarketEvent::LevelSet(side, p, size) => if size == 0 {
            true
        } else if side is Buy {
            asks.len() == 0 || p < asks[0].price
        } else {
            bids.len() == 0 || p > bids[0].price
        },
        MarketEvent::Trade(_, _, _) => true,
    }
}

/// `event_keeps_uncrossed` for every event of a block, each judged against
/// the book state the preceding events left behind.
pub open spec fn block_keeps_uncrossed(
    bids: Seq<PriceLevel>,
    asks: Seq<PriceLevel>,
    events: Seq<MarketEvent>,
) -> bool
    decreases events.len(),
{
    events.len() == 0 || {
        &&& event_keeps_uncrossed(bids, asks, events[0])
        &&& block_keeps_uncrossed(
            apply_to_side(bids, events[0], true),
            apply_to_side(asks, events[0], false),
            events.drop_first(),
        )
    }
}

proof fn lemma_find_pos_is(s: Seq<PriceLevel>, p: u64, desc: bool, k: int)
    requires
        0 <= k <= s.len(),
        forall|j: int| 0 <= j < k ==> ranks_before(desc, s[j].price, p),
        k < s.len() ==> !ranks_before(desc, s[k].price, p),
    ensures
        find_pos(s, p, desc) == k,
    decreases s.len(),
{
    if k == 0 {
    } else {
        assert(s.drop_first().len() == s.len() - 1);
        assert(forall|j: int| 0 <= j < k - 1 ==> s.drop_first()[j] == s[j + 1]);
        lemma_find_pos_is(s.drop_first(), p, desc, k - 1);
    }
}

proof fn lemma_find_pos_bounds(s: Seq<PriceLevel>, p: u64, desc: bool)
    ensures
        0 <= find_pos(s, p, desc) <= s.len(),
        forall|j: int| 0 <= j < find_pos(s, p, desc) ==> ranks_before(desc, s[j].price, p),
        find_pos(s, p, desc) < s.len() ==> !ranks_before(
            desc,
            s[find_pos(s, p, desc)].price,
            p,
        ),
    decreases s.len(),
{
    if s.len() == 0 {
    } else if ranks_before(desc, s[0].price, p) {
        lemma_find_pos_bounds(s.drop_first(), p, desc);
        let fp = find_pos(s, p, desc);
        assert(fp == 1 + find_pos(s.drop_first(), p, desc));
        assert forall|j: int| 0 <= j < fp implies ranks_before(desc, s[j].price, p) by {
            if j > 0 {
                assert(s.drop_first()[j - 1] == s[j]);
            }
        }
        if fp < s.len() {
            assert(s.drop_first()[fp - 1] == s[fp]);
        }
    } else {
    }
}

/// `with_level_set` preserves a side's sortedness and positivity.
pub proof fn lemma_with_level_set_wf(s: Seq<PriceLevel>, p: u64, size: u64, desc: bool)
    requires
        side_wf(s, desc),
    ensures
        side_wf(with_level_set(s, p, size, desc), desc),
{
    lemma_find_pos_bounds(s, p, desc);
    let i = find_pos(s, p, desc);
    let r = with_level_set(s, p, size, desc);
    if i < s.len() && s[i].price == p {
        if size == 0 {
            assert forall|a: int, b: int| 0 <= a < b < r.len() implies ranks_before(
                desc,
                r[a].price,
                r[b].price,
            ) by {
                assert(r[a] == if a < i {
                    s[a]
                } else {
                    s[a + 1]
                });
                assert(r[b] == if b < i {
                    s[b]
                } else {
                    s[b + 1]
                });
            }
            assert(forall|a: int| 0 <= a < r.len() ==> r[a].size > 0);
        } else {
            assert forall|a: int, b: int| 0 <= a < b < r.len() implies ranks_before(
                desc,
                r[a].price,
                r[b].price,
            ) by {
                assert(s[i].price == p);
                assert(r[a].price == s[a].price);
                assert(r[b].price == s[b].price);
            }
        }
    } else {
        if size == 0 {
        } else {
            assert forall|a: int, b: int| 0 <= a < b < r.len() implies ranks_before(
                desc,
                r[a].price,
                r[b].price,
            ) by {
                assert(r[a] == if a < i {
                    s[a]
                } else if a == i {
                    (PriceLevel { price: p, size })
                } else {
                    s[a - 1]
                });
                assert(r[b] == if b < i {
                    s[b]
                } else if b == i {
                    (PriceLevel { price: p, size })
                } else {
                    s[b - 1]
                });
                if i < s.len() {
                    assert(!ranks_before(desc, s[i].price, p));
                    assert(s[i].price != p);
                    assert(ranks_before(desc, p, s[i].price));
                }
                if a < i && b == i {
                    assert(ranks_before(desc, s[a].price, p));
                }
                if a == i && b > i {
                    if b - 1 > i {
                        assert(ranks_before(desc, s[i as int].price, s[b - 1].price));
                    }
                    assert(ranks_before(desc, p, s[b - 1].price));
                }
                if a < i && b > i {
                    if a < b - 1 {
                        assert(ranks_before(desc, s[a].price, s[b - 1].price));
                    }
                }
            }
            assert forall|a: int| 0 <= a < r.len() implies r[a].size > 0 by {
                assert(r[a] == if a < i {
                    s[a]
                } else if a == i {
                    (PriceLevel { price: p, size })
                } else {
                    s[a - 1]
                });
            }
        }
    }
}

/// Every event preserves a side's sortedness and positivity.
pub proof fn lemma_apply_to_side_wf(s: Seq<PriceLevel>, event: MarketEvent, desc: bool)
    requires
        side_wf(s, desc),
    ensures
        side_wf(apply_to_side(s, event, desc), desc),
{
    match event {
        MarketEvent::LevelSet(side, p, size) => {
            if (side is Buy) == desc {
                lemma_with_level_set_wf(s, p, size, desc);
            }
        },
        _ => {},
    }
}

/// Book positivity and sortedness after any sequence of events: every level
/// a block of events leaves behind has strictly positive size, and each side
/// stays strictly sorted.
pub proof fn lemma_book_levels_positive(s: Seq<PriceLevel>, events: Seq<MarketEvent>, desc: bool)
    requires
        side_wf(s, desc),
    ensures
        side_wf(apply_events_to_side(s, events, desc), desc),
        forall|i: int|
            0 <= i < apply_events_to_side(s, events, desc).len() ==> apply_events_to_side(
                s,
                events,
                desc,
            )[i].size > 0,
    decreases events.len(),
{
    if events.len() > 0 {
        lemma_apply_to_side_wf(s, events[0], desc);
        lemma_book_levels_positive(apply_to_side(s, events[0], desc), events.drop_first(), desc);
    }
}

/// After `with_level_set`, the new best price is the written price (on an
/// insert or replace), the old best, or — after removing the best — the old
/// second-best.
proof fn lemma_with_level_set_best(s: Seq<PriceLevel>, p: u64, size: u64, desc: bool)
    requires
        side_wf(s, desc),
    ensures
        ({
            let r = with_level_set(s, p, size, desc);
            r.len() > 0 ==> {
                ||| size > 0 && r[0].price == p
                ||| s.len() > 0 && r[0].price == s[0].price
                ||| size == 0 && s.len() > 1 && r[0].price == s[1].price
            }
        }),
{
    lemma_find_pos_bounds(s, p, desc);
    let i = find_pos(s, p, desc);
    let r = with_level_set(s, p, size, desc);
    if i < s.len() && s[i].price == p {
        if size == 0 {
            if r.len() > 0 {
                if i == 0 {
                    assert(r == s.subrange(0, 0) + s.subrange(1, s.len() as int));
                    assert(r[0] == s.subrange(1, s.len() as int)[0]);
                    assert(r[0] == s[1]);
                } else {
                    assert(r[0] == s.subrange(0, i)[0]);
                    assert(r[0] == s[0]);
                }
            }
        } else {
            if i == 0 {
                assert(r[0].price == p);
            } else {
                assert(r[0] == s[0]);
            }
        }
    } else {
        if size != 0 {
            let x = PriceLevel { price: p, size };
            if i == 0 {
                assert(r[0] == (s.subrange(0, 0) + seq![x])[0]);
                assert(r[0] == x);
            } else {
                assert(r[0] == (s.subrange(0, i) + seq![x])[0]);
                assert(r[0] == s.subrange(0, i)[0]);
                assert(r[0] == s[0]);
            }
        }
    }
}

/// A non-crossing event keeps best bid strictly below best ask.
pub proof fn lemma_event_preserves_uncrossed(
    bids: Seq<PriceLevel>,
    asks: Seq<PriceLevel>,
    event: MarketEvent,
)
    requires
        side_wf(bids, true),
        side_wf(asks, false),
        uncrossed(bids, asks),
        event_keeps_uncrossed(bids, asks, event),
    ensures
        uncrossed(apply_to_side(bids, event, true), apply_to_side(asks, event, false)),
{
    match event {
        MarketEvent::LevelSet(side, p, size) => {
            if side is Buy {
                lemma_with_level_set_best(bids, p, size, true);
                let r = with_level_set(bids, p, size, true);
                if r.len() > 0 && asks.len() > 0 {
                    if size > 0 && r[0].price == p {
                    } else if bids.len() > 0 && r[0].price == bids[0].price {
                    } else {
                        assert(size == 0 && bids.len() > 1 && r[0].price == bids[1].price);
                        assert(ranks_before(true, bids[0].price, bids[1].price));
                    }
                }
            } else {
                lemma_with_level_set_best(asks, p, size, false);
                let r = with_level_set(asks, p, size, false);
                if bids.len() > 0 && r.len() > 0 {
                    if size > 0 && r[0].price == p {
                    } else if asks.len() > 0 && r[0].price == asks[0].price {
                    } else {
                        assert(size == 0 && asks.len() > 1 && r[0].price == asks[1].price);
                        assert(ranks_before(false, asks[0].price, asks[1].price));
                    }
                }
            }
        },
        _ => {},
    }
}

/// BBO ordering: a whole block of non-crossing events keeps best bid
/// strictly below best ask whenever both sides are populated.
pub proof fn lemma_block_preserves_uncrossed(
    bids: Seq<PriceLevel>,
    asks: Seq<PriceLevel>,
    events: Seq<MarketEvent>,
)
    requires
        side_wf(bids, true),
        side_wf(asks, false),
        uncrossed(bids, asks),
        block_keeps_uncrossed(bids, asks, events),
    ensures
        uncrossed(
            apply_events_to_side(bids, events, true),
            apply_events_to_side(asks, events, false),
        ),
    decreases events.len(),
{
    if events.len() > 0 {
        lemma_event_preserves_uncrossed(bids, asks, events[0]);
        lemma_apply_to_side_wf(bids, events[0], true);
        lemma_apply_to_side_wf(asks, events[0], false);
        lemma_block_preserves_uncrossed(
            apply_to_side(bids, events[0], true),
            apply_to_side(asks, events[0], false),
            events.drop_first(),
        );
    }
}

/// Exec comparison matching `ranks_before`.
fn comes_before(desc: bool, a: u64, b: u64) -> (r: bool)
    ensures
        r == ranks_before(desc, a, b),
{
    if desc {
        a > b
    } else {
        a < b
    }
}

/// Apply a `LevelSet` to one side's vector, realizing `with_level_set`.
fn set_side_level(side_vec: &mut Vec<PriceLevel>, p: u64, size: u64, desc: bool)
    requires
        side_wf(old(side_vec)@, desc),
    ensures
        final(side_vec)@ == with_level_set(old(side_vec)@, p, size, desc),
        side_wf(final(side_vec)@, desc),
{
    let ghost s = side_vec@;
    let mut idx: usize = 0;
    loop
        invariant
            side_vec@ == s,
            side_wf(s, desc),
            0 <= idx <= s.len(),
            forall|j: int| 0 <= j < idx ==> ranks_before(desc, s[j].price, p),
        ensures
            side_vec@ == s,
            0 <= idx <= s.len(),
            forall|j: int| 0 <= j < idx ==> ranks_before(desc, s[j].price, p),
            idx < s.len() ==> !ranks_before(desc, s[idx as int].price, p),
        decreases s.len() - idx,
    {
        if idx >= side_vec.len() {
            break ;
        }
        if !comes_before(desc, side_vec[idx].price, p) {
            break ;
        }
        idx = idx + 1;
    }
    proof {
        lemma_find_pos_is(s, p, desc, idx as int);
    }
    if idx < side_vec.len() && side_vec[idx].price == p {
        if size == 0 {
            side_vec.remove(idx);
            proof {
                assert(side_vec@ =~= s.subrange(0, idx as int) + s.subrange(
                    idx + 1,
                    s.len() as int,
                ));
            }
        } else {
            side_vec[idx] = PriceLevel { price: p, size };
        }
    } else {
        if size > 0 {
            side_vec.insert(idx, PriceLevel { price: p, size });
            proof {
                assert(side_vec@ =~= s.subrange(0, idx as int) + seq![PriceLevel {
                        price: p,
                        size,
                    }] + s.subrange(idx as int, s.len() as int));
            }
        }
    }
    proof {
        lemma_with_level_set_wf(s, p, size, desc);
    }
}

/// Side-sorted price-level container for one venue's book.
pub struct OrderBook {
    bids: Vec<PriceLevel>,
    asks: Vec<PriceLevel>,
}

impl OrderBook {
    /// The bid side, best (highest) price first.
    pub closed spec fn bids_spec(&self) -> Seq<PriceLevel> {
        self.bids@
    }

    /// The ask side, best (lowest) price first.
    pub closed spec fn asks_spec(&self) -> Seq<PriceLevel> {
        self.asks@
    }

    /// Both sides sorted in their direction with positive sizes.
    pub open spec fn wf(&self) -> bool {
        side_wf(self.bids_spec(), true) && side_wf(self.asks_spec(), false)
    }

    /// An empty book.
    pub fn new() -> (r: OrderBook)
        ensures
            r.wf(),
            r.bids_spec() == Seq::<PriceLevel>::empty(),
            r.asks_spec() == Seq::<PriceLevel>::empty(),
    {
        OrderBook { bids: Vec::new(), asks: Vec::new() }
    }

    /// Apply one event: `Clear` empties both sides, `LevelSet` inserts,
    /// replaces or (size 0) removes a level on its side, `Trade` is a no-op.
    pub fn handle_book_event(&mut self, event: &MarketEvent)
        requires
            old(self).wf(),
        ensures
            final(self).wf(),
            final(self).bids_spec() == apply_to_side(old(self).bids_spec(), *event, true),
            final(self).asks_spec() == apply_to_side(old(self).asks_spec(), *event, false),
    {
        match event {
            MarketEvent::Clear => {
                self.bids.clear();
                self.asks.clear();
                proof {
                    assert(self.bids@ =~= Seq::<PriceLevel>::empty());
                    assert(self.asks@ =~= Seq::<PriceLevel>::empty());
                }
            },
            MarketEvent::LevelSet(side, p, size) => {
                match side {
                    Side::Buy => set_side_level(&mut self.bids, *p, *size, true),
                    Side::Sell => set_side_level(&mut self.asks, *p, *size, false),
                }
            },
            MarketEvent::Trade(_, _, _) => {},
        }
    }

    /// Apply a whole block of events in order.
    pub fn apply_all(&mut self, events: &Vec<MarketEvent>)
        requires
            old(self).wf(),
        ensures
            final(self).wf(),
            final(self).bids_spec() == apply_events_to_side(old(self).bids_spec(), events@, true),
            final(self).asks_spec() == apply_events_to_side(old(self).asks_spec(), events@, false),
    {
        let ghost b0 = self.bids_spec();
        let ghost a0 = self.asks_spec();
        let mut i: usize = 0;
        while i < events.len()
            invariant
                self.wf(),
                0 <= i <= events@.len(),
                self.bids_spec() == apply_events_to_side(b0, events@.take(i as int), true),
                self.asks_spec() == apply_events_to_side(a0, events@.take(i as int), false),
            decreases events@.len() - i,
        {
            proof {
                lemma_apply_events_snoc(b0, events@.take(i as int), events@[i as int], true);
                lemma_apply_events_snoc(a0, events@.take(i as int), events@[i as int], false);
                assert(events@.take(i as int).push(events@[i as int]) =~= events@.take(
                    i + 1 as int,
                ));
            }
            self.handle_book_event(&events[i]);
            i = i + 1;
        }
        proof {
            assert(events@.take(events@.len() as int) =~= events@);
        }
    }

    /// Best bid and best ask, each present when its side is populated.
    pub fn bbo(&self) -> (r: (Option<PriceLevel>, Option<PriceLevel>))
        ensures
            r.0 == best_of(self.bids_spec()),
            r.1 == best_of(self.asks_spec()),
    {
        let bb = if self.bids.len() > 0 {
            Some(self.bids[0])
        } else {
            None
        };
        let ba = if self.asks.len() > 0 {
            Some(self.asks[0])
        } else {
            None
        };
        (bb, ba)
    }

    /// All bid levels, best (highest price) first.
    pub fn bids(&self) -> (r: &Vec<PriceLevel>)
        ensures
            r@ == self.bids_spec(),
    {
        &self.bids
    }

    /// All ask levels, best (lowest price) first.
    pub fn asks(&self) -> (r: &Vec<PriceLevel>)
        ensures
            r@ == self.asks_spec(),
    {
        &self.asks
    }
}

/// Appending one event to a block composes with applying it afterwards.
pub proof fn lemma_apply_events_snoc(
    s: Seq<PriceLevel>,
    events: Seq<MarketEvent>,
    event: MarketEvent,
    desc: bool,
)
    ensures
        apply_events_to_side(s, events.push(event), desc) == apply_to_side(
            apply_events_to_side(s, events, desc),
            event,
            desc,
        ),
    decreases events.len(),
{
    let pushed = events.push(event);
    assert(pushed.len() == events.len() + 1);
    if events.len() == 0 {
        assert(pushed[0] == event);
        assert(pushed.drop_first() =~= Seq::<MarketEvent>::empty());
        assert(apply_events_to_side(s, pushed, desc) == apply_events_to_side(
            apply_to_side(s, event, desc),
            pushed.drop_first(),
            desc,
        ));
        assert(apply_events_to_side(apply_to_side(s, event, desc), pushed.drop_first(), desc)
            == apply_to_side(s, event, desc));
        assert(apply_events_to_side(s, events, desc) == s);
    } else {
        assert(pushed[0] == events[0]);
        assert(pushed.drop_first() =~= events.drop_first().push(event));
        lemma_apply_events_snoc(apply_to_side(s, events[0], desc), events.drop_first(), event, desc);
        assert(apply_events_to_side(s, pushed, desc) == apply_events_to_side(
            apply_to_side(s, events[0], desc),
            pushed.drop_first(),
            desc,
        ));
        assert(apply_events_to_side(s, events, desc) == apply_events_to_side(
            apply_to_side(s, events[0], desc),
            events.drop_first(),
            desc,
        ));
    }
}

} // verus!
