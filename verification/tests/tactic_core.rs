use mm_tactic::ema::Ema;
use mm_tactic::events::{Exchange, MarketEvent, MarketEventBlock, Side};
use mm_tactic::fair_value::{FairReading, MidValuer};
use mm_tactic::fills::{FillTracker, Transaction};
use mm_tactic::local_book::LocalBook;
use mm_tactic::order_book::OrderBook;
use mm_tactic::orders::{OrderManager, OrderStatus};
use mm_tactic::reactor::{Reactor, TacticAction, TacticInternalEvent};
use mm_tactic::remote_venue_aggregator::RemoteVenueAggregator;

fn tx(exec_id: u64, order_id: u64, timestamp: u64, cum_size: u64) -> Transaction {
    Transaction {
        exec_id,
        order_id,
        timestamp,
        cum_size,
        size: 0,
        price: 100,
        side: Side::Buy,
    }
}

#[test]
fn book_levels_sorted_and_positive() {
    let mut book = OrderBook::new();
    let events = vec![
        MarketEvent::LevelSet(Side::Buy, 100, 5),
        MarketEvent::LevelSet(Side::Buy, 102, 3),
        MarketEvent::LevelSet(Side::Buy, 101, 4),
        MarketEvent::LevelSet(Side::Sell, 110, 2),
        MarketEvent::LevelSet(Side::Sell, 108, 6),
        MarketEvent::LevelSet(Side::Sell, 112, 1),
    ];
    book.apply_all(&events);
    let bids: Vec<(u64, u64)> = book.bids().iter().map(|l| (l.price, l.size)).collect();
    let asks: Vec<(u64, u64)> = book.asks().iter().map(|l| (l.price, l.size)).collect();
    assert_eq!(bids, vec![(102, 3), (101, 4), (100, 5)]);
    assert_eq!(asks, vec![(108, 6), (110, 2), (112, 1)]);
    for l in book.bids().iter().chain(book.asks().iter()) {
        assert!(l.size > 0);
    }
}

#[test]
fn book_bbo_ordering_and_removal() {
    let mut book = OrderBook::new();
    book.handle_book_event(&MarketEvent::LevelSet(Side::Buy, 100, 5));
    book.handle_book_event(&MarketEvent::LevelSet(Side::Sell, 110, 5));
    let (bb, ba) = book.bbo();
    let bb = bb.unwrap();
    let ba = ba.unwrap();
    assert!(bb.price < ba.price);
    // size 0 removes the level
    book.handle_book_event(&MarketEvent::LevelSet(Side::Sell, 110, 0));
    let (_, ba) = book.bbo();
    assert!(ba.is_none());
    // replacing a size keeps one level
    book.handle_book_event(&MarketEvent::LevelSet(Side::Buy, 100, 9));
    assert_eq!(book.bids().len(), 1);
    assert_eq!(book.bids()[0].size, 9);
}

#[test]
fn book_trade_is_informational_and_clear_empties() {
    let mut book = OrderBook::new();
    book.handle_book_event(&MarketEvent::LevelSet(Side::Buy, 100, 5));
    book.handle_book_event(&MarketEvent::Trade(Side::Buy, 100, 3));
    assert_eq!(book.bids().len(), 1);
    assert_eq!(book.bids()[0].size, 5);
    book.handle_book_event(&MarketEvent::Clear);
    assert_eq!(book.bids().len(), 0);
    assert_eq!(book.asks().len(), 0);
}

#[test]
fn inside_improvement_scenario() {
    let mut lb = LocalBook::new(MidValuer);
    let out = lb.handle_book_update(&vec![
        MarketEvent::LevelSet(Side::Buy, 100, 5),
        MarketEvent::LevelSet(Side::Sell, 110, 5),
    ]);
    assert_eq!(out.len(), 0);
    let out = lb.handle_book_update(&vec![MarketEvent::LevelSet(Side::Buy, 102, 3)]);
    assert_eq!(out.len(), 1);
    assert_eq!(out[0].insert_price, 102);
    assert_eq!(out[0].insert_size, 3);
    assert!(out[0].side == Side::Buy);
}

#[test]
fn gap_scenario() {
    let mut lb = LocalBook::new(MidValuer);
    let out = lb.handle_book_update(&vec![
        MarketEvent::LevelSet(Side::Buy, 100, 5),
        MarketEvent::LevelSet(Side::Sell, 110, 5),
    ]);
    assert_eq!(out.len(), 0);
    let out = lb.handle_book_update(&vec![
        MarketEvent::LevelSet(Side::Sell, 110, 0),
        MarketEvent::LevelSet(Side::Sell, 115, 4),
    ]);
    assert_eq!(out.len(), 1);
    assert!(out[0].side == Side::Buy);
    assert_eq!(out[0].insert_price, 110);
    assert_eq!(out[0].insert_size, 1);
}

#[test]
fn gap_scenario_bid_side() {
    let mut lb = LocalBook::new(MidValuer);
    lb.handle_book_update(&vec![
        MarketEvent::LevelSet(Side::Buy, 100, 5),
        MarketEvent::LevelSet(Side::Sell, 110, 5),
    ]);
    let out = lb.handle_book_update(&vec![
        MarketEvent::LevelSet(Side::Buy, 100, 0),
        MarketEvent::LevelSet(Side::Buy, 95, 2),
    ]);
    assert_eq!(out.len(), 1);
    assert!(out[0].side == Side::Sell);
    assert_eq!(out[0].insert_price, 100);
    assert_eq!(out[0].insert_size, 1);
}

#[test]
fn inside_orders_complete_and_ordered() {
    let mut lb = LocalBook::new(MidValuer);
    lb.handle_book_update(&vec![
        MarketEvent::LevelSet(Side::Buy, 100, 5),
        MarketEvent::LevelSet(Side::Sell, 110, 5),
    ]);
    // two new bids and one new ask strictly inside (100, 110)
    let out = lb.handle_book_update(&vec![
        MarketEvent::LevelSet(Side::Buy, 102, 1),
        MarketEvent::LevelSet(Side::Buy, 104, 2),
        MarketEvent::LevelSet(Side::Sell, 106, 3),
    ]);
    // exactly one order per improved price: bids best-first, then asks
    assert_eq!(out.len(), 3);
    assert!(out[0].side == Side::Buy);
    assert_eq!((out[0].insert_price, out[0].insert_size), (104, 2));
    assert!(out[1].side == Side::Buy);
    assert_eq!((out[1].insert_price, out[1].insert_size), (102, 1));
    assert!(out[2].side == Side::Sell);
    assert_eq!((out[2].insert_price, out[2].insert_size), (106, 3));
}

#[test]
fn local_tob_snapshot_tracks_bbo_and_mid_fair() {
    let mut lb = LocalBook::new(MidValuer);
    assert!(lb.get_local_tob().is_none());
    lb.handle_book_update(&vec![
        MarketEvent::LevelSet(Side::Buy, 100, 5),
        MarketEvent::LevelSet(Side::Sell, 110, 5),
    ]);
    let tob = lb.get_local_tob().unwrap();
    assert_eq!(tob.bid_price, 100);
    assert_eq!(tob.ask_price, 110);
    assert_eq!(tob.fair.fair_price, 105);
    assert_eq!(tob.fair.fair_shares, 10);
}

#[test]
fn ema_smoothing_exact() {
    let mut e = Ema::new(500);
    assert!(e.get_value().is_none());
    e.add_value(100);
    assert_eq!(e.get_value(), Some(100));
    e.add_value(50);
    // (500 * 50 + 500 * 100) / 1000 = 75
    assert_eq!(e.get_value(), Some(75));
}

#[test]
fn blended_fair_threshold_scenario() {
    let mut agg = RemoteVenueAggregator::new(MidValuer, 1000);
    // venue 1: mid 100, top sizes 15 + 15 = 30 shares
    agg.update_fair_for(&MarketEventBlock {
        exchange: Exchange::OkexSpot,
        events: vec![
            MarketEvent::LevelSet(Side::Buy, 95, 15),
            MarketEvent::LevelSet(Side::Sell, 105, 15),
        ],
    });
    // venue 2: mid 102, top sizes 15 + 15 = 30 shares
    agg.update_fair_for(&MarketEventBlock {
        exchange: Exchange::OkexSwap,
        events: vec![
            MarketEvent::LevelSet(Side::Buy, 97, 15),
            MarketEvent::LevelSet(Side::Sell, 107, 15),
        ],
    });
    assert_eq!(agg.venue_fair(Exchange::OkexSpot), 100);
    assert_eq!(agg.venue_smoothed_size(Exchange::OkexSpot), Some(30));
    // total adjusted size 60 < 100 units: unavailable
    assert!(agg.calculate_fair().is_none());
    // raise venue 2 to 80 shares (ratio 1000 adopts the new reading)
    agg.update_fair_for(&MarketEventBlock {
        exchange: Exchange::OkexSwap,
        events: vec![
            MarketEvent::LevelSet(Side::Buy, 97, 40),
            MarketEvent::LevelSet(Side::Sell, 107, 40),
        ],
    });
    assert_eq!(agg.venue_smoothed_size(Exchange::OkexSwap), Some(80));
    // total 110 >= 100: blended = (100*300 + 102*800) / 1100 = 101.45...
    // returned in hundredths of a tick with the weight in tenths of a unit
    let (price_scaled, weight_tenths) = agg.calculate_fair().unwrap();
    assert_eq!(price_scaled, 10145);
    assert_eq!(weight_tenths, 1100);
}

#[test]
fn blend_exact_threshold_is_available() {
    let mut agg = RemoteVenueAggregator::new(MidValuer, 1000);
    // one venue with exactly 100 shares: adjusted weight 1000 tenths
    agg.update_fair_for(&MarketEventBlock {
        exchange: Exchange::Bitmex,
        events: vec![
            MarketEvent::LevelSet(Side::Buy, 99, 50),
            MarketEvent::LevelSet(Side::Sell, 101, 50),
        ],
    });
    let (price_scaled, weight_tenths) = agg.calculate_fair().unwrap();
    assert_eq!(price_scaled, 100 * 100);
    assert_eq!(weight_tenths, 1000);
}

#[test]
fn blend_ignores_small_venues() {
    let mut agg = RemoteVenueAggregator::new(MidValuer, 1000);
    // 9 shares is below the per-venue minimum of 10: never joins the blend
    agg.update_fair_for(&MarketEventBlock {
        exchange: Exchange::Bitmex,
        events: vec![
            MarketEvent::LevelSet(Side::Buy, 99, 4),
            MarketEvent::LevelSet(Side::Sell, 101, 5),
        ],
    });
    assert_eq!(agg.venue_smoothed_size(Exchange::Bitmex), Some(9));
    assert!(agg.calculate_fair().is_none());
}

#[test]
fn fair_readings_beyond_limits_are_discarded() {
    let mut agg = RemoteVenueAggregator::new(MidValuer, 1000);
    agg.record_fair_reading(Exchange::Ftx, FairReading { fair_price: 100, fair_shares: 20 });
    assert_eq!(agg.venue_fair(Exchange::Ftx), 100);
    assert_eq!(agg.venue_smoothed_size(Exchange::Ftx), Some(20));
    // beyond the storable bounds: the whole reading is discarded
    agg.record_fair_reading(Exchange::Ftx, FairReading { fair_price: u64::MAX, fair_shares: 5 });
    assert_eq!(agg.venue_fair(Exchange::Ftx), 100);
    assert_eq!(agg.venue_smoothed_size(Exchange::Ftx), Some(20));
}

#[test]
fn trust_factors_weight_the_blend() {
    // the high-volume venue carries 2.5: 40 shares weigh 1000 tenths
    let mut agg = RemoteVenueAggregator::new(MidValuer, 1000);
    agg.record_fair_reading(Exchange::Ftx, FairReading { fair_price: 100, fair_shares: 40 });
    let (price_scaled, weight_tenths) = agg.calculate_fair().unwrap();
    assert_eq!(price_scaled, 10000);
    assert_eq!(weight_tenths, 1000);
    // a slow feed carries 0.7: the same 40 shares weigh only 280 tenths
    let mut agg = RemoteVenueAggregator::new(MidValuer, 1000);
    agg.record_fair_reading(Exchange::HuobiSpot, FairReading { fair_price: 100, fair_shares: 40 });
    assert!(agg.calculate_fair().is_none());
}

#[test]
fn exchange_indices_are_stable_and_distinct() {
    let all = [
        Exchange::OkexSpot,
        Exchange::OkexSwap,
        Exchange::OkexQuarterly,
        Exchange::BybitUsdt,
        Exchange::Bitmex,
        Exchange::HuobiSpot,
        Exchange::HuobiSwap,
        Exchange::HuobiQuarterly,
        Exchange::Ftx,
    ];
    for (k, e) in all.iter().enumerate() {
        assert_eq!(e.index(), k);
    }
}

#[test]
fn cum_size_delta_scenario() {
    let mut ft = FillTracker::new();
    let fills = ft.apply_transactions(&vec![tx(1, 7, 10, 2), tx(2, 7, 11, 5)]);
    assert_eq!(fills.len(), 2);
    assert_eq!(fills[0].size, 2);
    assert_eq!(fills[1].size, 3);
    assert_eq!(ft.cum_for(7), 5);
    // a duplicate of the first (same exec_id) must be ignored
    let fills = ft.apply_transactions(&vec![tx(1, 7, 10, 2)]);
    assert_eq!(fills.len(), 0);
    assert_eq!(ft.cum_for(7), 5);
}

#[test]
fn replaying_a_batch_changes_nothing() {
    let mut ft = FillTracker::new();
    let batch = vec![tx(1, 7, 10, 2), tx(2, 7, 11, 5), tx(3, 8, 12, 1)];
    let first = ft.apply_transactions(&batch);
    assert_eq!(first.len(), 3);
    let replay = ft.apply_transactions(&batch);
    assert_eq!(replay.len(), 0);
    assert_eq!(ft.cum_for(7), 5);
    assert_eq!(ft.cum_for(8), 1);
}

#[test]
fn filter_new_transactions_reverses_and_filters() {
    // newest first, as the venue reports them
    let batch = vec![tx(4, 1, 40, 4), tx(3, 1, 30, 3), tx(2, 1, 20, 2)];
    let (mark, kept) = mm_tactic::fills::filter_new_transactions(25, &batch);
    assert_eq!(mark, 40);
    let ids: Vec<u64> = kept.iter().map(|t| t.exec_id).collect();
    assert_eq!(ids, vec![3, 4]); // oldest to newest; timestamp 20 is not newer
    let times: Vec<u64> = kept.iter().map(|t| t.timestamp).collect();
    assert_eq!(times, vec![30, 40]);
}

#[test]
fn order_ids_are_unique_for_the_process() {
    let mut om = OrderManager::new(100);
    assert!(om.place_order(1, Side::Buy, 100, 10, 0));
    assert!(!om.place_order(1, Side::Sell, 105, 4, 1));
    assert_eq!(om.orders().len(), 1);
}

#[test]
fn order_lifecycle_is_one_way() {
    let mut om = OrderManager::new(100);
    om.place_order(1, Side::Buy, 100, 10, 0);
    assert!(matches!(om.orders()[0].status, OrderStatus::Proposed));
    om.ack_place(1);
    assert!(matches!(om.orders()[0].status, OrderStatus::Live));
    om.set_late_status(1);
    assert!(matches!(om.orders()[0].status, OrderStatus::Late));
    // a late order no longer reacts to the late timer
    om.set_late_status(1);
    assert!(matches!(om.orders()[0].status, OrderStatus::Late));
    assert!(om.cancel_stale_id(1, 5000));
    assert!(matches!(om.orders()[0].status, OrderStatus::CancelRequested));
    // at most one cancel per order id
    assert!(!om.cancel_stale_id(1, 6000));
    om.ack_cancel_for(1);
    assert!(matches!(om.orders()[0].status, OrderStatus::Gone));
}

#[test]
fn fills_are_monotone_and_bounded() {
    let mut om = OrderManager::new(100);
    om.place_order(1, Side::Buy, 100, 10, 0);
    om.ack_place(1);
    match om.apply_fill(1, 4) {
        mm_tactic::orders::FillOutcome::Applied { delta, completed } => {
            assert_eq!(delta, 4);
            assert!(!completed);
        }
        _ => panic!("fill must apply"),
    }
    // a stale (lower) report never lowers the cumulative size
    match om.apply_fill(1, 2) {
        mm_tactic::orders::FillOutcome::Applied { delta, .. } => assert_eq!(delta, 0),
        _ => panic!("fill must apply"),
    }
    assert_eq!(om.orders()[0].cum_filled_size, 4);
    // beyond the requested size is a fatal reconcile error
    assert!(matches!(
        om.apply_fill(1, 11),
        mm_tactic::orders::FillOutcome::TooLarge
    ));
    // completing the order marks it Gone
    match om.apply_fill(1, 10) {
        mm_tactic::orders::FillOutcome::Applied { delta, completed } => {
            assert_eq!(delta, 6);
            assert!(completed);
        }
        _ => panic!("fill must apply"),
    }
    assert!(matches!(om.orders()[0].status, OrderStatus::Gone));
    assert_eq!(om.inventory_budget(), 90);
    assert!(matches!(
        om.apply_fill(99, 1),
        mm_tactic::orders::FillOutcome::Unknown
    ));
}

#[test]
fn cancel_lifecycle_scenario() {
    let mut r = Reactor::new(1000);
    let gen = r.generation();
    assert!(r.place_order(9, Side::Buy, 100, 10, 0));
    r.ack_place(9);
    // stale timer fires at S ms: CancelRequested plus an HTTP cancel
    let out = r.step(gen, &TacticInternalEvent::CancelStale(Side::Buy, 100, 9), 5000);
    assert!(!out.abort);
    assert_eq!(out.actions.len(), 1);
    assert!(matches!(out.actions[0], TacticAction::IssueCancel(9)));
    assert!(matches!(r.orders()[0].status, OrderStatus::CancelRequested));
    assert_eq!(r.orders()[0].cancel_deadline, Some(5000));
    // a second stale timer issues nothing
    let out = r.step(gen, &TacticInternalEvent::CancelStale(Side::Buy, 100, 9), 5500);
    assert_eq!(out.actions.len(), 0);
    // the cancel ack arrives: Gone
    let out = r.step(gen, &TacticInternalEvent::OrderCanceled(9), 6000);
    assert!(out.actions.is_empty());
    assert!(matches!(r.orders()[0].status, OrderStatus::Gone));
    // a subsequent trade for the order still increments fills
    let out = r.step(gen, &TacticInternalEvent::Trades(vec![tx(50, 9, 1, 1)]), 7000);
    assert!(out.actions.is_empty());
    assert!(!out.abort);
    assert_eq!(r.orders()[0].cum_filled_size, 1);
}

#[test]
fn late_then_gone_timers() {
    let mut r = Reactor::new(0);
    let gen = r.generation();
    r.place_order(3, Side::Sell, 200, 5, 0);
    r.ack_place(3);
    let out = r.step(gen, &TacticInternalEvent::SetLateStatus(Side::Sell, 200, 3), 1000);
    assert!(out.actions.is_empty());
    assert!(matches!(r.orders()[0].status, OrderStatus::Late));
    // check-gone forces Gone and warns
    let out = r.step(gen, &TacticInternalEvent::CheckGone(Side::Sell, 200, 3), 15000);
    assert_eq!(out.actions.len(), 1);
    assert!(matches!(out.actions[0], TacticAction::ReconcileWarning(3)));
    assert!(matches!(r.orders()[0].status, OrderStatus::Gone));
    // already Gone: no further warning
    let out = r.step(gen, &TacticInternalEvent::CheckGone(Side::Sell, 200, 3), 16000);
    assert!(out.actions.is_empty());
}

#[test]
fn unknown_cancel_ack_escalates_reset() {
    let mut r = Reactor::new(0);
    let gen = r.generation();
    let out = r.step(gen, &TacticInternalEvent::OrderCanceled(42), 0);
    assert_eq!(out.actions.len(), 1);
    assert!(matches!(out.actions[0], TacticAction::RequestReset(true)));
}

#[test]
fn unknown_fill_escalates_reset() {
    let mut r = Reactor::new(0);
    let gen = r.generation();
    let out = r.step(gen, &TacticInternalEvent::Trades(vec![tx(1, 42, 1, 1)]), 0);
    assert_eq!(out.actions.len(), 1);
    assert!(matches!(out.actions[0], TacticAction::RequestReset(true)));
}

#[test]
fn reset_limit_abort_scenario() {
    let mut r = Reactor::new(0);
    for _ in 0..4 {
        let gen = r.generation();
        let out = r.step(gen, &TacticInternalEvent::Reset(true), 0);
        assert!(!out.abort, "four bad resets must not terminate");
        assert_eq!(out.actions.len(), 1);
        assert!(matches!(out.actions[0], TacticAction::Restart));
    }
    let gen = r.generation();
    let out = r.step(gen, &TacticInternalEvent::Reset(true), 0);
    assert!(out.abort, "the fifth successive bad reset must terminate");
    assert!(out.actions.is_empty());
}

#[test]
fn good_reset_clears_the_bad_streak() {
    let mut r = Reactor::new(0);
    for _ in 0..4 {
        let gen = r.generation();
        r.step(gen, &TacticInternalEvent::Reset(true), 0);
    }
    assert_eq!(r.bad_runs(), 4);
    let gen = r.generation();
    let out = r.step(gen, &TacticInternalEvent::Reset(false), 0);
    assert!(!out.abort);
    assert_eq!(r.bad_runs(), 0);
    // the streak starts over: one more bad reset does not abort
    let gen = r.generation();
    let out = r.step(gen, &TacticInternalEvent::Reset(true), 0);
    assert!(!out.abort);
}

#[test]
fn stale_generation_events_are_discarded() {
    let mut r = Reactor::new(0);
    let g0 = r.generation();
    r.place_order(1, Side::Buy, 100, 5, 0);
    r.ack_place(1);
    let out = r.step(g0, &TacticInternalEvent::Reset(false), 0);
    assert!(matches!(out.actions[0], TacticAction::Restart));
    assert_eq!(r.generation(), g0 + 1);
    // an event stamped with the old generation is applied nowhere
    let out = r.step(g0, &TacticInternalEvent::CancelStale(Side::Buy, 100, 1), 0);
    assert!(out.actions.is_empty());
    assert!(!out.abort);
    assert!(matches!(r.orders()[0].status, OrderStatus::Live));
    // the same event in the current generation does apply
    let g1 = r.generation();
    let out = r.step(g1, &TacticInternalEvent::CancelStale(Side::Buy, 100, 1), 0);
    assert_eq!(out.actions.len(), 1);
}

#[test]
fn ping_and_html_ticks() {
    let mut r = Reactor::new(0);
    let gen = r.generation();
    let out = r.step(gen, &TacticInternalEvent::Ping, 0);
    assert!(matches!(out.actions[0], TacticAction::SendPing));
    let out = r.step(gen, &TacticInternalEvent::DisplayHtml, 0);
    assert!(matches!(out.actions[0], TacticAction::WriteHtml));
}
