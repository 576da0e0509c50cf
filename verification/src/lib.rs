//! Core of a market-making tactic for a single instrument on one home venue,
//! informed by a consensus fair price blended from several remote venues.
//!
//! The crate holds the verified logic only: order books, inside-order
//! detection, fair-value blending, the order lifecycle, fill reconciliation,
//! and the reactor's per-event decisions. All I/O (exchange sessions, HTTP,
//! timers, HTML snapshots) lives outside and feeds plain values in.

pub mod events;
pub mod order_book;
pub mod ema;
pub mod fair_value;
pub mod fills;
pub mod local_book;
pub mod orders;
pub mod reactor;
pub mod remote_venue_aggregator;
