//! Authoritative per-order state with one-way lifecycle and at-most-once
//! cancellation.
//!
//! Every mutation is pinned to the functional model `om_step`, so the
//! lifecycle laws are proved once of the model and hold for any sequence of
//! operations: status ranks never decrease (Gone is terminal), cumulative
//! fills never decrease and never exceed the requested size, and a cancel is
//! issued at most once per order id.

use vstd::prelude::*;

use crate::events::Side;

verus! {

/// Lifecycle status of an order. Transitions are one-way through this
/// ordering; `Gone` is terminal.
#[derive(Clone, Copy, Debug, PartialEq, Eq, Structural)]
pub enum OrderStatus {
    Proposed,
    Live,
    Late,
    CancelRequested,
    Gone,
}

/// The position of a status in the one-way lifecycle.
pub open spec fn status_rank(s: OrderStatus) -> int {
    match s {
        OrderStatus::Proposed => 0,
        OrderStatus::Live => 1,
        OrderStatus::Late => 2,
        OrderStatus::CancelRequested => 3,
        OrderStatus::Gone => 4,
    }
}

/// One tracked order.
#[derive(Clone, Copy, Debug)]
pub struct OrderRecord {
    pub order_id: u64,
    pub side: Side,
    pub price: u64,
    pub requested_size: u64,
    pub cum_filled_size: u64,
    pub status: OrderStatus,
    pub placed_at_ts: u64,
    pub cancel_deadline: Option<u64>,
}

/// One operation on the order set.
pub enum OmOp {
    Place { id: u64, side: Side, price: u64, size: u64, ts: u64 },
    AckPlace(u64),
    SetLate(u64),
    CancelStale { id: u64, deadline: u64 },
    CheckGone(u64),
    AckCancel(u64),
    Fill { id: u64, cum: u64 },
}

/// Whether some record carries order id `id`.
pub open spec fn has_order(s: Seq<OrderRecord>, id: u64) -> bool {
    exists|i: int| 0 <= i < s.len() && s[i].order_id == id
}

/// Unique order ids, and no fill beyond its order's requested size.
pub open spec fn om_wf(s: Seq<OrderRecord>) -> bool {
    &&& forall|i: int, j: int| 0 <= i < j < s.len() ==> s[i].order_id != s[j].order_id
    &&& forall|i: int| 0 <= i < s.len() ==> s[i].cum_filled_size <= s[i].requested_size
}

/// The record carrying order id `id`, if any (well-defined under `om_wf`).
pub open spec fn order_lookup(s: Seq<OrderRecord>, id: u64) -> Option<OrderRecord> {
    if has_order(s, id) {
        Some(s[choose|i: int| 0 <= i < s.len() && s[i].order_id == id])
    } else {
        None
    }
}

/// The lifecycle rank of order `id`, or -1 while it is not tracked.
pub open spec fn order_rank_of(s: Seq<OrderRecord>, id: u64) -> int {
    match order_lookup(s, id) {
        Some(r) => status_rank(r.status),
        None => -1,
    }
}

/// How one operation rewrites one existing record. Operations for other
/// order ids, and operations whose guard does not hold, leave it unchanged.
pub open spec fn record_step(r: OrderRecord, op: OmOp) -> OrderRecord {
    match op {
        OmOp::Place { .. } => r,
        OmOp::AckPlace(id) => if r.order_id == id && r.status is Proposed {
            OrderRecord { status: OrderStatus::Live, ..r }
        } else {
            r
        },
        OmOp::SetLate(id) => if r.order_id == id && r.status is Live {
            OrderRecord { status: OrderStatus::Late, ..r }
        } else {
            r
        },
        OmOp::CancelStale { id, deadline } => if r.order_id == id && (r.status is Live
            || r.status is Late) {
            OrderRecord {
                status: OrderStatus::CancelRequested,
                cancel_deadline: Some(deadline),
                ..r
            }
        } else {
            r
        },
        OmOp::CheckGone(id) => if r.order_id == id && !(r.status is Gone) {
            OrderRecord { status: OrderStatus::Gone, ..r }
        } else {
            r
        },
        OmOp::AckCancel(id) => if r.order_id == id && !(r.status is Gone) {
            OrderRecord { status: OrderStatus::Gone, ..r }
        } else {
            r
        },
        OmOp::Fill { id, cum } => if r.order_id == id && cum <= r.requested_size && cum
            > r.cum_filled_size {
            OrderRecord {
                cum_filled_size: cum,
                status: if cum == r.requested_size {
                    OrderStatus::Gone
                } else {
                    r.status
                },
                ..r
            }
        } else {
            r
        },
    }
}

/// The whole order set after one operation: `Place` appends a fresh
/// `Proposed` record when the id is new, every other operation rewrites
/// records pointwise.
pub open spec fn om_step(s: Seq<OrderRecord>, op: OmOp) -> Seq<OrderRecord> {
    match op {
        OmOp::Place { id, side, price, size, ts } => if has_order(s, id) {
            s
        } else {
            s.push(
                OrderRecord {
                    order_id: id,
                    side,
                    price,
                    requested_size: size,
                    cum_filled_size: 0,
                    status: OrderStatus::Proposed,
                    placed_at_ts: ts,
                    cancel_deadline: None,
                },
            )
        },
        _ => s.map_values(|r: OrderRecord| record_step(r, op)),
    }
}

/// The order set after a whole sequence of operations.
pub open spec fn om_run(s: Seq<OrderRecord>, ops: Seq<OmOp>) -> Seq<OrderRecord>
    decreases ops.len(),
{
    if ops.len() == 0 {
        s
    } else {
        om_run(om_step(s, ops[0]), ops.drop_first())
    }
}

/// Whether applying `op` to `s` issues an HTTP cancel for order `id`: only a
/// `CancelStale` for that id finding it Live or Late does.
pub open spec fn issues_cancel_for(s: Seq<OrderRecord>, op: OmOp, id: u64) -> bool {
    match op {
        OmOp::CancelStale { id: cid, .. } => cid == id && (match order_lookup(s, id) {
            Some(r) => r.status is Live || r.status is Late,
            None => false,
        }),
        _ => false,
    }
}

/// How many cancels a sequence of operations issues for order `id`.
pub open spec fn cancels_issued(s: Seq<OrderRecord>, ops: Seq<OmOp>, id: u64) -> nat
    decreases ops.len(),
{
    if ops.len() == 0 {
        0
    } else {
        (if issues_cancel_for(s, ops[0], id) {
            1nat
        } else {
            0nat
        }) + cancels_issued(om_step(s, ops[0]), ops.drop_first(), id)
    }
}

/// Record `j` of `s2` relates to record `j` of `s` as monotonicity demands:
/// same id and requested size, fill not decreased and within bounds, status
/// not moved backward.
pub open spec fn monotone_at(s: Seq<OrderRecord>, s2: Seq<OrderRecord>, j: int) -> bool {
    &&& s2[j].order_id == s[j].order_id
    &&& s2[j].requested_size == s[j].requested_size
    &&& s2[j].cum_filled_size >= s[j].cum_filled_size
    &&& s2[j].cum_filled_size <= s2[j].requested_size
    &&& status_rank(s2[j].status) >= status_rank(s[j].status)
}

proof fn lemma_record_step_props(r: OrderRecord, op: OmOp)
    ensures
        record_step(r, op).order_id == r.order_id,
        record_step(r, op).requested_size == r.requested_size,
        record_step(r, op).cum_filled_size >= r.cum_filled_size,
        r.cum_filled_size <= r.requested_size ==> record_step(r, op).cum_filled_size
            <= record_step(r, op).requested_size,
        status_rank(record_step(r, op).status) >= status_rank(r.status),
{
}

/// Order monotonicity, per step: one operation keeps the order set
/// well-formed, never removes a record, and for every tracked order keeps
/// its id and requested size, never decreases its cumulative fill, never
/// lets the fill exceed the requested size, and never moves its status
/// backward.
pub proof fn lemma_order_monotonicity(s: Seq<OrderRecord>, op: OmOp)
    requires
        om_wf(s),
    ensures
        om_wf(om_step(s, op)),
        om_step(s, op).len() >= s.len(),
        forall|j: int| 0 <= j < s.len() ==> #[trigger] monotone_at(s, om_step(s, op), j),
{
    match op {
        OmOp::Place { id, .. } => {
            if !has_order(s, id) {
                assert forall|i: int, j: int|
                    0 <= i < j < om_step(s, op).len() implies om_step(s, op)[i].order_id != om_step(
                    s,
                    op,
                )[j].order_id by {
                    if j == s.len() as int {
                        assert(s[i].order_id != id);
                    }
                }
            }
        },
        _ => {
            let s2 = om_step(s, op);
            assert(s2.len() == s.len());
            assert forall|j: int| 0 <= j < s.len() implies monotone_at(s, s2, j) by {
                assert(s2[j] == record_step(s[j], op));
                lemma_record_step_props(s[j], op);
            }
        },
    }
}

/// Order monotonicity over any operation sequence: for every order tracked
/// at the start, the id and requested size are stable, the cumulative fill
/// is non-decreasing and never exceeds the requested size, and the status
/// only moves forward.
pub proof fn lemma_order_monotonicity_run(s: Seq<OrderRecord>, ops: Seq<OmOp>)
    requires
        om_wf(s),
    ensures
        om_wf(om_run(s, ops)),
        om_run(s, ops).len() >= s.len(),
        forall|j: int| 0 <= j < s.len() ==> #[trigger] monotone_at(s, om_run(s, ops), j),
    decreases ops.len(),
{
    if ops.len() > 0 {
        lemma_order_monotonicity(s, ops[0]);
        lemma_order_monotonicity_run(om_step(s, ops[0]), ops.drop_first());
        assert forall|j: int| 0 <= j < s.len() implies monotone_at(s, om_run(s, ops), j) by {
            assert(monotone_at(s, om_step(s, ops[0]), j));
            assert(monotone_at(om_step(s, ops[0]), om_run(om_step(s, ops[0]), ops.drop_first()), j));
        }
    }
}

/// Under `om_wf`, the chosen lookup index is the only one carrying the id.
proof fn lemma_lookup_unique(s: Seq<OrderRecord>, id: u64, i: int)
    requires
        om_wf(s),
        0 <= i < s.len(),
        s[i].order_id == id,
    ensures
        order_lookup(s, id) == Some(s[i]),
{
    assert(has_order(s, id));
    let j = choose|j: int| 0 <= j < s.len() && s[j].order_id == id;
    if j != i {
        if j < i {
            assert(s[j].order_id != s[i].order_id);
        } else {
            assert(s[i].order_id != s[j].order_id);
        }
    }
}

/// One step never lowers an order's lifecycle rank.
proof fn lemma_rank_monotone(s: Seq<OrderRecord>, op: OmOp, id: u64)
    requires
        om_wf(s),
    ensures
        om_wf(om_step(s, op)),
        order_rank_of(s, id) <= order_rank_of(om_step(s, op), id),
{
    lemma_order_monotonicity(s, op);
    let s2 = om_step(s, op);
    if has_order(s, id) {
        let i = choose|i: int| 0 <= i < s.len() && s[i].order_id == id;
        lemma_lookup_unique(s, id, i);
        assert(s2[i].order_id == id);
        lemma_lookup_unique(s2, id, i);
    } else {
        if has_order(s2, id) {
            let j = choose|j: int| 0 <= j < s2.len() && s2[j].order_id == id;
            lemma_lookup_unique(s2, id, j);
            assert(order_rank_of(s2, id) >= 0);
        }
    }
}

/// A step that issues a cancel for `id` leaves it `CancelRequested`.
proof fn lemma_issue_sets_rank(s: Seq<OrderRecord>, op: OmOp, id: u64)
    requires
        om_wf(s),
        issues_cancel_for(s, op, id),
    ensures
        order_rank_of(om_step(s, op), id) >= status_rank(OrderStatus::CancelRequested),
{
    lemma_order_monotonicity(s, op);
    let s2 = om_step(s, op);
    let i = choose|i: int| 0 <= i < s.len() && s[i].order_id == id;
    lemma_lookup_unique(s, id, i);
    assert(s2[i] == record_step(s[i], op));
    lemma_lookup_unique(s2, id, i);
}

/// No cancel is issued for an order already at or past `CancelRequested`.
proof fn lemma_no_cancel_when_requested(s: Seq<OrderRecord>, op: OmOp, id: u64)
    requires
        om_wf(s),
        order_rank_of(s, id) >= status_rank(OrderStatus::CancelRequested),
    ensures
        !issues_cancel_for(s, op, id),
{
}

/// Cancel uniqueness: over any operation sequence, at most one cancel is
/// issued per order id — and none at all once the order has reached
/// `CancelRequested`.
pub proof fn lemma_cancel_uniqueness(s: Seq<OrderRecord>, ops: Seq<OmOp>, id: u64)
    requires
        om_wf(s),
    ensures
        cancels_issued(s, ops, id) <= if order_rank_of(s, id) >= status_rank(
            OrderStatus::CancelRequested,
        ) {
            0nat
        } else {
            1nat
        },
    decreases ops.len(),
{
    if ops.len() > 0 {
        let op = ops[0];
        let s2 = om_step(s, op);
        lemma_rank_monotone(s, op, id);
        if order_rank_of(s, id) >= status_rank(OrderStatus::CancelRequested) {
            lemma_no_cancel_when_requested(s, op, id);
            lemma_cancel_uniqueness(s2, ops.drop_first(), id);
        } else if issues_cancel_for(s, op, id) {
            lemma_issue_sets_rank(s, op, id);
            lemma_cancel_uniqueness(s2, ops.drop_first(), id);
        } else {
            lemma_cancel_uniqueness(s2, ops.drop_first(), id);
        }
    }
}

fn find_order_index(orders: &Vec<OrderRecord>, id: u64) -> (r: Option<usize>)
    ensures
        match r {
            Some(i) => i < orders@.len() && orders@[i as int].order_id == id,
            None => forall|j: int| 0 <= j < orders@.len() ==> orders@[j].order_id != id,
        },
{
    let mut i: usize = 0;
    loop
        invariant
            0 <= i <= orders@.len(),
            forall|j: int| 0 <= j < i ==> orders@[j].order_id != id,
        ensures
            0 <= i <= orders@.len(),
            forall|j: int| 0 <= j < i ==> orders@[j].order_id != id,
            i < orders@.len() ==> orders@[i as int].order_id == id,
        decreases orders@.len() - i,
    {
        if i >= orders.len() {
            break ;
        }
        if orders[i].order_id == id {
            break ;
        }
        i = i + 1;
    }
    if i < orders.len() {
        Some(i)
    } else {
        None
    }
}

/// Outcome of reconciling one reported cumulative fill.
#[derive(Clone, Copy, Debug)]
pub enum FillOutcome {
    /// The fill was applied; `delta` is the incremental size (0 for a stale
    /// report), `completed` whether the order is now fully filled.
    Applied { delta: u64, completed: bool },
    /// No order with that id is tracked: a reconcile mismatch.
    Unknown,
    /// The reported cumulative size exceeds the requested size: a fatal
    /// reconcile error.
    TooLarge,
}

/// Tracks live orders and their lifecycle, reconciled against fills and
/// cancel acks arriving out of order.
pub struct OrderManager {
    orders: Vec<OrderRecord>,
    inventory_budget: u64,
}

impl OrderManager {
    /// The tracked order records.
    pub closed spec fn orders_spec(&self) -> Seq<OrderRecord> {
        self.orders@
    }

    /// The remaining inventory budget.
    pub closed spec fn budget_spec(&self) -> u64 {
        self.inventory_budget
    }

    /// Unique ids and fills within bounds.
    pub open spec fn wf(&self) -> bool {
        om_wf(self.orders_spec())
    }

    /// An empty manager with the given inventory budget.
    pub fn new(inventory_budget: u64) -> (r: OrderManager)
        ensures
            r.wf(),
            r.orders_spec() == Seq::<OrderRecord>::empty(),
            r.budget_spec() == inventory_budget,
    {
        OrderManager { orders: Vec::new(), inventory_budget }
    }

    /// The tracked records, in placement order.
    pub fn orders(&self) -> (r: &Vec<OrderRecord>)
        ensures
            r@ == self.orders_spec(),
    {
        &self.orders
    }

    /// The remaining inventory budget.
    pub fn inventory_budget(&self) -> (r: u64)
        ensures
            r == self.budget_spec(),
    {
        self.inventory_budget
    }

    /// Track a new order as `Proposed`. Order ids are unique for the
    /// process lifetime: a reused id is refused and nothing changes.
    pub fn place_order(&mut self, id: u64, side: Side, price: u64, size: u64, ts: u64) -> (fresh:
        bool)
        requires
            old(self).wf(),
        ensures
            final(self).wf(),
            final(self).orders_spec() == om_step(
                old(self).orders_spec(),
                OmOp::Place { id, side, price, size, ts },
            ),
            fresh == !has_order(old(self).orders_spec(), id),
            final(self).budget_spec() == old(self).budget_spec(),
    {
        let ghost op = OmOp::Place { id, side, price, size, ts };
        proof {
            lemma_order_monotonicity(self.orders@, op);
        }
        match find_order_index(&self.orders, id) {
            Some(i) => {
                proof {
                    assert(has_order(self.orders@, id));
                }
                false
            },
            None => {
                self.orders.push(
                    OrderRecord {
                        order_id: id,
                        side,
                        price,
                        requested_size: size,
                        cum_filled_size: 0,
                        status: OrderStatus::Proposed,
                        placed_at_ts: ts,
                        cancel_deadline: None,
                    },
                );
                true
            },
        }
    }

    /// Apply one record-rewriting operation (anything but `Place`).
    fn apply_record_op(&mut self, id: u64, op: OmOp)
        requires
            old(self).wf(),
            !(op is Place),
            match op {
                OmOp::AckPlace(i) => i == id,
                OmOp::SetLate(i) => i == id,
                OmOp::CancelStale { id: i, .. } => i == id,
                OmOp::CheckGone(i) => i == id,
                OmOp::AckCancel(i) => i == id,
                OmOp::Fill { id: i, .. } => i == id,
                OmOp::Place { .. } => false,
            },
        ensures
            final(self).wf(),
            final(self).orders_spec() == om_step(old(self).orders_spec(), op),
            final(self).budget_spec() == old(self).budget_spec(),
    {
        let ghost s = self.orders@;
        proof {
            lemma_order_monotonicity(s, op);
        }
        match find_order_index(&self.orders, id) {
            Some(i) => {
                let r = self.orders[i];
                let r2 = match op {
                    OmOp::AckPlace(_) => if matches!(r.status, OrderStatus::Proposed) {
                        OrderRecord { status: OrderStatus::Live, ..r }
                    } else {
                        r
                    },
                    OmOp::SetLate(_) => if matches!(r.status, OrderStatus::Live) {
                        OrderRecord { status: OrderStatus::Late, ..r }
                    } else {
                        r
                    },
                    OmOp::CancelStale { deadline, .. } => if matches!(r.status, OrderStatus::Live)
                        || matches!(r.status, OrderStatus::Late) {
                        OrderRecord {
                            status: OrderStatus::CancelRequested,
                            cancel_deadline: Some(deadline),
                            ..r
                        }
                    } else {
                        r
                    },
                    OmOp::CheckGone(_) => if !matches!(r.status, OrderStatus::Gone) {
                        OrderRecord { status: OrderStatus::Gone, ..r }
                    } else {
                        r
                    },
                    OmOp::AckCancel(_) => if !matches!(r.status, OrderStatus::Gone) {
                        OrderRecord { status: OrderStatus::Gone, ..r }
                    } else {
                        r
                    },
                    OmOp::Fill { cum, .. } => if cum <= r.requested_size && cum
                        > r.cum_filled_size {
                        OrderRecord {
                            cum_filled_size: cum,
                            status: if cum == r.requested_size {
                                OrderStatus::Gone
                            } else {
                                r.status
                            },
                            ..r
                        }
                    } else {
                        r
                    },
                    OmOp::Place { .. } => r,
                };
                self.orders[i] = r2;
                proof {
                    assert(r2 == record_step(s[i as int], op));
                    assert forall|j: int| 0 <= j < s.len() implies self.orders@[j] == record_step(
                        s[j],
                        op,
                    ) by {
                        if j != i {
                            if j < i {
                                assert(s[j].order_id != s[i as int].order_id);
                            } else {
                                assert(s[i as int].order_id != s[j].order_id);
                            }
                            lemma_record_step_props(s[j], op);
                        }
                    }
                    assert(self.orders@ =~= s.map_values(|r: OrderRecord| record_step(r, op)));
                }
            },
            None => {
                proof {
                    assert forall|j: int| 0 <= j < s.len() implies s.map_values(
                        |r: OrderRecord| record_step(r, op),
                    )[j] == s[j] by {
                        lemma_record_step_props(s[j], op);
                    }
                    assert(self.orders@ =~= s.map_values(|r: OrderRecord| record_step(r, op)));
                }
            },
        }
    }

    /// A placement ack: `Proposed` becomes `Live`.
    pub fn ack_place(&mut self, id: u64)
        requires
            old(self).wf(),
        ensures
            final(self).wf(),
            final(self).orders_spec() == om_step(old(self).orders_spec(), OmOp::AckPlace(id)),
            final(self).budget_spec() == old(self).budget_spec(),
    {
        self.apply_record_op(id, OmOp::AckPlace(id));
    }

    /// The late timer: a still-`Live` order becomes `Late`.
    pub fn set_late_status(&mut self, id: u64)
        requires
            old(self).wf(),
        ensures
            final(self).wf(),
            final(self).orders_spec() == om_step(old(self).orders_spec(), OmOp::SetLate(id)),
            final(self).budget_spec() == old(self).budget_spec(),
    {
        self.apply_record_op(id, OmOp::SetLate(id));
    }

    /// The stale timer: a `Live` or `Late` order becomes `CancelRequested`
    /// with the given deadline recorded, and exactly then a cancel must be
    /// issued — the returned flag says so.
    pub fn cancel_stale_id(&mut self, id: u64, deadline: u64) -> (issued: bool)
        requires
            old(self).wf(),
        ensures
            final(self).wf(),
            final(self).orders_spec() == om_step(
                old(self).orders_spec(),
                OmOp::CancelStale { id, deadline },
            ),
            issued == issues_cancel_for(
                old(self).orders_spec(),
                OmOp::CancelStale { id, deadline },
                id,
            ),
            final(self).budget_spec() == old(self).budget_spec(),
    {
        let issued = match find_order_index(&self.orders, id) {
            Some(i) => {
                let live_or_late = matches!(self.orders[i].status, OrderStatus::Live) || matches!(
                    self.orders[i].status,
                    OrderStatus::Late,
                );
                proof {
                    lemma_lookup_unique(self.orders@, id, i as int);
                }
                live_or_late
            },
            None => false,
        };
        self.apply_record_op(id, OmOp::CancelStale { id, deadline });
        issued
    }

    /// The check-gone timer: any order not yet `Gone` is forced `Gone`; the
    /// returned flag reports whether a reconciliation warning is due.
    pub fn check_order_gone(&mut self, id: u64) -> (warned: bool)
        requires
            old(self).wf(),
        ensures
            final(self).wf(),
            final(self).orders_spec() == om_step(old(self).orders_spec(), OmOp::CheckGone(id)),
            warned == (match order_lookup(old(self).orders_spec(), id) {
                Some(r) => !(r.status is Gone),
                None => false,
            }),
            final(self).budget_spec() == old(self).budget_spec(),
    {
        let warned = match find_order_index(&self.orders, id) {
            Some(i) => {
                let w = !matches!(self.orders[i].status, OrderStatus::Gone);
                proof {
                    lemma_lookup_unique(self.orders@, id, i as int);
                }
                w
            },
            None => false,
        };
        self.apply_record_op(id, OmOp::CheckGone(id));
        warned
    }

    /// A cancel ack: the order becomes `Gone`. Returns whether the id was
    /// known; an unknown ack is a reconcile mismatch for the caller.
    pub fn ack_cancel_for(&mut self, id: u64) -> (known: bool)
        requires
            old(self).wf(),
        ensures
            final(self).wf(),
            final(self).orders_spec() == om_step(old(self).orders_spec(), OmOp::AckCancel(id)),
            known == has_order(old(self).orders_spec(), id),
            final(self).budget_spec() == old(self).budget_spec(),
    {
        let known = match find_order_index(&self.orders, id) {
            Some(i) => {
                proof {
                    assert(has_order(self.orders@, id));
                }
                true
            },
            None => false,
        };
        self.apply_record_op(id, OmOp::AckCancel(id));
        known
    }

    /// Reconcile one reported cumulative fill: raise the order's cumulative
    /// size to the report (never lowering it), mark it `Gone` when fully
    /// filled, and decrement the inventory budget by the incremental size
    /// (saturating). Fills for orders already `Gone` still apply. An unknown
    /// id or a report beyond the requested size applies nothing.
    pub fn apply_fill(&mut self, id: u64, cum: u64) -> (outcome: FillOutcome)
        requires
            old(self).wf(),
        ensures
            final(self).wf(),
            final(self).orders_spec() == om_step(old(self).orders_spec(), OmOp::Fill { id, cum }),
            match order_lookup(old(self).orders_spec(), id) {
                None => outcome is Unknown && final(self).budget_spec() == old(self).budget_spec(),
                Some(r) => if cum > r.requested_size {
                    outcome is TooLarge && final(self).budget_spec() == old(self).budget_spec()
                } else {
                    {
                        let d: u64 = if cum > r.cum_filled_size {
                            (cum - r.cum_filled_size) as u64
                        } else {
                            0
                        };
                        &&& (outcome matches FillOutcome::Applied { delta, completed } && delta == d
                            && completed == (cum == r.requested_size))
                        &&& final(self).budget_spec() == if d <= old(self).budget_spec() {
                            (old(self).budget_spec() - d) as u64
                        } else {
                            0
                        }
                    }
                },
            },
    {
        let outcome = match find_order_index(&self.orders, id) {
            Some(i) => {
                let r = self.orders[i];
                proof {
                    lemma_lookup_unique(self.orders@, id, i as int);
                }
                if cum > r.requested_size {
                    FillOutcome::TooLarge
                } else {
                    let delta: u64 = if cum > r.cum_filled_size {
                        cum - r.cum_filled_size
                    } else {
                        0
                    };
                    if delta <= self.inventory_budget {
                        self.inventory_budget = self.inventory_budget - delta;
                    } else {
                        self.inventory_budget = 0;
                    }
                    FillOutcome::Applied { delta, completed: cum == r.requested_size }
                }
            },
            None => FillOutcome::Unknown,
        };
        self.apply_record_op(id, OmOp::Fill { id, cum });
        outcome
    }
}

} // verus!
