//! The reactor's per-event decisions: a pure transition from state and
//! event to next state and follow-up actions.
//!
//! The surrounding loop owns the I/O: it multiplexes market data, timers,
//! HTTP completions and the shutdown flag, hands each event here with the
//! generation stamp of the task that produced it, and performs the returned
//! actions. Epoch isolation is enforced at this gate: an event stamped with
//! any generation but the current one is discarded untouched, and the
//! generation counter never moves backward. After `MAX_BAD_RUNS`
//! consecutive bad resets the step reports abort.

use vstd::prelude::*;

use crate::events::Side;
use crate::fills::Transaction;
use crate::orders::{
    has_order, issues_cancel_for, om_run, om_step, om_wf, order_lookup, OmOp, OrderManager,
    OrderRecord,
};

verus! {

/// Consecutive bad resets that abort the process.
pub const MAX_BAD_RUNS: u64 = 5;

/// Events multiplexed into the reactor's internal queue.
pub enum TacticInternalEvent {
    /// A cancel ack from the venue for the given order id.
    OrderCanceled(u64),
    /// New fill transactions from the poller (oldest first, deduplicated).
    Trades(Vec<Transaction>),
    /// Late timer for (side, price, order id).
    SetLateStatus(Side, u64, u64),
    /// Stale-cancel timer for (side, price, order id).
    CancelStale(Side, u64, u64),
    /// Check-gone timer for (side, price, order id).
    CheckGone(Side, u64, u64),
    /// Html snapshot tick.
    DisplayHtml,
    /// Ping tick.
    Ping,
    /// Epoch reset; `true` marks a bad run.
    Reset(bool),
}

/// An effect the surrounding loop must perform after a step.
#[derive(Clone, Copy, Debug)]
pub enum TacticAction {
    /// Issue an HTTP cancel for the order id.
    IssueCancel(u64),
    /// Log a reconciliation warning for the order id.
    ReconcileWarning(u64),
    /// Enqueue a `Reset` event with the given badness.
    RequestReset(bool),
    /// Ping every venue connection.
    SendPing,
    /// Render and write the HTML snapshot.
    WriteHtml,
    /// Tear down and reconstruct all connections for the new epoch.
    Restart,
}

/// What one step decided: follow-up actions and whether to abort.
pub struct StepOutcome {
    pub actions: Vec<TacticAction>,
    pub abort: bool,
}

/// The fill operations a trades batch performs, in order.
pub open spec fn fill_ops(txs: Seq<Transaction>) -> Seq<OmOp> {
    txs.map_values(|t: Transaction| OmOp::Fill { id: t.order_id, cum: t.cum_size })
}

/// A reconcile mismatch: the fill names an unknown order, or reports more
/// than the order ever requested.
pub open spec fn fill_rejected(s: Seq<OrderRecord>, t: Transaction) -> bool {
    match order_lookup(s, t.order_id) {
        None => true,
        Some(r) => t.cum_size > r.requested_size,
    }
}

/// The reset requests a trades batch escalates: one `RequestReset(true)`
/// per rejected fill, in order.
pub open spec fn fill_reset_actions(s: Seq<OrderRecord>, txs: Seq<Transaction>) -> Seq<
    TacticAction,
>
    decreases txs.len(),
{
    if txs.len() == 0 {
        Seq::empty()
    } else {
        (if fill_rejected(s, txs[0]) {
            seq![TacticAction::RequestReset(true)]
        } else {
            Seq::empty()
        }) + fill_reset_actions(
            om_step(s, OmOp::Fill { id: txs[0].order_id, cum: txs[0].cum_size }),
            txs.drop_first(),
        )
    }
}

/// The bad-run counter after one reset and whether the process aborts:
/// a bad reset increments the streak and aborts when it reaches
/// `MAX_BAD_RUNS`; a good (timed) reset clears the streak.
pub open spec fn reset_outcome(bad_runs: u64, bad: bool) -> (u64, bool) {
    if bad {
        if bad_runs + 1 >= MAX_BAD_RUNS {
            (bad_runs, true)
        } else {
            ((bad_runs + 1) as u64, false)
        }
    } else {
        (0, false)
    }
}

/// Whether a sequence of resets (each flagged bad or good) ever aborts.
pub open spec fn resets_abort(bad_runs: u64, resets: Seq<bool>) -> bool
    decreases resets.len(),
{
    if resets.len() == 0 {
        false
    } else {
        reset_outcome(bad_runs, resets[0]).1 || resets_abort(
            reset_outcome(bad_runs, resets[0]).0,
            resets.drop_first(),
        )
    }
}

proof fn lemma_no_abort_below(bad_runs: u64, resets: Seq<bool>)
    requires
        bad_runs + resets.len() < MAX_BAD_RUNS,
    ensures
        !resets_abort(bad_runs, resets),
    decreases resets.len(),
{
    if resets.len() > 0 {
        lemma_no_abort_below(reset_outcome(bad_runs, resets[0]).0, resets.drop_first());
    }
}

proof fn lemma_all_bad_aborts(bad_runs: u64, resets: Seq<bool>)
    requires
        bad_runs < MAX_BAD_RUNS,
        bad_runs + resets.len() >= MAX_BAD_RUNS,
        forall|i: int| 0 <= i < resets.len() ==> resets[i],
    ensures
        resets_abort(bad_runs, resets),
    decreases resets.len(),
{
    if resets.len() == 0 {
        assert(false);
    } else {
        assert(resets[0]);
        if bad_runs + 1 >= MAX_BAD_RUNS {
        } else {
            assert(forall|i: int|
                0 <= i < resets.drop_first().len() ==> #[trigger] resets.drop_first()[i]
                    == resets[i + 1]);
            lemma_all_bad_aborts((bad_runs + 1) as u64, resets.drop_first());
        }
    }
}

/// Reset-limit abort: from a clean counter, five successive bad resets
/// abort the process, while any run of fewer than five resets — bad or not
/// — never does.
pub proof fn lemma_reset_limit(resets: Seq<bool>)
    ensures
        resets.len() >= MAX_BAD_RUNS && (forall|i: int| 0 <= i < resets.len() ==> resets[i])
            ==> resets_abort(0, resets),
        resets.len() < MAX_BAD_RUNS ==> !resets_abort(0, resets),
{
    if resets.len() >= MAX_BAD_RUNS && (forall|i: int| 0 <= i < resets.len() ==> resets[i]) {
        lemma_all_bad_aborts(0, resets);
    }
    if resets.len() < MAX_BAD_RUNS {
        lemma_no_abort_below(0, resets);
    }
}

/// Epoch isolation: generations only grow, so once the reactor has advanced
/// past the generation a task was spawned in, that task's stamp never
/// matches again — and `step` discards stamped events untouched whenever
/// the stamp differs from the current generation.
pub proof fn lemma_epoch_isolation(spawn_gen: u64, advanced: u64, later: u64)
    requires
        spawn_gen < advanced,
        advanced <= later,
    ensures
        spawn_gen != later,
{
}

/// The single cooperative reactor's decision state: the epoch counter, the
/// bad-run streak, and the order manager.
pub struct Reactor {
    generation: u64,
    bad_runs: u64,
    orders: OrderManager,
}

impl Reactor {
    /// The current epoch.
    pub closed spec fn generation_spec(&self) -> u64 {
        self.generation
    }

    /// Consecutive bad resets seen so far.
    pub closed spec fn bad_runs_spec(&self) -> u64 {
        self.bad_runs
    }

    /// The tracked order records.
    pub closed spec fn orders_spec(&self) -> Seq<OrderRecord> {
        self.orders.orders_spec()
    }

    /// Well-formed orders, and a bad-run streak strictly below the limit.
    pub open spec fn wf(&self) -> bool {
        om_wf(self.orders_spec()) && self.bad_runs_spec() < MAX_BAD_RUNS
    }

    /// A fresh reactor in generation 0 with a clean streak.
    pub fn new(inventory_budget: u64) -> (r: Reactor)
        ensures
            r.wf(),
            r.generation_spec() == 0,
            r.bad_runs_spec() == 0,
            r.orders_spec() == Seq::<OrderRecord>::empty(),
    {
        Reactor { generation: 0, bad_runs: 0, orders: OrderManager::new(inventory_budget) }
    }

    /// The current epoch, for stamping spawned tasks.
    pub fn generation(&self) -> (r: u64)
        ensures
            r == self.generation_spec(),
    {
        self.generation
    }

    /// Consecutive bad resets seen so far.
    pub fn bad_runs(&self) -> (r: u64)
        ensures
            r == self.bad_runs_spec(),
    {
        self.bad_runs
    }

    /// The tracked orders, in placement order.
    pub fn orders(&self) -> (r: &Vec<OrderRecord>)
        ensures
            r@ == self.orders_spec(),
    {
        self.orders.orders()
    }

    /// Track a quote the tactic decided to place (`Proposed` until acked).
    pub fn place_order(&mut self, id: u64, side: Side, price: u64, size: u64, ts: u64) -> (fresh:
        bool)
        requires
            old(self).wf(),
        ensures
            final(self).wf(),
            final(self).generation_spec() == old(self).generation_spec(),
            final(self).bad_runs_spec() == old(self).bad_runs_spec(),
            final(self).orders_spec() == om_step(
                old(self).orders_spec(),
                OmOp::Place { id, side, price, size, ts },
            ),
            fresh == !has_order(old(self).orders_spec(), id),
    {
        self.orders.place_order(id, side, price, size, ts)
    }

    /// A placement ack: the order goes `Live`.
    pub fn ack_place(&mut self, id: u64)
        requires
            old(self).wf(),
        ensures
            final(self).wf(),
            final(self).generation_spec() == old(self).generation_spec(),
            final(self).bad_runs_spec() == old(self).bad_runs_spec(),
            final(self).orders_spec() == om_step(old(self).orders_spec(), OmOp::AckPlace(id)),
    {
        self.orders.ack_place(id)
    }

    /// Dispatch one event produced in generation `source_gen` at time `now`.
    ///
    /// An event from any other generation is discarded: nothing changes and
    /// nothing is emitted. In the current generation, each event's effect on
    /// the state and the emitted actions are pinned exactly; a `Reset`
    /// advances the epoch (or aborts after `MAX_BAD_RUNS` consecutive bad
    /// ones), and generations never move backward.
    pub fn step(&mut self, source_gen: u64, event: &TacticInternalEvent, now: u64) -> (out:
        StepOutcome)
        requires
            old(self).wf(),
            old(self).generation_spec() < u64::MAX,
        ensures
            final(self).wf(),
            final(self).generation_spec() >= old(self).generation_spec(),
            source_gen != old(self).generation_spec() ==> final(self).generation_spec() == old(
                self,
            ).generation_spec() && final(self).bad_runs_spec() == old(self).bad_runs_spec()
                && final(self).orders_spec() == old(self).orders_spec() && out.actions@ == Seq::<
                TacticAction,
            >::empty() && !out.abort,
            source_gen == old(self).generation_spec() ==> match event {
                TacticInternalEvent::Reset(bad) => {
                    &&& final(self).bad_runs_spec() == reset_outcome(
                        old(self).bad_runs_spec(),
                        *bad,
                    ).0
                    &&& out.abort == reset_outcome(old(self).bad_runs_spec(), *bad).1
                    &&& final(self).generation_spec() == if out.abort {
                        old(self).generation_spec()
                    } else {
                        (old(self).generation_spec() + 1) as u64
                    }
                    &&& final(self).orders_spec() == old(self).orders_spec()
                    &&& out.actions@ == if out.abort {
                        Seq::<TacticAction>::empty()
                    } else {
                        seq![TacticAction::Restart]
                    }
                },
                TacticInternalEvent::Ping => final(self).generation_spec() == old(
                    self,
                ).generation_spec() && final(self).bad_runs_spec() == old(self).bad_runs_spec()
                    && final(self).orders_spec() == old(self).orders_spec() && out.actions@
                    == seq![TacticAction::SendPing] && !out.abort,
                TacticInternalEvent::DisplayHtml => final(self).generation_spec() == old(
                    self,
                ).generation_spec() && final(self).bad_runs_spec() == old(self).bad_runs_spec()
                    && final(self).orders_spec() == old(self).orders_spec() && out.actions@
                    == seq![TacticAction::WriteHtml] && !out.abort,
                TacticInternalEvent::SetLateStatus(_, _, id) => final(self).generation_spec()
                    == old(self).generation_spec() && final(self).bad_runs_spec() == old(
                    self,
                ).bad_runs_spec() && final(self).orders_spec() == om_step(
                    old(self).orders_spec(),
                    OmOp::SetLate(*id),
                ) && out.actions@ == Seq::<TacticAction>::empty() && !out.abort,
                TacticInternalEvent::CancelStale(_, _, id) => final(self).generation_spec() == old(
                    self,
                ).generation_spec() && final(self).bad_runs_spec() == old(self).bad_runs_spec()
                    && final(self).orders_spec() == om_step(
                    old(self).orders_spec(),
                    OmOp::CancelStale { id: *id, deadline: now },
                ) && out.actions@ == (if issues_cancel_for(
                    old(self).orders_spec(),
                    OmOp::CancelStale { id: *id, deadline: now },
                    *id,
                ) {
                    seq![TacticAction::IssueCancel(*id)]
                } else {
                    Seq::<TacticAction>::empty()
                }) && !out.abort,
                TacticInternalEvent::CheckGone(_, _, id) => final(self).generation_spec() == old(
                    self,
                ).generation_spec() && final(self).bad_runs_spec() == old(self).bad_runs_spec()
                    && final(self).orders_spec() == om_step(
                    old(self).orders_spec(),
                    OmOp::CheckGone(*id),
                ) && out.actions@ == (match order_lookup(old(self).orders_spec(), *id) {
                    Some(r) => if !(r.status is Gone) {
                        seq![TacticAction::ReconcileWarning(*id)]
                    } else {
                        Seq::<TacticAction>::empty()
                    },
                    None => Seq::<TacticAction>::empty(),
                }) && !out.abort,
                TacticInternalEvent::OrderCanceled(id) => final(self).generation_spec() == old(
                    self,
                ).generation_spec() && final(self).bad_runs_spec() == old(self).bad_runs_spec()
                    && final(self).orders_spec() == om_step(
                    old(self).orders_spec(),
                    OmOp::AckCancel(*id),
                ) && out.actions@ == (if has_order(old(self).orders_spec(), *id) {
                    Seq::<TacticAction>::empty()
                } else {
                    seq![TacticAction::RequestReset(true)]
                }) && !out.abort,
                TacticInternalEvent::Trades(txs) => final(self).generation_spec() == old(
                    self,
                ).generation_spec() && final(self).bad_runs_spec() == old(self).bad_runs_spec()
                    && final(self).orders_spec() == om_run(old(self).orders_spec(), fill_ops(txs@))
                    && out.actions@ == fill_reset_actions(old(self).orders_spec(), txs@)
                    && !out.abort,
            },
    {
        if source_gen != self.generation {
            return StepOutcome { actions: Vec::new(), abort: false };
        }
        match event {
            TacticInternalEvent::Reset(bad) => {
                if *bad && self.bad_runs + 1 >= MAX_BAD_RUNS {
                    StepOutcome { actions: Vec::new(), abort: true }
                } else {
                    self.generation = self.generation + 1;
                    self.bad_runs = if *bad {
                        self.bad_runs + 1
                    } else {
                        0
                    };
                    let mut actions: Vec<TacticAction> = Vec::new();
                    actions.push(TacticAction::Restart);
                    proof {
                        assert(actions@ =~= seq![TacticAction::Restart]);
                    }
                    StepOutcome { actions, abort: false }
                }
            },
            TacticInternalEvent::Ping => {
                let mut actions: Vec<TacticAction> = Vec::new();
                actions.push(TacticAction::SendPing);
                proof {
                    assert(actions@ =~= seq![TacticAction::SendPing]);
                }
                StepOutcome { actions, abort: false }
            },
            TacticInternalEvent::DisplayHtml => {
                let mut actions: Vec<TacticAction> = Vec::new();
                actions.push(TacticAction::WriteHtml);
                proof {
                    assert(actions@ =~= seq![TacticAction::WriteHtml]);
                }
                StepOutcome { actions, abort: false }
            },
            TacticInternalEvent::SetLateStatus(_, _, id) => {
                self.orders.set_late_status(*id);
                StepOutcome { actions: Vec::new(), abort: false }
            },
            TacticInternalEvent::CancelStale(_, _, id) => {
                let issued = self.orders.cancel_stale_id(*id, now);
                let mut actions: Vec<TacticAction> = Vec::new();
                if issued {
                    actions.push(TacticAction::IssueCancel(*id));
                    proof {
                        assert(actions@ =~= seq![TacticAction::IssueCancel(*id)]);
                    }
                }
                StepOutcome { actions, abort: false }
            },
            TacticInternalEvent::CheckGone(_, _, id) => {
                let warned = self.orders.check_order_gone(*id);
                let mut actions: Vec<TacticAction> = Vec::new();
                if warned {
                    actions.push(TacticAction::ReconcileWarning(*id));
                    proof {
                        assert(actions@ =~= seq![TacticAction::ReconcileWarning(*id)]);
                    }
                }
                StepOutcome { actions, abort: false }
            },
            TacticInternalEvent::OrderCanceled(id) => {
                let known = self.orders.ack_cancel_for(*id);
                let mut actions: Vec<TacticAction> = Vec::new();
                if !known {
                    actions.push(TacticAction::RequestReset(true));
                    proof {
                        assert(actions@ =~= seq![TacticAction::RequestReset(true)]);
                    }
                }
                StepOutcome { actions, abort: false }
            },
            TacticInternalEvent::Trades(txs) => {
                let ghost s0 = self.orders.orders_spec();
                let ghost g0 = self.generation;
                let ghost b0 = self.bad_runs;
                let mut actions: Vec<TacticAction> = Vec::new();
                let mut i: usize = 0;
                proof {
                    assert(txs@.skip(0) =~= txs@);
                    assert(Seq::<TacticAction>::empty() + fill_reset_actions(s0, txs@)
                        =~= fill_reset_actions(s0, txs@));
                }
                while i < txs.len()
                    invariant
                        0 <= i <= txs@.len(),
                        self.generation == g0,
                        self.bad_runs == b0,
                        om_wf(self.orders.orders_spec()),
                        om_run(self.orders.orders_spec(), fill_ops(txs@.skip(i as int))) == om_run(
                            s0,
                            fill_ops(txs@),
                        ),
                        actions@ + fill_reset_actions(self.orders.orders_spec(), txs@.skip(i as int))
                            == fill_reset_actions(s0, txs@),
                    decreases txs@.len() - i,
                {
                    let t = txs[i];
                    let ghost cur = self.orders.orders_spec();
                    let ghost op = OmOp::Fill { id: t.order_id, cum: t.cum_size };
                    proof {
                        assert(txs@.skip(i as int)[0] == txs@[i as int]);
                        assert(txs@.skip(i as int).drop_first() =~= txs@.skip(i + 1));
                        assert(fill_ops(txs@.skip(i as int))[0] == op);
                        assert(fill_ops(txs@.skip(i as int)).drop_first() =~= fill_ops(
                            txs@.skip(i + 1),
                        ));
                        assert(om_run(cur, fill_ops(txs@.skip(i as int))) == om_run(
                            om_step(cur, op),
                            fill_ops(txs@.skip(i as int)).drop_first(),
                        ));
                    }
                    let outcome = self.orders.apply_fill(t.order_id, t.cum_size);
                    let ghost before = actions@;
                    match outcome {
                        crate::orders::FillOutcome::Applied { .. } => {
                            proof {
                                assert(!fill_rejected(cur, txs@[i as int]));
                                assert(actions@ + fill_reset_actions(
                                    self.orders.orders_spec(),
                                    txs@.skip(i + 1),
                                ) =~= before + (Seq::<TacticAction>::empty() + fill_reset_actions(
                                    self.orders.orders_spec(),
                                    txs@.skip(i + 1),
                                )));
                            }
                        },
                        _ => {
                            actions.push(TacticAction::RequestReset(true));
                            proof {
                                assert(fill_rejected(cur, txs@[i as int]));
                                assert(actions@ + fill_reset_actions(
                                    self.orders.orders_spec(),
                                    txs@.skip(i + 1),
                                ) =~= before + (seq![TacticAction::RequestReset(true)]
                                    + fill_reset_actions(
                                    self.orders.orders_spec(),
                                    txs@.skip(i + 1),
                                )));
                            }
                        },
                    }
                    i = i + 1;
                }
                proof {
                    assert(txs@.skip(txs@.len() as int) =~= Seq::<Transaction>::empty());
                    assert(actions@ + Seq::<TacticAction>::empty() =~= actions@);
                }
                StepOutcome { actions, abort: false }
            },
        }
    }
}

} // verus!
