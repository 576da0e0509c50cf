//! Fill-poller bookkeeping: deduplicate transactions by execution id,
//! derive each order's incremental fill from its reported cumulative size,
//! and maintain the poller's timestamp high-water mark.
//!
//! `apply_transactions` is pinned to the functional model `ft_apply`;
//! replaying a batch already folded in changes nothing and emits nothing
//! (transaction idempotence), which is proved of the model.

use vstd::prelude::*;

use crate::events::Side;

verus! {

/// One execution report from the venue. `size` carries the incremental fill
/// derived by the tracker; the venue reports only `cum_size`.
#[derive(Clone, Copy, Debug)]
pub struct Transaction {
    pub exec_id: u64,
    pub order_id: u64,
    pub timestamp: u64,
    pub cum_size: u64,
    pub size: u64,
    pub price: u64,
    pub side: Side,
}

/// Index of `id` in the cumulative-size table, or -1.
pub open spec fn cum_index(c: Seq<(u64, u64)>, id: u64) -> int
    decreases c.len(),
{
    if c.len() == 0 {
        -1
    } else if c[0].0 == id {
        0
    } else {
        let r = cum_index(c.drop_first(), id);
        if r < 0 {
            -1
        } else {
            1 + r
        }
    }
}

/// The cumulative size recorded for order `id`, starting at zero.
pub open spec fn cum_of(c: Seq<(u64, u64)>, id: u64) -> int {
    let i = cum_index(c, id);
    if i >= 0 {
        c[i].1 as int
    } else {
        0
    }
}

/// The table with order `id`'s cumulative size set to `v`.
pub open spec fn cum_set(c: Seq<(u64, u64)>, id: u64, v: u64) -> Seq<(u64, u64)> {
    let i = cum_index(c, id);
    if i >= 0 {
        c.update(i, (id, v))
    } else {
        c.push((id, v))
    }
}

/// A batch is consistent with the tracker when every transaction not yet
/// seen reports a cumulative size at least the one recorded so far (a lower
/// one is a fatal reconcile error).
pub open spec fn ft_ok(seen: Seq<u64>, cum: Seq<(u64, u64)>, txs: Seq<Transaction>) -> bool
    decreases txs.len(),
{
    if txs.len() == 0 {
        true
    } else {
        let t = txs[0];
        if seen.contains(t.exec_id) {
            ft_ok(seen, cum, txs.drop_first())
        } else {
            cum_of(cum, t.order_id) <= t.cum_size && ft_ok(
                seen.push(t.exec_id),
                cum_set(cum, t.order_id, t.cum_size),
                txs.drop_first(),
            )
        }
    }
}

/// The tracker and emitted fills after one batch: transactions with a seen
/// execution id are dropped; each new one is recorded and emitted with its
/// `size` set to the increment over the recorded cumulative size.
pub open spec fn ft_apply(seen: Seq<u64>, cum: Seq<(u64, u64)>, txs: Seq<Transaction>) -> (
    Seq<u64>,
    Seq<(u64, u64)>,
    Seq<Transaction>,
)
    decreases txs.len(),
{
    if txs.len() == 0 {
        (seen, cum, Seq::empty())
    } else {
        let t = txs[0];
        if seen.contains(t.exec_id) {
            ft_apply(seen, cum, txs.drop_first())
        } else {
            let delta = t.cum_size - cum_of(cum, t.order_id);
            let rest = ft_apply(
                seen.push(t.exec_id),
                cum_set(cum, t.order_id, t.cum_size),
                txs.drop_first(),
            );
            (rest.0, rest.1, seq![Transaction { size: delta as u64, ..t }] + rest.2)
        }
    }
}

/// Chronologically newest-first input reversed to oldest-first, keeping only
/// transactions strictly newer than the high-water mark.
pub open spec fn rev_filter_new(txs: Seq<Transaction>, last_seen: u64) -> Seq<Transaction>
    decreases txs.len(),
{
    if txs.len() == 0 {
        Seq::empty()
    } else {
        (if txs.last().timestamp > last_seen {
            seq![txs.last()]
        } else {
            Seq::empty()
        }) + rev_filter_new(txs.drop_last(), last_seen)
    }
}

/// The new high-water mark: the largest timestamp in the batch, or the old
/// mark if none is larger.
pub open spec fn max_seen_after(txs: Seq<Transaction>, last_seen: u64) -> u64
    decreases txs.len(),
{
    if txs.len() == 0 {
        last_seen
    } else {
        max_seen_after(
            txs.drop_last(),
            if txs.last().timestamp > last_seen {
                txs.last().timestamp
            } else {
                last_seen
            },
        )
    }
}

/// Reverse a newest-first transaction batch to oldest-first, keep only
/// entries strictly newer than `last_seen`, and report the new high-water
/// mark alongside.
pub fn filter_new_transactions(last_seen: u64, txs: &Vec<Transaction>) -> (r: (
    u64,
    Vec<Transaction>,
))
    ensures
        r.0 == max_seen_after(txs@, last_seen),
        r.1@ == rev_filter_new(txs@, last_seen),
{
    let mut out: Vec<Transaction> = Vec::new();
    let mut mark: u64 = last_seen;
    let mut i: usize = txs.len();
    proof {
        assert(txs@.take(txs@.len() as int) =~= txs@);
        assert(Seq::<Transaction>::empty() + rev_filter_new(txs@, last_seen) =~= rev_filter_new(
            txs@,
            last_seen,
        ));
    }
    while i > 0
        invariant
            0 <= i <= txs@.len(),
            out@ + rev_filter_new(txs@.take(i as int), last_seen) =~= rev_filter_new(
                txs@,
                last_seen,
            ),
            max_seen_after(txs@.take(i as int), mark) == max_seen_after(txs@, last_seen),
        decreases i,
    {
        let t = txs[i - 1];
        proof {
            let pre = txs@.take(i as int);
            assert(pre.last() == txs@[i - 1]);
            assert(pre.drop_last() =~= txs@.take(i - 1));
        }
        if t.timestamp > mark {
            mark = t.timestamp;
        }
        if t.timestamp > last_seen {
            let ghost before = out@;
            out.push(t);
            proof {
                assert(out@ + rev_filter_new(txs@.take(i - 1), last_seen) =~= before + (seq![t]
                    + rev_filter_new(txs@.take(i - 1), last_seen)));
            }
        }
        i = i - 1;
    }
    proof {
        assert(txs@.take(0) =~= Seq::<Transaction>::empty());
        assert(out@ =~= out@ + Seq::<Transaction>::empty());
    }
    (mark, out)
}

/// Everything ever seen stays seen through a batch.
proof fn lemma_ft_seen_monotone(seen: Seq<u64>, cum: Seq<(u64, u64)>, txs: Seq<Transaction>, x: u64)
    requires
        seen.contains(x),
    ensures
        ft_apply(seen, cum, txs).0.contains(x),
    decreases txs.len(),
{
    if txs.len() > 0 {
        let t = txs[0];
        if seen.contains(t.exec_id) {
            lemma_ft_seen_monotone(seen, cum, txs.drop_first(), x);
        } else {
            assert(seen.push(t.exec_id).contains(x)) by {
                let w = choose|w: int| 0 <= w < seen.len() && seen[w] == x;
                assert(seen.push(t.exec_id)[w] == x);
            }
            lemma_ft_seen_monotone(
                seen.push(t.exec_id),
                cum_set(cum, t.order_id, t.cum_size),
                txs.drop_first(),
                x,
            );
        }
    }
}

/// After a batch, every execution id of the batch is seen.
proof fn lemma_ft_all_seen(seen: Seq<u64>, cum: Seq<(u64, u64)>, txs: Seq<Transaction>, k: int)
    requires
        0 <= k < txs.len(),
    ensures
        ft_apply(seen, cum, txs).0.contains(txs[k].exec_id),
    decreases txs.len(),
{
    let t = txs[0];
    if seen.contains(t.exec_id) {
        if k == 0 {
            lemma_ft_seen_monotone(seen, cum, txs.drop_first(), t.exec_id);
        } else {
            lemma_ft_all_seen(seen, cum, txs.drop_first(), k - 1);
        }
    } else {
        let seen2 = seen.push(t.exec_id);
        let cum2 = cum_set(cum, t.order_id, t.cum_size);
        if k == 0 {
            assert(seen2[seen.len() as int] == t.exec_id);
            assert(seen2.contains(t.exec_id));
            lemma_ft_seen_monotone(seen2, cum2, txs.drop_first(), t.exec_id);
        } else {
            lemma_ft_all_seen(seen2, cum2, txs.drop_first(), k - 1);
        }
    }
}

proof fn lemma_ft_replay_noop(seen: Seq<u64>, cum: Seq<(u64, u64)>, txs: Seq<Transaction>)
    requires
        forall|k: int| 0 <= k < txs.len() ==> seen.contains(#[trigger] txs[k].exec_id),
    ensures
        ft_apply(seen, cum, txs).0 == seen,
        ft_apply(seen, cum, txs).1 == cum,
        ft_apply(seen, cum, txs).2 == Seq::<Transaction>::empty(),
        ft_ok(seen, cum, txs),
    decreases txs.len(),
{
    if txs.len() > 0 {
        assert(seen.contains(txs[0].exec_id));
        assert(forall|k: int|
            0 <= k < txs.drop_first().len() ==> #[trigger] txs.drop_first()[k] == txs[k + 1]);
        lemma_ft_replay_noop(seen, cum, txs.drop_first());
    }
}

/// Transaction idempotence: once a batch has been folded into the tracker,
/// folding the very same batch in again is consistent, changes neither the
/// seen set nor the cumulative-size table, and emits no fills.
pub proof fn lemma_transaction_idempotence(
    seen: Seq<u64>,
    cum: Seq<(u64, u64)>,
    txs: Seq<Transaction>,
)
    ensures
        ({
            let after = ft_apply(seen, cum, txs);
            &&& ft_ok(after.0, after.1, txs)
            &&& ft_apply(after.0, after.1, txs).0 == after.0
            &&& ft_apply(after.0, after.1, txs).1 == after.1
            &&& ft_apply(after.0, after.1, txs).2 == Seq::<Transaction>::empty()
        }),
{
    let after = ft_apply(seen, cum, txs);
    assert forall|k: int| 0 <= k < txs.len() implies after.0.contains(#[trigger] txs[k].exec_id) by {
        lemma_ft_all_seen(seen, cum, txs, k);
    }
    lemma_ft_replay_noop(after.0, after.1, txs);
}

proof fn lemma_ft_apply_snoc(
    seen: Seq<u64>,
    cum: Seq<(u64, u64)>,
    txs: Seq<Transaction>,
    t: Transaction,
)
    ensures
        ({
            let a = ft_apply(seen, cum, txs);
            let b = ft_apply(seen, cum, txs.push(t));
            if a.0.contains(t.exec_id) {
                b.0 == a.0 && b.1 == a.1 && b.2 == a.2
            } else {
                &&& b.0 == a.0.push(t.exec_id)
                &&& b.1 == cum_set(a.1, t.order_id, t.cum_size)
                &&& b.2 == a.2.push(
                    Transaction { size: (t.cum_size - cum_of(a.1, t.order_id)) as u64, ..t },
                )
            }
        }),
    decreases txs.len(),
{
    let pushed = txs.push(t);
    assert(pushed.len() == txs.len() + 1);
    let a = ft_apply(seen, cum, txs);
    let b = ft_apply(seen, cum, pushed);
    if txs.len() == 0 {
        assert(pushed[0] == t);
        assert(pushed.drop_first() =~= Seq::<Transaction>::empty());
        assert(a.0 == seen && a.1 == cum && a.2 == Seq::<Transaction>::empty());
        if seen.contains(t.exec_id) {
            assert(b == ft_apply(seen, cum, pushed.drop_first()));
            assert(b.0 == seen && b.1 == cum && b.2 == Seq::<Transaction>::empty());
        } else {
            let t2 = Transaction { size: (t.cum_size - cum_of(cum, t.order_id)) as u64, ..t };
            assert(ft_apply(
                seen.push(t.exec_id),
                cum_set(cum, t.order_id, t.cum_size),
                pushed.drop_first(),
            ).2 == Seq::<Transaction>::empty());
            assert(b.2 == seq![t2] + Seq::<Transaction>::empty());
            assert(seq![t2] + Seq::<Transaction>::empty() =~= Seq::<Transaction>::empty().push(t2));
        }
    } else {
        assert(pushed[0] == txs[0]);
        assert(pushed.drop_first() =~= txs.drop_first().push(t));
        let h = txs[0];
        if seen.contains(h.exec_id) {
            lemma_ft_apply_snoc(seen, cum, txs.drop_first(), t);
            assert(a == ft_apply(seen, cum, txs.drop_first()));
            assert(b == ft_apply(seen, cum, txs.drop_first().push(t)));
        } else {
            let seen2 = seen.push(h.exec_id);
            let cum2 = cum_set(cum, h.order_id, h.cum_size);
            lemma_ft_apply_snoc(seen2, cum2, txs.drop_first(), t);
            let ar = ft_apply(seen2, cum2, txs.drop_first());
            let br = ft_apply(seen2, cum2, txs.drop_first().push(t));
            let hd = seq![Transaction { size: (h.cum_size - cum_of(cum, h.order_id)) as u64, ..h }];
            assert(a.0 == ar.0 && a.1 == ar.1 && a.2 == hd + ar.2);
            assert(b.0 == br.0 && b.1 == br.1 && b.2 == hd + br.2);
            if ar.0.contains(t.exec_id) {
                assert(b.2 == hd + ar.2);
            } else {
                let t2 = Transaction { size: (t.cum_size - cum_of(ar.1, t.order_id)) as u64, ..t };
                assert(br.2 == ar.2.push(t2));
                assert(hd + ar.2.push(t2) =~= (hd + ar.2).push(t2));
            }
        }
    }
}

fn seen_contains(seen: &Vec<u64>, x: u64) -> (r: bool)
    ensures
        r == seen@.contains(x),
{
    let mut i: usize = 0;
    loop
        invariant
            0 <= i <= seen@.len(),
            forall|j: int| 0 <= j < i ==> seen@[j] != x,
        ensures
            0 <= i <= seen@.len(),
            forall|j: int| 0 <= j < i ==> seen@[j] != x,
            i < seen@.len() ==> seen@[i as int] == x,
        decreases seen@.len() - i,
    {
        if i >= seen.len() {
            break ;
        }
        if seen[i] == x {
            break ;
        }
        i = i + 1;
    }
    if i < seen.len() {
        proof {
            assert(seen@[i as int] == x);
        }
        true
    } else {
        false
    }
}

proof fn lemma_cum_index_is(c: Seq<(u64, u64)>, id: u64, k: int)
    requires
        0 <= k <= c.len(),
        forall|j: int| 0 <= j < k ==> c[j].0 != id,
        k < c.len() ==> c[k].0 == id,
    ensures
        cum_index(c, id) == if k < c.len() {
            k
        } else {
            -1
        },
    decreases c.len(),
{
    if c.len() == 0 {
    } else if k == 0 {
    } else {
        assert(forall|j: int| 0 <= j < c.drop_first().len() ==> c.drop_first()[j] == c[j + 1]);
        lemma_cum_index_is(c.drop_first(), id, k - 1);
    }
}

/// Carries the poller's seen execution ids and per-order cumulative sizes.
pub struct FillTracker {
    seen: Vec<u64>,
    cum: Vec<(u64, u64)>,
}

impl FillTracker {
    /// Execution ids already folded in.
    pub closed spec fn seen_spec(&self) -> Seq<u64> {
        self.seen@
    }

    /// Per-order cumulative sizes.
    pub closed spec fn cum_spec(&self) -> Seq<(u64, u64)> {
        self.cum@
    }

    /// An empty tracker.
    pub fn new() -> (r: FillTracker)
        ensures
            r.seen_spec() == Seq::<u64>::empty(),
            r.cum_spec() == Seq::<(u64, u64)>::empty(),
    {
        FillTracker { seen: Vec::new(), cum: Vec::new() }
    }

    /// Fold one batch in (oldest first): drop transactions whose execution
    /// id was already seen, record the rest, and emit each with its `size`
    /// set to the increment over the order's recorded cumulative size.
    /// A new transaction reporting less than the recorded cumulative size is
    /// a fatal reconcile error and is excluded by the precondition.
    pub fn apply_transactions(&mut self, txs: &Vec<Transaction>) -> (fills: Vec<Transaction>)
        requires
            ft_ok(old(self).seen_spec(), old(self).cum_spec(), txs@),
        ensures
            final(self).seen_spec() == ft_apply(old(self).seen_spec(), old(self).cum_spec(), txs@).0,
            final(self).cum_spec() == ft_apply(old(self).seen_spec(), old(self).cum_spec(), txs@).1,
            fills@ == ft_apply(old(self).seen_spec(), old(self).cum_spec(), txs@).2,
    {
        let ghost s0 = self.seen@;
        let ghost c0 = self.cum@;
        let mut fills: Vec<Transaction> = Vec::new();
        proof {
            assert(txs@.skip(0) =~= txs@);
        }
        let mut i: usize = 0;
        while i < txs.len()
            invariant
                0 <= i <= txs@.len(),
                ft_ok(self.seen@, self.cum@, txs@.skip(i as int)),
                self.seen@ == ft_apply(s0, c0, txs@.take(i as int)).0,
                self.cum@ == ft_apply(s0, c0, txs@.take(i as int)).1,
                fills@ == ft_apply(s0, c0, txs@.take(i as int)).2,
            decreases txs@.len() - i,
        {
            let t = txs[i];
            proof {
                lemma_ft_apply_snoc(s0, c0, txs@.take(i as int), t);
                assert(txs@.take(i as int).push(t) =~= txs@.take(i + 1));
                assert(txs@.skip(i as int)[0] == txs@[i as int]);
                assert(txs@.skip(i as int).drop_first() =~= txs@.skip(i + 1));
            }
            if !seen_contains(&self.seen, t.exec_id) {
                self.seen.push(t.exec_id);
                let prev = self.cum_for(t.order_id);
                let delta = t.cum_size - prev;
                self.set_cum(t.order_id, t.cum_size);
                let mut emitted = t;
                emitted.size = delta;
                fills.push(emitted);
            }
            i = i + 1;
        }
        proof {
            assert(txs@.take(txs@.len() as int) =~= txs@);
        }
        fills
    }

    /// Whether an execution id has already been folded in.
    pub fn is_seen(&self, exec_id: u64) -> (r: bool)
        ensures
            r == self.seen_spec().contains(exec_id),
    {
        seen_contains(&self.seen, exec_id)
    }

    /// The recorded cumulative size for an order, zero if none.
    pub fn cum_for(&self, id: u64) -> (r: u64)
        ensures
            r as int == cum_of(self.cum_spec(), id),
    {
        let mut i: usize = 0;
        loop
            invariant
                0 <= i <= self.cum@.len(),
                forall|j: int| 0 <= j < i ==> self.cum@[j].0 != id,
            ensures
                0 <= i <= self.cum@.len(),
                forall|j: int| 0 <= j < i ==> self.cum@[j].0 != id,
                i < self.cum@.len() ==> self.cum@[i as int].0 == id,
            decreases self.cum@.len() - i,
        {
            if i >= self.cum.len() {
                break ;
            }
            if self.cum[i].0 == id {
                break ;
            }
            i = i + 1;
        }
        proof {
            lemma_cum_index_is(self.cum@, id, i as int);
        }
        if i < self.cum.len() {
            self.cum[i].1
        } else {
            0
        }
    }

    fn set_cum(&mut self, id: u64, v: u64)
        ensures
            final(self).cum_spec() == cum_set(old(self).cum_spec(), id, v),
            final(self).seen_spec() == old(self).seen_spec(),
    {
        let mut i: usize = 0;
        loop
            invariant
                self.cum@ == old(self).cum@,
                self.seen@ == old(self).seen@,
                0 <= i <= self.cum@.len(),
                forall|j: int| 0 <= j < i ==> self.cum@[j].0 != id,
            ensures
                self.cum@ == old(self).cum@,
                self.seen@ == old(self).seen@,
                0 <= i <= self.cum@.len(),
                forall|j: int| 0 <= j < i ==> self.cum@[j].0 != id,
                i < self.cum@.len() ==> self.cum@[i as int].0 == id,
            decreases self.cum@.len() - i,
        {
            if i >= self.cum.len() {
                break ;
            }
            if self.cum[i].0 == id {
                break ;
            }
            i = i + 1;
        }
        proof {
            lemma_cum_index_is(self.cum@, id, i as int);
        }
        if i < self.cum.len() {
            self.cum[i] = (id, v);
        } else {
            self.cum.push((id, v));
        }
    }
}

} // verus!
