//! The position accounting algorithm and the ledger replay engine.
//!
//! A position is reconstructed by folding the ticker's transactions, in
//! chronological order, through the moving-average cost transition: a buy
//! adds `price * quantity` to the cost basis, a sell removes shares at the
//! pre-sale average so that the average price of the remaining shares is
//! unchanged.  Oversells (selling more than is held) are rejected rather
//! than opening a short position; a rejected or malformed record is skipped
//! and counted, never silently folded in.

use vstd::prelude::*;

verus! {

/// Whether a transaction is a purchase or a sale.
#[derive(Clone, Copy, PartialEq, Eq, Structural, Debug)]
pub enum OperationKind {
    Buy,
    Sell,
}

/// One immutable trade record, already validated.
///
/// `price` is a per-share price in fixed-point units (see
/// [`crate::PRICE_SCALE`]); `date` is a timestamp in milliseconds since the
/// Unix epoch.  A well-formed transaction has a strictly positive quantity.
#[derive(Clone, Copy, PartialEq, Eq, Structural, Debug)]
pub struct Transaction {
    pub kind: OperationKind,
    pub quantity: u64,
    pub price: u64,
    pub date: i64,
}

/// A well-formed transaction: share counts are strictly positive; the sign
/// of the effect comes from `kind`, never from the stored quantity.
pub open spec fn tx_wf(t: Transaction) -> bool {
    t.quantity >= 1
}

/// The moving-average cost transition for one transaction.
///
/// The state is the pair (net quantity held, cost basis in fixed-point
/// units).  `None` means the transaction cannot be applied: it would
/// oversell the position or push a running total past its machine range.
pub open spec fn spec_apply(qty: int, cost: int, t: Transaction) -> Option<(int, int)> {
    match t.kind {
        OperationKind::Buy => {
            if qty + t.quantity <= u64::MAX && cost + t.price * t.quantity <= u128::MAX {
                Some((qty + t.quantity, cost + t.price * t.quantity))
            } else {
                None
            }
        },
        OperationKind::Sell => {
            if qty == 0 || t.quantity > qty {
                None
            } else if cost * (qty - t.quantity) > u128::MAX {
                None
            } else {
                Some((qty - t.quantity, (cost * (qty - t.quantity)) / qty))
            }
        },
    }
}

/// Applies one transaction to a position state.
///
/// A buy adds `price * quantity` to the cost basis; a sell of `q` out of
/// `n` held shares keeps `cost * (n - q) / n`, i.e. it removes the sold
/// shares at the pre-sale average price.  Returns `None` exactly when the
/// transaction oversells the position or a running total would overflow.
pub fn apply_operation(qty: u64, cost: u128, t: &Transaction) -> (r: Option<(u64, u128)>)
    ensures
        match (r, spec_apply(qty as int, cost as int, *t)) {
            (Some(e), Some(s)) => e.0 == s.0 && e.1 == s.1,
            (None, None) => true,
            _ => false,
        },
{
    match t.kind {
        OperationKind::Buy => {
            let new_qty = match qty.checked_add(t.quantity) {
                Some(q) => q,
                None => {
                    return None;
                },
            };
            proof {
                assert((t.price as int) * (t.quantity as int) <= u128::MAX) by (nonlinear_arith)
                    requires
                        t.price <= u64::MAX,
                        t.quantity <= u64::MAX,
                ;
            }
            let spent: u128 = (t.price as u128) * (t.quantity as u128);
            let new_cost = match cost.checked_add(spent) {
                Some(c) => c,
                None => {
                    return None;
                },
            };
            Some((new_qty, new_cost))
        },
        OperationKind::Sell => {
            if qty == 0 || t.quantity > qty {
                return None;
            }
            let remaining = qty - t.quantity;
            let scaled = match cost.checked_mul(remaining as u128) {
                Some(s) => s,
                None => {
                    return None;
                },
            };
            Some((remaining, scaled / (qty as u128)))
        },
    }
}

/// The replay fold over a chronologically ordered transaction sequence,
/// starting from the zero position.  Returns (quantity, cost basis, number
/// of transactions that could not be applied and were skipped).
pub open spec fn spec_replay(txs: Seq<Transaction>) -> (int, int, int)
    decreases txs.len(),
{
    if txs.len() == 0 {
        (0, 0, 0)
    } else {
        let prev = spec_replay(txs.drop_last());
        match spec_apply(prev.0, prev.1, txs.last()) {
            Some(next) => (next.0, next.1, prev.2),
            None => (prev.0, prev.1, prev.2 + 1),
        }
    }
}

/// Replays a transaction sequence in the order given, skipping (and
/// counting) every transaction that cannot be applied.
pub fn replay(txs: &Vec<Transaction>) -> (r: (u64, u128, usize))
    ensures
        r.0 == spec_replay(txs@).0,
        r.1 == spec_replay(txs@).1,
        r.2 == spec_replay(txs@).2,
{
    let mut qty: u64 = 0;
    let mut cost: u128 = 0;
    let mut skipped: usize = 0;
    let mut i: usize = 0;
    while i < txs.len()
        invariant
            i <= txs.len(),
            skipped <= i,
            qty == spec_replay(txs@.subrange(0, i as int)).0,
            cost == spec_replay(txs@.subrange(0, i as int)).1,
            skipped == spec_replay(txs@.subrange(0, i as int)).2,
        decreases txs.len() - i,
    {
        proof {
            assert(txs@.subrange(0, i + 1).drop_last() =~= txs@.subrange(0, i as int));
            assert(txs@.subrange(0, i + 1).last() == txs@[i as int]);
        }
        match apply_operation(qty, cost, &txs[i]) {
            Some(next) => {
                qty = next.0;
                cost = next.1;
            },
            None => {
                skipped = skipped + 1;
            },
        }
        i = i + 1;
    }
    proof {
        assert(txs@.subrange(0, txs@.len() as int) =~= txs@);
    }
    (qty, cost, skipped)
}

/// No replay skips a transaction it never saw: the skip count is bounded
/// by the length of the replayed sequence.
pub proof fn lemma_replay_skipped_bound(txs: Seq<Transaction>)
    ensures
        0 <= spec_replay(txs).2 <= txs.len(),
    decreases txs.len(),
{
    if txs.len() > 0 {
        lemma_replay_skipped_bound(txs.drop_last());
    }
}

/// The average acquisition price of a position, in fixed-point units:
/// `cost / quantity`, truncated to the ledger's scale, with a defined zero
/// when the position is empty or the cost basis is zero.
pub open spec fn spec_average(qty: int, cost: int) -> int {
    if qty == 0 || cost == 0 {
        0
    } else {
        cost / qty
    }
}

/// Computes the average price of a position state.
pub fn position_average(qty: u64, cost: u128) -> (r: u128)
    ensures
        r == spec_average(qty as int, cost as int),
{
    if qty == 0 || cost == 0 {
        0
    } else {
        cost / (qty as u128)
    }
}

/// Inserts a transaction into a sequence directly after every entry whose
/// date is at or before its own, so that replay order is deterministic:
/// ascending by date, with equal dates kept in insertion order.
pub open spec fn insert_ordered(s: Seq<Transaction>, t: Transaction) -> Seq<Transaction>
    decreases s.len(),
{
    if s.len() == 0 {
        seq![t]
    } else if s.last().date <= t.date {
        s.push(t)
    } else {
        insert_ordered(s.drop_last(), t).push(s.last())
    }
}

/// Insertion sort of a transaction sequence by date, stable: transactions
/// with equal dates stay in the order they were handed over.
pub open spec fn spec_sort_by_date(s: Seq<Transaction>) -> Seq<Transaction>
    decreases s.len(),
{
    if s.len() == 0 {
        Seq::empty()
    } else {
        insert_ordered(spec_sort_by_date(s.drop_last()), s.last())
    }
}

/// Chronological order: dates never decrease along the sequence.
pub open spec fn date_sorted(s: Seq<Transaction>) -> bool {
    forall|i: int, j: int| 0 <= i < j < s.len() ==> s[i].date <= s[j].date
}

proof fn lemma_insert_ordered_permutes(s: Seq<Transaction>, t: Transaction)
    ensures
        insert_ordered(s, t).to_multiset() =~= s.to_multiset().insert(t),
    decreases s.len(),
{
    broadcast use vstd::seq_lib::group_to_multiset_ensures;

    if s.len() == 0 {
        assert(seq![t] =~= Seq::<Transaction>::empty().push(t));
    } else if s.last().date <= t.date {
    } else {
        lemma_insert_ordered_permutes(s.drop_last(), t);
        assert(s =~= s.drop_last().push(s.last()));
        assert(s.drop_last().to_multiset().insert(t).insert(s.last()) =~= s.drop_last()
            .to_multiset().insert(s.last()).insert(t));
    }
}

proof fn lemma_insert_ordered_sorted(s: Seq<Transaction>, t: Transaction)
    requires
        date_sorted(s),
    ensures
        date_sorted(insert_ordered(s, t)),
    decreases s.len(),
{
    broadcast use vstd::seq_lib::group_to_multiset_ensures;

    if s.len() == 0 {
    } else if s.last().date <= t.date {
        let r = s.push(t);
        assert forall|i: int, j: int| 0 <= i < j < r.len() implies r[i].date <= r[j].date by {
            if j == r.len() - 1 && i < s.len() - 1 {
                assert(s[i].date <= s[s.len() - 1].date);
            }
        }
    } else {
        lemma_insert_ordered_sorted(s.drop_last(), t);
        lemma_insert_ordered_permutes(s.drop_last(), t);
        let r0 = insert_ordered(s.drop_last(), t);
        assert forall|i: int| 0 <= i < r0.len() implies r0[i].date <= s.last().date by {
            assert(r0.contains(r0[i]));
            assert(r0.to_multiset().count(r0[i]) > 0);
            if r0[i] != t {
                assert(s.drop_last().to_multiset().count(r0[i]) > 0);
                assert(s.drop_last().contains(r0[i]));
                let m = choose|m: int|
                    0 <= m < s.drop_last().len() && s.drop_last()[m] == r0[i];
                assert(s[m].date <= s.last().date);
            }
        }
        let r = r0.push(s.last());
        assert forall|i: int, j: int| 0 <= i < j < r.len() implies r[i].date <= r[j].date by {
            if j < r0.len() {
                assert(r0[i].date <= r0[j].date);
            } else {
                assert(r0[i].date <= s.last().date);
            }
        }
    }
}

/// The replay order is sound: sorting yields a chronologically ordered
/// sequence holding exactly the transactions that were handed over.
pub proof fn lemma_sort_by_date_ensures(s: Seq<Transaction>)
    ensures
        date_sorted(spec_sort_by_date(s)),
        spec_sort_by_date(s).to_multiset() =~= s.to_multiset(),
    decreases s.len(),
{
    broadcast use vstd::seq_lib::group_to_multiset_ensures;

    if s.len() > 0 {
        lemma_sort_by_date_ensures(s.drop_last());
        lemma_insert_ordered_sorted(spec_sort_by_date(s.drop_last()), s.last());
        lemma_insert_ordered_permutes(spec_sort_by_date(s.drop_last()), s.last());
        assert(s =~= s.drop_last().push(s.last()));
    }
}

proof fn lemma_insert_ordered_at(s: Seq<Transaction>, t: Transaction, j: int)
    requires
        0 <= j <= s.len(),
        forall|m: int| j <= m < s.len() ==> s[m].date > t.date,
        j > 0 ==> s[j - 1].date <= t.date,
    ensures
        insert_ordered(s, t) =~= s.subrange(0, j) + seq![t] + s.subrange(j, s.len() as int),
    decreases s.len(),
{
    if j == s.len() {
        if s.len() == 0 {
        } else {
            assert(s.last().date <= t.date);
            assert(s.push(t) =~= s.subrange(0, j) + seq![t] + s.subrange(j, s.len() as int));
        }
    } else {
        assert(s[s.len() - 1].date > t.date);
        lemma_insert_ordered_at(s.drop_last(), t, j);
        assert(s.drop_last().subrange(0, j) =~= s.subrange(0, j));
        assert(s.drop_last().subrange(j, s.len() - 1) =~= s.subrange(j, s.len() - 1));
        assert(insert_ordered(s.drop_last(), t).push(s.last()) =~= s.subrange(0, j) + seq![t]
            + s.subrange(j, s.len() as int));
    }
}

/// Sorts transactions by date, ascending, with a deterministic tie-break:
/// transactions carrying the same date keep their relative input order
/// (stable insertion order, the rule this ledger fixes for replay).
pub fn sort_by_date(txs: &Vec<Transaction>) -> (r: Vec<Transaction>)
    ensures
        r@ == spec_sort_by_date(txs@),
{
    let mut out: Vec<Transaction> = Vec::new();
    let mut i: usize = 0;
    while i < txs.len()
        invariant
            i <= txs.len(),
            out@ == spec_sort_by_date(txs@.subrange(0, i as int)),
        decreases txs.len() - i,
    {
        let t = txs[i];
        let mut j: usize = out.len();
        while j > 0 && out[j - 1].date > t.date
            invariant
                j <= out.len(),
                forall|m: int| j <= m < out@.len() ==> out@[m].date > t.date,
            decreases j,
        {
            j = j - 1;
        }
        proof {
            lemma_insert_ordered_at(out@, t, j as int);
            assert(txs@.subrange(0, i + 1).drop_last() =~= txs@.subrange(0, i as int));
            assert(txs@.subrange(0, i + 1).last() == txs@[i as int]);
        }
        out.insert(j, t);
        proof {
            assert(out@ =~= spec_sort_by_date(txs@.subrange(0, i + 1)));
        }
        i = i + 1;
    }
    proof {
        assert(txs@.subrange(0, txs@.len() as int) =~= txs@);
    }
    out
}

} // verus!
