//! General laws of the accounting algorithm and the replay engine, proved
//! once and for all inputs.

use vstd::prelude::*;

verus! {

use vstd::arithmetic::div_mod::{
    lemma_basic_div, lemma_div_denominator, lemma_div_multiples_vanish, lemma_fundamental_div_mod,
};
use vstd::arithmetic::mul::{
    lemma_mul_inequality, lemma_mul_is_commutative, lemma_mul_nonnegative,
};
use crate::ledger::{
    lemma_replay_skipped_bound, spec_apply, spec_average, spec_replay, Transaction,
};
use crate::report::{spec_compute, spec_decode, spec_ledger, spec_malformed_count, RawRecord};

/// The total number of shares bought by a transaction sequence.
pub open spec fn spec_total_quantity(txs: Seq<Transaction>) -> int
    decreases txs.len(),
{
    if txs.len() == 0 {
        0int
    } else {
        spec_total_quantity(txs.drop_last()) + txs.last().quantity
    }
}

/// The total money spent by a transaction sequence, in fixed-point units.
pub open spec fn spec_total_spent(txs: Seq<Transaction>) -> int
    decreases txs.len(),
{
    if txs.len() == 0 {
        0int
    } else {
        spec_total_spent(txs.drop_last()) + txs.last().price * txs.last().quantity
    }
}

/// Whether every transaction of a sequence is a purchase.
pub open spec fn all_buys(txs: Seq<Transaction>) -> bool {
    forall|i: int| 0 <= i < txs.len() ==> (#[trigger] txs[i].kind) is Buy
}

/// Buy-only average: replaying a sequence of purchases, none of which was
/// skipped, holds a quantity of all shares bought and a cost basis of all
/// money spent, so the average price is total spent over total bought,
/// truncated at the ledger's fixed scale.
pub proof fn lemma_buy_only_average(txs: Seq<Transaction>)
    requires
        all_buys(txs),
        spec_replay(txs).2 == 0,
    ensures
        spec_replay(txs).0 == spec_total_quantity(txs),
        spec_replay(txs).1 == spec_total_spent(txs),
        spec_average(spec_replay(txs).0, spec_replay(txs).1) == spec_average(
            spec_total_quantity(txs),
            spec_total_spent(txs),
        ),
    decreases txs.len(),
{
    if txs.len() > 0 {
        lemma_replay_skipped_bound(txs.drop_last());
        assert(all_buys(txs.drop_last())) by {
            assert(forall|i: int|
                0 <= i < txs.len() - 1 ==> txs.drop_last()[i] == #[trigger] txs[i]);
        }
        lemma_buy_only_average(txs.drop_last());
    }
}

/// Selling preserves the average: a sale of part of the position (leaving
/// at least one share) leaves the average price of the remaining shares
/// exactly as it was; only quantity and cost basis shrink.  Selling the
/// whole position instead drives the average to the defined zero, which
/// the full-liquidation law covers.
pub proof fn lemma_sell_preserves_average(qty: u64, cost: u128, t: Transaction)
    requires
        t.kind is Sell,
        t.quantity < qty,
        spec_apply(qty as int, cost as int, t) is Some,
    ensures
        ({
            let next = spec_apply(qty as int, cost as int, t)->0;
            spec_average(next.0, next.1) == spec_average(qty as int, cost as int)
        }),
{
    let n = qty as int;
    let q = t.quantity as int;
    let k = n - q;
    let c = cost as int;
    let scaled = c * k;
    lemma_mul_nonnegative(c, k);
    let next = spec_apply(n, c, t)->0;
    assert(next.0 == k && next.1 == scaled / n);
    if c == 0 {
        assert(scaled == 0);
        lemma_basic_div(0, n);
    } else {
        let c2 = scaled / n;
        if c2 == 0 {
            // the remaining cost rounds to zero, so the old average was
            // already below one fixed-point unit
            lemma_fundamental_div_mod(scaled, n);
            vstd::arithmetic::div_mod::lemma_mod_bound(scaled, n);
            assert(scaled < n);
            lemma_mul_inequality(1, k, c);
            lemma_mul_is_commutative(k, c);
            assert(c <= scaled);
            lemma_basic_div(c, n);
            assert(c / n == 0);
        } else {
            // (c * k) / n / k == (c * k) / (n * k) == (c * k) / (k * n)
            // == ((c * k) / k) / n == c / n
            lemma_div_denominator(scaled, n, k);
            lemma_div_denominator(scaled, k, n);
            lemma_mul_is_commutative(n, k);
            lemma_mul_is_commutative(c, k);
            lemma_div_multiples_vanish(c, k);
            assert(scaled / k == c);
            assert(c2 / k == c / n);
        }
    }
}

/// Full liquidation: selling exactly the held quantity always applies, and
/// drives both the cost basis and the average price to zero.
pub proof fn lemma_full_liquidation(qty: u64, cost: u128, t: Transaction)
    requires
        t.kind is Sell,
        t.quantity == qty,
        qty >= 1,
    ensures
        spec_apply(qty as int, cost as int, t) is Some,
        spec_apply(qty as int, cost as int, t)->0 == (0int, 0int),
        spec_average(0, 0) == 0,
{
    assert(cost * (qty - t.quantity) == 0);
    lemma_basic_div(0, qty as int);
}

proof fn lemma_ledger_ignores_late_record(records: Seq<RawRecord>, i: int, r: RawRecord, until: i64)
    requires
        0 <= i <= records.len(),
        spec_decode(r) is Ok,
        (spec_decode(r)->Ok_0).date > until,
    ensures
        spec_ledger(records.insert(i, r), until) == spec_ledger(records, until),
        spec_malformed_count(records.insert(i, r)) == spec_malformed_count(records),
    decreases records.len(),
{
    let s2 = records.insert(i, r);
    if i == records.len() {
        assert(s2.drop_last() =~= records);
        assert(s2.last() == r);
    } else {
        assert(s2.last() == records.last());
        assert(s2.drop_last() =~= records.drop_last().insert(i, r));
        lemma_ledger_ignores_late_record(records.drop_last(), i, r, until);
    }
}

/// Cutoff filtering: a record that decodes to a transaction dated after
/// the cutoff never influences the computed position, wherever the store
/// returns it in the sequence — neither the figures nor the skip count
/// change.
pub proof fn lemma_cutoff_filtering(records: Seq<RawRecord>, i: int, r: RawRecord, until: i64)
    requires
        0 <= i <= records.len(),
        spec_decode(r) is Ok,
        (spec_decode(r)->Ok_0).date > until,
    ensures
        spec_compute(records.insert(i, r), until) == spec_compute(records, until),
{
    lemma_ledger_ignores_late_record(records, i, r, until);
}

/// Idempotent read: the computed position is a function of the stored
/// records and the cutoff alone, so two computations over the same inputs
/// agree in every component.
pub proof fn lemma_idempotent_read(
    records: Seq<RawRecord>,
    until: i64,
    first: (int, int, int, int),
    second: (int, int, int, int),
)
    requires
        first == spec_compute(records, until),
        second == spec_compute(records, until),
    ensures
        first == second,
{
}

} // verus!
