//! The query layer: decoding stored records, replaying a ticker's ledger up
//! to a cutoff date, and reporting average prices.
//!
//! The store hands back raw records whose fields may be absent or invalid;
//! a record that cannot be decoded is skipped and counted rather than
//! aborting the whole replay, and the count is reported beside the position
//! so a caller can see that the ledger held anomalies.

use vstd::prelude::*;

verus! {

use crate::ledger::{
    lemma_replay_skipped_bound, position_average, replay, sort_by_date, spec_average,
    spec_replay, spec_sort_by_date, insert_ordered, tx_wf, OperationKind, Transaction,
};
use crate::text::{ascii_lower, chars_eq_str, chars_of, lower_chars};

/// Why a stored record could not be turned into a transaction.
#[derive(Clone, Copy, PartialEq, Eq, Structural, Debug)]
pub enum IntegrityError {
    /// A required field (kind, quantity, price or date) is absent.
    MissingField,
    /// The kind field is neither a buy nor a sell, in any letter case.
    UnknownKind,
    /// The stored share count is zero or negative.
    NonPositiveQuantity,
}

/// One record as the store returns it: every field may be missing.
///
/// `price` is already in fixed-point units and `date` in milliseconds since
/// the Unix epoch; a field the store held in an unusable form arrives here
/// as `None`.
#[derive(Debug)]
pub struct RawRecord {
    pub kind: Option<String>,
    pub quantity: Option<i64>,
    pub price: Option<u64>,
    pub date: Option<i64>,
}

/// The decoded meaning of a raw record: missing fields are reported first,
/// then an unrecognized kind, then a non-positive share count.  The kind
/// field is matched ignoring ASCII letter case.
pub open spec fn spec_decode(r: RawRecord) -> Result<Transaction, IntegrityError> {
    match (r.kind, r.quantity, r.price, r.date) {
        (Some(k), Some(q), Some(p), Some(d)) => {
            let low = ascii_lower(k@);
            if low == seq!['b', 'u', 'y'] {
                if q < 1 {
                    Err(IntegrityError::NonPositiveQuantity)
                } else {
                    Ok(Transaction { kind: OperationKind::Buy, quantity: q as u64, price: p, date: d })
                }
            } else if low == seq!['s', 'e', 'l', 'l'] {
                if q < 1 {
                    Err(IntegrityError::NonPositiveQuantity)
                } else {
                    Ok(Transaction { kind: OperationKind::Sell, quantity: q as u64, price: p, date: d })
                }
            } else {
                Err(IntegrityError::UnknownKind)
            }
        },
        _ => Err(IntegrityError::MissingField),
    }
}

/// Decodes one stored record, or says exactly why it is anomalous.  Every
/// transaction that comes out is well-formed.
pub fn decode_record(r: &RawRecord) -> (res: Result<Transaction, IntegrityError>)
    ensures
        res == spec_decode(*r),
        res is Ok ==> tx_wf(res->Ok_0),
{
    let k = match &r.kind {
        Some(k) => k,
        None => {
            return Err(IntegrityError::MissingField);
        },
    };
    let q = match r.quantity {
        Some(q) => q,
        None => {
            return Err(IntegrityError::MissingField);
        },
    };
    let p = match r.price {
        Some(p) => p,
        None => {
            return Err(IntegrityError::MissingField);
        },
    };
    let d = match r.date {
        Some(d) => d,
        None => {
            return Err(IntegrityError::MissingField);
        },
    };
    let kc = chars_of(k.as_str());
    let low = lower_chars(&kc);
    proof {
        reveal_strlit("buy");
        reveal_strlit("sell");
        assert("buy"@ =~= seq!['b', 'u', 'y']);
        assert("sell"@ =~= seq!['s', 'e', 'l', 'l']);
    }
    let kind = if chars_eq_str(&low, "buy") {
        OperationKind::Buy
    } else if chars_eq_str(&low, "sell") {
        OperationKind::Sell
    } else {
        return Err(IntegrityError::UnknownKind);
    };
    if q < 1 {
        return Err(IntegrityError::NonPositiveQuantity);
    }
    Ok(Transaction { kind, quantity: q as u64, price: p, date: d })
}

/// The transactions a replay up to `until` folds over: the records that
/// decode, with a timestamp at or before the cutoff, in stored order.
pub open spec fn spec_ledger(records: Seq<RawRecord>, until: i64) -> Seq<Transaction>
    decreases records.len(),
{
    if records.len() == 0 {
        Seq::empty()
    } else {
        let rest = spec_ledger(records.drop_last(), until);
        match spec_decode(records.last()) {
            Ok(t) => if t.date <= until {
                rest.push(t)
            } else {
                rest
            },
            Err(_) => rest,
        }
    }
}

/// How many records of a stored sequence fail to decode.
pub open spec fn spec_malformed_count(records: Seq<RawRecord>) -> int
    decreases records.len(),
{
    if records.len() == 0 {
        0int
    } else {
        spec_malformed_count(records.drop_last()) + if spec_decode(records.last()) is Err {
            1int
        } else {
            0int
        }
    }
}

/// The full point-in-time computation: decode, keep what is at or before
/// the cutoff, sort chronologically (stable), replay, and average.
/// Returns (quantity, cost value, average price, skipped record count).
pub open spec fn spec_compute(records: Seq<RawRecord>, until: i64) -> (int, int, int, int) {
    let txs = spec_sort_by_date(spec_ledger(records, until));
    let folded = spec_replay(txs);
    (
        folded.0,
        folded.1,
        spec_average(folded.0, folded.1),
        spec_malformed_count(records) + folded.2,
    )
}

/// A derived point-in-time position: never persisted, recomputed from the
/// stored records on every query.
#[derive(Debug)]
pub struct Position {
    pub ticker: String,
    pub quantity: u64,
    pub cost_value: u128,
    pub average_price: u128,
}

/// A computed position together with the number of stored records that had
/// to be skipped (malformed, overselling, or out of machine range): a
/// non-zero count warns that the reported figures rest on a partial ledger.
#[derive(Debug)]
pub struct PositionReport {
    pub position: Position,
    pub skipped: usize,
}

proof fn lemma_insert_ordered_len(s: Seq<Transaction>, t: Transaction)
    ensures
        insert_ordered(s, t).len() == s.len() + 1,
    decreases s.len(),
{
    if s.len() > 0 && s.last().date > t.date {
        lemma_insert_ordered_len(s.drop_last(), t);
    }
}

proof fn lemma_sort_len(s: Seq<Transaction>)
    ensures
        spec_sort_by_date(s).len() == s.len(),
    decreases s.len(),
{
    if s.len() > 0 {
        lemma_sort_len(s.drop_last());
        lemma_insert_ordered_len(spec_sort_by_date(s.drop_last()), s.last());
    }
}

/// Reconstructs the position of `ticker` as of the inclusive cutoff
/// `until`, from the ticker's stored records, by deterministic replay:
/// records are decoded, those dated after the cutoff are left out, the
/// rest are replayed in date order (ties keep stored order) from the zero
/// position.  The report also counts every skipped record.
pub fn calculate_position(ticker: String, records: &Vec<RawRecord>, until: i64) -> (r:
    PositionReport)
    ensures
        r.position.ticker == ticker,
        r.position.quantity == spec_compute(records@, until).0,
        r.position.cost_value == spec_compute(records@, until).1,
        r.position.average_price == spec_compute(records@, until).2,
        r.skipped == spec_compute(records@, until).3,
{
    let mut txs: Vec<Transaction> = Vec::new();
    let mut malformed: usize = 0;
    let mut i: usize = 0;
    while i < records.len()
        invariant
            i <= records.len(),
            txs@ == spec_ledger(records@.subrange(0, i as int), until),
            malformed == spec_malformed_count(records@.subrange(0, i as int)),
            malformed + txs@.len() <= i,
        decreases records.len() - i,
    {
        proof {
            assert(records@.subrange(0, i + 1).drop_last() =~= records@.subrange(0, i as int));
            assert(records@.subrange(0, i + 1).last() == records@[i as int]);
        }
        match decode_record(&records[i]) {
            Ok(t) => {
                if t.date <= until {
                    txs.push(t);
                }
            },
            Err(_) => {
                malformed = malformed + 1;
            },
        }
        i = i + 1;
    }
    proof {
        assert(records@.subrange(0, records@.len() as int) =~= records@);
    }
    let sorted = sort_by_date(&txs);
    proof {
        lemma_sort_len(txs@);
        lemma_replay_skipped_bound(sorted@);
    }
    let folded = replay(&sorted);
    let avg = position_average(folded.0, folded.1);
    PositionReport {
        position: Position {
            ticker,
            quantity: folded.0,
            cost_value: folded.1,
            average_price: avg,
        },
        skipped: malformed + folded.2,
    }
}

/// The average acquisition price of a ticker's ledger as of the inclusive
/// cutoff `until`, in fixed-point units.
pub fn average_price(records: &Vec<RawRecord>, until: i64) -> (r: u128)
    ensures
        r == spec_compute(records@, until).2,
{
    let report = calculate_position(String::new(), records, until);
    report.position.average_price
}

/// The average price of every discovered ticker, one ledger each, in the
/// order the store discovered them.
pub fn average_prices(ledgers: &Vec<(String, Vec<RawRecord>)>, until: i64) -> (r: Vec<
    (String, u128)>)
    ensures
        r@.len() == ledgers@.len(),
        forall|i: int| 0 <= i < r@.len() ==> #[trigger] r@[i].0 == ledgers@[i].0,
        forall|i: int|
            0 <= i < r@.len() ==> #[trigger] r@[i].1 == spec_compute(ledgers@[i].1@, until).2,
{
    let mut out: Vec<(String, u128)> = Vec::new();
    let mut i: usize = 0;
    while i < ledgers.len()
        invariant
            i <= ledgers.len(),
            out@.len() == i,
            forall|m: int| 0 <= m < i ==> #[trigger] out@[m].0 == ledgers@[m].0,
            forall|m: int|
                0 <= m < i ==> #[trigger] out@[m].1 == spec_compute(ledgers@[m].1@, until).2,
        decreases ledgers.len() - i,
    {
        let name = ledgers[i].0.clone();
        let avg = average_price(&ledgers[i].1, until);
        out.push((name, avg));
        i = i + 1;
    }
    out
}

} // verus!
