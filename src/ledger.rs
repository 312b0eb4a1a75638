//! What a new record or snapshot must hold, computed from the log: the hash it
//! chains to, the quantity it commits to, the P&L it publishes and, for a
//! snapshot, the records it covers and the portfolio it carries forward.
//! Commitments, serialization and signing of the result happen afterwards.
use vstd::prelude::*;
use crate::book::{
    all_priced, all_symbols_priced, calc_portfolio, calc_size, calc_total_pnl, inherit_portfolio, is_portfolio_of,
    spec_inherit, spec_size, spec_total_pnl,
};
use crate::collection::{get_i64_trade_map, records_trade_map};
use crate::digest::{is_lower_hex, sha256, sha256_hex, zwsp};
use crate::maps::{
    distinct_keys, find_sym, find_symbol, keys_of, lemma_find_sym, spec_append, string_keys, PortMap, PriceMap,
};
use crate::model::{Record, Snapshot, TradeType};
use crate::quantity::{fits_i64, ZKPNLCalculable};

verus! {

/// Why a record or snapshot cannot be made.
#[derive(Clone, Copy, Debug, PartialEq, Eq, Structural)]
pub enum LedgerError {
    /// A delivery for a symbol that has no position.
    NoPosition,
    /// A symbol of the book has no market price.
    MissingPrice,
    /// A sum or product left the signed 64-bit range.
    Overflow,
}

/// A text of lower-case hex digits holds no zero-width space.
pub proof fn lemma_hex_has_no_zwsp(s: Seq<char>)
    requires
        forall|i: int| 0 <= i < s.len() ==> is_lower_hex(#[trigger] s[i]),
    ensures
        !s.contains(zwsp()),
{
    if s.contains(zwsp()) {
        let i = choose|i: int| 0 <= i < s.len() && s[i] == zwsp();
        assert(is_lower_hex(s[i]));
    }
}

/// The parts of a new record that follow from the log.
pub struct RecordPlan {
    /// The hash that the record chains to.
    pub prev_hash: String,
    /// The quantity the record commits to.
    pub qty: i64,
    /// Fixed-point cumulative P&L after the record.
    pub pnl: i64,
}

/// The hash a new entry chains to: the last entry's hash, or the hash of the
/// transcript label for the first one.
pub open spec fn next_prev_hash(hashes: Seq<Seq<char>>, transcript: Seq<char>) -> Seq<char> {
    if hashes.len() == 0 {
        sha256_hex(transcript)
    } else {
        hashes.last()
    }
}

/// The quantity a record of `kind` commits to: the given one, or for a
/// delivery the negated size of the symbol's position.
pub open spec fn spec_record_qty(
    kind: TradeType,
    qty: i64,
    m: Seq<(Seq<char>, Seq<(i64, int)>)>,
    sym: Seq<char>,
) -> Result<int, LedgerError> {
    if kind == TradeType::Deliver {
        let i = find_sym(keys_of(m), sym);
        if i < 0 {
            Err(LedgerError::NoPosition)
        } else {
            match spec_size::<i64>(m[i].1) {
                Some(s) => if fits_i64(-s) {
                    Ok(-s)
                } else {
                    Err(LedgerError::Overflow)
                },
                None => Err(LedgerError::Overflow),
            }
        }
    } else {
        Ok(qty as int)
    }
}

/// The outcome of planning a record, as `(qty, pnl)`.
pub open spec fn spec_record_plan(
    kind: TradeType,
    qty: i64,
    price: i64,
    m: Seq<(Seq<char>, Seq<(i64, int)>)>,
    sym: Seq<char>,
    prices: Seq<(Seq<char>, i64)>,
) -> Result<(int, int), LedgerError> {
    match spec_record_qty(kind, qty, m, sym) {
        Err(e) => Err(e),
        Ok(q) => {
            let m2 = spec_append(m, sym, (price, q));
            if !all_priced(keys_of(m2), prices) {
                Err(LedgerError::MissingPrice)
            } else {
                match spec_total_pnl::<i64>(m2, prices) {
                    Some(p) => Ok((q, p)),
                    None => Err(LedgerError::Overflow),
                }
            }
        },
    }
}

/// The hashes of a list of records.
pub open spec fn record_hashes(rs: Seq<Record>) -> Seq<Seq<char>> {
    rs.map_values(|r: Record| r.hash@)
}

/// The hashes of a list of snapshots.
pub open spec fn snapshot_hashes(ss: Seq<Snapshot>) -> Seq<Seq<char>> {
    ss.map_values(|s: Snapshot| s.hash@)
}

impl Record {
    /// Plans a new record of `kind` for `symbol` at fixed-point `price`, after
    /// the log `records`: the hash it chains to, the quantity it commits to
    /// (for a delivery, the negated size of the open position), and the total
    /// P&L of the log with the new trade at the market prices `price_map`.
    pub fn plan(
        symbol: &String,
        qty: i64,
        price: i64,
        kind: TradeType,
        records: &[Record],
        price_map: &PriceMap,
        transcript: &str,
    ) -> (r: Result<RecordPlan, LedgerError>)
        ensures
            match r {
                Ok(p) => p.prev_hash@ == next_prev_hash(record_hashes(records@), transcript@)
                    && (records@.len() == 0 ==> !p.prev_hash@.contains(zwsp())) && spec_record_plan(
                    kind,
                    qty,
                    price,
                    records_trade_map(records@),
                    symbol@,
                    price_map.view(),
                ) == Ok::<(int, int), LedgerError>((p.qty as int, p.pnl as int)),
                Err(e) => spec_record_plan(
                    kind,
                    qty,
                    price,
                    records_trade_map(records@),
                    symbol@,
                    price_map.view(),
                ) == Err::<(int, int), LedgerError>(e),
            },
    {
        let ghost m = records_trade_map(records@);
        let prev_hash = if records.len() == 0 {
            sha256(transcript)
        } else {
            records[records.len() - 1].hash.clone()
        };
        proof {
            if records.len() > 0 {
                assert(record_hashes(records@).last() == records@.last().hash@);
            } else {
                lemma_hex_has_no_zwsp(prev_hash@);
            }
        }
        let mut trade_map = get_i64_trade_map(records);
        let qty = match kind {
            TradeType::Deliver => {
                proof {
                    assert(keys_of(m) =~= string_keys(trade_map.entries@));
                    lemma_find_sym(keys_of(m), symbol@);
                }
                match find_symbol(&trade_map.entries, symbol) {
                    None => {
                        return Err(LedgerError::NoPosition);
                    },
                    Some(i) => match calc_size(trade_map.entries[i].1.as_slice()) {
                        None => {
                            return Err(LedgerError::Overflow);
                        },
                        Some(s) => match s.neg() {
                            None => {
                                return Err(LedgerError::Overflow);
                            },
                            Some(q) => q,
                        },
                    },
                }
            },
            _ => qty,
        };
        trade_map.push_trade(symbol, price, qty);
        if !all_symbols_priced(&trade_map, price_map) {
            return Err(LedgerError::MissingPrice);
        }
        match calc_total_pnl(&trade_map, price_map) {
            Some(pnl) => Ok(RecordPlan { prev_hash, qty, pnl }),
            None => Err(LedgerError::Overflow),
        }
    }
}

/// The records that a snapshot after `prev_time` covers: those strictly later.
pub open spec fn records_after(rs: Seq<Record>, prev_time: Option<i64>) -> Seq<Record>
    decreases rs.len(),
{
    if rs.len() == 0 {
        Seq::empty()
    } else {
        let rest = records_after(rs.drop_last(), prev_time);
        match prev_time {
            Some(t) => if rs.last().msg.time > t {
                rest.push(rs.last())
            } else {
                rest
            },
            None => rest.push(rs.last()),
        }
    }
}

/// The parts of a new snapshot that follow from the log.
pub struct SnapshotPlan {
    /// The hash that the snapshot chains to.
    pub prev_hash: String,
    /// The records the snapshot covers.
    pub records: Vec<Record>,
    /// Each symbol's position after those records and the carried portfolio.
    pub portfolio: PortMap<i64>,
    /// Fixed-point P&L of the period at the market prices.
    pub pnl: i64,
}

/// The trade map of a snapshot period: the covered records' trades, then the
/// previous snapshot's positions as trades at its market prices.
pub open spec fn period_trade_map(
    records: Seq<Record>,
    album: Seq<Snapshot>,
) -> Seq<(Seq<char>, Seq<(i64, int)>)> {
    if album.len() == 0 {
        records_trade_map(records)
    } else {
        let prev = album.last().snapshot_blnd;
        spec_inherit::<i64>(records_trade_map(records), prev.portfolio.view_m(), prev.market_price.view())
    }
}

/// The time of the last snapshot, if any.
pub open spec fn last_time(album: Seq<Snapshot>) -> Option<i64> {
    if album.len() == 0 {
        None
    } else {
        Some(album.last().msg.time)
    }
}

/// The previous portfolio has a price for each of its symbols.
pub open spec fn carried_priced(album: Seq<Snapshot>) -> bool {
    album.len() > 0 ==> all_priced(
        keys_of(album.last().snapshot_blnd.portfolio.view_m()),
        album.last().snapshot_blnd.market_price.view(),
    )
}

impl Snapshot {
    /// Plans a new snapshot after the snapshots `album`: it covers the
    /// `records` later than the last snapshot, carries that snapshot's
    /// portfolio forward as trades at its market prices, and publishes the
    /// resulting portfolio and the period's P&L at the market prices
    /// `price_map`.
    pub fn plan(album: &[Snapshot], records: Vec<Record>, price_map: &PriceMap, transcript: &str) -> (r:
        Result<SnapshotPlan, LedgerError>)
        ensures
            match r {
                Ok(p) => {
                    let m = period_trade_map(p.records@, album@);
                    &&& p.prev_hash@ == next_prev_hash(snapshot_hashes(album@), transcript@)
                    &&& album@.len() == 0 ==> !p.prev_hash@.contains(zwsp())
                    &&& distinct_keys(keys_of(p.portfolio.view_m()))
                    &&& p.records@ == records_after(records@, last_time(album@))
                    &&& carried_priced(album@)
                    &&& is_portfolio_of::<i64>(p.portfolio.view_m(), m)
                    &&& all_priced(keys_of(m), price_map.view())
                    &&& spec_total_pnl::<i64>(m, price_map.view()) == Some(p.pnl as int)
                },
                Err(LedgerError::NoPosition) => false,
                Err(LedgerError::MissingPrice) => {
                    let m = period_trade_map(records_after(records@, last_time(album@)), album@);
                    !carried_priced(album@) || !all_priced(keys_of(m), price_map.view())
                },
                Err(LedgerError::Overflow) => {
                    let m = period_trade_map(records_after(records@, last_time(album@)), album@);
                    carried_priced(album@) && all_priced(keys_of(m), price_map.view()) && (
                    spec_total_pnl::<i64>(m, price_map.view()) is None || exists|i: int|
                        0 <= i < m.len() && (#[trigger] spec_size::<i64>(m[i].1)) is None)
                },
            },
    {
        let prev_hash = if album.len() == 0 {
            sha256(transcript)
        } else {
            album[album.len() - 1].hash.clone()
        };
        proof {
            if album.len() > 0 {
                assert(snapshot_hashes(album@).last() == album@.last().hash@);
            } else {
                lemma_hex_has_no_zwsp(prev_hash@);
            }
        }
        let prev_time: Option<i64> = if album.len() == 0 {
            None
        } else {
            Some(album[album.len() - 1].msg.time)
        };
        let ghost orig = records@;
        assert(orig.len() == records.len());
        let mut rest = records;
        let mut kept: Vec<Record> = Vec::new();
        let mut k: usize = 0;
        while rest.len() > 0
            invariant
                k <= orig.len(),
                orig.len() <= usize::MAX,
                rest@ == orig.subrange(k as int, orig.len() as int),
                kept@ == records_after(orig.subrange(0, k as int), prev_time),
                prev_time == last_time(album@),
            decreases rest.len(),
        {
            let r = rest.remove(0);
            proof {
                assert(orig.subrange(0, k + 1).drop_last() =~= orig.subrange(0, k as int));
                assert(orig[k as int] == r);
            }
            let keep = match prev_time {
                Some(t) => r.msg.time > t,
                None => true,
            };
            if keep {
                kept.push(r);
            }
            k = k + 1;
            proof {
                assert(rest@ =~= orig.subrange(k as int, orig.len() as int));
            }
        }
        proof {
            assert(orig.subrange(0, orig.len() as int) =~= orig);
        }
        let mut trade_map = get_i64_trade_map(kept.as_slice());
        if album.len() > 0 {
            let prev = &album[album.len() - 1].snapshot_blnd;
            if !inherit_portfolio(&prev.portfolio, &mut trade_map, &prev.market_price) {
                return Err(LedgerError::MissingPrice);
            }
        }
        if !all_symbols_priced(&trade_map, price_map) {
            return Err(LedgerError::MissingPrice);
        }
        let portfolio = match calc_portfolio(&trade_map) {
            Some(p) => p,
            None => {
                return Err(LedgerError::Overflow);
            },
        };
        proof {
            let m = trade_map.view_m();
            assert(keys_of(portfolio.view_m()) =~= keys_of(m)) by {
                assert forall|i: int| 0 <= i < m.len() implies keys_of(portfolio.view_m())[i]
                    == keys_of(m)[i] by {
                    assert(portfolio.view_m()[i].0 == m[i].0);
                }
            }
        }
        match calc_total_pnl(&trade_map, price_map) {
            Some(pnl) => Ok(SnapshotPlan { prev_hash, records: kept, portfolio, pnl }),
            None => Err(LedgerError::Overflow),
        }
    }
}

} // verus!
