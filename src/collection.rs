//! Trade maps built from records, in the order of the log.
use vstd::prelude::*;
use crate::maps::{TradeMap, spec_append};
use crate::model::Record;

verus! {

/// The plaintext trade map of a list of records: each record's
/// `(price, qty)` appended to its symbol's list, in log order.
pub open spec fn records_trade_map(rs: Seq<Record>) -> Seq<(Seq<char>, Seq<(i64, int)>)>
    decreases rs.len(),
{
    if rs.len() == 0 {
        Seq::empty()
    } else {
        let r = rs.last();
        spec_append(
            records_trade_map(rs.drop_last()),
            r.trade.symbol@,
            (r.trade.price, r.trade.qty as int),
        )
    }
}

/// Groups the records' plaintext trades by symbol.
pub fn get_i64_trade_map(records: &[Record]) -> (r: TradeMap<i64>)
    ensures
        r.view_m() == records_trade_map(records@),
        r.wf(),
{
    let mut m: TradeMap<i64> = TradeMap::new();
    let mut i: usize = 0;
    while i < records.len()
        invariant
            i <= records.len(),
            m.wf(),
            m.view_m() == records_trade_map(records@.subrange(0, i as int)),
        decreases records.len() - i,
    {
        proof {
            assert(records@.subrange(0, i + 1).drop_last() =~= records@.subrange(0, i as int));
        }
        let t = &records[i].trade;
        m.push_trade(&t.symbol, t.price, t.qty);
        i = i + 1;
    }
    proof {
        assert(records@.subrange(0, records.len() as int) =~= records@);
    }
    m
}

} // verus!
