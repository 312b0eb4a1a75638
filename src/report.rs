//! Slicing the record log by time for reports.
use vstd::prelude::*;
use crate::book::trades_model;
use crate::collection::records_trade_map;
use crate::maps::{keys_of, PriceMap, TradeMap};
use crate::model::Record;
use vstd::string::StringExecFns;
use chrono::{FixedOffset, NaiveDateTime, TimeZone};

verus! {

/// A report's time range; times are nanoseconds since the Unix epoch.
#[derive(Clone, Copy, Debug, PartialEq, Eq, Structural)]
pub enum TimeRange {
    Range(i64, i64),
    UpToLastSince(i64),
    UpToNowSince(i64),
    UpTo(i64),
    UpToNow,
    UpToLast,
}

/// The instant, in nanoseconds since the Unix epoch, that a local time
/// written `yyyyMMddHHmm` denotes at a zone `offset_secs` east of UTC.
pub uninterp spec fn local_time_nanos(s: Seq<char>, offset_secs: i32) -> Option<i64>;

/// Relies on chrono's `NaiveDateTime::parse_from_str` with `%Y%m%d%H%M`,
/// `FixedOffset::east_opt`, `from_local_datetime` and `timestamp_nanos_opt`:
/// the instant of the local time, or none where the text does not parse, the
/// offset is out of range or the instant is not representable.
#[verifier::external_body]
fn parse_local_time(s: &str, offset_secs: i32) -> (r: Option<i64>)
    ensures
        r == local_time_nanos(s@, offset_secs),
{
    let naive = NaiveDateTime::parse_from_str(s, "%Y%m%d%H%M").ok()?;
    let zone = FixedOffset::east_opt(offset_secs)?;
    zone.from_local_datetime(&naive).single()?.timestamp_nanos_opt()
}

/// Why a report range cannot be read.
#[derive(Clone, Copy, Debug, PartialEq, Eq, Structural)]
pub enum TimeError {
    /// A time is not a valid `yyyyMMddHHmm` local time.
    Unparsable,
}

/// Whether an optional argument is the given word.
pub open spec fn is_word(a: Option<Seq<char>>, w: Seq<char>) -> bool {
    a == Some(w)
}

/// The instant of a local time argument.
pub open spec fn arg_time(a: Option<Seq<char>>, offset_secs: i32) -> Result<i64, TimeError> {
    match a {
        Some(s) => match local_time_nanos(s, offset_secs) {
            Some(t) => Ok(t),
            None => Err(TimeError::Unparsable),
        },
        None => Err(TimeError::Unparsable),
    }
}

/// The range that the words `[from <start>] [to (<end> | now)]` describe;
/// anything else is the whole log up to its last record.
pub open spec fn spec_time_range(
    a1: Option<Seq<char>>,
    a2: Option<Seq<char>>,
    a3: Option<Seq<char>>,
    a4: Option<Seq<char>>,
    offset_secs: i32,
) -> Result<TimeRange, TimeError> {
    if is_word(a1, "from"@) && a2 is Some && is_word(a3, "to"@) && is_word(a4, "now"@) {
        match arg_time(a2, offset_secs) {
            Ok(s) => Ok(TimeRange::UpToNowSince(s)),
            Err(e) => Err(e),
        }
    } else if is_word(a1, "from"@) && a2 is Some && is_word(a3, "to"@) && a4 is Some {
        match (arg_time(a2, offset_secs), arg_time(a4, offset_secs)) {
            (Ok(s), Ok(e)) => Ok(TimeRange::Range(s, e)),
            _ => Err(TimeError::Unparsable),
        }
    } else if is_word(a1, "to"@) && a2 is Some && is_word(a3, "from"@) && a4 is Some {
        match (arg_time(a4, offset_secs), arg_time(a2, offset_secs)) {
            (Ok(s), Ok(e)) => Ok(TimeRange::Range(s, e)),
            _ => Err(TimeError::Unparsable),
        }
    } else if is_word(a1, "from"@) && a2 is Some {
        match arg_time(a2, offset_secs) {
            Ok(s) => Ok(TimeRange::UpToLastSince(s)),
            Err(e) => Err(e),
        }
    } else if is_word(a1, "to"@) && is_word(a2, "now"@) {
        Ok(TimeRange::UpToNow)
    } else if is_word(a1, "to"@) && a2 is Some {
        match arg_time(a2, offset_secs) {
            Ok(e) => Ok(TimeRange::UpTo(e)),
            Err(e) => Err(e),
        }
    } else {
        Ok(TimeRange::UpToLast)
    }
}

/// The view of an optional argument.
pub open spec fn arg_view(a: Option<&str>) -> Option<Seq<char>> {
    match a {
        Some(s) => Some(s@),
        None => None,
    }
}

fn word_is(a: Option<&str>, w: &str) -> (r: bool)
    ensures
        r == is_word(arg_view(a), w@),
{
    match a {
        Some(s) => String::from_str(s) == String::from_str(w),
        None => false,
    }
}

fn time_arg(a: Option<&str>, offset_secs: i32) -> (r: Result<i64, TimeError>)
    ensures
        r == arg_time(arg_view(a), offset_secs),
{
    match a {
        Some(s) => match parse_local_time(s, offset_secs) {
            Some(t) => Ok(t),
            None => Err(TimeError::Unparsable),
        },
        None => Err(TimeError::Unparsable),
    }
}

impl TimeRange {
    /// Reads a report range from the words after `show report`:
    /// `[from <start>] [to (<end> | now)]`, with local times `yyyyMMddHHmm` in
    /// the zone `offset_secs` east of UTC. Words that fit no form give the
    /// whole log.
    pub fn new(
        arg1: Option<&str>,
        arg2: Option<&str>,
        arg3: Option<&str>,
        arg4: Option<&str>,
        offset_secs: i32,
    ) -> (r: Result<TimeRange, TimeError>)
        ensures
            r == spec_time_range(
                arg_view(arg1),
                arg_view(arg2),
                arg_view(arg3),
                arg_view(arg4),
                offset_secs,
            ),
    {
        let from1 = word_is(arg1, "from");
        let to1 = word_is(arg1, "to");
        let to3 = word_is(arg3, "to");
        let from3 = word_is(arg3, "from");
        let now4 = word_is(arg4, "now");
        let now2 = word_is(arg2, "now");
        if from1 && arg2.is_some() && to3 && now4 {
            let s = time_arg(arg2, offset_secs)?;
            Ok(TimeRange::UpToNowSince(s))
        } else if from1 && arg2.is_some() && to3 && arg4.is_some() {
            match (time_arg(arg2, offset_secs), time_arg(arg4, offset_secs)) {
                (Ok(s), Ok(e)) => Ok(TimeRange::Range(s, e)),
                _ => Err(TimeError::Unparsable),
            }
        } else if to1 && arg2.is_some() && from3 && arg4.is_some() {
            match (time_arg(arg4, offset_secs), time_arg(arg2, offset_secs)) {
                (Ok(s), Ok(e)) => Ok(TimeRange::Range(s, e)),
                _ => Err(TimeError::Unparsable),
            }
        } else if from1 && arg2.is_some() {
            let s = time_arg(arg2, offset_secs)?;
            Ok(TimeRange::UpToLastSince(s))
        } else if to1 && now2 {
            Ok(TimeRange::UpToNow)
        } else if to1 && arg2.is_some() {
            let e = time_arg(arg2, offset_secs)?;
            Ok(TimeRange::UpTo(e))
        } else {
            Ok(TimeRange::UpToLast)
        }
    }
}

/// The `(start, end)` of a range over a non-empty log: an open side runs to
/// the first or the last record.
pub open spec fn range_bounds(range: TimeRange, rs: Seq<Record>) -> (i64, i64) {
    match range {
        TimeRange::Range(s, e) => (s, e),
        TimeRange::UpToLastSince(s) => (s, rs.last().msg.time),
        TimeRange::UpToNowSince(s) => (s, rs.last().msg.time),
        TimeRange::UpTo(e) => (rs[0].msg.time, e),
        TimeRange::UpToNow => (rs[0].msg.time, rs.last().msg.time),
        TimeRange::UpToLast => (rs[0].msg.time, rs.last().msg.time),
    }
}

/// The records strictly before `t`, in log order.
pub open spec fn records_before(rs: Seq<Record>, t: i64) -> Seq<Record>
    decreases rs.len(),
{
    if rs.len() == 0 {
        Seq::empty()
    } else if rs.last().msg.time < t {
        records_before(rs.drop_last(), t).push(rs.last())
    } else {
        records_before(rs.drop_last(), t)
    }
}

/// The records at or before `t`, in log order.
pub open spec fn records_until(rs: Seq<Record>, t: i64) -> Seq<Record>
    decreases rs.len(),
{
    if rs.len() == 0 {
        Seq::empty()
    } else if rs.last().msg.time <= t {
        records_until(rs.drop_last(), t).push(rs.last())
    } else {
        records_until(rs.drop_last(), t)
    }
}

/// The times of a list of records.
pub open spec fn record_times(rs: Seq<Record>) -> Seq<i64> {
    rs.map_values(|r: Record| r.msg.time)
}

/// The same symbols, each with no trades.
pub open spec fn emptied(m: Seq<(Seq<char>, Seq<(i64, int)>)>) -> Seq<(Seq<char>, Seq<(i64, int)>)> {
    m.map_values(|e: (Seq<char>, Seq<(i64, int)>)| (e.0, Seq::<(i64, int)>::empty()))
}

/// The trade maps of a report: the trades before the start and the trades up
/// to the end, with the times of the trades in between.
pub struct RangeFilteredTradeMap {
    pub first_trade_time: i64,
    pub last_trade_time: i64,
    pub count: usize,
    pub i64_trade_map1: TradeMap<i64>,
    pub i64_trade_map2: TradeMap<i64>,
}

proof fn lemma_trade_map_nonempty(rs: Seq<Record>)
    ensures
        rs.len() > 0 ==> records_trade_map(rs).len() > 0,
{
    if rs.len() > 0 {
        let m = records_trade_map(rs.drop_last());
        crate::maps::lemma_find_sym(keys_of(m), rs.last().trade.symbol@);
    }
}

impl RangeFilteredTradeMap {
    /// Slices the log `records` by `range`. Map 1 holds the trades strictly
    /// before the start (or, where there are none, the symbols of map 2 with
    /// no trades); map 2 holds the trades up to the end. The times counted are
    /// those up to the end after the first `|map 1's records|`; where there are
    /// none, there is no report.
    pub fn new(range: &TimeRange, records: &[Record]) -> (r: Option<RangeFilteredTradeMap>)
        ensures
            records@.len() == 0 ==> r is None,
            records@.len() > 0 ==> ({
                let (start, end) = range_bounds(*range, records@);
                let before = records_before(records@, start);
                let until = records_until(records@, end);
                let times = record_times(until);
                let n1 = before.len();
                match r {
                    None => n1 >= times.len(),
                    Some(f) => {
                        &&& n1 < times.len()
                        &&& f.count == times.len() - n1
                        &&& f.first_trade_time == times[n1 as int]
                        &&& f.last_trade_time == times.last()
                        &&& f.i64_trade_map2.view_m() == records_trade_map(until)
                        &&& f.i64_trade_map1.view_m() == (if before.len() == 0 {
                            emptied(records_trade_map(until))
                        } else {
                            records_trade_map(before)
                        })
                        &&& f.i64_trade_map1.wf()
                        &&& f.i64_trade_map2.wf()
                    },
                }
            }),
    {
        if records.len() == 0 {
            return None;
        }
        let first = records[0].msg.time;
        let last = records[records.len() - 1].msg.time;
        let (start, end) = match *range {
            TimeRange::Range(s, e) => (s, e),
            TimeRange::UpToLastSince(s) => (s, last),
            TimeRange::UpToNowSince(s) => (s, last),
            TimeRange::UpTo(e) => (first, e),
            TimeRange::UpToNow => (first, last),
            TimeRange::UpToLast => (first, last),
        };
        let mut slice1_len: usize = 0;
        let mut time_vec: Vec<i64> = Vec::new();
        let mut map1: TradeMap<i64> = TradeMap::new();
        let mut map2: TradeMap<i64> = TradeMap::new();
        let mut i: usize = 0;
        while i < records.len()
            invariant
                i <= records.len(),
                map1.wf(),
                map2.wf(),
                slice1_len as int == records_before(records@.subrange(0, i as int), start).len(),
                slice1_len <= i,
                map1.view_m() == records_trade_map(
                    records_before(records@.subrange(0, i as int), start),
                ),
                map2.view_m() == records_trade_map(records_until(records@.subrange(0, i as int), end)),
                time_vec@ == record_times(records_until(records@.subrange(0, i as int), end)),
            decreases records.len() - i,
        {
            let ghost pre = records@.subrange(0, i as int);
            let ghost next = records@.subrange(0, i + 1);
            proof {
                assert(next.drop_last() =~= pre);
                assert(next.last() == records@[i as int]);
            }
            let r = &records[i];
            if r.msg.time < start {
                slice1_len = slice1_len + 1;
                map1.push_trade(&r.trade.symbol, r.trade.price, r.trade.qty);
                proof {
                    let b = records_before(pre, start);
                    assert(b.push(records@[i as int]).drop_last() =~= b);
                }
            }
            if r.msg.time <= end {
                time_vec.push(r.msg.time);
                map2.push_trade(&r.trade.symbol, r.trade.price, r.trade.qty);
                proof {
                    let u = records_until(pre, end);
                    assert(u.push(records@[i as int]).drop_last() =~= u);
                    assert(record_times(u.push(records@[i as int])) =~= record_times(u).push(
                        records@[i as int].msg.time,
                    ));
                }
            }
            i = i + 1;
        }
        proof {
            assert(records@.subrange(0, records.len() as int) =~= records@);
        }
        let ghost until = records_until(records@, end);
        proof {
            lemma_trade_map_nonempty(records_before(records@, start));
        }
        if map1.entries.len() == 0 {
            let ghost m2 = map2.view_m();
            let mut k: usize = 0;
            while k < map2.entries.len()
                invariant
                    k <= map2.entries.len(),
                    m2 == map2.view_m(),
                    map2.wf(),
                    map1.view_m() == emptied(m2.subrange(0, k as int)),
                decreases map2.entries.len() - k,
            {
                let v: Vec<(i64, i64)> = Vec::new();
                let ghost old1 = map1.view_m();
                map1.entries.push((map2.entries[k].0.clone(), v));
                proof {
                    assert(trades_model::<i64>(v@) =~= Seq::<(i64, int)>::empty());
                    assert(m2[k as int].0 == map2.entries@[k as int].0@);
                    assert(map1.view_m() =~= old1.push(
                        (m2[k as int].0, Seq::<(i64, int)>::empty()),
                    ));
                    assert(m2.subrange(0, k + 1).drop_last() =~= m2.subrange(0, k as int));
                    assert(map1.view_m() =~= emptied(m2.subrange(0, k + 1)));
                }
                k = k + 1;
            }
            proof {
                assert(m2.subrange(0, map2.entries.len() as int) =~= m2);
                assert(keys_of(map1.view_m()) =~= keys_of(m2));
            }
        }
        if slice1_len >= time_vec.len() {
            return None;
        }
        let count = time_vec.len() - slice1_len;
        Some(RangeFilteredTradeMap {
            first_trade_time: time_vec[slice1_len],
            last_trade_time: time_vec[time_vec.len() - 1],
            count,
            i64_trade_map1: map1,
            i64_trade_map2: map2,
        })
    }
}

/// The market prices fetched at one time.
pub struct MarketPrice {
    pub time: i64,
    pub market_price: PriceMap,
}

/// The symbols of the latest market prices, in order; none before any.
pub fn get_symbols(market_prices: &[MarketPrice]) -> (r: Vec<String>)
    ensures
        market_prices@.len() == 0 ==> r@.len() == 0,
        market_prices@.len() > 0 ==> {
            let last = market_prices@.last().market_price;
            &&& r@.len() == last.entries@.len()
            &&& forall|k: int| 0 <= k < r@.len() ==> #[trigger] r@[k] == last.entries@[k].0
        },
{
    if market_prices.len() == 0 {
        Vec::new()
    } else {
        market_prices[market_prices.len() - 1].market_price.symbols()
    }
}

/// The position of the first market price taken at time `t`, or -1.
pub open spec fn first_at(mps: Seq<MarketPrice>, t: i64) -> int
    decreases mps.len(),
{
    if mps.len() == 0 {
        -1
    } else if mps[0].time == t {
        0
    } else if first_at(mps.drop_first(), t) >= 0 {
        first_at(mps.drop_first(), t) + 1
    } else {
        -1
    }
}

proof fn lemma_first_at(mps: Seq<MarketPrice>, t: i64, i: int)
    requires
        0 <= i <= mps.len(),
        forall|j: int| 0 <= j < i ==> (#[trigger] mps[j]).time != t,
    ensures
        i < mps.len() && mps[i].time == t ==> first_at(mps, t) == i,
        i == mps.len() ==> first_at(mps, t) == -1,
    decreases i,
{
    if i > 0 {
        let rest = mps.drop_first();
        assert forall|j: int| 0 <= j < i - 1 implies (#[trigger] rest[j]).time != t by {
            assert(rest[j] == mps[j + 1]);
        }
        lemma_first_at(rest, t, i - 1);
    }
}

/// The prices of the first market price taken at time `t`.
fn prices_at(market_prices: &[MarketPrice], t: i64) -> (r: Option<PriceMap>)
    ensures
        match r {
            Some(p) => first_at(market_prices@, t) >= 0 && p.view()
                == market_prices@[first_at(market_prices@, t)].market_price.view(),
            None => first_at(market_prices@, t) == -1,
        },
{
    let mut i: usize = 0;
    while i < market_prices.len()
        invariant
            i <= market_prices@.len(),
            forall|j: int| 0 <= j < i ==> (#[trigger] market_prices@[j]).time != t,
        decreases market_prices.len() - i,
    {
        if market_prices[i].time == t {
            proof {
                lemma_first_at(market_prices@, t, i as int);
            }
            return Some(market_prices[i].market_price.duplicate());
        }
        i = i + 1;
    }
    proof {
        lemma_first_at(market_prices@, t, i as int);
    }
    None
}

/// Whether a range runs to the present.
pub open spec fn runs_to_now(range: TimeRange) -> bool {
    range is UpToNow || range is UpToNowSince
}

impl TimeRange {
    /// Whether the range runs to the present, so that its closing prices are
    /// fetched live.
    pub fn to_now(&self) -> (r: bool)
        ensures
            r == runs_to_now(*self),
    {
        match self {
            TimeRange::UpToNow => true,
            TimeRange::UpToNowSince(_) => true,
            _ => false,
        }
    }
}

/// The market prices of a report: at its first trade, and at its last trade
/// or, for a range that runs to the present, the live prices.
pub struct RangeFilteredPriceMap {
    pub market_time: i64,
    pub price_map1: PriceMap,
    pub price_map2: PriceMap,
}

impl RangeFilteredPriceMap {
    /// Picks a report's market prices from the recorded `market_prices`: those
    /// taken at the first trade's time, and those taken at the last trade's
    /// time, or `live` (the time and prices fetched now) for a range that runs
    /// to the present. `None` where one of them is missing.
    pub fn new(
        range: &TimeRange,
        market_prices: &[MarketPrice],
        rftm: &RangeFilteredTradeMap,
        live: Option<MarketPrice>,
    ) -> (r: Option<RangeFilteredPriceMap>)
        ensures
            ({
                let i1 = first_at(market_prices@, rftm.first_trade_time);
                let i2 = first_at(market_prices@, rftm.last_trade_time);
                match r {
                    Some(f) => {
                        &&& i1 >= 0
                        &&& f.price_map1.view() == market_prices@[i1].market_price.view()
                        &&& if runs_to_now(*range) {
                            live matches Some(l) && f.market_time == l.time
                                && f.price_map2.view() == l.market_price.view()
                        } else {
                            i2 >= 0 && f.market_time == rftm.last_trade_time
                                && f.price_map2.view() == market_prices@[i2].market_price.view()
                        }
                    },
                    None => i1 < 0 || (if runs_to_now(*range) {
                        live is None
                    } else {
                        i2 < 0
                    }),
                }
            }),
    {
        let price_map1 = match prices_at(market_prices, rftm.first_trade_time) {
            Some(p) => p,
            None => {
                return None;
            },
        };
        if range.to_now() {
            match live {
                Some(l) => Some(
                    RangeFilteredPriceMap {
                        market_time: l.time,
                        price_map1,
                        price_map2: l.market_price,
                    },
                ),
                None => None,
            }
        } else {
            match prices_at(market_prices, rftm.last_trade_time) {
                Some(p) => Some(
                    RangeFilteredPriceMap {
                        market_time: rftm.last_trade_time,
                        price_map1,
                        price_map2: p,
                    },
                ),
                None => None,
            }
        }
    }
}

} // verus!
