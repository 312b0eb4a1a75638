use zkpnl::model::{Record, Trade, TradeMsg, TradeType};
use zkpnl::maps::PriceMap;
use zkpnl::report::{get_symbols, MarketPrice, RangeFilteredPriceMap, RangeFilteredTradeMap, TimeError, TimeRange};

fn rec(time: i64, symbol: &str, qty: i64) -> Record {
    Record {
        hash: String::new(),
        sig: String::new(),
        msg: TradeMsg {
            time,
            kind: TradeType::Trade,
            prev_hash: String::new(),
            symbol: symbol.to_string(),
            price: 10,
            qty: String::new(),
            pnl: String::new(),
        },
        msg_json: String::new(),
        trade: Trade {
            time,
            kind: TradeType::Trade,
            symbol: symbol.to_string(),
            price: 10,
            qty,
            qty_blnd: String::new(),
            pnl: 0,
            pnl_blnd: String::new(),
        },
    }
}

fn log() -> Vec<Record> {
    vec![rec(10, "A", 1), rec(20, "B", 2), rec(30, "A", 3), rec(40, "B", 4)]
}

#[test]
fn range_splits_before_and_until() {
    let f = RangeFilteredTradeMap::new(&TimeRange::Range(20, 30), &log()).unwrap();
    assert_eq!(f.count, 2);
    assert_eq!(f.first_trade_time, 20);
    assert_eq!(f.last_trade_time, 30);
    assert_eq!(f.i64_trade_map1.entries, vec![("A".to_string(), vec![(10i64, 1i64)])]);
    assert_eq!(
        f.i64_trade_map2.entries,
        vec![("A".to_string(), vec![(10i64, 1i64), (10, 3)]), ("B".to_string(), vec![(10i64, 2i64)])]
    );
}

#[test]
fn empty_start_map_gets_the_symbols() {
    let f = RangeFilteredTradeMap::new(&TimeRange::UpTo(25), &log()).unwrap();
    assert_eq!(f.count, 2);
    assert_eq!(
        f.i64_trade_map1.entries,
        vec![("A".to_string(), vec![]), ("B".to_string(), vec![])]
    );
}

#[test]
fn whole_log_and_since() {
    let f = RangeFilteredTradeMap::new(&TimeRange::UpToLast, &log()).unwrap();
    assert_eq!((f.first_trade_time, f.last_trade_time, f.count), (10, 40, 4));
    let g = RangeFilteredTradeMap::new(&TimeRange::UpToNowSince(35), &log()).unwrap();
    assert_eq!((g.first_trade_time, g.last_trade_time, g.count), (40, 40, 1));
}

#[test]
fn no_trades_in_range() {
    assert!(RangeFilteredTradeMap::new(&TimeRange::UpToLastSince(50), &log()).is_none());
    assert!(RangeFilteredTradeMap::new(&TimeRange::UpToLast, &[]).is_none());
}

const NOON_2022: i64 = 1_641_038_400 * 1_000_000_000;

#[test]
fn time_range_forms() {
    let t = |a: [Option<&str>; 4], off: i32| TimeRange::new(a[0], a[1], a[2], a[3], off);
    assert_eq!(t([Some("from"), Some("202201011200"), Some("to"), Some("now")], 0), Ok(TimeRange::UpToNowSince(NOON_2022)));
    assert_eq!(
        t([Some("from"), Some("202201011200"), Some("to"), Some("202201011300")], 0),
        Ok(TimeRange::Range(NOON_2022, NOON_2022 + 3_600_000_000_000))
    );
    assert_eq!(
        t([Some("to"), Some("202201011300"), Some("from"), Some("202201011200")], 0),
        Ok(TimeRange::Range(NOON_2022, NOON_2022 + 3_600_000_000_000))
    );
    assert_eq!(t([Some("from"), Some("202201011200"), None, None], 0), Ok(TimeRange::UpToLastSince(NOON_2022)));
    assert_eq!(t([Some("to"), Some("now"), None, None], 0), Ok(TimeRange::UpToNow));
    assert_eq!(t([Some("to"), Some("202201011200"), None, None], 0), Ok(TimeRange::UpTo(NOON_2022)));
    assert_eq!(t([None, None, None, None], 0), Ok(TimeRange::UpToLast));
    assert_eq!(t([Some("since"), None, None, None], 0), Ok(TimeRange::UpToLast));
}

#[test]
fn time_range_local_zone_and_errors() {
    // noon at eight hours east of UTC is four in the morning UTC
    assert_eq!(
        TimeRange::new(Some("to"), Some("202201011200"), None, None, 8 * 3600),
        Ok(TimeRange::UpTo(NOON_2022 - 8 * 3_600_000_000_000))
    );
    assert_eq!(TimeRange::new(Some("from"), Some("2022-01-01"), None, None, 0), Err(TimeError::Unparsable));
}

fn mp(time: i64, entries: &[(&str, i64)]) -> MarketPrice {
    MarketPrice { time, market_price: PriceMap { entries: entries.iter().map(|(s, p)| (s.to_string(), *p)).collect() } }
}

#[test]
fn report_prices_at_trade_times() {
    let prices = vec![mp(10, &[("A", 1)]), mp(20, &[("A", 2), ("B", 5)]), mp(30, &[("A", 3), ("B", 6)]), mp(30, &[("A", 9)])];
    let f = RangeFilteredTradeMap::new(&TimeRange::Range(20, 30), &log()).unwrap();
    let p = RangeFilteredPriceMap::new(&TimeRange::Range(20, 30), &prices, &f, None).unwrap();
    assert_eq!(p.market_time, 30);
    assert_eq!(p.price_map1.entries, vec![("A".to_string(), 2), ("B".to_string(), 5)]);
    // the first prices taken at the last trade's time
    assert_eq!(p.price_map2.entries, vec![("A".to_string(), 3), ("B".to_string(), 6)]);
    let live = mp(99, &[("A", 4)]);
    let g = RangeFilteredTradeMap::new(&TimeRange::UpToNowSince(20), &log()).unwrap();
    let q = RangeFilteredPriceMap::new(&TimeRange::UpToNowSince(20), &prices, &g, Some(live)).unwrap();
    assert_eq!((q.market_time, q.price_map2.entries.clone()), (99, vec![("A".to_string(), 4)]));
    assert!(RangeFilteredPriceMap::new(&TimeRange::UpToNow, &prices, &g, None).is_none());
    let h = RangeFilteredTradeMap::new(&TimeRange::UpToLast, &log()).unwrap();
    assert!(RangeFilteredPriceMap::new(&TimeRange::UpToLast, &prices, &h, None).is_none());
}

#[test]
fn symbols_of_latest_prices() {
    assert!(get_symbols(&[]).is_empty());
    let prices = vec![mp(10, &[("A", 1)]), mp(20, &[("C", 2), ("B", 5)])];
    assert_eq!(get_symbols(&prices), vec!["C".to_string(), "B".to_string()]);
}
