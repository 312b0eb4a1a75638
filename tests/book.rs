use zkpnl::book::{
    calc_cash_balance, calc_market_value, calc_pnl, calc_portfolio, calc_size, calc_total_pnl,
    inherit_portfolio,
};
use zkpnl::lincomb::{LinearCombination, Variable};
use zkpnl::maps::{PortMap, PriceMap, TradeMap};
use zkpnl::quantity::ZKPNLCalculable;

const F: i64 = 1_000_000_000;

fn prices(entries: &[(&str, i64)]) -> PriceMap {
    PriceMap { entries: entries.iter().map(|(s, p)| (s.to_string(), *p)).collect() }
}

fn book(entries: &[(&str, i64, i64)]) -> TradeMap<i64> {
    let mut m: TradeMap<i64> = TradeMap::new();
    for (s, p, q) in entries {
        m.push_trade(&s.to_string(), *p, *q);
    }
    m
}

#[test]
fn size_sums_quantities() {
    assert_eq!(calc_size(&[(F, 10i64), (2 * F, -3)]), Some(7));
    assert_eq!(calc_size::<i64>(&[]), Some(0));
}

#[test]
fn size_overflow_fails() {
    assert_eq!(calc_size(&[(0, i64::MAX), (0, 1i64)]), None);
}

#[test]
fn cash_balance_is_negated_cost() {
    // a long buy of 100 at 20000 spends 2,000,000 units of cash
    assert_eq!(calc_cash_balance(&[(20000 * F, 100i64)]), Some(-2_000_000 * F));
    // a short sale receives cash
    assert_eq!(calc_cash_balance(&[(20000 * F, -100i64)]), Some(2_000_000 * F));
}

#[test]
fn market_value_is_size_times_price() {
    assert_eq!(calc_market_value(&[(20000 * F, 60i64), (20500 * F, 40)], 21000 * F), Some(2_100_000 * F));
}

#[test]
fn pnl_is_cash_plus_value() {
    // bought 100 at 20000, marked at 21000
    assert_eq!(calc_pnl(&[(20000 * F, 100i64)], 21000 * F), Some(100_000 * F));
    // market equal to entry price: no P&L
    assert_eq!(calc_pnl(&[(20000 * F, 100i64)], 20000 * F), Some(0));
}

#[test]
fn total_pnl_sums_symbols() {
    let m = book(&[("XBTUSD", 20000 * F, 100), ("ETHUSD", 1000 * F, -10), ("XBTUSD", 21000 * F, -50)]);
    let p = prices(&[("XBTUSD", 22000 * F), ("ETHUSD", 900 * F)]);
    // XBTUSD: -2,000,000 + 1,050,000 + 50 * 22000 = 150,000; ETHUSD: 10,000 - 9,000 = 1,000
    assert_eq!(calc_total_pnl(&m, &p), Some(151_000 * F));
}

#[test]
fn total_pnl_needs_every_price() {
    let m = book(&[("XBTUSD", 20000 * F, 100), ("ETHUSD", 1000 * F, -10)]);
    assert_eq!(calc_total_pnl(&m, &prices(&[("XBTUSD", 22000 * F)])), None);
}

#[test]
fn portfolio_holds_sizes_in_first_seen_order() {
    let m = book(&[("B", F, 5), ("A", F, 2), ("B", F, -1)]);
    let p = calc_portfolio(&m).unwrap();
    assert_eq!(p.entries, vec![("B".to_string(), 4i64), ("A".to_string(), 2)]);
}

#[test]
fn inherit_appends_positions_at_previous_prices() {
    let mut m = book(&[("A", 10 * F, 1)]);
    let port = PortMap { entries: vec![("A".to_string(), 3i64), ("C".to_string(), -2)] };
    let ok = inherit_portfolio(&port, &mut m, &prices(&[("A", 11 * F), ("C", 7 * F)]));
    assert!(ok);
    assert_eq!(m.entries[0].1, vec![(10 * F, 1i64), (11 * F, 3)]);
    assert_eq!(m.entries[1], ("C".to_string(), vec![(7 * F, -2i64)]));
}

#[test]
fn inherit_without_price_changes_nothing() {
    let mut m = book(&[("A", 10 * F, 1)]);
    let port = PortMap { entries: vec![("C".to_string(), 4i64)] };
    assert!(!inherit_portfolio(&port, &mut m, &prices(&[("A", 11 * F)])));
    assert_eq!(m.entries.len(), 1);
    assert_eq!(m.entries[0].1, vec![(10 * F, 1i64)]);
}

#[test]
fn inherit_then_no_trades_gives_zero_pnl() {
    // a period with no new records, carried at the closing price, has no P&L
    let mut m: TradeMap<i64> = TradeMap::new();
    let port = PortMap { entries: vec![("XBTUSD".to_string(), 100i64)] };
    let close = prices(&[("XBTUSD", 21000 * F)]);
    assert!(inherit_portfolio(&port, &mut m, &close));
    assert_eq!(calc_total_pnl(&m, &close), Some(0));
    assert_eq!(calc_portfolio(&m).unwrap().entries, vec![("XBTUSD".to_string(), 100i64)]);
}

#[test]
fn linear_combination_operations() {
    let a = LinearCombination::from_variable(Variable::Committed(0));
    let b = LinearCombination::from_constant(5);
    let s = a.add(&b).unwrap();
    assert_eq!(s.terms, vec![(Variable::Committed(0), 1), (Variable::One, 5)]);
    let n = s.neg().unwrap();
    assert_eq!(n.terms, vec![(Variable::Committed(0), -1), (Variable::One, -5)]);
    let k = s.scale(3).unwrap();
    assert_eq!(k.evaluate(&vec![4]), Some(27));
    assert!(LinearCombination::from_constant(i64::MIN).neg().is_none());
    assert!(LinearCombination::from_constant(i64::MAX).scale(2).is_none());
}

#[test]
fn both_instances_agree_on_pnl() {
    // the same trades in plaintext and over committed variables opened to them
    let qtys = [100i64, -40, 25];
    let px = [20000 * F, 20500 * F, 19900 * F];
    let mut plain: TradeMap<i64> = TradeMap::new();
    let mut lc: TradeMap<LinearCombination> = TradeMap::new();
    for k in 0..3 {
        let sym = if k == 1 { "ETHUSD" } else { "XBTUSD" }.to_string();
        plain.push_trade(&sym, px[k], qtys[k]);
        lc.push_trade(&sym, px[k], LinearCombination::from_variable(Variable::Committed(k)));
    }
    let market = prices(&[("XBTUSD", 21000 * F), ("ETHUSD", 21000 * F)]);
    let p = calc_total_pnl(&plain, &market).unwrap();
    let l = calc_total_pnl(&lc, &market).unwrap();
    assert_eq!(l.evaluate(&qtys.to_vec()), Some(p));
}
