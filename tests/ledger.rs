use zkpnl::digest::sha256;
use zkpnl::ledger::{LedgerError, RecordPlan};
use zkpnl::maps::{PortMap, PriceMap};
use zkpnl::model::{
    check_price, BlindedRecord, PriceError, Record, Snapshot, SnapshotBlnd, SnapshotMsg, Trade, TradeMsg, TradeType,
};

const F: i64 = 1_000_000_000;
const LABEL: &str = "test-001";

fn prices(entries: &[(&str, i64)]) -> PriceMap {
    PriceMap { entries: entries.iter().map(|(s, p)| (s.to_string(), *p)).collect() }
}

fn make_record(time: i64, kind: TradeType, symbol: &str, price: i64, plan: &RecordPlan) -> Record {
    let msg_json = format!("{{\"time\":{},\"symbol\":\"{}\",\"qty\":{}}}", time, symbol, plan.qty);
    Record {
        hash: sha256(&msg_json),
        sig: String::new(),
        msg: TradeMsg {
            time,
            kind,
            prev_hash: plan.prev_hash.clone(),
            symbol: symbol.to_string(),
            price,
            qty: String::new(),
            pnl: String::new(),
        },
        msg_json,
        trade: Trade {
            time,
            kind,
            symbol: symbol.to_string(),
            price,
            qty: plan.qty,
            qty_blnd: String::new(),
            pnl: plan.pnl,
            pnl_blnd: String::new(),
        },
    }
}

fn commit(log: &mut Vec<Record>, time: i64, kind: TradeType, symbol: &str, qty: i64, price: i64, market: &PriceMap) -> RecordPlan {
    let plan = Record::plan(&symbol.to_string(), qty, price, kind, log, market, LABEL).unwrap();
    let r = make_record(time, kind, symbol, price, &plan);
    log.push(r);
    plan
}

fn take_snapshot(album: &mut Vec<Snapshot>, time: i64, log: &[Record], market: &PriceMap) -> (i64, Vec<(String, i64)>) {
    let records: Vec<Record> = log.iter().map(clone_record).collect();
    let plan = Snapshot::plan(album, records, market, LABEL).unwrap();
    let msg_json = format!("{{\"snapshot\":{},\"pnl\":{}}}", time, plan.pnl);
    let sizes = plan.portfolio.entries.clone();
    let blinded: Vec<BlindedRecord> = plan.records.iter().map(|r| r.blinded()).collect();
    album.push(Snapshot {
        hash: sha256(&msg_json),
        sig: String::new(),
        msg: SnapshotMsg {
            time,
            prev_hash: plan.prev_hash.clone(),
            capital: 100_000 * F,
            pnl: plan.pnl,
            portfolio: vec![],
            records: blinded,
        },
        msg_json,
        snapshot_blnd: SnapshotBlnd {
            time,
            portfolio: PortMap { entries: plan.portfolio.entries.clone() },
            portfolio_blnd: vec![],
            records: plan.records,
            market_price: PriceMap { entries: market.entries.clone() },
        },
    });
    (plan.pnl, sizes)
}

fn clone_record(r: &Record) -> Record {
    Record {
        hash: r.hash.clone(),
        sig: r.sig.clone(),
        msg: r.msg.duplicate(),
        msg_json: r.msg_json.clone(),
        trade: Trade {
            time: r.trade.time,
            kind: r.trade.kind,
            symbol: r.trade.symbol.clone(),
            price: r.trade.price,
            qty: r.trade.qty,
            qty_blnd: r.trade.qty_blnd.clone(),
            pnl: r.trade.pnl,
            pnl_blnd: r.trade.pnl_blnd.clone(),
        },
    }
}

#[test]
fn first_commit_chains_to_genesis_with_zero_pnl() {
    let mut log = vec![];
    let plan = commit(&mut log, 1, TradeType::Trade, "XBTUSD", 100, 20000 * F, &prices(&[("XBTUSD", 20000 * F)]));
    assert_eq!(plan.prev_hash, sha256("test-001"));
    assert_eq!(plan.qty, 100);
    assert_eq!(plan.pnl, 0);
}

#[test]
fn later_commit_chains_to_last_record() {
    let mut log = vec![];
    let market = prices(&[("XBTUSD", 20000 * F)]);
    commit(&mut log, 1, TradeType::Trade, "XBTUSD", 100, 20000 * F, &market);
    let plan = commit(&mut log, 2, TradeType::Trade, "XBTUSD", 5, 20000 * F, &market);
    assert_eq!(plan.prev_hash, log[0].hash);
}

#[test]
fn snapshot_after_price_move() {
    let mut log = vec![];
    commit(&mut log, 1, TradeType::Trade, "XBTUSD", 100, 20000 * F, &prices(&[("XBTUSD", 20000 * F)]));
    let mut album = vec![];
    let (pnl, port) = take_snapshot(&mut album, 2, &log, &prices(&[("XBTUSD", 21000 * F)]));
    assert_eq!(pnl, 100_000 * F);
    assert_eq!(port, vec![("XBTUSD".to_string(), 100i64)]);
    assert_eq!(album[0].msg.prev_hash, sha256("test-001"));
}

#[test]
fn closing_trade_after_snapshot_keeps_pnl_and_flattens() {
    let mut log = vec![];
    commit(&mut log, 1, TradeType::Trade, "XBTUSD", 100, 20000 * F, &prices(&[("XBTUSD", 20000 * F)]));
    let mut album = vec![];
    let m21 = prices(&[("XBTUSD", 21000 * F)]);
    take_snapshot(&mut album, 2, &log, &m21);
    let plan = commit(&mut log, 3, TradeType::Trade, "XBTUSD", -100, 21000 * F, &m21);
    // cumulative P&L of the log is the gain made before the snapshot
    assert_eq!(plan.pnl, 100_000 * F);
    let (pnl, port) = take_snapshot(&mut album, 4, &log, &m21);
    assert_eq!(pnl, 0);
    assert_eq!(port, vec![("XBTUSD".to_string(), 0i64)]);
    assert_eq!(album[1].msg.prev_hash, album[0].hash);
    assert_eq!(album[1].msg.records.len(), 1);
}

#[test]
fn snapshot_without_new_records_has_zero_pnl() {
    let mut log = vec![];
    commit(&mut log, 1, TradeType::Trade, "XBTUSD", 100, 20000 * F, &prices(&[("XBTUSD", 20000 * F)]));
    let mut album = vec![];
    let m21 = prices(&[("XBTUSD", 21000 * F)]);
    take_snapshot(&mut album, 2, &log, &m21);
    let (pnl, port) = take_snapshot(&mut album, 3, &log, &m21);
    assert_eq!(pnl, 0);
    assert_eq!(port, vec![("XBTUSD".to_string(), 100i64)]);
}

#[test]
fn deliver_closes_the_position() {
    let mut log = vec![];
    let market = prices(&[("XBTUSD", 20000 * F)]);
    commit(&mut log, 1, TradeType::Trade, "XBTUSD", 50, 20000 * F, &market);
    let plan = commit(&mut log, 2, TradeType::Deliver, "XBTUSD", 0, 21000 * F, &market);
    assert_eq!(plan.qty, -50);
    assert_eq!(log.iter().filter(|r| r.trade.kind == TradeType::Deliver).count(), 1);
    let map = zkpnl::collection::get_i64_trade_map(&log);
    assert_eq!(zkpnl::book::calc_size(&map.entries[0].1), Some(0));
    // realized cash balance: -50 * 20000 + 50 * 21000
    assert_eq!(plan.pnl, 50_000 * F);
}

#[test]
fn deliver_without_position_is_refused() {
    let r = Record::plan(&"XBTUSD".to_string(), 0, 20000 * F, TradeType::Deliver, &[], &prices(&[("XBTUSD", 20000 * F)]), LABEL);
    assert_eq!(r.err(), Some(LedgerError::NoPosition));
}

#[test]
fn commit_without_market_price_is_refused() {
    let r = Record::plan(&"XBTUSD".to_string(), 1, 20000 * F, TradeType::Trade, &[], &prices(&[("ETHUSD", F)]), LABEL);
    assert_eq!(r.err(), Some(LedgerError::MissingPrice));
}

#[test]
fn commit_overflow_is_refused() {
    let r = Record::plan(&"XBTUSD".to_string(), i64::MAX, 20000 * F, TradeType::Trade, &[], &prices(&[("XBTUSD", F)]), LABEL);
    assert_eq!(r.err(), Some(LedgerError::Overflow));
}

#[test]
fn trade_type_words() {
    assert_eq!(TradeType::new("inherit"), Some(TradeType::Inherit));
    assert_eq!(TradeType::new("trade"), Some(TradeType::Trade));
    assert_eq!(TradeType::new(""), Some(TradeType::Trade));
    assert_eq!(TradeType::new("deliver"), Some(TradeType::Deliver));
    assert_eq!(TradeType::new("Deliver"), None);
}

#[test]
fn price_policy() {
    assert_eq!(check_price(20000 * F, false), Ok(()));
    assert_eq!(check_price(F, false), Ok(()));
    assert_eq!(check_price(F / 2, false), Err(PriceError::BelowOne));
    assert_eq!(check_price(F / 2, true), Ok(()));
    assert_eq!(check_price(0, true), Ok(()));
    assert_eq!(check_price(-1, true), Err(PriceError::Negative));
}

#[test]
fn planned_snapshot_satisfies_its_circuit() {
    let mut log = vec![];
    commit(&mut log, 1, TradeType::Trade, "XBTUSD", 100, 20000 * F, &prices(&[("XBTUSD", 20000 * F)]));
    let mut album = vec![];
    let m21 = prices(&[("XBTUSD", 21000 * F)]);
    take_snapshot(&mut album, 2, &log, &m21);
    let c = zkpnl::pnl_proof::prover_circuit(None, &album[0]).unwrap();
    // record quantity 100, current size 100
    assert_eq!(c.constraints[0].evaluate(&vec![100, 100]), Some(0));
    assert_eq!(c.constraints[1].evaluate(&vec![100, 100]), Some(0));
    // a committed size of 90 leaves the size constraint at -10
    assert_eq!(c.constraints[1].evaluate(&vec![100, 90]), Some(-10));
    // closing after the snapshot: the second period carries the position over
    commit(&mut log, 3, TradeType::Trade, "XBTUSD", -100, 21000 * F, &m21);
    take_snapshot(&mut album, 4, &log, &m21);
    let c2 = zkpnl::pnl_proof::prover_circuit(Some(&album[0]), &album[1]).unwrap();
    // variables: the closing record (-100), the previous size (100), the current size (0)
    let env = vec![-100i64, 100, 0];
    assert_eq!(c2.constraints[0].evaluate(&env), Some(0));
    assert_eq!(c2.constraints[1].evaluate(&env), Some(0));
}

#[test]
fn seal_hashes_and_signs() {
    let (hash, sig) = zkpnl::sig::seal("abc", "");
    assert_eq!(hash, "ba7816bf8f01cfea414140de5dae2223b00361a396177a9cb410ff61f20015ad");
    assert_eq!(sig, "");
    let seed = "AAAAAAAAAAAAAAAAAAAAAAAAAAAAAAAAAAAAAAAAAAA=";
    let (h2, s2) = zkpnl::sig::seal("abc", seed);
    assert_eq!(h2, hash);
    assert_eq!(zkpnl::sig::sign(&hash, seed), Ok(s2));
}
