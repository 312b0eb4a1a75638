use zkpnl::circuit::{build_pnl_circuit, CircuitError};
use zkpnl::digest::sha256;
use zkpnl::maps::{PortMap, PriceMap};
use zkpnl::model::{
    BlindedRecord, BlindedSnapshot, Record, Snapshot, SnapshotBlnd, SnapshotMsg, Trade, TradeMsg,
    TradeType,
};
use zkpnl::pnl_proof::{prover_openings, verify, IntegrityError, VerifyError, ZKPNLProof};

const F: i64 = 1_000_000_000;

fn prices(entries: &[(&str, i64)]) -> PriceMap {
    PriceMap { entries: entries.iter().map(|(s, p)| (s.to_string(), *p)).collect() }
}

fn blinded(prev_hash: &str, symbol: &str, price: i64) -> BlindedRecord {
    let msg_json = format!("{{\"prev\":\"{}\",\"symbol\":\"{}\",\"price\":{}}}", prev_hash, symbol, price);
    BlindedRecord {
        hash: sha256(&msg_json),
        sig: String::new(),
        msg: TradeMsg {
            time: 1,
            kind: TradeType::Trade,
            prev_hash: prev_hash.to_string(),
            symbol: symbol.to_string(),
            price,
            qty: String::new(),
            pnl: String::new(),
        },
        msg_json,
    }
}

fn syms(v: &[&str]) -> Vec<String> {
    v.iter().map(|s| s.to_string()).collect()
}

#[test]
fn honest_opening_satisfies_the_circuit() {
    let records = vec![blinded("g", "XBTUSD", 20000 * F)];
    let market = prices(&[("XBTUSD", 21000 * F)]);
    let c = build_pnl_circuit(&records, &vec![], &prices(&[]), &syms(&["XBTUSD"]), &market, 100_000 * F).unwrap();
    assert_eq!(c.constraints.len(), 2);
    // variable 0: the record's quantity; variable 1: the current size
    let env = vec![100i64, 100];
    assert_eq!(c.constraints[0].evaluate(&env), Some(0));
    assert_eq!(c.constraints[1].evaluate(&env), Some(0));
    // a wrong size is caught by the portfolio constraint
    assert_eq!(c.constraints[1].evaluate(&vec![100, 99]), Some(-1));
}

#[test]
fn tampered_pnl_leaves_the_circuit_unsatisfied() {
    let records = vec![blinded("g", "XBTUSD", 20000 * F)];
    let market = prices(&[("XBTUSD", 21000 * F)]);
    for delta in [1i64, -1, 1 << 20] {
        let c = build_pnl_circuit(&records, &vec![], &prices(&[]), &syms(&["XBTUSD"]), &market, 100_000 * F + delta).unwrap();
        assert_eq!(c.constraints[0].evaluate(&vec![100, 100]), Some(-delta));
    }
}

#[test]
fn carried_portfolio_enters_the_circuit() {
    // previous size 100 (variable 1) carried at 21000, then sold 100 at 21000
    let records = vec![blinded("g", "XBTUSD", 21000 * F)];
    let prev = prices(&[("XBTUSD", 21000 * F)]);
    let market = prices(&[("XBTUSD", 21000 * F)]);
    let c = build_pnl_circuit(&records, &syms(&["XBTUSD"]), &prev, &syms(&["XBTUSD"]), &market, 0).unwrap();
    let env = vec![-100i64, 100, 0];
    assert_eq!(c.constraints[0].evaluate(&env), Some(0));
    assert_eq!(c.constraints[1].evaluate(&env), Some(0));
}

#[test]
fn circuit_errors() {
    let records = vec![blinded("g", "XBTUSD", 20000 * F)];
    let r = build_pnl_circuit(&records, &vec![], &prices(&[]), &syms(&["ETHUSD"]), &prices(&[("XBTUSD", F)]), 0);
    assert_eq!(r.err(), Some(CircuitError::UnknownSymbol));
    let r = build_pnl_circuit(&records, &vec![], &prices(&[]), &syms(&["XBTUSD"]), &prices(&[]), 0);
    assert_eq!(r.err(), Some(CircuitError::MissingPrice));
    let r = build_pnl_circuit(&records, &syms(&["ETHUSD"]), &prices(&[]), &syms(&[]), &prices(&[("XBTUSD", F)]), 0);
    assert_eq!(r.err(), Some(CircuitError::MissingPrice));
}

fn first_proof(label: &str) -> ZKPNLProof {
    let genesis = sha256(label);
    let records = vec![blinded(&genesis, "XBTUSD", 20000 * F)];
    let msg_json = "{\"snapshot\":1}".to_string();
    ZKPNLProof {
        protocol_version: 2,
        transcript: label.to_string(),
        ed25519_pub_key: String::new(),
        r1cs_proof: String::new(),
        current_snapshot: BlindedSnapshot {
            hash: sha256(&msg_json),
            sig: String::new(),
            msg: SnapshotMsg {
                time: 2,
                prev_hash: genesis,
                capital: 100_000 * F,
                pnl: 100_000 * F,
                portfolio: vec![("XBTUSD".to_string(), String::new())],
                records,
            },
            msg_json,
            market_price: prices(&[("XBTUSD", 21000 * F)]),
        },
        previous_snapshot: None,
    }
}

#[test]
fn first_proof_hashes_verify() {
    let p = first_proof("test-001");
    assert_eq!(p.verify_hash(), Ok(()));
    let c = p.verifier_circuit().unwrap();
    assert_eq!(c.constraints[0].evaluate(&vec![100, 100]), Some(0));
}

#[test]
fn proof_checks_fail_in_order() {
    let mut p = first_proof("test-001");
    p.protocol_version = 1;
    assert_eq!(verify(&p).err(), Some(VerifyError::Version));
    let mut p = first_proof("test-001");
    p.transcript = "test-002".to_string();
    assert_eq!(verify(&p).err(), Some(VerifyError::Integrity(IntegrityError::RecordChain(0))));
    let mut p = first_proof("test-001");
    p.current_snapshot.msg_json.push(' ');
    assert_eq!(p.verify_hash(), Err(IntegrityError::SnapshotHash));
    // no public key: the signature check refuses the proof
    let p = first_proof("test-001");
    assert!(matches!(verify(&p).err(), Some(VerifyError::Signature(_))));
}

#[test]
fn commitments_follow_variable_order() {
    let mut p = first_proof("test-001");
    p.current_snapshot.msg.records[0].msg.qty = "q0".to_string();
    p.current_snapshot.msg.portfolio = vec![("XBTUSD".to_string(), "c0".to_string())];
    let mut prev = first_proof("test-001").current_snapshot;
    prev.msg.portfolio = vec![("ETHUSD".to_string(), "p0".to_string()), ("XBTUSD".to_string(), "p1".to_string())];
    p.previous_snapshot = Some(prev);
    assert_eq!(p.commitments(), vec!["q0", "p0", "p1", "c0"]);
}

fn snapshot_with(port: Vec<(String, i64)>, blnd: Vec<(String, String)>, qtys: &[(i64, &str)]) -> Snapshot {
    let records: Vec<Record> = qtys
        .iter()
        .map(|(q, b)| Record {
            hash: String::new(),
            sig: String::new(),
            msg: blinded("g", "XBTUSD", F).msg,
            msg_json: String::new(),
            trade: Trade {
                time: 1,
                kind: TradeType::Trade,
                symbol: "XBTUSD".to_string(),
                price: F,
                qty: *q,
                qty_blnd: b.to_string(),
                pnl: 0,
                pnl_blnd: String::new(),
            },
        })
        .collect();
    Snapshot {
        hash: String::new(),
        sig: String::new(),
        msg: SnapshotMsg { time: 2, prev_hash: String::new(), capital: 0, pnl: 0, portfolio: vec![], records: vec![] },
        msg_json: String::new(),
        snapshot_blnd: SnapshotBlnd {
            time: 2,
            portfolio: PortMap { entries: port },
            portfolio_blnd: blnd,
            records,
            market_price: prices(&[]),
        },
    }
}

#[test]
fn prover_openings_follow_variable_order() {
    let prev = snapshot_with(vec![("A".to_string(), 7)], vec![("A".to_string(), "ba".to_string())], &[]);
    let cur = snapshot_with(
        vec![("B".to_string(), 3), ("A".to_string(), 5)],
        vec![("A".to_string(), "ca".to_string()), ("B".to_string(), "cb".to_string())],
        &[(2, "r0"), (-4, "r1")],
    );
    let v = prover_openings(Some(&prev), &cur).unwrap();
    let expect: Vec<(i64, String)> = vec![(2, "r0"), (-4, "r1"), (7, "ba"), (3, "cb"), (5, "ca")]
        .into_iter()
        .map(|(q, b)| (q, b.to_string()))
        .collect();
    assert_eq!(v, expect);
    let lost = snapshot_with(vec![("A".to_string(), 5)], vec![], &[]);
    assert!(prover_openings(None, &lost).is_none());
}

#[test]
fn signed_first_proof_verifies_and_tamper_shows() {
    let seed = "AAAAAAAAAAAAAAAAAAAAAAAAAAAAAAAAAAAAAAAAAAA=";
    let mut p = first_proof("test-001");
    p.ed25519_pub_key = zkpnl::sig::get_pub_key_str(seed);
    for r in p.current_snapshot.msg.records.iter_mut() {
        r.sig = zkpnl::sig::sign(&r.hash, seed).unwrap();
    }
    p.current_snapshot.sig = zkpnl::sig::sign(&p.current_snapshot.hash, seed).unwrap();
    let c = verify(&p).unwrap();
    assert_eq!(c.constraints[0].evaluate(&vec![100, 100]), Some(0));
    assert_eq!(c.constraints[1].evaluate(&vec![100, 100]), Some(0));
    // a published P&L raised by 7 leaves the P&L constraint at -7
    p.current_snapshot.msg.pnl += 7;
    let t = p.verifier_circuit().unwrap();
    assert_eq!(t.constraints[0].evaluate(&vec![100, 100]), Some(-7));
}
