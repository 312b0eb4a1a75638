use zkpnl::digest::{
    sha256, strip_zero_width_space, verify_hash_chain, verify_hash_chain_since_genesis,
    verify_msg_hash, verify_msg_hashes,
};
use zkpnl::model::{BlindedRecord, TradeMsg, TradeType};
use zkpnl::sig::{get_pub_key, get_pub_key_from_str, get_pub_key_str, get_sig, sign, verify_sig, verify_sig_with_pk, SigError};

fn entry(prev_hash: &str, body: &str) -> BlindedRecord {
    let msg_json = format!("{{\"prev\":\"{}\",\"body\":\"{}\"}}", prev_hash, body);
    BlindedRecord {
        hash: sha256(&msg_json),
        sig: String::new(),
        msg: TradeMsg {
            time: 0,
            kind: TradeType::Trade,
            prev_hash: prev_hash.to_string(),
            symbol: "XBTUSD".to_string(),
            price: 0,
            qty: String::new(),
            pnl: String::new(),
        },
        msg_json,
    }
}

fn chain(label: &str, n: usize) -> Vec<BlindedRecord> {
    let mut v: Vec<BlindedRecord> = vec![];
    let mut prev = sha256(label);
    for i in 0..n {
        let e = entry(&prev, &format!("trade {}", i));
        prev = sha256(&e.msg_json);
        v.push(e);
    }
    v
}

#[test]
fn sha256_known_digest() {
    assert_eq!(sha256("abc"), "ba7816bf8f01cfea414140de5dae2223b00361a396177a9cb410ff61f20015ad");
}

#[test]
fn zero_width_space_is_stripped_once() {
    assert_eq!(strip_zero_width_space("\u{200b}ab"), "ab");
    assert_eq!(strip_zero_width_space("a\u{200b}b\u{200b}"), "ab\u{200b}");
    assert_eq!(strip_zero_width_space("abc"), "abc");
}

#[test]
fn committed_log_verifies() {
    let log = chain("test-001", 4);
    assert!(verify_msg_hash(&log[0]));
    assert_eq!(verify_msg_hashes(&log), Ok(()));
    assert_eq!(verify_hash_chain(&log), Ok(()));
    assert_eq!(verify_hash_chain_since_genesis("test-001", &log), Ok(()));
    assert_eq!(verify_hash_chain_since_genesis("other", &log), Err(0));
}

#[test]
fn flipped_message_byte_breaks_the_chain() {
    let mut log = chain("test-001", 3);
    log[1].msg_json = log[1].msg_json.replacen("trade", "trado", 1);
    assert_eq!(verify_msg_hashes(&log), Err(1));
    assert_eq!(verify_hash_chain(&log), Err(2));
}

#[test]
fn legacy_zero_width_prev_hash_is_accepted() {
    let mut log = chain("test-001", 2);
    log[1].msg.prev_hash = format!("\u{200b}{}", log[1].msg.prev_hash);
    assert_eq!(verify_hash_chain(&log), Ok(()));
}

const SEED: &str = "AAAAAAAAAAAAAAAAAAAAAAAAAAAAAAAAAAAAAAAAAAA=";

#[test]
fn signed_entries_verify_and_tampered_hash_fails() {
    let mut log = chain("test-001", 2);
    for e in log.iter_mut() {
        e.sig = sign(&e.hash, SEED).unwrap();
        assert!(!e.sig.is_empty());
    }
    assert_eq!(verify_sig(SEED, &log), Ok(()));
    let pk = get_pub_key(SEED).unwrap();
    assert_eq!(pk.len(), 32);
    assert_eq!(get_pub_key_from_str(&get_pub_key_str(SEED)), Ok(pk.clone()));
    log[0].hash = sha256("something else");
    assert_eq!(verify_sig_with_pk(&pk, &log[0]), Err(SigError::Mismatch));
}

#[test]
fn signing_off_without_seed() {
    assert_eq!(sign("abc", ""), Ok(String::new()));
    assert_eq!(get_pub_key_str(""), "");
    let log = chain("x", 1);
    assert_eq!(verify_sig("", &log), Ok(()));
}

#[test]
fn key_and_signature_lengths_are_checked() {
    assert_eq!(get_pub_key_from_str("aGVsbG8="), Err(SigError::Length));
    assert_eq!(get_pub_key_from_str("not base64!"), Err(SigError::Decode));
    assert_eq!(get_sig("aGVsbG8="), Err(SigError::Length));
}

#[test]
fn zero_seed_known_key_and_signature() {
    assert_eq!(get_pub_key_str(SEED), "O2onvM62pC1io6jQKm8Nc2UyFXcd4kOmOsBIoYtZ2ik=");
    assert_eq!(
        sign("abc", SEED),
        Ok("iF37B8qyeW65YFMaLwm5cq1ZuXuxJb71/doIVda+vr8kRH5wX6EVdWOd85bCAcz1KhoWsBSnovDOc6ehYXVzCA==".to_string())
    );
}
