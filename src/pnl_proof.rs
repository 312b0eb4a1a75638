//! A P&L proof: a snapshot, its predecessor if any, and the proof that the
//! snapshot's committed trades and portfolio give its published P&L. This
//! module checks the proof's hashes and signatures and builds the constraint
//! system that the proof is about, for the prover and for the verifier alike.
use vstd::prelude::*;
use crate::circuit::{build_pnl_circuit, circuit_outcome, circuit_result, CircuitError, PnlCircuit};
use crate::digest::{
    chain_link_ok, genesis_link_ok, msg_hash_ok, sha256, sha256_hex, verify_hash_chain,
    verify_hash_chain_since_genesis, verify_msg_hash, verify_msg_hashes, Verifiable,
};
use crate::model::{BlindedRecord, BlindedSnapshot, Record, Snapshot, PROTOCOL_VERSION};
use crate::maps::{find_sym, find_symbol, lemma_find_sym, string_keys};
use crate::sig::{
    decoded_exact, get_pub_key_from_str, sig_check, verify_sig_with_pk, verify_sigs_with_pk,
    SigError,
};

verus! {

/// A proof of a snapshot's P&L.
pub struct ZKPNLProof {
    pub protocol_version: u32,
    /// The transcript label, which is also the genesis text of the chains.
    pub transcript: String,
    /// The base64 Ed25519 public key of the signer.
    pub ed25519_pub_key: String,
    /// The base64 bytes of the constraint-system proof.
    pub r1cs_proof: String,
    pub current_snapshot: BlindedSnapshot,
    pub previous_snapshot: Option<BlindedSnapshot>,
}

/// Why a proof's hashes do not hold together.
#[derive(Clone, Copy, Debug, PartialEq, Eq, Structural)]
pub enum IntegrityError {
    /// The record at this position does not hash to its claimed hash.
    RecordHash(usize),
    /// The snapshot does not hash to its claimed hash.
    SnapshotHash,
    /// The record at this position does not chain to its predecessor.
    RecordChain(usize),
    /// The snapshot does not chain to its predecessor (or to the genesis).
    SnapshotChain,
}

/// The symbols of an association list, in order.
pub open spec fn first_of(es: Seq<(String, String)>) -> Seq<String> {
    es.map_values(|e: (String, String)| e.0)
}

fn symbols_of(entries: &Vec<(String, String)>) -> (r: Vec<String>)
    ensures
        r@ == first_of(entries@),
{
    let mut r: Vec<String> = Vec::new();
    let mut i: usize = 0;
    while i < entries.len()
        invariant
            i <= entries.len(),
            r@ == first_of(entries@.subrange(0, i as int)),
        decreases entries.len() - i,
    {
        r.push(entries[i].0.clone());
        proof {
            assert(first_of(entries@.subrange(0, i + 1)) =~= first_of(
                entries@.subrange(0, i as int),
            ).push(entries@[i as int].0));
        }
        i = i + 1;
    }
    proof {
        assert(entries@.subrange(0, entries.len() as int) =~= entries@);
    }
    r
}

impl ZKPNLProof {
    /// Every hash the proof carries is right: each record's and the
    /// snapshot's message hash, the records' chain (from the genesis for a
    /// first proof), and the snapshot's link to its predecessor.
    pub open spec fn hashes_ok(&self) -> bool {
        let rs = self.current_snapshot.msg.records@;
        let cur = self.current_snapshot;
        &&& forall|i: int| 0 <= i < rs.len() ==> msg_hash_ok(#[trigger] rs[i])
        &&& msg_hash_ok(cur)
        &&& match self.previous_snapshot {
            None => {
                &&& forall|i: int|
                    0 <= i < rs.len() ==> #[trigger] genesis_link_ok(self.transcript@, rs, i)
                &&& cur.prev_hash_view() == sha256_hex(self.transcript@)
            },
            Some(prev) => {
                &&& forall|i: int| 1 <= i < rs.len() ==> #[trigger] chain_link_ok(rs, i)
                &&& cur.prev_hash_view() == sha256_hex(prev.msg_view())
            },
        }
    }

    /// The first hash check that fails, in the order: record hashes, the
    /// snapshot hash, the records' chain, the snapshot's link.
    pub open spec fn first_hash_failure(&self) -> Result<(), IntegrityError> {
        let rs = self.current_snapshot.msg.records@;
        let cur = self.current_snapshot;
        if exists|i: int| 0 <= i < rs.len() && !msg_hash_ok(#[trigger] rs[i]) {
            let i = choose|i: int|
                0 <= i < rs.len() && !msg_hash_ok(#[trigger] rs[i]) && forall|j: int|
                    0 <= j < i ==> msg_hash_ok(#[trigger] rs[j]);
            Err(IntegrityError::RecordHash(i as usize))
        } else if !msg_hash_ok(cur) {
            Err(IntegrityError::SnapshotHash)
        } else {
            match self.previous_snapshot {
                None => if exists|i: int|
                    0 <= i < rs.len() && !#[trigger] genesis_link_ok(self.transcript@, rs, i) {
                    let i = choose|i: int|
                        0 <= i < rs.len() && !#[trigger] genesis_link_ok(self.transcript@, rs, i)
                            && forall|j: int|
                            0 <= j < i ==> #[trigger] genesis_link_ok(self.transcript@, rs, j);
                    Err(IntegrityError::RecordChain(i as usize))
                } else if cur.prev_hash_view() != sha256_hex(self.transcript@) {
                    Err(IntegrityError::SnapshotChain)
                } else {
                    Ok(())
                },
                Some(prev) => if exists|i: int| 1 <= i < rs.len() && !#[trigger] chain_link_ok(rs, i) {
                    let i = choose|i: int|
                        1 <= i < rs.len() && !#[trigger] chain_link_ok(rs, i) && forall|j: int|
                            1 <= j < i ==> #[trigger] chain_link_ok(rs, j);
                    Err(IntegrityError::RecordChain(i as usize))
                } else if cur.prev_hash_view() != sha256_hex(prev.msg_view()) {
                    Err(IntegrityError::SnapshotChain)
                } else {
                    Ok(())
                },
            }
        }
    }

    /// Checks the proof's hashes, reporting the first that fails.
    pub fn verify_hash(&self) -> (r: Result<(), IntegrityError>)
        ensures
            r is Ok <==> self.hashes_ok(),
            r == self.first_hash_failure(),
    {
        let records = self.current_snapshot.msg.records.as_slice();
        if let Err(i) = verify_msg_hashes(records) {
            return Err(IntegrityError::RecordHash(i));
        }
        if !verify_msg_hash(&self.current_snapshot) {
            return Err(IntegrityError::SnapshotHash);
        }
        match &self.previous_snapshot {
            None => {
                if let Err(i) = verify_hash_chain_since_genesis(self.transcript.as_str(), records) {
                    return Err(IntegrityError::RecordChain(i));
                }
                let genesis = sha256(self.transcript.as_str());
                if self.current_snapshot.msg.prev_hash != genesis {
                    return Err(IntegrityError::SnapshotChain);
                }
            },
            Some(prev) => {
                if let Err(i) = verify_hash_chain(records) {
                    return Err(IntegrityError::RecordChain(i));
                }
                let linked = sha256(prev.msg_json.as_str());
                if self.current_snapshot.msg.prev_hash != linked {
                    return Err(IntegrityError::SnapshotChain);
                }
            },
        }
        Ok(())
    }

    /// The signatures of the records and of the snapshot verify under the
    /// public key the proof carries.
    pub open spec fn sigs_ok(&self) -> bool {
        match decoded_exact(self.ed25519_pub_key@, 32) {
            Ok(pk) => {
                &&& forall|i: int|
                    0 <= i < self.current_snapshot.msg.records@.len() ==> #[trigger] sig_check(
                        pk,
                        self.current_snapshot.msg.records@[i],
                    ) is Ok
                &&& sig_check(pk, self.current_snapshot) is Ok
            },
            Err(_) => false,
        }
    }

    /// Checks the records' and the snapshot's signatures with the proof's
    /// public key.
    pub fn verify_sig(&self) -> (r: Result<(), SigError>)
        ensures
            r is Ok <==> self.sigs_ok(),
    {
        let pk = get_pub_key_from_str(self.ed25519_pub_key.as_str())?;
        verify_sigs_with_pk(pk.as_slice(), self.current_snapshot.msg.records.as_slice())?;
        verify_sig_with_pk(pk.as_slice(), &self.current_snapshot)
    }

    /// The constraint system that the proof's constraint-system proof must
    /// satisfy, rebuilt from what the verifier sees: the records' published
    /// prices and commitments, the previous snapshot's committed portfolio at
    /// its market prices, and the current committed portfolio, P&L and
    /// market prices.
    pub fn verifier_circuit(&self) -> (r: Result<PnlCircuit, CircuitError>)
        ensures
            self.verifier_result(r),
    {
        let cur = &self.current_snapshot;
        let empty: Vec<String> = Vec::new();
        let prev_symbols = match &self.previous_snapshot {
            Some(prev) => symbols_of(&prev.msg.portfolio),
            None => empty,
        };
        let curt_symbols = symbols_of(&cur.msg.portfolio);
        let n = cur.msg.records.len();
        if n > usize::MAX - prev_symbols.len() || n + prev_symbols.len() > usize::MAX
            - curt_symbols.len() {
            return Err(CircuitError::Overflow);
        }
        let no_prices = crate::maps::PriceMap { entries: Vec::new() };
        let prev_prices = match &self.previous_snapshot {
            Some(prev) => &prev.market_price,
            None => &no_prices,
        };
        proof {
            assert(no_prices.view() =~= Seq::<(Seq<char>, i64)>::empty());
            assert(empty@ =~= Seq::<String>::empty());
        }
        build_pnl_circuit(
            cur.msg.records.as_slice(),
            &prev_symbols,
            prev_prices,
            &curt_symbols,
            &cur.market_price,
            cur.msg.pnl,
        )
    }

    /// The previous snapshot's published portfolio symbols, if any.
    pub open spec fn prev_symbols_view(&self) -> Seq<String> {
        match self.previous_snapshot {
            Some(prev) => first_of(prev.msg.portfolio@),
            None => Seq::empty(),
        }
    }

    /// The previous snapshot's market prices, if any.
    pub open spec fn prev_prices_view(&self) -> Seq<(Seq<char>, i64)> {
        match self.previous_snapshot {
            Some(prev) => prev.market_price.view(),
            None => Seq::empty(),
        }
    }

    /// The number of committed variables fits in memory.
    pub open spec fn sizes_fit(&self) -> bool {
        self.current_snapshot.msg.records@.len() + self.prev_symbols_view().len()
            + self.current_snapshot.msg.portfolio@.len() <= usize::MAX
    }

    /// `r` is the circuit built from what the verifier sees: the records'
    /// published prices, the previous published portfolio at its market
    /// prices, and the current published portfolio, P&L and market prices.
    pub open spec fn verifier_result(&self, r: Result<PnlCircuit, CircuitError>) -> bool {
        let cur = self.current_snapshot;
        if self.sizes_fit() {
            circuit_result(
                r,
                cur.msg.records@,
                self.prev_symbols_view(),
                self.prev_prices_view(),
                first_of(cur.msg.portfolio@),
                cur.market_price.view(),
                cur.msg.pnl,
            )
        } else {
            r == Err::<PnlCircuit, CircuitError>(CircuitError::Overflow)
        }
    }

    /// How building the verifier's circuit ends.
    pub open spec fn verifier_outcome(&self) -> Result<(), CircuitError> {
        let cur = self.current_snapshot;
        if self.sizes_fit() {
            circuit_outcome(
                cur.msg.records@,
                self.prev_symbols_view(),
                self.prev_prices_view(),
                first_of(cur.msg.portfolio@),
                cur.market_price.view(),
                cur.msg.pnl,
            )
        } else {
            Err(CircuitError::Overflow)
        }
    }
}

/// The symbols of a plaintext portfolio, in order.
pub open spec fn port_syms(p: crate::maps::PortMap<i64>) -> Seq<String> {
    p.entries@.map_values(|e: (String, i64)| e.0)
}

/// The previous portfolio's symbols, if any.
pub open spec fn prover_prev_syms(previous: Option<&Snapshot>) -> Seq<String> {
    match previous {
        Some(prev) => port_syms(prev.snapshot_blnd.portfolio),
        None => Seq::empty(),
    }
}

/// The previous snapshot's market prices, if any.
pub open spec fn prover_prev_prices(previous: Option<&Snapshot>) -> Seq<(Seq<char>, i64)> {
    match previous {
        Some(prev) => prev.snapshot_blnd.market_price.view(),
        None => Seq::empty(),
    }
}

/// The number of committed variables of the prover's circuit fits in memory.
pub open spec fn prover_sizes_fit(previous: Option<&Snapshot>, current: &Snapshot) -> bool {
    current.msg.records@.len() + prover_prev_syms(previous).len()
        + current.snapshot_blnd.portfolio.entries@.len() <= usize::MAX
}

/// The symbols of a plaintext portfolio, in order.
fn port_symbols(p: &crate::maps::PortMap<i64>) -> (r: Vec<String>)
    ensures
        r@ == port_syms(*p),
{
    let mut r: Vec<String> = Vec::new();
    let mut i: usize = 0;
    while i < p.entries.len()
        invariant
            i <= p.entries.len(),
            r@.len() == i,
            forall|k: int| 0 <= k < i ==> #[trigger] r@[k] == p.entries@[k].0,
        decreases p.entries.len() - i,
    {
        r.push(p.entries[i].0.clone());
        i = i + 1;
    }
    assert(r@ =~= port_syms(*p));
    r
}

/// The constraint system a prover builds for the snapshot `current` after
/// `previous`, from its private portfolios: the same system the verifier
/// rebuilds from the published commitments.
pub fn prover_circuit(previous: Option<&Snapshot>, current: &Snapshot) -> (r: Result<
    PnlCircuit,
    CircuitError,
>)
    ensures
        prover_sizes_fit(previous, current) ==> circuit_result(
            r,
            current.msg.records@,
            prover_prev_syms(previous),
            prover_prev_prices(previous),
            port_syms(current.snapshot_blnd.portfolio),
            current.snapshot_blnd.market_price.view(),
            current.msg.pnl,
        ),
        !prover_sizes_fit(previous, current) ==> r == Err::<PnlCircuit, CircuitError>(
            CircuitError::Overflow,
        ),
{
    let empty: Vec<String> = Vec::new();
    let prev_symbols = match previous {
        Some(prev) => port_symbols(&prev.snapshot_blnd.portfolio),
        None => empty,
    };
    let curt_symbols = port_symbols(&current.snapshot_blnd.portfolio);
    let records: &[BlindedRecord] = current.msg.records.as_slice();
    let n = records.len();
    if n > usize::MAX - prev_symbols.len() || n + prev_symbols.len() > usize::MAX
        - curt_symbols.len() {
        return Err(CircuitError::Overflow);
    }
    let no_prices = crate::maps::PriceMap { entries: Vec::new() };
    let prev_prices = match previous {
        Some(prev) => &prev.snapshot_blnd.market_price,
        None => &no_prices,
    };
    proof {
        assert(no_prices.view() =~= Seq::<(Seq<char>, i64)>::empty());
        assert(empty@ =~= Seq::<String>::empty());
    }
    build_pnl_circuit(
        records,
        &prev_symbols,
        prev_prices,
        &curt_symbols,
        &current.snapshot_blnd.market_price,
        current.msg.pnl,
    )
}

/// Why a proof is rejected before its constraint-system proof is checked.
#[derive(Clone, Copy, Debug, PartialEq, Eq, Structural)]
pub enum VerifyError {
    /// The proof was made for another protocol version.
    Version,
    Integrity(IntegrityError),
    Signature(SigError),
    Circuit(CircuitError),
}

/// Checks a proof's protocol version, hashes and signatures, in that order,
/// and returns the constraint system that its constraint-system proof must
/// then satisfy.
pub fn verify(proof: &ZKPNLProof) -> (r: Result<PnlCircuit, VerifyError>)
    ensures
        r matches Err(VerifyError::Version) <==> proof.protocol_version != PROTOCOL_VERSION,
        r matches Err(VerifyError::Integrity(_)) <==> proof.protocol_version == PROTOCOL_VERSION
            && !proof.hashes_ok(),
        r matches Err(VerifyError::Signature(_)) <==> proof.protocol_version == PROTOCOL_VERSION
            && proof.hashes_ok() && !proof.sigs_ok(),
        r matches Err(VerifyError::Circuit(e)) ==> proof.protocol_version == PROTOCOL_VERSION
            && proof.hashes_ok() && proof.sigs_ok() && proof.verifier_outcome() == Err::<
            (),
            CircuitError,
        >(e),
        r is Ok <==> proof.protocol_version == PROTOCOL_VERSION && proof.hashes_ok()
            && proof.sigs_ok() && proof.verifier_outcome() == Ok::<(), CircuitError>(()),
        r matches Ok(c) ==> proof.verifier_result(Ok(c)),
{
    if proof.protocol_version != PROTOCOL_VERSION {
        return Err(VerifyError::Version);
    }
    if let Err(e) = proof.verify_hash() {
        return Err(VerifyError::Integrity(e));
    }
    if let Err(e) = proof.verify_sig() {
        return Err(VerifyError::Signature(e));
    }
    match proof.verifier_circuit() {
        Ok(c) => Ok(c),
        Err(e) => Err(VerifyError::Circuit(e)),
    }
}

/// The second components of an association list, in order.
pub open spec fn second_of(es: Seq<(String, String)>) -> Seq<String> {
    es.map_values(|e: (String, String)| e.1)
}

/// The quantity commitments of a list of records, in order.
pub open spec fn qty_commitments(rs: Seq<BlindedRecord>) -> Seq<String> {
    rs.map_values(|r: BlindedRecord| r.msg.qty)
}

fn push_seconds(out: &mut Vec<String>, entries: &Vec<(String, String)>)
    ensures
        final(out)@ == old(out)@ + second_of(entries@),
{
    let ghost start = out@;
    let mut i: usize = 0;
    while i < entries.len()
        invariant
            i <= entries.len(),
            out@ == start + second_of(entries@.subrange(0, i as int)),
        decreases entries.len() - i,
    {
        out.push(entries[i].1.clone());
        proof {
            assert(second_of(entries@.subrange(0, i + 1)) =~= second_of(
                entries@.subrange(0, i as int),
            ).push(entries@[i as int].1));
        }
        i = i + 1;
    }
    proof {
        assert(entries@.subrange(0, entries.len() as int) =~= entries@);
    }
}

impl ZKPNLProof {
    /// The commitments to the circuit's variables, in variable order: each
    /// record's quantity commitment, then the previous snapshot's size
    /// commitments, then the current snapshot's.
    pub fn commitments(&self) -> (r: Vec<String>)
        ensures
            r@ == qty_commitments(self.current_snapshot.msg.records@) + (match self.previous_snapshot {
                Some(prev) => second_of(prev.msg.portfolio@),
                None => Seq::<String>::empty(),
            }) + second_of(self.current_snapshot.msg.portfolio@),
    {
        let records = &self.current_snapshot.msg.records;
        let mut r: Vec<String> = Vec::new();
        let mut i: usize = 0;
        while i < records.len()
            invariant
                i <= records.len(),
                r@ == qty_commitments(records@.subrange(0, i as int)),
            decreases records.len() - i,
        {
            r.push(records[i].msg.qty.clone());
            proof {
                assert(qty_commitments(records@.subrange(0, i + 1)) =~= qty_commitments(
                    records@.subrange(0, i as int),
                ).push(records@[i as int].msg.qty));
            }
            i = i + 1;
        }
        proof {
            assert(records@.subrange(0, records.len() as int) =~= records@);
        }
        let ghost after_records = r@;
        match &self.previous_snapshot {
            Some(prev) => push_seconds(&mut r, &prev.msg.portfolio),
            None => {
                assert(after_records + Seq::<String>::empty() =~= after_records);
            },
        }
        push_seconds(&mut r, &self.current_snapshot.msg.portfolio);
        r
    }
}

/// The opening of each record's quantity commitment: `(qty, blinding)`.
pub open spec fn record_openings(rs: Seq<Record>) -> Seq<(i64, String)> {
    rs.map_values(|r: Record| (r.trade.qty, r.trade.qty_blnd))
}

/// The opening of each position's size commitment, with the blinding that
/// the snapshot stores for its symbol.
pub open spec fn port_openings(s: Snapshot) -> Seq<(i64, String)> {
    let b = s.snapshot_blnd;
    Seq::new(
        b.portfolio.entries@.len(),
        |j: int|
            (
                b.portfolio.entries@[j].1,
                b.portfolio_blnd@[find_sym(string_keys(b.portfolio_blnd@), b.portfolio.entries@[j].0@)].1,
            ),
    )
}

/// Every symbol of the snapshot's portfolio has a stored blinding.
pub open spec fn blindings_kept(s: Snapshot) -> bool {
    forall|j: int|
        0 <= j < s.snapshot_blnd.portfolio.entries@.len() ==> find_sym(
            string_keys(s.snapshot_blnd.portfolio_blnd@),
            (#[trigger] s.snapshot_blnd.portfolio.entries@[j]).0@,
        ) >= 0
}

fn push_port_openings(out: &mut Vec<(i64, String)>, s: &Snapshot) -> (ok: bool)
    ensures
        ok == blindings_kept(*s),
        ok ==> final(out)@ == old(out)@ + port_openings(*s),
{
    let ghost start = out@;
    let entries = &s.snapshot_blnd.portfolio.entries;
    let blnd = &s.snapshot_blnd.portfolio_blnd;
    let mut j: usize = 0;
    while j < entries.len()
        invariant
            j <= entries.len(),
            entries == &s.snapshot_blnd.portfolio.entries,
            blnd == &s.snapshot_blnd.portfolio_blnd,
            out@ == start + port_openings(*s).subrange(0, j as int),
            forall|k: int|
                0 <= k < j ==> find_sym(string_keys(blnd@), (#[trigger] entries@[k]).0@) >= 0,
        decreases entries.len() - j,
    {
        proof {
            lemma_find_sym(string_keys(blnd@), entries@[j as int].0@);
        }
        match find_symbol(blnd, &entries[j].0) {
            Some(k) => {
                out.push((entries[j].1, blnd[k].1.clone()));
                proof {
                    assert(port_openings(*s).subrange(0, j + 1) =~= port_openings(*s).subrange(
                        0,
                        j as int,
                    ).push(port_openings(*s)[j as int]));
                }
            },
            None => {
                return false;
            },
        }
        j = j + 1;
    }
    proof {
        assert(port_openings(*s).subrange(0, entries.len() as int) =~= port_openings(*s));
    }
    true
}

/// The openings `(value, blinding)` of the circuit's variables that the
/// prover commits to, in variable order: each covered record's quantity, then
/// the previous portfolio's sizes, then the current one's. `None` where a
/// position's blinding is missing, so that its commitment cannot be opened.
pub fn prover_openings(previous: Option<&Snapshot>, current: &Snapshot) -> (r: Option<
    Vec<(i64, String)>,
>)
    ensures
        r is Some <==> (match previous {
            Some(prev) => blindings_kept(*prev),
            None => true,
        }) && blindings_kept(*current),
        r matches Some(v) ==> v@ == record_openings(current.snapshot_blnd.records@) + (match previous {
            Some(prev) => port_openings(*prev),
            None => Seq::<(i64, String)>::empty(),
        }) + port_openings(*current),
{
    let records = &current.snapshot_blnd.records;
    let mut v: Vec<(i64, String)> = Vec::new();
    let mut i: usize = 0;
    while i < records.len()
        invariant
            i <= records.len(),
            v@ == record_openings(records@.subrange(0, i as int)),
        decreases records.len() - i,
    {
        v.push((records[i].trade.qty, records[i].trade.qty_blnd.clone()));
        proof {
            assert(record_openings(records@.subrange(0, i + 1)) =~= record_openings(
                records@.subrange(0, i as int),
            ).push((records@[i as int].trade.qty, records@[i as int].trade.qty_blnd)));
        }
        i = i + 1;
    }
    proof {
        assert(records@.subrange(0, records.len() as int) =~= records@);
    }
    let ghost after_records = v@;
    match previous {
        Some(prev) => {
            if !push_port_openings(&mut v, prev) {
                return None;
            }
        },
        None => {
            assert(after_records + Seq::<(i64, String)>::empty() =~= after_records);
        },
    }
    if !push_port_openings(&mut v, current) {
        return None;
    }
    Some(v)
}

} // verus!
