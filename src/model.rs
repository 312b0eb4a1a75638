//! Trades, records and snapshots as the library holds them.
//!
//! Times are nanoseconds since the Unix epoch; prices and P&L are fixed-point
//! integers (the real value times the integerize factor). Each record and
//! snapshot keeps the exact canonical serialization of its public message
//! (`msg_json`), which is what its hash covers.
use vstd::prelude::*;
use vstd::string::{StrSliceExecFns, StringExecFns};
use crate::digest::Verifiable;
use crate::maps::{PortMap, PriceMap};

verus! {

/// The scale of fixed-point prices: a price of 1 is held as this integer.
pub const INTEGERIZE_FACTOR: u64 = 1_000_000_000;

/// The version of the proof format.
pub const PROTOCOL_VERSION: u32 = 2;

/// What a record does to a position.
#[derive(Clone, Copy, Debug, PartialEq, Eq, Structural)]
pub enum TradeType {
    /// A position taken over from outside the exchange.
    Inherit,
    /// An ordinary trade.
    Trade,
    /// Settlement that closes the position.
    Deliver,
}

impl TradeType {
    /// Parses a trade type as the command line spells it; the empty word is
    /// an ordinary trade.
    pub fn new(s: &str) -> (r: Option<TradeType>)
        ensures
            r == (if s@ == "inherit"@ {
                Some(TradeType::Inherit)
            } else if s@ == "trade"@ || s@.len() == 0 {
                Some(TradeType::Trade)
            } else if s@ == "deliver"@ {
                Some(TradeType::Deliver)
            } else {
                None
            }),
    {
        let word = String::from_str(s);
        if word == String::from_str("inherit") {
            Some(TradeType::Inherit)
        } else if word == String::from_str("trade") || s.unicode_len() == 0 {
            Some(TradeType::Trade)
        } else if word == String::from_str("deliver") {
            Some(TradeType::Deliver)
        } else {
            None
        }
    }
}

/// Why a commit's price is refused.
#[derive(Clone, Copy, Debug, PartialEq, Eq, Structural)]
pub enum PriceError {
    /// Prices are never negative.
    Negative,
    /// A price below one is taken only with the `force` flag.
    BelowOne,
}

/// Checks a fixed-point commit price: negative prices are refused, and prices
/// below one need `force`.
pub fn check_price(price: i64, force: bool) -> (r: Result<(), PriceError>)
    ensures
        r == (if price < 0 {
            Err(PriceError::Negative)
        } else if price < INTEGERIZE_FACTOR && !force {
            Err(PriceError::BelowOne)
        } else {
            Ok(())
        }),
{
    if price < 0 {
        Err(PriceError::Negative)
    } else if price < INTEGERIZE_FACTOR as i64 && !force {
        Err(PriceError::BelowOne)
    } else {
        Ok(())
    }
}

/// The published face of a trade.
pub struct TradeMsg {
    pub time: i64,
    pub kind: TradeType,
    pub prev_hash: String,
    pub symbol: String,
    /// Fixed-point price.
    pub price: i64,
    /// Base64 Pedersen commitment to the quantity.
    pub qty: String,
    /// Base64 Pedersen commitment to the cumulative P&L.
    pub pnl: String,
}

impl TradeMsg {
    pub fn duplicate(&self) -> (r: TradeMsg)
        ensures
            r == *self,
    {
        TradeMsg {
            time: self.time,
            kind: self.kind,
            prev_hash: self.prev_hash.clone(),
            symbol: self.symbol.clone(),
            price: self.price,
            qty: self.qty.clone(),
            pnl: self.pnl.clone(),
        }
    }
}

/// The private body of a trade, kept by the prover.
pub struct Trade {
    pub time: i64,
    pub kind: TradeType,
    pub symbol: String,
    /// Fixed-point price.
    pub price: i64,
    pub qty: i64,
    /// Base64 blinding of the quantity commitment.
    pub qty_blnd: String,
    /// Fixed-point cumulative P&L since the first trade.
    pub pnl: i64,
    /// Base64 blinding of the P&L commitment.
    pub pnl_blnd: String,
}

/// A signed trade record: the public message and the private trade.
pub struct Record {
    pub hash: String,
    pub sig: String,
    pub msg: TradeMsg,
    /// The canonical serialization of `msg`.
    pub msg_json: String,
    pub trade: Trade,
}

/// A record without its private trade, as verifiers see it.
pub struct BlindedRecord {
    pub hash: String,
    pub sig: String,
    pub msg: TradeMsg,
    /// The canonical serialization of `msg`.
    pub msg_json: String,
}

impl Record {
    /// The record without its private part.
    pub fn blinded(&self) -> (r: BlindedRecord)
        ensures
            r.hash == self.hash,
            r.sig == self.sig,
            r.msg == self.msg,
            r.msg_json == self.msg_json,
    {
        BlindedRecord {
            hash: self.hash.clone(),
            sig: self.sig.clone(),
            msg: self.msg.duplicate(),
            msg_json: self.msg_json.clone(),
        }
    }
}

/// The published face of a snapshot.
pub struct SnapshotMsg {
    pub time: i64,
    pub prev_hash: String,
    /// Fixed-point capital.
    pub capital: i64,
    /// Fixed-point P&L since the previous snapshot.
    pub pnl: i64,
    /// Symbol → base64 commitment to the position size.
    pub portfolio: Vec<(String, String)>,
    /// The records since the previous snapshot.
    pub records: Vec<BlindedRecord>,
}

/// The private body of a snapshot.
pub struct SnapshotBlnd {
    pub time: i64,
    pub portfolio: PortMap<i64>,
    /// Symbol → base64 blinding of the size commitment.
    pub portfolio_blnd: Vec<(String, String)>,
    pub records: Vec<Record>,
    pub market_price: PriceMap,
}

/// A signed portfolio snapshot.
pub struct Snapshot {
    pub hash: String,
    pub sig: String,
    pub msg: SnapshotMsg,
    /// The canonical serialization of `msg`.
    pub msg_json: String,
    pub snapshot_blnd: SnapshotBlnd,
}

/// A snapshot without its private part, with the market prices it used.
pub struct BlindedSnapshot {
    pub hash: String,
    pub sig: String,
    pub msg: SnapshotMsg,
    /// The canonical serialization of `msg`.
    pub msg_json: String,
    pub market_price: PriceMap,
}

impl Verifiable for Record {
    open spec fn hash_view(&self) -> Seq<char> {
        self.hash@
    }

    open spec fn sig_view(&self) -> Seq<char> {
        self.sig@
    }

    open spec fn msg_view(&self) -> Seq<char> {
        self.msg_json@
    }

    open spec fn prev_hash_view(&self) -> Seq<char> {
        self.msg.prev_hash@
    }

    fn hash(&self) -> (r: &str) {
        self.hash.as_str()
    }

    fn sig(&self) -> (r: &str) {
        self.sig.as_str()
    }

    fn msg(&self) -> (r: String) {
        self.msg_json.clone()
    }

    fn prev_hash(&self) -> (r: &str) {
        self.msg.prev_hash.as_str()
    }
}

impl Verifiable for BlindedRecord {
    open spec fn hash_view(&self) -> Seq<char> {
        self.hash@
    }

    open spec fn sig_view(&self) -> Seq<char> {
        self.sig@
    }

    open spec fn msg_view(&self) -> Seq<char> {
        self.msg_json@
    }

    open spec fn prev_hash_view(&self) -> Seq<char> {
        self.msg.prev_hash@
    }

    fn hash(&self) -> (r: &str) {
        self.hash.as_str()
    }

    fn sig(&self) -> (r: &str) {
        self.sig.as_str()
    }

    fn msg(&self) -> (r: String) {
        self.msg_json.clone()
    }

    fn prev_hash(&self) -> (r: &str) {
        self.msg.prev_hash.as_str()
    }
}

impl Verifiable for Snapshot {
    open spec fn hash_view(&self) -> Seq<char> {
        self.hash@
    }

    open spec fn sig_view(&self) -> Seq<char> {
        self.sig@
    }

    open spec fn msg_view(&self) -> Seq<char> {
        self.msg_json@
    }

    open spec fn prev_hash_view(&self) -> Seq<char> {
        self.msg.prev_hash@
    }

    fn hash(&self) -> (r: &str) {
        self.hash.as_str()
    }

    fn sig(&self) -> (r: &str) {
        self.sig.as_str()
    }

    fn msg(&self) -> (r: String) {
        self.msg_json.clone()
    }

    fn prev_hash(&self) -> (r: &str) {
        self.msg.prev_hash.as_str()
    }
}

impl Verifiable for BlindedSnapshot {
    open spec fn hash_view(&self) -> Seq<char> {
        self.hash@
    }

    open spec fn sig_view(&self) -> Seq<char> {
        self.sig@
    }

    open spec fn msg_view(&self) -> Seq<char> {
        self.msg_json@
    }

    open spec fn prev_hash_view(&self) -> Seq<char> {
        self.msg.prev_hash@
    }

    fn hash(&self) -> (r: &str) {
        self.hash.as_str()
    }

    fn sig(&self) -> (r: &str) {
        self.sig.as_str()
    }

    fn msg(&self) -> (r: String) {
        self.msg_json.clone()
    }

    fn prev_hash(&self) -> (r: &str) {
        self.msg.prev_hash.as_str()
    }
}

} // verus!
