//! Zero-knowledge profit-and-loss bookkeeping: the quantity algebra, the book
//! arithmetic over it, the constraint system that binds committed trades to a
//! published P&L, and the hash-chained, signed record and snapshot log.
pub mod quantity;
pub mod lincomb;
pub mod book;
pub mod maps;
pub mod digest;
pub mod model;
pub mod collection;
pub mod ledger;
pub mod circuit;
pub mod sig;
pub mod report;
pub mod pnl_proof;
pub mod laws;
