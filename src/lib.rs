//! A single-node transaction ledger: account balances, signed transfers and a
//! hash-linked, append-only history of every accepted transfer.

pub mod types;
pub mod crypto;
pub mod balances;
pub mod ledger;
pub mod engine;
pub mod skel;
