//! Core of a small proof-of-stake node: signed value transfers, hash-linked
//! blocks, a ledger state machine, and the rules by which peers exchange
//! them.
//!
//! The ledger is described twice. [`state`] says, on mathematical views,
//! what every operation makes of a ledger; [`ledger`] carries the same
//! operations out and is proved to do what [`state`] says. [`laws`] holds
//! what follows for every ledger: chains stay valid, nonces stay in order,
//! value is conserved.
//!
//! Transactions and blocks travel as canonical JSON. [`transaction`] and
//! [`block`] write it, [`wire`] reads it back, and a text is read exactly
//! when it is what would have been written.
//!
//! SHA-256, Ed25519, hexadecimal text and the escaping of JSON strings are
//! taken from outside implementations, through the few functions whose
//! documentation says so; the clock and the random source likewise.

pub mod accounts;
pub mod block;
pub mod crypto;
pub mod decimal;
pub mod hexcode;
pub mod json;
pub mod launch;
pub mod laws;
pub mod ledger;
pub mod lemmas;
pub mod network;
pub mod reader;
pub mod state;
pub mod system;
pub mod text;
pub mod transaction;
pub mod wallet;
pub mod wire;
