//! A small proof-of-work blockchain node: transactions over unspent outputs,
//! mined blocks, the chain and its index of unspent outputs, wallets, and the
//! messages that peers exchange.

#![allow(non_snake_case)]

pub mod error;
pub mod codec;
pub mod hashing;
pub mod signing;
pub mod address;
pub mod transaction;
pub mod merkle;
pub mod block;
pub mod store;
pub mod wallets;
pub mod blockchain;
pub mod utxoset;
pub mod server;
pub mod cli;
