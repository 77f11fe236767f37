//! A Bitcoin (testnet) node library: wire formats of transactions, blocks and
//! peer-to-peer messages, proof-of-work and Merkle-proof checks, the UTXO
//! bookkeeping of a wallet, and the parsing of the node's configuration.
use vstd::prelude::*;

pub mod codec;
pub mod var_len_int;
pub mod hashing;
pub mod errors;
pub mod transaction;
pub mod environment;
pub mod blockchain;
pub mod block_proofs;
pub mod text;
pub mod messages;
pub mod config;
pub mod basic_config;
pub mod keys;
pub mod signing;
pub mod hex;
pub mod ui_protocol;
pub mod wallet;
pub mod utxo_set;
pub mod hash_store;
pub mod node_state;
pub mod stops;
pub mod pending;
pub mod data_files;
pub mod ibd;
pub mod proof_drawing;
pub mod replies;

verus! {

} // verus!
