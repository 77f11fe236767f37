//! What the wallet and its user interface tell each other.
use vstd::prelude::*;
use crate::blockchain::{BlockHeader, HeaderView};
use crate::errors::WalletError;
use crate::transaction::{Outpoint, OutpointView};

verus! {

pub const TX_PAGE_LENGTH: usize = 30;

pub const BLOCK_PAGE_LENGTH: usize = 10;

/// A request of the user interface to the wallet.
pub enum UIToWalletCommunication {
    ChangeWallet(String),
    CreateTx(i64, i64, String),
    ObtainTxProof([u8; 32], usize),
    EndOfProgram,
    LastBlockInfo,
    NextBlockInfo,
    PrevBlockInfo,
}

/// An answer of the wallet to the user interface.
pub enum WalletToUICommunication {
    WalletInfo(WalletInfo),
    BlockInfo(BlockInfo),
    WalletError(WalletError),
    ResultOFTXProof(bool),
    FinishedInitializingNode,
    ErrorInitializingNode,
    TxSent,
    WalletFinished,
}

/// A pending transaction of the wallet: what it spends of the wallet's
/// outputs and what it pays to the wallet.
#[derive(Debug, Clone, Copy, PartialEq, Eq)]
pub struct TxInfo {
    pub hash: [u8; 32],
    pub tx_in_total: i64,
    pub tx_out_total: i64,
}

/// An unspent output of the wallet.
#[derive(Debug, Clone, Copy, PartialEq, Eq)]
pub struct UTxOInfo {
    pub outpoint: Outpoint,
    pub amount: i64,
}

/// The state of the wallet, as shown to the user.
pub struct WalletInfo {
    pub available_balance: i64,
    pub receiving_pending_balance: i64,
    pub sending_pending_balance: i64,
    pub utxos: Vec<UTxOInfo>,
    pub pending_tx: Vec<TxInfo>,
}

/// A block as shown to the user: its number, header and transactions.
pub struct BlockInfo {
    pub block_number: usize,
    pub block_header: BlockHeader,
    pub block_tx_hashes: Vec<[u8; 32]>,
}

impl UTxOInfo {
    /// The output `outpoint` worth `amount`.
    pub fn new(outpoint: Outpoint, amount: i64) -> (r: UTxOInfo)
        ensures
            r.outpoint@ == outpoint@,
            r.amount == amount,
    {
        UTxOInfo { outpoint, amount }
    }
}

impl TxInfo {
    /// The pending transaction `hash` with its totals.
    pub fn new(hash: [u8; 32], tx_in_total: i64, tx_out_total: i64) -> (r: TxInfo)
        ensures
            r.hash@ == hash@,
            r.tx_in_total == tx_in_total,
            r.tx_out_total == tx_out_total,
    {
        TxInfo { hash, tx_in_total, tx_out_total }
    }
}

impl BlockInfo {
    /// The block `block_number` with its header and transaction hashes.
    pub fn new(block_number: usize, block_header: BlockHeader, block_tx_hashes: Vec<[u8; 32]>) -> (r:
        BlockInfo)
        ensures
            r.block_number == block_number,
            r.block_header@ == block_header@,
            r.block_tx_hashes@ == block_tx_hashes@,
    {
        BlockInfo { block_number, block_header, block_tx_hashes }
    }
}

} // verus!
