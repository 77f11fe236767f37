//! The wallet: its keys, its balances and its pending transactions.
use vstd::prelude::*;
use vstd::utf8::encode_utf8;
use crate::codec::hash_eq;
use crate::errors::WalletError;
use crate::hashing::{hash160_hash, hash160_of};
use crate::hex::{get_bytes_from_hex, hex_decode};
use crate::keys::{base58_decoded, decode_base58, public_key_of_secret, secp256k1_public_key};
use crate::signing::{signed_transaction, unsigned_payment};
use crate::transaction::{Outpoint, OutpointView, Transaction, TransactionView, TxOutView};
use crate::utxo_set::{owned, pick, running_totals_fit, UtxoSet};
use crate::blockchain::{header_hash, Block, BlockHeader};
use crate::block_proofs::{
    follow_proof, hashes_view, inclusion_proof, merkle_root, pairs_view, tx_hashes,
    verify_merkle_proof, HashPairView,
};
use crate::errors::NodeError;
use crate::hash_store::HashStore;
use crate::node_state::{block_lookup, get_block_info_from, get_last_block_info, get_merkle_tx_proof};
use crate::ui_protocol::WalletToUICommunication;
use crate::ui_protocol::{TxInfo, UTxOInfo, WalletInfo};
use vstd::string::StringSliceAdditionalSpecFns;

verus! {

pub const BASE_58_CHAR_PRIV_KEY_LENGTH: usize = 52;

pub const HEX_CHAR_PRIV_KEY_LENGTH: usize = 64;

/// A wallet: a key pair, the balances, the pending transactions and the
/// unspent outputs that belong to it.
pub struct Wallet {
    pub pub_key: [u8; 33],
    priv_key: [u8; 32],
    pub balance: i64,
    pub receiving_pending_balance: i64,
    pub sending_pending_balance: i64,
    pub pending_tx: Vec<TxInfo>,
    pub utxos: Vec<(Outpoint, i64)>,
    current_block: usize,
}

/// A wallet as plain values.
pub struct WalletView {
    pub pub_key: Seq<u8>,
    pub priv_key: Seq<u8>,
    pub balance: i64,
    pub receiving_pending_balance: i64,
    pub sending_pending_balance: i64,
    pub pending_tx: Seq<TxInfo>,
    pub utxos: Seq<(Outpoint, i64)>,
    pub current_block: usize,
}

impl View for Wallet {
    type V = WalletView;

    closed spec fn view(&self) -> WalletView {
        WalletView {
            pub_key: self.pub_key@,
            priv_key: self.priv_key@,
            balance: self.balance,
            receiving_pending_balance: self.receiving_pending_balance,
            sending_pending_balance: self.sending_pending_balance,
            pending_tx: self.pending_tx@,
            utxos: self.utxos@,
            current_block: self.current_block,
        }
    }
}

/// The bytes of the secret key that `text` writes: Base58 (a version byte,
/// the key and a five-byte tail) when it has 52 characters, hexadecimal when
/// it has 64.
pub open spec fn secret_key_bytes(text: Seq<u8>) -> Option<Seq<u8>> {
    if text.len() == BASE_58_CHAR_PRIV_KEY_LENGTH {
        match base58_decoded(text) {
            None => None,
            Some(d) => if d.len() < 6 {
                None
            } else {
                Some(d.subrange(1, d.len() - 5))
            },
        }
    } else if text.len() == HEX_CHAR_PRIV_KEY_LENGTH {
        hex_decode(text)
    } else {
        None
    }
}

/// The key pair (secret, public) that `text` gives, when it writes a valid
/// 32-byte secret key.
pub open spec fn wallet_keys(text: Seq<u8>) -> Option<(Seq<u8>, Seq<u8>)> {
    match secret_key_bytes(text) {
        None => None,
        Some(k) => if k.len() != 32 {
            None
        } else {
            match secp256k1_public_key(k) {
                None => None,
                Some(p) => Some((k, p)),
            }
        },
    }
}

/// A pending transaction with the totals the wallet already knows for the
/// same hash (the first match), if any.
pub open spec fn merged_info(p: TxInfo, known: Seq<TxInfo>) -> TxInfo
    decreases known.len(),
{
    if known.len() == 0 {
        p
    } else if known[0].hash@ == p.hash@ {
        TxInfo { hash: p.hash, tx_in_total: known[0].tx_in_total, tx_out_total: known[0].tx_out_total }
    } else {
        merged_info(p, known.skip(1))
    }
}

/// What the pending transactions add to the balance being sent: both totals
/// of each one that spends something.
pub open spec fn sending_total(qs: Seq<TxInfo>) -> int
    decreases qs.len(),
{
    if qs.len() == 0 {
        0
    } else {
        sending_total(qs.drop_last()) + if qs.last().tx_in_total == 0 {
            0
        } else {
            qs.last().tx_in_total + qs.last().tx_out_total
        }
    }
}

/// What the pending transactions add to the balance being received.
pub open spec fn receiving_total(qs: Seq<TxInfo>) -> int
    decreases qs.len(),
{
    if qs.len() == 0 {
        0
    } else {
        receiving_total(qs.drop_last()) + qs.last().tx_out_total
    }
}

/// Every running total stays within 64 bits.
pub open spec fn pending_totals_fit(qs: Seq<TxInfo>) -> bool {
    &&& forall|k: int|
        0 <= k <= qs.len() ==> i64::MIN <= #[trigger] sending_total(qs.take(k)) <= i64::MAX
            && i64::MIN <= receiving_total(qs.take(k)) <= i64::MAX
    &&& forall|i: int|
        0 <= i < qs.len() ==> i64::MIN <= (#[trigger] qs[i]).tx_in_total + qs[i].tx_out_total
            <= i64::MAX
}

impl Wallet {
    /// A wallet of the key pair, with nothing in it.
    pub fn new(pub_key: [u8; 33], priv_key: [u8; 32]) -> (r: Wallet)
        ensures
            r@ == (WalletView {
                pub_key: pub_key@,
                priv_key: priv_key@,
                balance: 0,
                receiving_pending_balance: 0,
                sending_pending_balance: 0,
                pending_tx: Seq::empty(),
                utxos: Seq::empty(),
                current_block: 0,
            }),
    {
        Wallet {
            pub_key,
            priv_key,
            balance: 0,
            receiving_pending_balance: 0,
            sending_pending_balance: 0,
            pending_tx: Vec::new(),
            utxos: Vec::new(),
            current_block: 0,
        }
    }

    /// The secret key, for signing.
    pub fn get_priv_key(&self) -> (r: [u8; 32])
        ensures
            r@ == self@.priv_key,
    {
        self.priv_key
    }

    /// The block the user is looking at.
    pub fn current_block(&self) -> (r: usize)
        ensures
            r == self@.current_block,
    {
        self.current_block
    }

    /// Remembers the block the user is looking at.
    pub fn set_current_block(&mut self, block_number: usize)
        ensures
            final(self)@ == (WalletView { current_block: block_number, ..old(self)@ }),
    {
        self.current_block = block_number;
    }

    /// The hash of the public key, which outputs paying to this wallet name.
    pub fn get_pk_hash(&self) -> (r: [u8; 20])
        ensures
            r@ == hash160_of(self@.pub_key),
    {
        hash160_hash(self.pub_key.as_slice())
    }

    /// The wallet of the secret key written in `priv_key_string`, in Base58
    /// (52 characters) or hexadecimal (64 characters); see `wallet_keys`.
    pub fn from(priv_key_string: String) -> (r: Result<Wallet, WalletError>)
        ensures
            match wallet_keys(encode_utf8(priv_key_string@)) {
                None => r == Err::<Wallet, WalletError>(WalletError::ErrorHandlingPrivKey),
                Some((k, p)) => r matches Ok(w) && w@ == (WalletView {
                    pub_key: p,
                    priv_key: k,
                    balance: 0,
                    receiving_pending_balance: 0,
                    sending_pending_balance: 0,
                    pending_tx: Seq::empty(),
                    utxos: Seq::empty(),
                    current_block: 0,
                }),
            },
    {
        let text = priv_key_string.as_str().as_bytes();
        let len = text.len();
        let key_bytes: Vec<u8> = if len == BASE_58_CHAR_PRIV_KEY_LENGTH {
            let decoded = match decode_base58(text) {
                Some(d) => d,
                None => return Err(WalletError::ErrorHandlingPrivKey),
            };
            if decoded.len() < 6 {
                return Err(WalletError::ErrorHandlingPrivKey);
            }
            let mut k: Vec<u8> = Vec::new();
            let mut i: usize = 1;
            while i < decoded.len() - 5
                invariant
                    1 <= i <= decoded@.len() - 5,
                    decoded@.len() >= 6,
                    k@ == decoded@.subrange(1, i as int),
                decreases decoded@.len() - 5 - i,
            {
                k.push(decoded[i]);
                i = i + 1;
                assert(k@ =~= decoded@.subrange(1, i as int));
            }
            k
        } else if len == HEX_CHAR_PRIV_KEY_LENGTH {
            match get_bytes_from_hex(priv_key_string.clone()) {
                Some(b) => b,
                None => return Err(WalletError::ErrorHandlingPrivKey),
            }
        } else {
            return Err(WalletError::ErrorHandlingPrivKey);
        };
        assert(secret_key_bytes(text@) == Some(key_bytes@));
        if key_bytes.len() != 32 {
            return Err(WalletError::ErrorHandlingPrivKey);
        }
        let pub_key = match public_key_of_secret(key_bytes.as_slice()) {
            Some(p) => p,
            None => return Err(WalletError::ErrorHandlingPrivKey),
        };
        let mut priv_key = [0u8; 32];
        let mut i: usize = 0;
        while i < 32
            invariant
                i <= 32,
                key_bytes@.len() == 32,
                priv_key@.len() == 32,
                forall|j: int| 0 <= j < i ==> priv_key@[j] == key_bytes@[j],
            decreases 32 - i,
        {
            priv_key[i] = key_bytes[i];
            i = i + 1;
        }
        assert(priv_key@ =~= key_bytes@);
        Ok(Wallet::new(pub_key, priv_key))
    }

    /// Replaces the pending transactions by those the node reports, keeping
    /// the totals the wallet already knew for the same hashes, and sets both
    /// pending balances from them (see `merged_info`, `sending_total` and
    /// `receiving_total`).
    pub fn update_pending_tx(&mut self, pending_tx_info: Vec<TxInfo>)
        requires
            pending_totals_fit(
                pending_tx_info@.map_values(|p: TxInfo| merged_info(p, old(self)@.pending_tx)),
            ),
        ensures
            ({
                let qs = pending_tx_info@.map_values(|p: TxInfo| merged_info(p, old(self)@.pending_tx));
                final(self)@ == (WalletView {
                    pending_tx: qs,
                    sending_pending_balance: sending_total(qs) as i64,
                    receiving_pending_balance: receiving_total(qs) as i64,
                    ..old(self)@
                })
            }),
    {
        let ghost known = self@.pending_tx;
        let ghost qs = pending_tx_info@.map_values(|p: TxInfo| merged_info(p, known));
        let mut new_pending: Vec<TxInfo> = Vec::new();
        let mut sending: i64 = 0;
        let mut receiving: i64 = 0;
        let mut i: usize = 0;
        while i < pending_tx_info.len()
            invariant
                i <= pending_tx_info@.len(),
                known == self.pending_tx@,
                qs == pending_tx_info@.map_values(|p: TxInfo| merged_info(p, known)),
                pending_totals_fit(qs),
                new_pending@ == qs.take(i as int),
                sending == sending_total(qs.take(i as int)),
                receiving == receiving_total(qs.take(i as int)),
            decreases pending_tx_info@.len() - i,
        {
            let p = pending_tx_info[i];
            let mut node_pending = p;
            let mut j: usize = 0;
            assert(known.skip(0) =~= known);
            while j < self.pending_tx.len()
                invariant_except_break
                    j <= self.pending_tx@.len(),
                    known == self@.pending_tx,
                    node_pending == p,
                    merged_info(p, known) == merged_info(p, known.skip(j as int)),
                ensures
                    node_pending == merged_info(p, known),
                decreases self.pending_tx@.len() - j,
            {
                let wallet_pending = self.pending_tx[j];
                assert(known.skip(j as int)[0] == wallet_pending);
                if hash_eq(&wallet_pending.hash, &node_pending.hash) {
                    node_pending.tx_out_total = wallet_pending.tx_out_total;
                    node_pending.tx_in_total = wallet_pending.tx_in_total;
                    break;
                }
                assert(known.skip(j as int).skip(1) =~= known.skip(j + 1));
                j = j + 1;
            }
            proof {
                assert(qs[i as int] == node_pending);
                assert(qs.take(i + 1).drop_last() =~= qs.take(i as int));
                assert(qs.take(i + 1).last() == node_pending);
                assert(i64::MIN <= sending_total(qs.take(i + 1)) <= i64::MAX);
                assert(i64::MIN <= receiving_total(qs.take(i + 1)) <= i64::MAX);
                assert(i64::MIN <= qs[i as int].tx_in_total + qs[i as int].tx_out_total <= i64::MAX);
            }
            if node_pending.tx_in_total != 0 {
                sending = sending + (node_pending.tx_in_total + node_pending.tx_out_total);
            }
            receiving = receiving + node_pending.tx_out_total;
            new_pending.push(node_pending);
            i = i + 1;
            assert(new_pending@ =~= qs.take(i as int));
        }
        assert(qs.take(i as int) =~= qs);
        self.receiving_pending_balance = receiving;
        self.sending_pending_balance = sending;
        self.pending_tx = new_pending;
        assert(self@.pending_tx == qs);
    }
}

/// Whether the sums of a payment of `amount` with `fee` from the outputs in
/// `es` paying to `pk_hash` stay within 64 bits.
pub open spec fn payment_fits(es: Seq<(OutpointView, TxOutView)>, pk_hash: Seq<u8>, amount: i64, fee: i64) -> bool {
    &&& i64::MIN <= amount + fee <= i64::MAX
    &&& running_totals_fit(owned(es, pk_hash))
    &&& ({
        let chosen = pick(es, pk_hash, amount + fee);
        chosen.1 >= amount + fee ==> i64::MIN <= chosen.1 - amount <= i64::MAX && i64::MIN
            <= chosen.1 - amount - fee <= i64::MAX
    })
}

/// The payment of `amount` to `address` with `fee` by the keys `pub_key` and
/// `priv_key` from the outputs in `es`: those paying to the key are picked
/// until they pass `amount + fee` (see `pick`), too little being
/// `ErrorNotEnoughSatoshis`; the change goes back to the key, and a key that
/// cannot sign is `ErrorCreatingTx`.
pub open spec fn payment_result(
    es: Seq<(OutpointView, TxOutView)>,
    pub_key: Seq<u8>,
    priv_key: Seq<u8>,
    amount: i64,
    fee: i64,
    address: Seq<u8>,
) -> Result<TransactionView, WalletError> {
    let chosen = pick(es, hash160_of(pub_key), amount + fee);
    if chosen.1 < amount + fee {
        Err(WalletError::ErrorNotEnoughSatoshis)
    } else {
        match signed_transaction(
            unsigned_payment((chosen.1 - amount - fee) as i64, amount, chosen.0, pub_key, address),
            pub_key,
            priv_key,
        ) {
            None => Err(WalletError::ErrorCreatingTx),
            Some(t) => Ok(t),
        }
    }
}

impl Wallet {
    /// The payment of `amount` to `address` with `fee`, signed by this
    /// wallet (see `payment_result`). Sending the transaction is left to the
    /// caller.
    pub fn create_transaction(&self, utxo_set: &UtxoSet, amount: i64, fee: i64, address: [u8; 25]) -> (r:
        Result<Transaction, WalletError>)
        requires
            payment_fits(utxo_set@, hash160_of(self@.pub_key), amount, fee),
        ensures
            match payment_result(utxo_set@, self@.pub_key, self@.priv_key, amount, fee, address@) {
                Ok(t) => r matches Ok(tx) && tx@ == t,
                Err(e) => r == Err::<Transaction, WalletError>(e),
            },
    {
        let pk_hash = self.get_pk_hash();
        let (unspent_outpoints, unspent_balance) = match utxo_set.get_utxos_sum_up_to(
            pk_hash,
            amount + fee,
        ) {
            Ok(found) => found,
            Err(_) => return Err(WalletError::ErrorNotEnoughSatoshis),
        };
        match Transaction::create(
            amount,
            fee,
            unspent_outpoints,
            unspent_balance,
            self.pub_key,
            self.priv_key,
            address,
        ) {
            Ok(tx) => Ok(tx),
            Err(_) => Err(WalletError::ErrorCreatingTx),
        }
    }

    /// The payment of `create_transaction` when its sums stay within 64 bits
    /// (see `payment_fits`), and `None` when they do not.
    pub fn create_transaction_checked(&self, utxo_set: &UtxoSet, amount: i64, fee: i64, address: [u8; 25]) -> (r:
        Option<Result<Transaction, WalletError>>)
        ensures
            r is None <==> !payment_fits(utxo_set@, hash160_of(self@.pub_key), amount, fee),
            r matches Some(res) ==> match payment_result(
                utxo_set@,
                self@.pub_key,
                self@.priv_key,
                amount,
                fee,
                address@,
            ) {
                Ok(t) => res matches Ok(tx) && tx@ == t,
                Err(e) => res == Err::<Transaction, WalletError>(e),
            },
    {
        let pk_hash = self.get_pk_hash();
        let total = match amount.checked_add(fee) {
            Some(t) => t,
            None => return None,
        };
        if !utxo_set.owned_totals_fit(pk_hash) {
            return None;
        }
        match utxo_set.get_utxos_sum_up_to(pk_hash, total) {
            Ok((_, sum)) => {
                let change = match sum.checked_sub(amount) {
                    Some(c) => c,
                    None => return None,
                };
                if change.checked_sub(fee).is_none() {
                    return None;
                }
            },
            Err(_) => {},
        }
        Some(self.create_transaction(utxo_set, amount, fee, address))
    }
}


/// The error the user interface is told of when a block cannot be shown.
pub open spec fn block_info_error(e: NodeError) -> WalletError {
    if e == NodeError::ErrorFindingBlock {
        WalletError::ErrorFindingBlock
    } else {
        WalletError::ErrorGettingBlockInfo
    }
}

impl Wallet {
    /// Shows the block numbered `block_number` (see `get_block_info_from`),
    /// which becomes the wallet's current block; a block that is not found
    /// is `ErrorFindingBlock`.
    pub fn handle_get_block_info(
        &mut self,
        block_headers: &Vec<BlockHeader>,
        blockchain: &HashStore<Block>,
        block_number: usize,
    ) -> (r: Result<WalletToUICommunication, WalletError>)
        ensures
            match block_lookup(block_number, block_headers@, blockchain@) {
                Err(e) => r == Err::<WalletToUICommunication, WalletError>(block_info_error(e))
                    && final(self)@ == old(self)@,
                Ok(n) => r matches Ok(WalletToUICommunication::BlockInfo(info)) && info.block_number
                    == n && final(self)@ == (WalletView { current_block: n, ..old(self)@ }),
            },
            r matches Ok(WalletToUICommunication::BlockInfo(info)) ==> {
                let h = header_hash(block_headers@[block_number - 1]@);
                &&& info.block_header@ == blockchain@[h]@.header
                &&& hashes_view(info.block_tx_hashes@) == tx_hashes(blockchain@[h]@)
            },
    {
        match get_block_info_from(block_number, block_headers, blockchain) {
            Ok(block_info) => {
                self.current_block = block_info.block_number;
                Ok(WalletToUICommunication::BlockInfo(block_info))
            },
            Err(error) => {
                let wallet_error = match error {
                    NodeError::ErrorFindingBlock => WalletError::ErrorFindingBlock,
                    _ => WalletError::ErrorGettingBlockInfo,
                };
                Err(wallet_error)
            },
        }
    }

    /// Shows the last block of the chain, which becomes the wallet's current
    /// block; an empty chain, or a last block that is not held, is
    /// `ErrorFindingBlock`.
    pub fn handle_last_block_info(&mut self, block_headers: &Vec<BlockHeader>, blockchain: &HashStore<Block>) -> (r:
        Result<WalletToUICommunication, WalletError>)
        ensures
            match block_lookup(block_headers.len(), block_headers@, blockchain@) {
                Err(e) => r == Err::<WalletToUICommunication, WalletError>(block_info_error(e))
                    && final(self)@ == old(self)@,
                Ok(n) => r matches Ok(WalletToUICommunication::BlockInfo(info)) && info.block_number
                    == n && final(self)@ == (WalletView { current_block: n, ..old(self)@ }),
            },
            r matches Ok(WalletToUICommunication::BlockInfo(info)) ==> {
                let h = header_hash(block_headers@.last()@);
                &&& info.block_header@ == blockchain@[h]@.header
                &&& hashes_view(info.block_tx_hashes@) == tx_hashes(blockchain@[h]@)
            },
    {
        let n = block_headers.len();
        proof {
            if n > 0 {
                assert(block_headers@[n - 1] == block_headers@.last());
            }
        }
        match get_last_block_info(block_headers, blockchain) {
            Ok(block_info) => {
                self.current_block = block_info.block_number;
                Ok(WalletToUICommunication::BlockInfo(block_info))
            },
            Err(error) => {
                let wallet_error = match error {
                    NodeError::ErrorFindingBlock => WalletError::ErrorFindingBlock,
                    _ => WalletError::ErrorGettingBlockInfo,
                };
                Err(wallet_error)
            },
        }
    }

    /// Asks for the proof that the transaction `tx_hash` is in the block
    /// numbered `block_index` and checks it: the answer is whether following
    /// the proof from the hash reaches the Merkle root. A block that is not
    /// found is `ErrorObtainingTxProof`.
    pub fn handle_obtain_tx_proof(
        &self,
        block_headers: &Vec<BlockHeader>,
        blockchain: &HashStore<Block>,
        tx_hash: [u8; 32],
        block_index: usize,
    ) -> (r: Result<WalletToUICommunication, WalletError>)
        ensures
            match block_lookup(block_index, block_headers@, blockchain@) {
                Err(_) => r == Err::<WalletToUICommunication, WalletError>(
                    WalletError::ErrorObtainingTxProof,
                ),
                Ok(_) => {
                    let b = blockchain@[header_hash(block_headers@[block_index - 1]@)]@;
                    r matches Ok(WalletToUICommunication::ResultOFTXProof(found)) && found == (if b.transactions.len() > 0 {
                        follow_proof(inclusion_proof(tx_hashes(b), tx_hash@), tx_hash@) == Some(
                            merkle_root(tx_hashes(b)),
                        )
                    } else {
                        tx_hash@ == b.header.merkle_root_hash
                    })
                },
            },
    {
        let (merkle_proof, merkle_root) = match get_merkle_tx_proof(
            tx_hash,
            block_index,
            block_headers,
            blockchain,
        ) {
            Ok(found) => found,
            Err(_) => return Err(WalletError::ErrorObtainingTxProof),
        };
        proof {
            if merkle_proof@.len() == 0 {
                assert(pairs_view(merkle_proof@) =~= Seq::<HashPairView>::empty());
            }
        }
        Ok(WalletToUICommunication::ResultOFTXProof(verify_merkle_proof(tx_hash, &merkle_proof, merkle_root)))
    }

    /// The payment the user asks for: `receiver_address` is read as Base58
    /// and must give 25 bytes, else it is `ErrorSendingTx`; sums beyond 64
    /// bits are `ErrorCreatingTx`; the payment is then that of
    /// `create_transaction`. Sending it is left to the caller.
    pub fn handle_create_tx(
        &self,
        utxo_set: &UtxoSet,
        amount: i64,
        fee: i64,
        receiver_address: String,
    ) -> (r: Result<Transaction, WalletError>)
        ensures
            match base58_decoded(encode_utf8(receiver_address@)) {
                None => r == Err::<Transaction, WalletError>(WalletError::ErrorSendingTx),
                Some(a) => if a.len() != 25 {
                    r == Err::<Transaction, WalletError>(WalletError::ErrorSendingTx)
                } else if !payment_fits(utxo_set@, hash160_of(self@.pub_key), amount, fee) {
                    r == Err::<Transaction, WalletError>(WalletError::ErrorCreatingTx)
                } else {
                    match payment_result(utxo_set@, self@.pub_key, self@.priv_key, amount, fee, a) {
                        Ok(t) => r matches Ok(tx) && tx@ == t,
                        Err(e) => r == Err::<Transaction, WalletError>(e),
                    }
                },
            },
    {
        let text = receiver_address.as_str().as_bytes();
        let address_bytes = match decode_base58(text) {
            Some(b) => b,
            None => return Err(WalletError::ErrorSendingTx),
        };
        if address_bytes.len() != 25 {
            return Err(WalletError::ErrorSendingTx);
        }
        let mut address: [u8; 25] = [0; 25];
        let mut i: usize = 0;
        while i < 25
            invariant
                i <= 25,
                address_bytes@.len() == 25,
                forall|j: int| 0 <= j < i ==> address@[j] == address_bytes@[j],
            decreases 25 - i,
        {
            address[i] = address_bytes[i];
            i = i + 1;
        }
        assert(address@ =~= address_bytes@);
        match self.create_transaction_checked(utxo_set, amount, fee, address) {
            Some(res) => res,
            None => Err(WalletError::ErrorCreatingTx),
        }
    }
}


impl WalletInfo {
    /// What the user is shown of `wallet`.
    pub fn from(wallet: &Wallet) -> (r: WalletInfo)
        ensures
            r.available_balance == wallet@.balance,
            r.receiving_pending_balance == wallet@.receiving_pending_balance,
            r.sending_pending_balance == wallet@.sending_pending_balance,
            r.pending_tx@ == wallet@.pending_tx,
            r.utxos@.len() == wallet@.utxos.len(),
            forall|i: int|
                0 <= i < r.utxos@.len() ==> (#[trigger] r.utxos@[i]).outpoint@ == wallet@.utxos[i].0@
                    && r.utxos@[i].amount == wallet@.utxos[i].1,
    {
        let mut utxos: Vec<UTxOInfo> = Vec::new();
        let mut i: usize = 0;
        while i < wallet.utxos.len()
            invariant
                i <= wallet.utxos@.len(),
                utxos@.len() == i,
                forall|k: int|
                    0 <= k < i ==> (#[trigger] utxos@[k]).outpoint@ == wallet.utxos@[k].0@
                        && utxos@[k].amount == wallet.utxos@[k].1,
            decreases wallet.utxos@.len() - i,
        {
            let (outpoint, amount) = wallet.utxos[i];
            utxos.push(UTxOInfo::new(outpoint, amount));
            i = i + 1;
        }
        let mut pending_tx: Vec<TxInfo> = Vec::new();
        let mut j: usize = 0;
        while j < wallet.pending_tx.len()
            invariant
                j <= wallet.pending_tx@.len(),
                pending_tx@ == wallet.pending_tx@.take(j as int),
            decreases wallet.pending_tx@.len() - j,
        {
            pending_tx.push(wallet.pending_tx[j]);
            j = j + 1;
            assert(pending_tx@ =~= wallet.pending_tx@.take(j as int));
        }
        assert(wallet.pending_tx@.take(j as int) =~= wallet.pending_tx@);
        WalletInfo {
            available_balance: wallet.balance,
            receiving_pending_balance: wallet.receiving_pending_balance,
            sending_pending_balance: wallet.sending_pending_balance,
            utxos,
            pending_tx,
        }
    }
}

} // verus!
