//! The wallet's share of the pending transactions: what each spends of the
//! wallet's outputs and what each pays to it, and what a sent transaction
//! changes in the node's records.
use vstd::prelude::*;
use crate::hash_store::HashStore;
use crate::hashing::double_sha256;
use crate::signing::{p2pkh_pk_hash, tx_in_belongs_to};
use crate::transaction::{
    transaction_bytes, tx_ins_view, tx_outs_view, OutpointView, Transaction, TransactionView, TxIn,
    TxInView, TxOut, TxOutView,
};
use crate::ui_protocol::TxInfo;
use crate::utxo_set::{remove_spent, remove_spent_outputs, value_of, UtxoSet};

verus! {

/// What the inputs among `ins` that `pub_key` unlocks spend of the outputs
/// in the set `es`; an input whose output is not in the set counts nothing.
pub open spec fn in_total(ins: Seq<TxInView>, es: Seq<(OutpointView, TxOutView)>, pub_key: Seq<u8>) -> int
    decreases ins.len(),
{
    if ins.len() == 0 {
        0
    } else {
        in_total(ins.drop_last(), es, pub_key) + if tx_in_belongs_to(ins.last(), pub_key) {
            match value_of(es, ins.last().previous_output) {
                Some(v) => v as int,
                None => 0,
            }
        } else {
            0
        }
    }
}

/// What the outputs among `outs` pay to `pk_hash`.
pub open spec fn out_total(outs: Seq<TxOutView>, pk_hash: Seq<u8>) -> int
    decreases outs.len(),
{
    if outs.len() == 0 {
        0
    } else {
        out_total(outs.drop_last(), pk_hash) + if p2pkh_pk_hash(outs.last()) == Some(pk_hash) {
            outs.last().value as int
        } else {
            0
        }
    }
}

/// How a transaction changes the wallet's balance: what it pays to the
/// wallet when it spends nothing of it, else that minus what it spends.
pub open spec fn pending_amount(
    t: TransactionView,
    es: Seq<(OutpointView, TxOutView)>,
    pub_key: Seq<u8>,
    pk_hash: Seq<u8>,
) -> int {
    let i = in_total(t.tx_in, es, pub_key);
    let o = out_total(t.tx_out, pk_hash);
    if i == 0 {
        o
    } else {
        o - i
    }
}

/// Every running sum of what a transaction spends of and pays to the wallet,
/// and their difference, stays within 64 bits.
pub open spec fn totals_fit(
    t: TransactionView,
    es: Seq<(OutpointView, TxOutView)>,
    pub_key: Seq<u8>,
    pk_hash: Seq<u8>,
) -> bool {
    &&& forall|k: int|
        0 <= k <= t.tx_in.len() ==> i64::MIN <= #[trigger] in_total(t.tx_in.take(k), es, pub_key)
            <= i64::MAX
    &&& forall|k: int|
        0 <= k <= t.tx_out.len() ==> i64::MIN <= #[trigger] out_total(t.tx_out.take(k), pk_hash)
            <= i64::MAX
    &&& i64::MIN <= out_total(t.tx_out, pk_hash) - in_total(t.tx_in, es, pub_key) <= i64::MAX
}

/// The wallet's share of the pending transactions `txs`, in order: for each
/// one that changes the wallet's balance, its hash, what it spends of the
/// wallet and what it pays to it.
pub open spec fn pending_info(
    txs: Seq<(Seq<u8>, Transaction)>,
    es: Seq<(OutpointView, TxOutView)>,
    pub_key: Seq<u8>,
    pk_hash: Seq<u8>,
) -> Seq<(Seq<u8>, int, int)>
    decreases txs.len(),
{
    if txs.len() == 0 {
        Seq::empty()
    } else {
        let before = pending_info(txs.drop_last(), es, pub_key, pk_hash);
        let t = txs.last().1@;
        if pending_amount(t, es, pub_key, pk_hash) != 0 {
            before.push(
                (
                    double_sha256(transaction_bytes(t)),
                    in_total(t.tx_in, es, pub_key),
                    out_total(t.tx_out, pk_hash),
                ),
            )
        } else {
            before
        }
    }
}

/// A record of a pending transaction as plain values.
pub open spec fn info_view(t: TxInfo) -> (Seq<u8>, int, int) {
    (t.hash@, t.tx_in_total as int, t.tx_out_total as int)
}

/// What the inputs that `pub_key` unlocks spend of the outputs in
/// `utxo_set`.
fn tx_in_amount(tx_in: &Vec<TxIn>, utxo_set: &UtxoSet, pub_key: &[u8; 33]) -> (r: i64)
    requires
        forall|k: int|
            0 <= k <= tx_in@.len() ==> i64::MIN <= #[trigger] in_total(
                tx_ins_view(tx_in@).take(k),
                utxo_set@,
                pub_key@,
            ) <= i64::MAX,
    ensures
        r == in_total(tx_ins_view(tx_in@), utxo_set@, pub_key@),
{
    let ghost ins = tx_ins_view(tx_in@);
    let mut total: i64 = 0;
    let mut i: usize = 0;
    assert(ins.take(0) =~= Seq::<TxInView>::empty());
    while i < tx_in.len()
        invariant
            i <= tx_in@.len(),
            ins == tx_ins_view(tx_in@),
            forall|k: int|
                0 <= k <= tx_in@.len() ==> i64::MIN <= #[trigger] in_total(
                    ins.take(k),
                    utxo_set@,
                    pub_key@,
                ) <= i64::MAX,
            total == in_total(ins.take(i as int), utxo_set@, pub_key@),
        decreases tx_in@.len() - i,
    {
        proof {
            assert(ins.take(i + 1).drop_last() =~= ins.take(i as int));
            assert(ins.take(i + 1).last() == tx_in@[i as int]@);
            assert(i64::MIN <= in_total(ins.take(i + 1), utxo_set@, pub_key@) <= i64::MAX);
        }
        if tx_in[i].belongs_to(pub_key) {
            match utxo_set.get(tx_in[i].previous_output()) {
                Some(prev) => {
                    total = total + prev.value;
                },
                None => {},
            }
        }
        i = i + 1;
    }
    assert(ins.take(i as int) =~= ins);
    total
}

/// What the outputs pay to `pk_hash`.
fn tx_out_amount(tx_out: &Vec<TxOut>, pk_hash: [u8; 20]) -> (r: i64)
    requires
        forall|k: int|
            0 <= k <= tx_out@.len() ==> i64::MIN <= #[trigger] out_total(
                tx_outs_view(tx_out@).take(k),
                pk_hash@,
            ) <= i64::MAX,
    ensures
        r == out_total(tx_outs_view(tx_out@), pk_hash@),
{
    let ghost outs = tx_outs_view(tx_out@);
    let mut total: i64 = 0;
    let mut i: usize = 0;
    assert(outs.take(0) =~= Seq::<TxOutView>::empty());
    while i < tx_out.len()
        invariant
            i <= tx_out@.len(),
            outs == tx_outs_view(tx_out@),
            forall|k: int|
                0 <= k <= tx_out@.len() ==> i64::MIN <= #[trigger] out_total(
                    outs.take(k),
                    pk_hash@,
                ) <= i64::MAX,
            total == out_total(outs.take(i as int), pk_hash@),
        decreases tx_out@.len() - i,
    {
        proof {
            assert(outs.take(i + 1).drop_last() =~= outs.take(i as int));
            assert(outs.take(i + 1).last() == tx_out@[i as int]@);
            assert(i64::MIN <= out_total(outs.take(i + 1), pk_hash@) <= i64::MAX);
        }
        if tx_out[i].belongs_to(pk_hash) {
            total = total + tx_out[i].value;
        }
        i = i + 1;
    }
    assert(outs.take(i as int) =~= outs);
    total
}

/// The wallet's share of the pending transactions (see `pending_info`):
/// the wallet is known by `pub_key`, which unlocks its inputs, and by
/// `wallet_pk_hash`, to which its outputs pay.
pub fn get_pending_tx_info_from(
    pending_tx: &HashStore<Transaction>,
    utxo_set: &UtxoSet,
    pub_key: &[u8; 33],
    wallet_pk_hash: [u8; 20],
) -> (r: Vec<TxInfo>)
    requires
        forall|j: int|
            0 <= j < pending_tx.entry_seq().len() ==> totals_fit(
                (#[trigger] pending_tx.entry_seq()[j]).1@,
                utxo_set@,
                pub_key@,
                wallet_pk_hash@,
            ),
    ensures
        r@.map_values(|t: TxInfo| info_view(t)) == pending_info(
            pending_tx.entry_seq(),
            utxo_set@,
            pub_key@,
            wallet_pk_hash@,
        ),
{
    let ghost txs = pending_tx.entry_seq();
    let n = pending_tx.len();
    let mut wallet_pending_tx: Vec<TxInfo> = Vec::new();
    let mut i: usize = 0;
    assert(txs.take(0) =~= Seq::<(Seq<u8>, Transaction)>::empty());
    assert(wallet_pending_tx@.map_values(|t: TxInfo| info_view(t)) =~= Seq::empty());
    while i < n
        invariant
            i <= n,
            n == txs.len(),
            txs == pending_tx.entry_seq(),
            forall|j: int|
                0 <= j < txs.len() ==> totals_fit(
                    (#[trigger] txs[j]).1@,
                    utxo_set@,
                    pub_key@,
                    wallet_pk_hash@,
                ),
            wallet_pending_tx@.map_values(|t: TxInfo| info_view(t)) == pending_info(
                txs.take(i as int),
                utxo_set@,
                pub_key@,
                wallet_pk_hash@,
            ),
        decreases n - i,
    {
        let (_, tx) = pending_tx.entry_at(i);
        let ghost t = txs[i as int].1@;
        proof {
            assert(txs.take(i + 1).drop_last() =~= txs.take(i as int));
            assert(txs.take(i + 1).last() == txs[i as int]);
            assert(totals_fit(t, utxo_set@, pub_key@, wallet_pk_hash@));
        }
        let ins = tx.tx_in();
        let outs = tx.tx_out();
        proof {
            assert forall|k: int| 0 <= k <= ins@.len() implies i64::MIN <= #[trigger] in_total(
                tx_ins_view(ins@).take(k),
                utxo_set@,
                pub_key@,
            ) <= i64::MAX by {
                assert(in_total(t.tx_in.take(k), utxo_set@, pub_key@) == in_total(
                    tx_ins_view(ins@).take(k),
                    utxo_set@,
                    pub_key@,
                ));
            }
            assert forall|k: int| 0 <= k <= outs@.len() implies i64::MIN <= #[trigger] out_total(
                tx_outs_view(outs@).take(k),
                wallet_pk_hash@,
            ) <= i64::MAX by {
                assert(out_total(t.tx_out.take(k), wallet_pk_hash@) == out_total(
                    tx_outs_view(outs@).take(k),
                    wallet_pk_hash@,
                ));
            }
        }
        let tx_in_total = tx_in_amount(ins, utxo_set, pub_key);
        let tx_out_total = tx_out_amount(outs, wallet_pk_hash);
        let amount: i64 = if tx_in_total == 0 {
            tx_out_total
        } else {
            tx_out_total - tx_in_total
        };
        if amount != 0 {
            let ghost before = wallet_pending_tx@;
            let info = TxInfo::new(tx.hash(), tx_in_total, tx_out_total);
            wallet_pending_tx.push(info);
            assert(wallet_pending_tx@.map_values(|t: TxInfo| info_view(t)) =~= before.map_values(
                |t: TxInfo| info_view(t),
            ).push(info_view(info)));
        }
        i = i + 1;
    }
    assert(txs.take(n as int) =~= txs);
    wallet_pending_tx
}

/// What sending `transaction` changes in the node's records: the
/// transaction becomes pending under its hash, and the outputs its inputs
/// spend leave the set of unspent outputs.
pub fn record_sent_transaction(
    transaction: Transaction,
    pending_tx: &mut HashStore<Transaction>,
    utxo_set: &mut UtxoSet,
)
    ensures
        final(pending_tx)@ == old(pending_tx)@.insert(
            double_sha256(transaction_bytes(transaction@)),
            transaction,
        ),
        final(utxo_set)@ == remove_spent(old(utxo_set)@, transaction@.tx_in),
{
    let transaction_hash = transaction.hash();
    remove_spent_outputs(transaction.tx_in(), utxo_set);
    pending_tx.insert(transaction_hash, transaction);
}

/// Inputs that the wallet's key does not unlock spend nothing of the
/// wallet, whatever the set holds for the outpoints they name.
pub proof fn lemma_foreign_inputs_spend_nothing(
    ins: Seq<TxInView>,
    es: Seq<(OutpointView, TxOutView)>,
    pub_key: Seq<u8>,
)
    requires
        forall|i: int| 0 <= i < ins.len() ==> !tx_in_belongs_to(#[trigger] ins[i], pub_key),
    ensures
        in_total(ins, es, pub_key) == 0,
    decreases ins.len(),
{
    if ins.len() > 0 {
        let init = ins.drop_last();
        assert forall|i: int| 0 <= i < init.len() implies !tx_in_belongs_to(
            #[trigger] init[i],
            pub_key,
        ) by {
            assert(init[i] == ins[i]);
        }
        lemma_foreign_inputs_spend_nothing(init, es, pub_key);
        assert(!tx_in_belongs_to(ins[ins.len() - 1], pub_key));
    }
}

/// One more input changes what a transaction spends of the wallet only when
/// the wallet's key unlocks it, and then by the value the set holds for its
/// outpoint (nothing when the set holds none); the other inputs and the set
/// are as they were.
pub proof fn lemma_one_more_input(
    ins: Seq<TxInView>,
    x: TxInView,
    es: Seq<(OutpointView, TxOutView)>,
    pub_key: Seq<u8>,
)
    ensures
        !tx_in_belongs_to(x, pub_key) ==> in_total(ins.push(x), es, pub_key) == in_total(
            ins,
            es,
            pub_key,
        ),
        tx_in_belongs_to(x, pub_key) ==> in_total(ins.push(x), es, pub_key) == in_total(
            ins,
            es,
            pub_key,
        ) + match value_of(es, x.previous_output) {
            Some(v) => v as int,
            None => 0int,
        },
{
    assert(ins.push(x).drop_last() =~= ins);
}

/// A pending transaction none of whose inputs the wallet's key unlocks
/// spends nothing of the wallet: it changes the wallet's balance by exactly
/// what it pays to the wallet.
pub proof fn lemma_received_transaction_amount(
    t: TransactionView,
    es: Seq<(OutpointView, TxOutView)>,
    pub_key: Seq<u8>,
    pk_hash: Seq<u8>,
)
    requires
        forall|i: int| 0 <= i < t.tx_in.len() ==> !tx_in_belongs_to(#[trigger] t.tx_in[i], pub_key),
    ensures
        in_total(t.tx_in, es, pub_key) == 0,
        pending_amount(t, es, pub_key, pk_hash) == out_total(t.tx_out, pk_hash),
{
    lemma_foreign_inputs_spend_nothing(t.tx_in, es, pub_key);
}

/// Outputs that do not pay to the wallet's key hash by pay-to-public-key-hash
/// pay nothing to the wallet.
pub proof fn lemma_foreign_outputs_pay_nothing(outs: Seq<TxOutView>, pk_hash: Seq<u8>)
    requires
        forall|i: int| 0 <= i < outs.len() ==> p2pkh_pk_hash(#[trigger] outs[i]) != Some(pk_hash),
    ensures
        out_total(outs, pk_hash) == 0,
    decreases outs.len(),
{
    if outs.len() > 0 {
        let init = outs.drop_last();
        assert forall|i: int| 0 <= i < init.len() implies p2pkh_pk_hash(#[trigger] init[i]) != Some(
            pk_hash,
        ) by {
            assert(init[i] == outs[i]);
        }
        lemma_foreign_outputs_pay_nothing(init, pk_hash);
        assert(p2pkh_pk_hash(outs[outs.len() - 1]) != Some(pk_hash));
    }
}

} // verus!
