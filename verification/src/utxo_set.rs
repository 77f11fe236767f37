//! The set of unspent transaction outputs, kept up to date block by block,
//! and the wallet's view of it.
use vstd::prelude::*;
use crate::blockchain::{block_consistent, header_hash, Block, BlockHeader, BlockView, HeaderView};
use crate::hash_store::HashStore;
use crate::node_state::headers_view;
use crate::ibd::headers_from;
use crate::codec::hash_eq;
use crate::errors::NodeError;
use crate::hashing::double_sha256;
use crate::signing::{p2pkh_pk_hash, tx_in_belongs_to};
use crate::transaction::{
    lemma_tx_out_roundtrip, transaction_bytes, transaction_consistent, tx_out_bytes,
    tx_out_consistent, tx_out_parse, tx_outs_view, tx_ins_view, Outpoint, OutpointView,
    Transaction, TransactionView, TxInView, TxOut, TxOutView,
};
use crate::ui_protocol::TxInfo;

verus! {

/// An entry of the set as plain values.
pub open spec fn entry_view(e: (Outpoint, TxOut)) -> (OutpointView, TxOutView) {
    (e.0@, e.1@)
}

/// No outpoint occurs twice.
pub open spec fn keys_distinct(es: Seq<(OutpointView, TxOutView)>) -> bool {
    forall|i: int, j: int| 0 <= i < j < es.len() ==> es[i].0 != es[j].0
}

/// The entries as a map from outpoint to output.
pub open spec fn entries_map(es: Seq<(OutpointView, TxOutView)>) -> Map<OutpointView, TxOutView>
    decreases es.len(),
{
    if es.len() == 0 {
        Map::empty()
    } else {
        entries_map(es.drop_last()).insert(es.last().0, es.last().1)
    }
}

/// Whether two outpoints are the same.
pub fn outpoint_eq(a: &Outpoint, b: &Outpoint) -> (r: bool)
    ensures
        r == (a@ == b@),
{
    hash_eq(&a.hash, &b.hash) && a.index == b.index
}

/// The unspent outputs, each under the outpoint that names it, in the order
/// they were added.
pub struct UtxoSet {
    entries: Vec<(Outpoint, TxOut)>,
}

impl View for UtxoSet {
    type V = Seq<(OutpointView, TxOutView)>;

    closed spec fn view(&self) -> Seq<(OutpointView, TxOutView)> {
        self.entries@.map_values(|e: (Outpoint, TxOut)| entry_view(e))
    }
}

/// Where `k` lies among the entries, if it does.
pub open spec fn index_of(es: Seq<(OutpointView, TxOutView)>, k: OutpointView) -> Option<int> {
    if exists|i: int| 0 <= i < es.len() && es[i].0 == k {
        Some(choose|i: int| 0 <= i < es.len() && es[i].0 == k)
    } else {
        None
    }
}

/// The entries without the one under `k`.
pub open spec fn remove_key(es: Seq<(OutpointView, TxOutView)>, k: OutpointView) -> Seq<
    (OutpointView, TxOutView),
> {
    match index_of(es, k) {
        None => es,
        Some(i) => es.remove(i),
    }
}

/// The entries with `v` under `k`: in place when `k` is there, at the end
/// otherwise.
pub open spec fn insert_key(es: Seq<(OutpointView, TxOutView)>, k: OutpointView, v: TxOutView) -> Seq<
    (OutpointView, TxOutView),
> {
    match index_of(es, k) {
        None => es.push((k, v)),
        Some(i) => es.update(i, (k, v)),
    }
}

/// The set after the spending of the outputs that `ins` name, in order.
pub open spec fn remove_spent(es: Seq<(OutpointView, TxOutView)>, ins: Seq<TxInView>) -> Seq<
    (OutpointView, TxOutView),
>
    decreases ins.len(),
{
    if ins.len() == 0 {
        es
    } else {
        remove_key(remove_spent(es, ins.drop_last()), ins.last().previous_output)
    }
}

/// The set after the adding of the pay-to-public-key-hash outputs among
/// `outs` of the transaction `txid`, each under its index, as a copy read
/// back from its bytes; `None` when a copy cannot be read.
pub open spec fn add_outputs(es: Seq<(OutpointView, TxOutView)>, txid: Seq<u8>, outs: Seq<TxOutView>) -> Option<
    Seq<(OutpointView, TxOutView)>,
>
    decreases outs.len(),
{
    if outs.len() == 0 {
        Some(es)
    } else {
        match add_outputs(es, txid, outs.drop_last()) {
            None => None,
            Some(before) => if p2pkh_pk_hash(outs.last()) is Some {
                match tx_out_parse(tx_out_bytes(outs.last())) {
                    None => None,
                    Some(copy) => Some(
                        insert_key(
                            before,
                            OutpointView { hash: txid, index: (outs.len() - 1) as u32 },
                            copy,
                        ),
                    ),
                }
            } else {
                Some(before)
            },
        }
    }
}

/// The set after one transaction: what it spends leaves, then what it pays
/// to public-key hashes comes in.
pub open spec fn apply_transaction(es: Seq<(OutpointView, TxOutView)>, t: TransactionView) -> Option<
    Seq<(OutpointView, TxOutView)>,
> {
    add_outputs(remove_spent(es, t.tx_in), double_sha256(transaction_bytes(t)), t.tx_out)
}

/// The set after the transactions of a block, in order.
pub open spec fn apply_transactions(es: Seq<(OutpointView, TxOutView)>, ts: Seq<TransactionView>) -> Option<
    Seq<(OutpointView, TxOutView)>,
>
    decreases ts.len(),
{
    if ts.len() == 0 {
        Some(es)
    } else {
        match apply_transactions(es, ts.drop_last()) {
            None => None,
            Some(before) => apply_transaction(before, ts.last()),
        }
    }
}

/// The value of the output under `k`, if it is in the set.
pub open spec fn value_of(es: Seq<(OutpointView, TxOutView)>, k: OutpointView) -> Option<i64> {
    match index_of(es, k) {
        None => None,
        Some(i) => Some(es[i].1.value),
    }
}

/// The entries paying to `pk_hash`, in order.
pub open spec fn owned(es: Seq<(OutpointView, TxOutView)>, pk_hash: Seq<u8>) -> Seq<
    (OutpointView, TxOutView),
>
    decreases es.len(),
{
    if es.len() == 0 {
        Seq::empty()
    } else if p2pkh_pk_hash(es.last().1) == Some(pk_hash) {
        owned(es.drop_last(), pk_hash).push(es.last())
    } else {
        owned(es.drop_last(), pk_hash)
    }
}

/// The sum of the values of `es`.
pub open spec fn total_value(es: Seq<(OutpointView, TxOutView)>) -> int
    decreases es.len(),
{
    if es.len() == 0 {
        0
    } else {
        total_value(es.drop_last()) + es.last().1.value
    }
}

/// Every running sum of the values of `es` stays within 64 bits.
pub open spec fn running_totals_fit(es: Seq<(OutpointView, TxOutView)>) -> bool {
    forall|k: int| 0 <= k <= es.len() ==> i64::MIN <= #[trigger] total_value(es.take(k)) <= i64::MAX
}

/// The outputs chosen to pay `amount`, with their sum: going through the
/// entries in order, those paying to `pk_hash` are taken until the sum
/// exceeds `amount`.
pub open spec fn pick(es: Seq<(OutpointView, TxOutView)>, pk_hash: Seq<u8>, amount: int) -> (
    Seq<OutpointView>,
    int,
)
    decreases es.len(),
{
    if es.len() == 0 {
        (Seq::empty(), 0)
    } else {
        let before = pick(es.drop_last(), pk_hash, amount);
        if before.1 > amount {
            before
        } else if p2pkh_pk_hash(es.last().1) == Some(pk_hash) {
            (before.0.push(es.last().0), before.1 + es.last().1.value)
        } else {
            before
        }
    }
}

/// The outpoints and values of the entries paying to `pk_hash`, in order.
pub open spec fn owned_values(es: Seq<(OutpointView, TxOutView)>, pk_hash: Seq<u8>) -> Seq<
    (OutpointView, i64),
> {
    owned(es, pk_hash).map_values(|e: (OutpointView, TxOutView)| (e.0, e.1.value))
}

/// No value is negative.
pub open spec fn values_nonnegative(es: Seq<(OutpointView, TxOutView)>) -> bool {
    forall|i: int| 0 <= i < es.len() ==> (#[trigger] es[i]).1.value >= 0
}

/// The entries paying to a key, taken from a prefix, are a prefix of those
/// taken from the whole.
pub proof fn lemma_owned_prefix(es: Seq<(OutpointView, TxOutView)>, pk_hash: Seq<u8>, i: int)
    requires
        0 <= i <= es.len(),
    ensures
        owned(es.take(i), pk_hash).len() <= owned(es, pk_hash).len(),
        owned(es.take(i), pk_hash) == owned(es, pk_hash).take(owned(es.take(i), pk_hash).len() as int),
    decreases es.len() - i,
{
    if i == es.len() {
        assert(es.take(i) =~= es);
        assert(owned(es, pk_hash).take(owned(es, pk_hash).len() as int) =~= owned(es, pk_hash));
    } else {
        lemma_owned_prefix(es, pk_hash, i + 1);
        let a = es.take(i + 1);
        assert(a.drop_last() =~= es.take(i));
        assert(owned(a, pk_hash).take(owned(es.take(i), pk_hash).len() as int) =~= owned(es.take(i), pk_hash));
    }
}

/// The sum of what is picked never passes the sum of all the entries
/// paying to the key, and equals it while it does not exceed `amount`.
pub proof fn lemma_pick_total(es: Seq<(OutpointView, TxOutView)>, pk_hash: Seq<u8>, amount: int)
    requires
        values_nonnegative(es),
    ensures
        pick(es, pk_hash, amount).1 <= amount ==> pick(es, pk_hash, amount).1 == total_value(
            owned(es, pk_hash),
        ),
        pick(es, pk_hash, amount).1 > amount ==> total_value(owned(es, pk_hash)) > amount,
    decreases es.len(),
{
    if es.len() > 0 {
        let init = es.drop_last();
        let e = es.last();
        assert forall|i: int| 0 <= i < init.len() implies (#[trigger] init[i]).1.value >= 0 by {
            assert(init[i] == es[i]);
        }
        lemma_pick_total(init, pk_hash, amount);
        assert(es[es.len() - 1] == e);
        let o = owned(init, pk_hash);
        assert(o.push(e).drop_last() =~= o);
        assert(total_value(o.push(e)) == total_value(o) + e.1.value);
    }
}

/// The law of the choice of outputs: when no value is negative, the choice
/// falls short of `amount` exactly when all the entries paying to the key do.
pub proof fn lemma_pick_enough(es: Seq<(OutpointView, TxOutView)>, pk_hash: Seq<u8>, amount: int)
    requires
        values_nonnegative(es),
    ensures
        pick(es, pk_hash, amount).1 < amount <==> total_value(owned(es, pk_hash)) < amount,
{
    lemma_pick_total(es, pk_hash, amount);
}

/// The outputs picked are outputs of the set that pay to the key, each
/// taken once: with distinct outpoints in the set, the picked outpoints are
/// distinct.
pub proof fn lemma_pick_distinct(es: Seq<(OutpointView, TxOutView)>, pk_hash: Seq<u8>, amount: int)
    requires
        keys_distinct(es),
    ensures
        forall|i: int|
            0 <= i < pick(es, pk_hash, amount).0.len() ==> exists|j: int|
                0 <= j < es.len() && es[j].0 == #[trigger] pick(es, pk_hash, amount).0[i]
                    && p2pkh_pk_hash(es[j].1) == Some(pk_hash),
        forall|i: int, k: int|
            0 <= i < k < pick(es, pk_hash, amount).0.len() ==> #[trigger] pick(
                es,
                pk_hash,
                amount,
            ).0[i] != #[trigger] pick(es, pk_hash, amount).0[k],
    decreases es.len(),
{
    if es.len() > 0 {
        let init = es.drop_last();
        assert(keys_distinct(init)) by {
            assert forall|a: int, b: int| 0 <= a < b < init.len() implies init[a].0 != init[b].0 by {
                assert(init[a] == es[a] && init[b] == es[b]);
            }
        }
        lemma_pick_distinct(init, pk_hash, amount);
        let before = pick(init, pk_hash, amount);
        let p = pick(es, pk_hash, amount);
        assert forall|i: int| 0 <= i < before.0.len() implies exists|j: int|
            0 <= j < es.len() && es[j].0 == #[trigger] before.0[i] && p2pkh_pk_hash(es[j].1) == Some(
                pk_hash,
            ) by {
            let j = choose|j: int|
                0 <= j < init.len() && init[j].0 == before.0[i] && p2pkh_pk_hash(init[j].1) == Some(
                    pk_hash,
                );
            assert(es[j] == init[j]);
        }
        if !(before.1 > amount) && p2pkh_pk_hash(es.last().1) == Some(pk_hash) {
            assert(p.0 == before.0.push(es.last().0));
            assert forall|i: int| 0 <= i < before.0.len() implies before.0[i] != es.last().0 by {
                let j = choose|j: int|
                    0 <= j < init.len() && init[j].0 == before.0[i] && p2pkh_pk_hash(init[j].1)
                        == Some(pk_hash);
                assert(es[j] == init[j]);
                assert(es[j].0 != es[es.len() - 1].0);
            }
            assert forall|i: int| 0 <= i < p.0.len() implies exists|j: int|
                0 <= j < es.len() && es[j].0 == #[trigger] p.0[i] && p2pkh_pk_hash(es[j].1) == Some(
                    pk_hash,
                ) by {
                if i == before.0.len() {
                    assert(es[es.len() - 1].0 == p.0[i]);
                } else {
                    assert(p.0[i] == before.0[i]);
                }
            }
            assert forall|i: int, k: int| 0 <= i < k < p.0.len() implies #[trigger] p.0[i]
                != #[trigger] p.0[k] by {
                if k == before.0.len() {
                    assert(p.0[i] == before.0[i]);
                } else {
                    assert(p.0[i] == before.0[i] && p.0[k] == before.0[k]);
                }
            }
        } else {
            assert(p == before);
        }
    }
}

/// Once the sum of what is picked exceeds `amount`, nothing more is picked.
pub proof fn lemma_pick_stays(es: Seq<(OutpointView, TxOutView)>, pk_hash: Seq<u8>, amount: int, i: int)
    requires
        0 <= i <= es.len(),
        pick(es.take(i), pk_hash, amount).1 > amount,
    ensures
        pick(es, pk_hash, amount) == pick(es.take(i), pk_hash, amount),
    decreases es.len() - i,
{
    if i == es.len() {
        assert(es.take(i) =~= es);
    } else {
        let a = es.take(i + 1);
        assert(a.drop_last() =~= es.take(i));
        lemma_pick_stays(es, pk_hash, amount, i + 1);
    }
}

/// While the sum of what is picked does not exceed `amount`, it is the sum
/// of all the entries paying to the key.
pub proof fn lemma_pick_prefix_total(es: Seq<(OutpointView, TxOutView)>, pk_hash: Seq<u8>, amount: int)
    ensures
        pick(es, pk_hash, amount).1 <= amount ==> pick(es, pk_hash, amount).1 == total_value(
            owned(es, pk_hash),
        ),
    decreases es.len(),
{
    if es.len() > 0 {
        let init = es.drop_last();
        let e = es.last();
        lemma_pick_prefix_total(init, pk_hash, amount);
        let o = owned(init, pk_hash);
        assert(o.push(e).drop_last() =~= o);
        assert(total_value(o.push(e)) == total_value(o) + e.1.value);
    }
}

/// Adding one more entry to the front part: what is owned and its total.
proof fn lemma_owned_step(es: Seq<(OutpointView, TxOutView)>, pk_hash: Seq<u8>, i: int)
    requires
        0 <= i < es.len(),
    ensures
        owned(es.take(i + 1), pk_hash) == if p2pkh_pk_hash(es[i].1) == Some(pk_hash) {
            owned(es.take(i), pk_hash).push(es[i])
        } else {
            owned(es.take(i), pk_hash)
        },
        p2pkh_pk_hash(es[i].1) == Some(pk_hash) ==> total_value(owned(es.take(i + 1), pk_hash))
            == total_value(owned(es.take(i), pk_hash)) + es[i].1.value,
{
    let a = es.take(i + 1);
    assert(a.drop_last() =~= es.take(i));
    assert(a.last() == es[i]);
    let o = owned(es.take(i), pk_hash);
    assert(o.push(es[i]).drop_last() =~= o);
}

impl UtxoSet {
    #[verifier::type_invariant]
    closed spec fn inv(&self) -> bool {
        keys_distinct(self@)
    }

    /// An empty set.
    pub fn new() -> (r: UtxoSet)
        ensures
            r@ == Seq::<(OutpointView, TxOutView)>::empty(),
    {
        let r = UtxoSet { entries: Vec::new() };
        assert(r@ =~= Seq::<(OutpointView, TxOutView)>::empty());
        r
    }

    /// How many outputs the set holds.
    pub fn len(&self) -> (r: usize)
        ensures
            r == self@.len(),
            keys_distinct(self@),
    {
        proof {
            use_type_invariant(self);
        }
        self.entries.len()
    }

    fn position(&self, key: &Outpoint) -> (r: Option<usize>)
        ensures
            match r {
                Some(i) => index_of(self@, key@) == Some(i as int) && i < self@.len(),
                None => index_of(self@, key@) is None,
            },
    {
        proof {
            use_type_invariant(self);
        }
        let mut i: usize = 0;
        while i < self.entries.len()
            invariant
                i <= self.entries@.len(),
                keys_distinct(self@),
                forall|j: int| 0 <= j < i ==> self@[j].0 != key@,
            decreases self.entries@.len() - i,
        {
            if outpoint_eq(&self.entries[i].0, key) {
                proof {
                    assert(self@[i as int].0 == key@);
                    let c = choose|j: int| 0 <= j < self@.len() && self@[j].0 == key@;
                    assert(c == i);
                }
                return Some(i);
            }
            i = i + 1;
        }
        None
    }

    /// Whether an output is under `key`.
    pub fn contains_key(&self, key: &Outpoint) -> (r: bool)
        ensures
            r == index_of(self@, key@) is Some,
    {
        self.position(key).is_some()
    }

    /// The output under `key`, if any.
    pub fn get(&self, key: &Outpoint) -> (r: Option<&TxOut>)
        ensures
            match index_of(self@, key@) {
                None => r is None,
                Some(i) => r matches Some(o) && o@ == self@[i].1,
            },
    {
        match self.position(key) {
            Some(i) => Some(&self.entries[i].1),
            None => None,
        }
    }

    /// Puts `tx_out` under `key`, in place of what was there.
    pub fn insert(&mut self, key: Outpoint, tx_out: TxOut)
        ensures
            final(self)@ == insert_key(old(self)@, key@, tx_out@),
    {
        proof {
            use_type_invariant(&*self);
        }
        let ghost old_view = self@;
        match self.position(&key) {
            Some(i) => {
                let mut entries: Vec<(Outpoint, TxOut)> = Vec::new();
                std::mem::swap(&mut entries, &mut self.entries);
                entries.set(i, (key, tx_out));
                proof {
                    let v = entries@.map_values(|e: (Outpoint, TxOut)| entry_view(e));
                    assert(v =~= old_view.update(i as int, (key@, tx_out@)));
                    assert forall|a: int, b: int| 0 <= a < b < v.len() implies v[a].0 != v[b].0 by {
                        assert(old_view[i as int].0 == key@);
                    }
                }
                self.entries = entries;
            },
            None => {
                let mut entries: Vec<(Outpoint, TxOut)> = Vec::new();
                std::mem::swap(&mut entries, &mut self.entries);
                entries.push((key, tx_out));
                proof {
                    let v = entries@.map_values(|e: (Outpoint, TxOut)| entry_view(e));
                    assert(v =~= old_view.push((key@, tx_out@)));
                    assert forall|a: int, b: int| 0 <= a < b < v.len() implies v[a].0 != v[b].0 by {
                        if b == v.len() - 1 {
                            assert(old_view[a].0 != key@);
                        }
                    }
                }
                self.entries = entries;
            },
        }
    }

    /// Takes out the output under `key`, if any, and returns it.
    pub fn remove(&mut self, key: &Outpoint) -> (r: Option<TxOut>)
        ensures
            final(self)@ == remove_key(old(self)@, key@),
            match index_of(old(self)@, key@) {
                None => r is None,
                Some(i) => r matches Some(o) && o@ == old(self)@[i].1,
            },
    {
        proof {
            use_type_invariant(&*self);
        }
        let ghost old_view = self@;
        match self.position(key) {
            Some(i) => {
                let mut entries: Vec<(Outpoint, TxOut)> = Vec::new();
                std::mem::swap(&mut entries, &mut self.entries);
                let (_, tx_out) = entries.remove(i);
                proof {
                    let v = entries@.map_values(|e: (Outpoint, TxOut)| entry_view(e));
                    assert(v =~= old_view.remove(i as int));
                    assert forall|a: int, b: int| 0 <= a < b < v.len() implies v[a].0 != v[b].0 by {
                        if a < i && b >= i {
                            assert(v[b] == old_view[b + 1]);
                        } else if a >= i {
                            assert(v[a] == old_view[a + 1]);
                            assert(v[b] == old_view[b + 1]);
                        }
                    }
                }
                self.entries = entries;
                Some(tx_out)
            },
            None => None,
        }
    }
    /// The entries paying to `pk_hash` as (outpoint, value), in order, and
    /// the sum of their values.
    pub fn get_utxo_balance(&self, pk_hash: [u8; 20]) -> (r: (Vec<(Outpoint, i64)>, i64))
        requires
            running_totals_fit(owned(self@, pk_hash@)),
        ensures
            r.0@.map_values(|e: (Outpoint, i64)| (e.0@, e.1)) == owned_values(self@, pk_hash@),
            r.1 == total_value(owned(self@, pk_hash@)),
    {
        let ghost es = self@;
        let ghost all = owned(es, pk_hash@);
        let mut balance: i64 = 0;
        let mut wallet_utxos: Vec<(Outpoint, i64)> = Vec::new();
        let mut i: usize = 0;
        while i < self.entries.len()
            invariant
                i <= self.entries@.len(),
                es == self@,
                all == owned(es, pk_hash@),
                running_totals_fit(all),
                wallet_utxos@.map_values(|e: (Outpoint, i64)| (e.0@, e.1)) == owned_values(
                    es.take(i as int),
                    pk_hash@,
                ),
                balance == total_value(owned(es.take(i as int), pk_hash@)),
            decreases self.entries@.len() - i,
        {
            let ghost before = es.take(i as int);
            proof {
                lemma_owned_step(es, pk_hash@, i as int);
            }
            let (outpoint, tx_out) = (&self.entries[i].0, &self.entries[i].1);
            assert(es[i as int].1 == tx_out@);
            if tx_out.belongs_to(pk_hash) {
                proof {
                    lemma_owned_prefix(es, pk_hash@, i + 1);
                    let k = owned(es.take(i + 1), pk_hash@).len() as int;
                    assert(total_value(all.take(k)) == total_value(owned(es.take(i + 1), pk_hash@)));
                }
                balance = balance + tx_out.value;
                let ghost old_w = wallet_utxos@;
                wallet_utxos.push((*outpoint, tx_out.value));
                proof {
                    assert(wallet_utxos@.map_values(|e: (Outpoint, i64)| (e.0@, e.1)) =~= old_w.map_values(
                        |e: (Outpoint, i64)| (e.0@, e.1),
                    ).push((es[i as int].0, es[i as int].1.value)));
                    assert(owned_values(es.take(i + 1), pk_hash@) =~= owned_values(before, pk_hash@).push(
                        (es[i as int].0, es[i as int].1.value),
                    ));
                }
            }
            i = i + 1;
        }
        assert(es.take(i as int) =~= es);
        (wallet_utxos, balance)
    }

    /// Outputs paying to `pk_hash` whose values sum up to at least `amount`
    /// (see `pick`), with that sum; too little is an error.
    pub fn get_utxos_sum_up_to(&self, pk_hash: [u8; 20], amount: i64) -> (r: Result<
        (Vec<Outpoint>, i64),
        NodeError,
    >)
        requires
            running_totals_fit(owned(self@, pk_hash@)),
        ensures
            ({
                let chosen = pick(self@, pk_hash@, amount as int);
                if chosen.1 < amount {
                    r == Err::<(Vec<Outpoint>, i64), NodeError>(NodeError::ErrorNotEnoughSatoshis)
                } else {
                    r matches Ok((outs, sum)) && outs@.map_values(|o: Outpoint| o@) == chosen.0
                        && sum == chosen.1
                }
            }),
            r matches Ok((outs, _)) ==> {
                &&& forall|i: int, k: int|
                    0 <= i < k < outs@.len() ==> (#[trigger] outs@[i])@ != (#[trigger] outs@[k])@
                &&& forall|i: int|
                    0 <= i < outs@.len() ==> exists|j: int|
                        0 <= j < self@.len() && self@[j].0 == (#[trigger] outs@[i])@
                            && p2pkh_pk_hash(self@[j].1) == Some(pk_hash@)
            },
    {
        proof {
            use_type_invariant(self);
            lemma_pick_distinct(self@, pk_hash@, amount as int);
        }
        let ghost es = self@;
        let ghost all = owned(es, pk_hash@);
        let mut unspent_balance: i64 = 0;
        let mut unspent_outpoint: Vec<Outpoint> = Vec::new();
        proof {
            if self.entries@.len() == 0 {
                assert(es.take(0) =~= es);
            }
            assert(unspent_outpoint@.map_values(|o: Outpoint| o@) =~= Seq::<OutpointView>::empty());
        }
        let mut i: usize = 0;
        while i < self.entries.len()
            invariant_except_break
                i <= self.entries@.len(),
                es == self@,
                all == owned(es, pk_hash@),
                running_totals_fit(all),
                unspent_outpoint@.map_values(|o: Outpoint| o@) == pick(
                    es.take(i as int),
                    pk_hash@,
                    amount as int,
                ).0,
                unspent_balance == pick(es.take(i as int), pk_hash@, amount as int).1,
                i == self.entries@.len() ==> es.take(i as int) == es,
            ensures
                unspent_outpoint@.map_values(|o: Outpoint| o@) == pick(es, pk_hash@, amount as int).0,
                unspent_balance == pick(es, pk_hash@, amount as int).1,
            decreases self.entries@.len() - i,
        {
            if unspent_balance > amount {
                proof {
                    lemma_pick_stays(es, pk_hash@, amount as int, i as int);
                }
                break;
            }
            let ghost before = es.take(i as int);
            proof {
                assert(es.take(i + 1).drop_last() =~= before);
                assert(es.take(i + 1).last() == es[i as int]);
                lemma_owned_step(es, pk_hash@, i as int);
            }
            let (outpoint, tx_out) = (&self.entries[i].0, &self.entries[i].1);
            assert(es[i as int].1 == tx_out@);
            if tx_out.belongs_to(pk_hash) {
                proof {
                    lemma_pick_prefix_total(before, pk_hash@, amount as int);
                    lemma_owned_prefix(es, pk_hash@, i + 1);
                    let k = owned(es.take(i + 1), pk_hash@).len() as int;
                    assert(total_value(all.take(k)) == total_value(owned(es.take(i + 1), pk_hash@)));
                }
                unspent_balance = unspent_balance + tx_out.value;
                let ghost old_o = unspent_outpoint@;
                unspent_outpoint.push(*outpoint);
                proof {
                    assert(unspent_outpoint@.map_values(|o: Outpoint| o@) =~= old_o.map_values(
                        |o: Outpoint| o@,
                    ).push(es[i as int].0));
                }
            }
            i = i + 1;
            proof {
                if i == self.entries@.len() {
                    assert(es.take(i as int) =~= es);
                }
            }
        }
        if unspent_balance < amount {
            return Err(NodeError::ErrorNotEnoughSatoshis);
        }
        proof {
            let c = pick(self@, pk_hash@, amount as int).0;
            assert(unspent_outpoint@.map_values(|o: Outpoint| o@) == c);
            assert forall|i: int| 0 <= i < unspent_outpoint@.len() implies (
            #[trigger] unspent_outpoint@[i])@ == c[i] by {
                assert(unspent_outpoint@.map_values(|o: Outpoint| o@)[i] == unspent_outpoint@[i]@);
            }
        }
        Ok((unspent_outpoint, unspent_balance))
    }
}

impl UtxoSet {
    /// Whether every running sum of the values paying to `pk_hash` stays
    /// within 64 bits (see `running_totals_fit`).
    pub fn owned_totals_fit(&self, pk_hash: [u8; 20]) -> (r: bool)
        ensures
            r == running_totals_fit(owned(self@, pk_hash@)),
    {
        let ghost es = self@;
        let mut sum: i64 = 0;
        let mut i: usize = 0;
        assert(es.take(0) =~= Seq::<(OutpointView, TxOutView)>::empty());
        while i < self.entries.len()
            invariant
                i <= self.entries@.len(),
                es == self@,
                es.len() == self.entries@.len(),
                sum == total_value(owned(es.take(i as int), pk_hash@)),
                running_totals_fit(owned(es.take(i as int), pk_hash@)),
            decreases self.entries@.len() - i,
        {
            proof {
                lemma_owned_step(es, pk_hash@, i as int);
            }
            let tx_out = &self.entries[i].1;
            assert(es[i as int].1 == tx_out@);
            let ghost before = owned(es.take(i as int), pk_hash@);
            if tx_out.belongs_to(pk_hash) {
                let ghost after = owned(es.take(i + 1), pk_hash@);
                match sum.checked_add(tx_out.value) {
                    Some(s) => {
                        proof {
                            assert(after == before.push(es[i as int]));
                            assert forall|k: int| 0 <= k <= after.len() implies i64::MIN
                                <= #[trigger] total_value(after.take(k)) <= i64::MAX by {
                                if k < after.len() {
                                    assert(after.take(k) =~= before.take(k));
                                } else {
                                    assert(after.take(k) =~= after);
                                }
                            }
                        }
                        sum = s;
                    },
                    None => {
                        proof {
                            lemma_owned_prefix(es, pk_hash@, i + 1);
                            let all = owned(es, pk_hash@);
                            let k = after.len() as int;
                            assert(all.take(k) == after);
                            assert(!(i64::MIN <= total_value(all.take(k)) <= i64::MAX));
                        }
                        return false;
                    },
                }
            } else {
                proof {
                    assert(owned(es.take(i + 1), pk_hash@) == before);
                }
            }
            i = i + 1;
        }
        assert(es.take(i as int) =~= es);
        true
    }
}

/// Puts under (`tx_hash`, `index`) a copy of `tx_out` read back from its
/// bytes; a copy that cannot be read is an error.
pub fn insert_new_utxo(tx_hash: [u8; 32], tx_out: &TxOut, index: usize, utxo_set: &mut UtxoSet) -> (r:
    Result<(), NodeError>)
    ensures
        match tx_out_parse(tx_out_bytes(tx_out@)) {
            None => r == Err::<(), NodeError>(NodeError::ErrorGettingUtxo) && final(utxo_set)@
                == old(utxo_set)@,
            Some(copy) => r is Ok && final(utxo_set)@ == insert_key(
                old(utxo_set)@,
                OutpointView { hash: tx_hash@, index: index as u32 },
                copy,
            ),
        },
{
    let outpoint = Outpoint::new(tx_hash, index as u32);
    let bytes = tx_out.to_bytes();
    let copy = match TxOut::from_bytes(bytes.as_slice()) {
        Ok(t) => t,
        Err(_) => return Err(NodeError::ErrorGettingUtxo),
    };
    utxo_set.insert(outpoint, copy);
    Ok(())
}

/// Takes out the outputs that the inputs `ins` spend, in order.
pub(crate) fn remove_spent_outputs(ins: &Vec<crate::transaction::TxIn>, utxo_set: &mut UtxoSet)
    ensures
        final(utxo_set)@ == remove_spent(old(utxo_set)@, tx_ins_view(ins@)),
{
    let ghost in_views = tx_ins_view(ins@);
    let ghost before = utxo_set@;
    let mut j: usize = 0;
    while j < ins.len()
        invariant
            j <= ins@.len(),
            in_views == tx_ins_view(ins@),
            utxo_set@ == remove_spent(before, in_views.take(j as int)),
        decreases ins@.len() - j,
    {
        proof {
            assert(in_views.take(j + 1).drop_last() =~= in_views.take(j as int));
            assert(in_views.take(j + 1).last() == ins@[j as int]@);
        }
        let _ = utxo_set.remove(ins[j].previous_output());
        j = j + 1;
    }
    assert(in_views.take(j as int) =~= in_views);
}

/// Adds the pay-to-public-key-hash outputs among `outs` of the transaction
/// `txid` (see `add_outputs`).
fn add_new_outputs(txid: [u8; 32], outs: &Vec<TxOut>, utxo_set: &mut UtxoSet) -> (r: Result<
    (),
    NodeError,
>)
    ensures
        match add_outputs(old(utxo_set)@, txid@, tx_outs_view(outs@)) {
            Some(es) => r is Ok && final(utxo_set)@ == es,
            None => r == Err::<(), NodeError>(NodeError::ErrorGettingUtxo),
        },
{
    let ghost out_views = tx_outs_view(outs@);
    let ghost start = utxo_set@;
    let mut k: usize = 0;
    while k < outs.len()
        invariant
            k <= outs@.len(),
            out_views == tx_outs_view(outs@),
            start == old(utxo_set)@,
            add_outputs(start, txid@, out_views.take(k as int)) == Some(utxo_set@),
        decreases outs@.len() - k,
    {
        proof {
            assert(out_views.take(k + 1).drop_last() =~= out_views.take(k as int));
            assert(out_views.take(k + 1).last() == outs@[k as int]@);
        }
        if outs[k].pk_hash_under_p2pkh_protocol().is_some() {
            match insert_new_utxo(txid, &outs[k], k, utxo_set) {
                Ok(()) => {},
                Err(e) => {
                    proof {
                        assert(e == NodeError::ErrorGettingUtxo);
                        assert(p2pkh_pk_hash(out_views[k as int]) is Some);
                        assert(tx_out_parse(tx_out_bytes(out_views[k as int])) is None);
                        assert(add_outputs(start, txid@, out_views.take(k + 1)) is None);
                        lemma_add_outputs_none(start, txid@, out_views, (k + 1) as nat);
                        assert(add_outputs(start, txid@, out_views) is None);
                    }
                    return Err(e);
                },
            }
        }
        k = k + 1;
    }
    assert(out_views.take(k as int) =~= out_views);
    Ok(())
}

/// Applies one transaction (see `apply_transaction`).
fn apply_transaction_to(tx: &Transaction, utxo_set: &mut UtxoSet) -> (r: Result<(), NodeError>)
    ensures
        match apply_transaction(old(utxo_set)@, tx@) {
            Some(es) => r is Ok && final(utxo_set)@ == es,
            None => r == Err::<(), NodeError>(NodeError::ErrorGettingUtxo),
        },
{
    remove_spent_outputs(tx.tx_in(), utxo_set);
    let txid = tx.hash();
    add_new_outputs(txid, tx.tx_out(), utxo_set)
}

/// Applies the transactions of `block`, in order (see
/// `apply_transactions`).
pub fn update_utxo_set_with_transactions(block: &Block, utxo_set: &mut UtxoSet) -> (r: Result<
    (),
    NodeError,
>)
    ensures
        match apply_transactions(old(utxo_set)@, block@.transactions) {
            Some(es) => r is Ok && final(utxo_set)@ == es,
            None => r == Err::<(), NodeError>(NodeError::ErrorGettingUtxo),
        },
{
    let transactions = block.get_transactions();
    let ghost ts = block@.transactions;
    let ghost start = utxo_set@;
    assert(ts.len() == transactions@.len());
    assert(ts.take(0) =~= Seq::<TransactionView>::empty());
    let mut i: usize = 0;
    while i < transactions.len()
        invariant
            i <= transactions@.len(),
            ts == crate::blockchain::transactions_view(transactions@),
            ts.len() == transactions@.len(),
            ts == block@.transactions,
            start == old(utxo_set)@,
            apply_transactions(start, ts.take(i as int)) == Some(utxo_set@),
        decreases transactions@.len() - i,
    {
        proof {
            assert(ts.take(i + 1).drop_last() =~= ts.take(i as int));
            assert(ts.take(i + 1).last() == transactions@[i as int]@);
        }
        match apply_transaction_to(&transactions[i], utxo_set) {
            Ok(()) => {},
            Err(e) => {
                proof {
                    assert(e == NodeError::ErrorGettingUtxo);
                    assert(apply_transactions(start, ts.take(i + 1)) is None);
                    lemma_apply_none(start, ts, (i + 1) as nat);
                    assert(apply_transactions(start, ts) is None);
                }
                return Err(e);
            },
        }
        i = i + 1;
    }
    assert(ts.take(i as int) =~= ts);
    Ok(())
}

/// A copy that cannot be read among the first `n` outputs spoils them all.
proof fn lemma_add_outputs_none(es: Seq<(OutpointView, TxOutView)>, txid: Seq<u8>, outs: Seq<TxOutView>, n: nat)
    requires
        n <= outs.len(),
        add_outputs(es, txid, outs.take(n as int)) is None,
    ensures
        add_outputs(es, txid, outs) is None,
    decreases outs.len(),
{
    if outs.len() == n {
        assert(outs.take(n as int) =~= outs);
    } else {
        assert(outs.drop_last().take(n as int) =~= outs.take(n as int));
        lemma_add_outputs_none(es, txid, outs.drop_last(), n);
    }
}

/// A transaction that cannot be applied among the first `n` spoils them all.
proof fn lemma_apply_none(es: Seq<(OutpointView, TxOutView)>, ts: Seq<TransactionView>, n: nat)
    requires
        n <= ts.len(),
        apply_transactions(es, ts.take(n as int)) is None,
    ensures
        apply_transactions(es, ts) is None,
    decreases ts.len(),
{
    if ts.len() == n {
        assert(ts.take(n as int) =~= ts);
    } else {
        assert(ts.drop_last().take(n as int) =~= ts.take(n as int));
        lemma_apply_none(es, ts.drop_last(), n);
    }
}

/// The set after applying, in order, the blocks that `m` holds under the
/// hashes of `hs`; a header whose block is not held is passed over.
pub open spec fn apply_chain(
    es: Seq<(OutpointView, TxOutView)>,
    hs: Seq<HeaderView>,
    m: Map<Seq<u8>, Block>,
) -> Option<Seq<(OutpointView, TxOutView)>>
    decreases hs.len(),
{
    if hs.len() == 0 {
        Some(es)
    } else {
        match apply_chain(es, hs.drop_last(), m) {
            None => None,
            Some(before) => {
                let h = header_hash(hs.last());
                if m.contains_key(h) {
                    apply_transactions(before, m[h]@.transactions)
                } else {
                    Some(before)
                }
            },
        }
    }
}

/// A chain that cannot be applied up to `n` headers spoils the whole.
proof fn lemma_chain_none(
    es: Seq<(OutpointView, TxOutView)>,
    hs: Seq<HeaderView>,
    m: Map<Seq<u8>, Block>,
    n: nat,
)
    requires
        n <= hs.len(),
        apply_chain(es, hs.take(n as int), m) is None,
    ensures
        apply_chain(es, hs, m) is None,
    decreases hs.len(),
{
    if hs.len() == n {
        assert(hs.take(n as int) =~= hs);
    } else {
        assert(hs.drop_last().take(n as int) =~= hs.take(n as int));
        lemma_chain_none(es, hs.drop_last(), m, n);
    }
}

/// The set of unspent outputs of the chain: the blocks of the last
/// headers, as many as the chain holds blocks, applied in order from an
/// empty set; a header whose block is missing is passed over.
pub fn create_utxo_set(block_headers: &Vec<BlockHeader>, blockchain: &HashStore<Block>) -> (r: Result<
    UtxoSet,
    NodeError,
>)
    requires
        blockchain@.dom().len() <= block_headers@.len(),
    ensures
        ({
            let start = block_headers@.len() - blockchain@.dom().len();
            match apply_chain(
                Seq::empty(),
                headers_view(block_headers@).skip(start),
                blockchain@,
            ) {
                Some(es) => r matches Ok(u) && u@ == es,
                None => r == Err::<UtxoSet, NodeError>(NodeError::ErrorGettingUtxo),
            }
        }),
{
    let starting_position = block_headers.len() - blockchain.len();
    let ghost hs = headers_view(block_headers@).skip(starting_position as int);
    let ghost m = blockchain@;
    let mut utxo_set = UtxoSet::new();
    let mut i: usize = starting_position;
    assert(hs.take(0) =~= Seq::<HeaderView>::empty());
    while i < block_headers.len()
        invariant
            starting_position <= i <= block_headers@.len(),
            starting_position == block_headers@.len() - blockchain@.dom().len(),
            hs == headers_view(block_headers@).skip(starting_position as int),
            m == blockchain@,
            apply_chain(Seq::empty(), hs.take(i - starting_position), m) == Some(utxo_set@),
        decreases block_headers@.len() - i,
    {
        let ghost k = i - starting_position;
        proof {
            assert(hs.take(k + 1).drop_last() =~= hs.take(k));
            assert(hs.take(k + 1).last() == block_headers@[i as int]@);
        }
        let hash = block_headers[i].hash();
        match blockchain.get(&hash) {
            Some(block) => {
                let ghost old_set = utxo_set@;
                match update_utxo_set_with_transactions(block, &mut utxo_set) {
                    Ok(()) => {},
                    Err(e) => {
                        proof {
                            let t = hs.take(k + 1);
                            assert(header_hash(t.last()) == hash@);
                            assert(apply_chain(Seq::empty(), t.drop_last(), m) == Some(
                                old_set,
                            ));
                            assert(apply_transactions(old_set, m[hash@]@.transactions) is None);
                            assert(apply_chain(Seq::empty(), t, m) is None);
                            lemma_chain_none(Seq::empty(), hs, m, (k + 1) as nat);
                        }
                        return Err(e);
                    },
                }
            },
            None => {},
        }
        i = i + 1;
    }
    assert(hs.take(i - starting_position) =~= hs);
    Ok(utxo_set)
}

/// Brings the set up to date with the blocks of the headers from position
/// `from` on, applied in order; a header whose block is not held is passed
/// over (see `apply_chain`). Past the end there is nothing to apply.
pub fn apply_blocks_from(
    block_headers: &Vec<BlockHeader>,
    blockchain: &HashStore<Block>,
    from: usize,
    utxo_set: &mut UtxoSet,
) -> (r: Result<(), NodeError>)
    ensures
        match apply_chain(
            old(utxo_set)@,
            headers_from(headers_view(block_headers@), from as int),
            blockchain@,
        ) {
            Some(es) => r is Ok && final(utxo_set)@ == es,
            None => r == Err::<(), NodeError>(NodeError::ErrorGettingUtxo),
        },
{
    let ghost hs = headers_from(headers_view(block_headers@), from as int);
    let ghost m = blockchain@;
    let ghost start = utxo_set@;
    if from > block_headers.len() {
        return Ok(());
    }
    let mut i: usize = from;
    assert(hs.take(0) =~= Seq::<HeaderView>::empty());
    while i < block_headers.len()
        invariant
            from <= i <= block_headers@.len(),
            hs == headers_view(block_headers@).skip(from as int),
            m == blockchain@,
            start == old(utxo_set)@,
            apply_chain(start, hs.take(i - from), m) == Some(utxo_set@),
        decreases block_headers@.len() - i,
    {
        let ghost k = i - from;
        proof {
            assert(hs.take(k + 1).drop_last() =~= hs.take(k));
            assert(hs.take(k + 1).last() == block_headers@[i as int]@);
        }
        let hash = block_headers[i].hash();
        match blockchain.get(&hash) {
            Some(block) => {
                let ghost old_set = utxo_set@;
                match update_utxo_set_with_transactions(block, utxo_set) {
                    Ok(()) => {},
                    Err(e) => {
                        proof {
                            let t = hs.take(k + 1);
                            assert(header_hash(t.last()) == hash@);
                            assert(apply_chain(start, t.drop_last(), m) == Some(old_set));
                            assert(apply_transactions(old_set, m[hash@]@.transactions) is None);
                            assert(apply_chain(start, t, m) is None);
                            lemma_chain_none(start, hs, m, (k + 1) as nat);
                        }
                        return Err(e);
                    },
                }
            },
            None => {},
        }
        i = i + 1;
    }
    assert(hs.take(i - from) =~= hs);
    Ok(())
}

/// The outpoint of the output at position `i` of the transaction `txid`.
pub open spec fn outpoint_at(txid: Seq<u8>, i: int) -> OutpointView {
    OutpointView { hash: txid, index: i as u32 }
}

/// Whether the entries hold `v` under `k`.
pub open spec fn holds_entry(es: Seq<(OutpointView, TxOutView)>, k: OutpointView, v: TxOutView) -> bool {
    exists|j: int| 0 <= j < es.len() && es[j] == (k, v)
}

/// Inserting under one outpoint keeps every entry under another.
proof fn lemma_insert_key_keeps(
    es: Seq<(OutpointView, TxOutView)>,
    k: OutpointView,
    v: TxOutView,
    k2: OutpointView,
    v2: TxOutView,
)
    requires
        holds_entry(es, k2, v2),
        k != k2,
    ensures
        holds_entry(insert_key(es, k, v), k2, v2),
{
    let j = choose|j: int| 0 <= j < es.len() && es[j] == (k2, v2);
    match index_of(es, k) {
        None => {
            assert(es.push((k, v))[j] == es[j]);
        },
        Some(m) => {
            assert(es[m].0 == k);
            assert(m != j);
            assert(es.update(m, (k, v))[j] == es[j]);
        },
    }
}

/// Inserting under an outpoint leaves the entry under it.
proof fn lemma_insert_key_holds(es: Seq<(OutpointView, TxOutView)>, k: OutpointView, v: TxOutView)
    ensures
        holds_entry(insert_key(es, k, v), k, v),
{
    match index_of(es, k) {
        None => {
            assert(es.push((k, v))[es.len() as int] == (k, v));
        },
        Some(m) => {
            assert(0 <= m < es.len());
            assert(es.update(m, (k, v))[m] == (k, v));
        },
    }
}

/// Each pay-to-public-key-hash output of a transaction joins the set under
/// the outpoint of its own position among all the transaction's outputs,
/// whatever outputs stand before it: after the outputs of `txid` are added,
/// the set holds, for every such output at position `i`, its copy read back
/// from its bytes under `(txid, i)`.
pub proof fn lemma_outputs_join_under_their_position(
    es: Seq<(OutpointView, TxOutView)>,
    txid: Seq<u8>,
    outs: Seq<TxOutView>,
)
    requires
        outs.len() <= 0x1_0000_0000,
        add_outputs(es, txid, outs) is Some,
    ensures
        forall|i: int|
            0 <= i < outs.len() && p2pkh_pk_hash(#[trigger] outs[i]) is Some ==> (tx_out_parse(
                tx_out_bytes(outs[i]),
            ) matches Some(copy) && holds_entry(
                add_outputs(es, txid, outs)->0,
                outpoint_at(txid, i),
                copy,
            )),
    decreases outs.len(),
{
    if outs.len() > 0 {
        let init = outs.drop_last();
        let n = outs.len() - 1;
        lemma_outputs_join_under_their_position(es, txid, init);
        let before = add_outputs(es, txid, init)->0;
        let after = add_outputs(es, txid, outs)->0;
        let last = outs[n];
        assert(outs.last() == last);
        assert forall|i: int|
            0 <= i < outs.len() && p2pkh_pk_hash(#[trigger] outs[i]) is Some implies (tx_out_parse(
                tx_out_bytes(outs[i]),
            ) matches Some(copy) && holds_entry(after, outpoint_at(txid, i), copy)) by {
            if i < n {
                assert(init[i] == outs[i]);
                let copy = tx_out_parse(tx_out_bytes(outs[i]))->0;
                assert(holds_entry(before, outpoint_at(txid, i), copy));
                if p2pkh_pk_hash(last) is Some {
                    let c = tx_out_parse(tx_out_bytes(last))->0;
                    assert(outpoint_at(txid, i) != outpoint_at(txid, n)) by {
                        assert((i as u32) != (n as u32));
                    }
                    assert(outpoint_at(txid, n) == OutpointView { hash: txid, index: (outs.len() - 1) as u32 });
                    lemma_insert_key_keeps(before, outpoint_at(txid, n), c, outpoint_at(txid, i), copy);
                }
            } else {
                let c = tx_out_parse(tx_out_bytes(last))->0;
                assert(outpoint_at(txid, n) == OutpointView { hash: txid, index: (outs.len() - 1) as u32 });
                lemma_insert_key_holds(before, outpoint_at(txid, n), c);
            }
        }
    }
}

/// Each pay-to-public-key-hash output of a transaction applied to the set
/// is held under `(txid, i)`, its position `i` among all the transaction's
/// outputs, where `txid` is the transaction's hash.
pub proof fn lemma_transaction_outputs_join_under_their_position(
    es: Seq<(OutpointView, TxOutView)>,
    t: TransactionView,
)
    requires
        t.tx_out.len() <= 0x1_0000_0000,
        apply_transaction(es, t) is Some,
    ensures
        forall|i: int|
            0 <= i < t.tx_out.len() && p2pkh_pk_hash(#[trigger] t.tx_out[i]) is Some ==> (
            tx_out_parse(tx_out_bytes(t.tx_out[i])) matches Some(copy) && holds_entry(
                apply_transaction(es, t)->0,
                outpoint_at(double_sha256(transaction_bytes(t)), i),
                copy,
            )),
{
    lemma_outputs_join_under_their_position(
        remove_spent(es, t.tx_in),
        double_sha256(transaction_bytes(t)),
        t.tx_out,
    );
}

/// Whether the entry is among the entries.
pub open spec fn has_entry(es: Seq<(OutpointView, TxOutView)>, e: (OutpointView, TxOutView)) -> bool {
    exists|m: int| 0 <= m < es.len() && es[m] == e
}

/// Removing the entry under an outpoint, from entries that hold each
/// outpoint once, leaves none under it, keeps each outpoint once, and keeps
/// only entries that were there.
proof fn lemma_remove_key_gone(es: Seq<(OutpointView, TxOutView)>, k: OutpointView)
    requires
        keys_distinct(es),
    ensures
        keys_distinct(remove_key(es, k)),
        forall|j: int| 0 <= j < remove_key(es, k).len() ==> (#[trigger] remove_key(es, k)[j]).0 != k,
        forall|j: int|
            0 <= j < remove_key(es, k).len() ==> has_entry(es, #[trigger] remove_key(es, k)[j]),
{
    let r = remove_key(es, k);
    match index_of(es, k) {
        None => {
            assert forall|j: int| 0 <= j < r.len() implies (#[trigger] r[j]).0 != k by {
                if r[j].0 == k {
                    assert(exists|i: int| 0 <= i < es.len() && es[i].0 == k);
                }
            }
            assert forall|j: int| 0 <= j < r.len() implies has_entry(es, #[trigger] r[j]) by {
                assert(es[j] == r[j]);
            }
        },
        Some(i) => {
            assert(r == es.remove(i));
            assert forall|j: int| 0 <= j < r.len() implies has_entry(es, #[trigger] r[j]) by {
                if j < i {
                    assert(es[j] == r[j]);
                } else {
                    assert(es[j + 1] == r[j]);
                }
            }
            assert forall|j: int| 0 <= j < r.len() implies (#[trigger] r[j]).0 != k by {
                if j < i {
                    assert(es[j] == r[j]);
                } else {
                    assert(es[j + 1] == r[j]);
                }
            }
            assert forall|a: int, b: int| 0 <= a < b < r.len() implies r[a].0 != r[b].0 by {
                let a2 = if a < i { a } else { a + 1 };
                let b2 = if b < i { b } else { b + 1 };
                assert(r[a] == es[a2] && r[b] == es[b2]);
            }
        },
    }
}

/// Spending a transaction's inputs, from a set that holds each outpoint
/// once, leaves no entry under any outpoint the inputs name, and every entry
/// left was in the set before.
pub proof fn lemma_spent_outputs_leave(es: Seq<(OutpointView, TxOutView)>, ins: Seq<TxInView>)
    requires
        keys_distinct(es),
    ensures
        keys_distinct(remove_spent(es, ins)),
        forall|j: int, k: int|
            0 <= j < remove_spent(es, ins).len() && 0 <= k < ins.len() ==> (#[trigger] remove_spent(
                es,
                ins,
            )[j]).0 != (#[trigger] ins[k]).previous_output,
        forall|j: int|
            0 <= j < remove_spent(es, ins).len() ==> has_entry(es, #[trigger] remove_spent(es, ins)[j]),
    decreases ins.len(),
{
    if ins.len() == 0 {
        assert forall|j: int| 0 <= j < es.len() implies has_entry(es, #[trigger] es[j]) by {}
    } else {
        let init = ins.drop_last();
        lemma_spent_outputs_leave(es, init);
        let mid = remove_spent(es, init);
        let k = ins.last().previous_output;
        lemma_remove_key_gone(mid, k);
        let r = remove_spent(es, ins);
        assert(r == remove_key(mid, k));
        assert forall|j: int, q: int| 0 <= j < r.len() && 0 <= q < ins.len() implies (
        #[trigger] r[j]).0 != (#[trigger] ins[q]).previous_output by {
            assert(has_entry(mid, r[j]));
            let m = choose|m: int| 0 <= m < mid.len() && mid[m] == r[j];
            if q < init.len() {
                assert(init[q] == ins[q]);
                assert(mid[m].0 != init[q].previous_output);
            } else {
                assert(ins[q] == ins.last());
            }
        }
        assert forall|j: int| 0 <= j < r.len() implies has_entry(es, #[trigger] r[j]) by {
            assert(has_entry(mid, r[j]));
            let m = choose|m: int| 0 <= m < mid.len() && mid[m] == r[j];
            assert(has_entry(es, mid[m]));
        }
    }
}

/// Adding a transaction's outputs brings in nothing but its
/// pay-to-public-key-hash outputs: every entry afterwards was there before
/// or stands under `(txid, i)` for such an output at position `i`.
pub proof fn lemma_only_p2pkh_outputs_join(
    es: Seq<(OutpointView, TxOutView)>,
    txid: Seq<u8>,
    outs: Seq<TxOutView>,
)
    requires
        add_outputs(es, txid, outs) is Some,
    ensures
        forall|j: int|
            0 <= j < add_outputs(es, txid, outs)->0.len() ==> has_entry(
                es,
                #[trigger] add_outputs(es, txid, outs)->0[j],
            ) || (exists|i: int|
                0 <= i < outs.len() && p2pkh_pk_hash(outs[i]) is Some && add_outputs(
                    es,
                    txid,
                    outs,
                )->0[j].0 == outpoint_at(txid, i)),
    decreases outs.len(),
{
    let after = add_outputs(es, txid, outs)->0;
    if outs.len() == 0 {
        assert forall|j: int| 0 <= j < es.len() implies has_entry(es, #[trigger] es[j]) by {}
    } else {
        let init = outs.drop_last();
        let n = outs.len() - 1;
        lemma_only_p2pkh_outputs_join(es, txid, init);
        let before = add_outputs(es, txid, init)->0;
        assert forall|j: int| 0 <= j < after.len() implies has_entry(es, #[trigger] after[j]) || (
        exists|i: int|
            0 <= i < outs.len() && p2pkh_pk_hash(outs[i]) is Some && after[j].0 == outpoint_at(
                txid,
                i,
            )) by {
            if j < before.len() && before[j] == after[j] {
                if !has_entry(es, before[j]) {
                    let i = choose|i: int|
                        0 <= i < init.len() && p2pkh_pk_hash(init[i]) is Some && before[j].0
                            == outpoint_at(txid, i);
                    assert(init[i] == outs[i]);
                }
            } else {
                assert(outs[n] == outs.last());
                assert(p2pkh_pk_hash(outs[n]) is Some);
                let c = tx_out_parse(tx_out_bytes(outs[n]))->0;
                assert(outpoint_at(txid, n) == OutpointView { hash: txid, index: (outs.len() - 1) as u32 });
                assert(after == insert_key(before, outpoint_at(txid, n), c));
                match index_of(before, outpoint_at(txid, n)) {
                    None => {
                        assert(after == before.push((outpoint_at(txid, n), c)));
                    },
                    Some(m) => {
                        assert(after == before.update(m, (outpoint_at(txid, n), c)));
                        assert(before[m].0 == outpoint_at(txid, n));
                    },
                }
                assert(after[j].0 == outpoint_at(txid, n));
            }
        }
    }
}

} // verus!
