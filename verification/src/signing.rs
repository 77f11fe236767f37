//! Pay-to-public-key-hash: the locking script of an output, the unlocking
//! script of an input, and the making of signed transactions.
use vstd::prelude::*;
use vstd::slice::slice_subrange;
use crate::codec::push_all;
use crate::errors::TransactionError;
use crate::hashing::{hash160_hash, hash160_of};
use crate::keys::{ecdsa_der_signature, parse_public_key, public_key_parse, sign_der};
use crate::transaction::{
    create_unsigned_tx_in_vector, transaction_bytes, tx_outs_view, Outpoint, OutpointView,
    Transaction, TransactionView, TxIn, TxInView, TxOut, TxOutView, tx_ins_view,
};
use crate::var_len_int::{
    lemma_varint_encode, lemma_varint_parse_result, varint_encode, varint_parse, varint_value,
    VarLenInt,
};

verus! {

pub const P2PKH_SCRIPT_LENGTH: usize = 25;

pub const PUBLIC_KEY_SIZE: usize = 33;

/// The locking script that pays to the public-key hash `pk_hash`:
/// `OP_DUP OP_HASH160 <20 bytes> OP_EQUALVERIFY OP_CHECKSIG`.
pub open spec fn p2pkh_script(pk_hash: Seq<u8>) -> Seq<u8> {
    seq![0x76u8, 0xa9u8, 0x14u8] + pk_hash + seq![0x88u8, 0xacu8]
}

/// The public-key hash that an output pays to, when its script announces and
/// holds 25 bytes of the pay-to-public-key-hash shape.
pub open spec fn p2pkh_pk_hash(o: TxOutView) -> Option<Seq<u8>> {
    let s = o.pk_script;
    if varint_value(o.pk_script_length) != 25 || s.len() < 25 {
        None
    } else if s[0] == 0x76 && s[1] == 0xa9 && s[2] == 0x14 && s[23] == 0x88 && s[24] == 0xac {
        Some(s.subrange(3, 23))
    } else {
        None
    }
}

/// The public key that an input's unlocking script carries, when the script
/// is `<len> <signature> <len = 33> <key>` and fills exactly its announced
/// length, the signature being shorter than that length.
pub open spec fn script_public_key(t: TxInView) -> Option<Seq<u8>> {
    let s = t.signature_script;
    let total = varint_value(t.script_length);
    match varint_parse(s) {
        None => None,
        Some(c1) => {
            let n1 = varint_value(c1);
            if n1 >= total || c1.len() + n1 > s.len() {
                None
            } else {
                let rest = s.skip((c1.len() + n1) as int);
                match varint_parse(rest) {
                    None => None,
                    Some(c2) => if varint_value(c2) != 33 || c1.len() + n1 + c2.len() + 33
                        != total {
                        None
                    } else {
                        Some(rest.skip(c2.len() as int))
                    },
                }
            }
        },
    }
}

/// An input is spent by `pub_key` when its unlocking script carries a key
/// that reads as `pub_key`.
pub open spec fn tx_in_belongs_to(t: TxInView, pub_key: Seq<u8>) -> bool {
    match script_public_key(t) {
        None => false,
        Some(k) => public_key_parse(k) == Some(pub_key),
    }
}

/// The unlocking script of a signature: its length, the signature, the
/// length of the key and the key.
pub open spec fn signature_script_of(signature: Seq<u8>, pub_key: Seq<u8>) -> Seq<u8> {
    varint_encode(signature.len()) + signature + varint_encode(pub_key.len()) + pub_key
}

/// The hash type appended to what is signed: `SIGHASH_ALL`.
pub open spec fn sighash_all() -> Seq<u8> {
    seq![1u8, 0u8, 0u8, 0u8]
}

/// `t` with the unlocking script of input `i` replaced by `script`.
pub open spec fn with_script(t: TransactionView, i: int, script: Seq<u8>) -> TransactionView {
    TransactionView {
        tx_in: t.tx_in.update(
            i,
            TxInView {
                script_length: varint_encode(script.len()),
                signature_script: script,
                ..t.tx_in[i]
            },
        ),
        ..t
    }
}

/// The unlocking script of input `i` of the unsigned `t`: the signature of
/// `t` in which that input holds the locking script of `pub_key`, followed by
/// the hash type, then the key.
pub open spec fn input_signature(t: TransactionView, i: int, pub_key: Seq<u8>, priv_key: Seq<u8>) -> Option<
    Seq<u8>,
> {
    let signed = transaction_bytes(with_script(t, i, p2pkh_script(hash160_of(pub_key))))
        + sighash_all();
    match ecdsa_der_signature(priv_key, signed) {
        None => None,
        Some(der) => Some(signature_script_of(der.push(1u8), pub_key)),
    }
}

/// The two outputs of a payment: `amount` to the key hash in bytes 1 to 20
/// of `address`, then `change` back to `pub_key`.
pub open spec fn payment_outputs(change: i64, amount: i64, pub_key: Seq<u8>, address: Seq<u8>) -> Seq<
    TxOutView,
> {
    seq![
        TxOutView {
            value: amount,
            pk_script_length: varint_encode(25),
            pk_script: p2pkh_script(address.subrange(1, 21)),
        },
        TxOutView {
            value: change,
            pk_script_length: varint_encode(25),
            pk_script: p2pkh_script(hash160_of(pub_key)),
        },
    ]
}

/// The unsigned payment: version 1, one input with an empty script for each
/// outpoint, the two payment outputs, lock time 0.
pub open spec fn unsigned_payment(
    change: i64,
    amount: i64,
    outpoints: Seq<OutpointView>,
    pub_key: Seq<u8>,
    address: Seq<u8>,
) -> TransactionView {
    TransactionView {
        version: 1,
        tx_in_count: varint_encode(outpoints.len()),
        tx_in: Seq::new(
            outpoints.len(),
            |i: int|
                TxInView {
                    previous_output: outpoints[i],
                    script_length: varint_encode(0),
                    signature_script: Seq::empty(),
                    sequence: u32::MAX,
                },
        ),
        tx_out_count: varint_encode(2),
        tx_out: payment_outputs(change, amount, pub_key, address),
        lock_time: 0,
    }
}

/// `t` with every input signed, or `None` when a signature cannot be made.
pub open spec fn signed_transaction(t: TransactionView, pub_key: Seq<u8>, priv_key: Seq<u8>) -> Option<
    TransactionView,
> {
    if forall|i: int| 0 <= i < t.tx_in.len() ==> #[trigger] input_signature(t, i, pub_key, priv_key) is Some {
        Some(
            TransactionView {
                tx_in: Seq::new(
                    t.tx_in.len(),
                    |i: int|
                        TxInView {
                            script_length: varint_encode(
                                input_signature(t, i, pub_key, priv_key)->0.len(),
                            ),
                            signature_script: input_signature(t, i, pub_key, priv_key)->0,
                            ..t.tx_in[i]
                        },
                ),
                ..t
            },
        )
    } else {
        None
    }
}

/// The locking script that pays to `pk_hash`.
pub fn get_pk_script(pk_hash: [u8; 20]) -> (r: [u8; 25])
    ensures
        r@ == p2pkh_script(pk_hash@),
{
    let mut pk_script = [0u8; 25];
    pk_script[0] = 0x76;
    pk_script[1] = 0xa9;
    pk_script[2] = 0x14;
    let mut i: usize = 0;
    while i < 20
        invariant
            i <= 20,
            pk_script@.len() == 25,
            pk_script@[0] == 0x76 && pk_script@[1] == 0xa9 && pk_script@[2] == 0x14,
            forall|j: int| 0 <= j < i ==> pk_script@[3 + j] == pk_hash@[j],
        decreases 20 - i,
    {
        pk_script[3 + i] = pk_hash[i];
        i = i + 1;
    }
    pk_script[23] = 0x88;
    pk_script[24] = 0xac;
    assert(pk_script@ =~= p2pkh_script(pk_hash@));
    pk_script
}

/// The locking script that pays to the hash of `pub_key`.
pub fn get_pk_script_from_pubkey(pub_key: [u8; 33]) -> (r: [u8; 25])
    ensures
        r@ == p2pkh_script(hash160_of(pub_key@)),
{
    let pk_hash = hash160_hash(pub_key.as_slice());
    get_pk_script(pk_hash)
}

/// The unlocking script of `signature` and `pub_key`.
pub fn assemble_signature_script(signature: Vec<u8>, pub_key: [u8; 33]) -> (r: Vec<u8>)
    ensures
        r@ == signature_script_of(signature@, pub_key@),
{
    let len_sig = VarLenInt::new(signature.len());
    let len_sec = VarLenInt::new(PUBLIC_KEY_SIZE);
    let mut script = len_sig.to_bytes();
    push_all(&mut script, signature.as_slice());
    let sec = len_sec.to_bytes();
    push_all(&mut script, sec.as_slice());
    push_all(&mut script, pub_key.as_slice());
    script
}

/// The outputs of a payment of `amount` to `address`, with `change` back to
/// `pub_key`.
pub fn create_tx_out_vector(change: i64, amount: i64, pub_key: [u8; 33], address: [u8; 25]) -> (r:
    Vec<TxOut>)
    ensures
        tx_outs_view(r@) == payment_outputs(change, amount, pub_key@, address@),
{
    let mut receiver_pk_hash = [0u8; 20];
    let mut i: usize = 0;
    while i < 20
        invariant
            i <= 20,
            receiver_pk_hash@.len() == 20,
            forall|j: int| 0 <= j < i ==> receiver_pk_hash@[j] == address@[1 + j],
        decreases 20 - i,
    {
        receiver_pk_hash[i] = address[1 + i];
        i = i + 1;
    }
    assert(receiver_pk_hash@ =~= address@.subrange(1, 21));
    let pk_script_receiver = get_pk_script(receiver_pk_hash);
    let mut receiver_script: Vec<u8> = Vec::new();
    push_all(&mut receiver_script, pk_script_receiver.as_slice());
    let tx_out_receiver = TxOut::new(amount, receiver_script);
    let pk_script_change = get_pk_script_from_pubkey(pub_key);
    let mut change_script: Vec<u8> = Vec::new();
    push_all(&mut change_script, pk_script_change.as_slice());
    let tx_out_change = TxOut::new(change, change_script);
    let mut v: Vec<TxOut> = Vec::new();
    v.push(tx_out_receiver);
    v.push(tx_out_change);
    assert(tx_outs_view(v@) =~= payment_outputs(change, amount, pub_key@, address@));
    v
}

impl TxOut {
    /// The public-key hash the output pays to, when its script is
    /// pay-to-public-key-hash.
    pub fn pk_hash_under_p2pkh_protocol(&self) -> (r: Option<[u8; 20]>)
        ensures
            match r {
                Some(h) => p2pkh_pk_hash(self@) == Some(h@),
                None => p2pkh_pk_hash(self@) is None,
            },
    {
        if self.pk_script_length.to_u64() != 25 || self.pk_script.len() < 25 {
            return None;
        }
        let s = &self.pk_script;
        if s[0] != 0x76 || s[1] != 0xa9 || s[2] != 0x14 || s[23] != 0x88 || s[24] != 0xac {
            return None;
        }
        let mut h = [0u8; 20];
        let mut i: usize = 0;
        while i < 20
            invariant
                i <= 20,
                s@.len() >= 25,
                h@.len() == 20,
                forall|j: int| 0 <= j < i ==> h@[j] == s@[3 + j],
            decreases 20 - i,
        {
            h[i] = s[3 + i];
            i = i + 1;
        }
        assert(h@ =~= s@.subrange(3, 23));
        Some(h)
    }

    /// Whether the output pays to the public-key hash `pk_hash`.
    pub fn belongs_to(&self, pk_hash: [u8; 20]) -> (r: bool)
        ensures
            r == (p2pkh_pk_hash(self@) == Some(pk_hash@)),
    {
        match self.pk_hash_under_p2pkh_protocol() {
            Some(owner) => {
                let mut i: usize = 0;
                while i < 20
                    invariant
                        i <= 20,
                        owner@.len() == 20 && pk_hash@.len() == 20,
                        p2pkh_pk_hash(self@) == Some(owner@),
                        forall|j: int| 0 <= j < i ==> owner@[j] == pk_hash@[j],
                    decreases 20 - i,
                {
                    if owner[i] != pk_hash[i] {
                        assert(owner@[i as int] != pk_hash@[i as int]);
                        assert(owner@ != pk_hash@);
                        return false;
                    }
                    i = i + 1;
                }
                assert(owner@ =~= pk_hash@);
                true
            },
            None => false,
        }
    }

    /// A copy of the output, with its length written anew in the shortest
    /// encoding.
    pub fn clone(&self) -> (r: TxOut)
        ensures
            r@ == (TxOutView {
                value: self@.value,
                pk_script_length: varint_encode((varint_value(self@.pk_script_length) as usize) as nat),
                pk_script: self@.pk_script,
            }),
    {
        let n = self.pk_script_length.to_usize();
        TxOut {
            value: self.value,
            pk_script_length: VarLenInt::new(n),
            pk_script: self.pk_script.clone(),
        }
    }
}

impl TxIn {
    /// Whether the input is unlocked by `pub_key`: its script carries a key
    /// that reads as `pub_key` (see `script_public_key`).
    pub fn belongs_to(&self, pub_key: &[u8; 33]) -> (r: bool)
        ensures
            r == tx_in_belongs_to(self@, pub_key@),
    {
        let script = self.signature_script();
        let total = self.script_length_value();
        let sig_len = match VarLenInt::from_bytes(script.as_slice()) {
            Some(l) => l,
            None => return false,
        };
        proof {
            lemma_varint_parse_result(script@);
        }
        let n1 = sig_len.to_u64();
        let a1 = sig_len.amount_of_bytes();
        if n1 >= total {
            return false;
        }
        if n1 > (script.len() - a1) as u64 {
            return false;
        }
        let start = a1 + n1 as usize;
        let bytes_left = slice_subrange(script.as_slice(), start, script.len());
        assert(bytes_left@ =~= script@.skip(start as int));
        let pub_key_len = match VarLenInt::from_bytes(bytes_left) {
            Some(l) => l,
            None => return false,
        };
        proof {
            lemma_varint_parse_result(bytes_left@);
        }
        if pub_key_len.to_u64() != 33 {
            return false;
        }
        let a2 = pub_key_len.amount_of_bytes();
        let used = start + a2;
        if total < 33 || used as u64 != total - 33 {
            return false;
        }
        let key_bytes = slice_subrange(bytes_left, a2, bytes_left.len());
        assert(key_bytes@ =~= bytes_left@.skip(a2 as int));
        match parse_public_key(key_bytes) {
            Some(k) => {
                let mut i: usize = 0;
                while i < 33
                    invariant
                        i <= 33,
                        k@.len() == 33 && pub_key@.len() == 33,
                        tx_in_belongs_to(self@, pub_key@) == (k@ == pub_key@),
                        forall|j: int| 0 <= j < i ==> k@[j] == pub_key@[j],
                    decreases 33 - i,
                {
                    if k[i] != pub_key[i] {
                        assert(k@[i as int] != pub_key@[i as int]);
                        assert(k@ != pub_key@);
                        return false;
                    }
                    i = i + 1;
                }
                assert(k@ =~= pub_key@);
                true
            },
            None => false,
        }
    }
}

impl Transaction {
    /// The unlocking script that signs this transaction as it stands, with
    /// `SIGHASH_ALL`, by `priv_key`, carrying `pub_key`. A secret key that is
    /// not valid is an error.
    pub fn get_signature_script(&self, pub_key: [u8; 33], priv_key: [u8; 32]) -> (r: Result<
        Vec<u8>,
        TransactionError,
    >)
        ensures
            match ecdsa_der_signature(priv_key@, transaction_bytes(self@) + sighash_all()) {
                None => r == Err::<Vec<u8>, TransactionError>(
                    TransactionError::ErrorCreatingSignature,
                ),
                Some(der) => r matches Ok(s) && s@ == signature_script_of(der.push(1u8), pub_key@),
            },
    {
        let mut tx_bytes = self.to_bytes();
        tx_bytes.push(1);
        tx_bytes.push(0);
        tx_bytes.push(0);
        tx_bytes.push(0);
        assert(tx_bytes@ =~= transaction_bytes(self@) + sighash_all());
        let mut signature = match sign_der(&priv_key, tx_bytes.as_slice()) {
            Some(s) => s,
            None => return Err(TransactionError::ErrorCreatingSignature),
        };
        signature.push(1);
        Ok(assemble_signature_script(signature, pub_key))
    }

    /// A payment of `amount` to `address` with `fee`, spending
    /// `unspent_outpoints` (worth `unspent_balance`) and sending the change
    /// back to `pub_key`; every input is signed by `priv_key` (see
    /// `signed_transaction`).
    pub fn create(
        amount: i64,
        fee: i64,
        unspent_outpoints: Vec<Outpoint>,
        unspent_balance: i64,
        pub_key: [u8; 33],
        priv_key: [u8; 32],
        address: [u8; 25],
    ) -> (r: Result<Transaction, TransactionError>)
        requires
            i64::MIN <= unspent_balance - amount <= i64::MAX,
            i64::MIN <= unspent_balance - amount - fee <= i64::MAX,
        ensures
            ({
                let raw = unsigned_payment(
                    (unspent_balance - amount - fee) as i64,
                    amount,
                    unspent_outpoints@.map_values(|o: Outpoint| o@),
                    pub_key@,
                    address@,
                );
                match signed_transaction(raw, pub_key@, priv_key@) {
                    None => r == Err::<Transaction, TransactionError>(
                        TransactionError::ErrorCreatingSignature,
                    ),
                    Some(t) => r matches Ok(tx) && tx@ == t,
                }
            }),
    {
        let change: i64 = unspent_balance - amount - fee;
        let ghost outs = unspent_outpoints@.map_values(|o: Outpoint| o@);
        let tx_out_vector = create_tx_out_vector(change, amount, pub_key, address);
        let n = unspent_outpoints.len();
        let tx_in_vector = create_unsigned_tx_in_vector(unspent_outpoints);
        assert(tx_outs_view(tx_out_vector@).len() == 2);
        assert(tx_out_vector@.len() == 2);
        assert(tx_in_vector@.len() == n);
        let mut raw_tx = Transaction::new(1, tx_in_vector, tx_out_vector, 0);
        let ghost raw = unsigned_payment(change, amount, outs, pub_key@, address@);
        assert(raw_tx@.tx_in =~= raw.tx_in);
        assert(raw_tx@.tx_out =~= raw.tx_out);
        assert(raw_tx@ == raw);
        let pk_script = get_pk_script_from_pubkey(pub_key);
        let mut signatures: Vec<Vec<u8>> = Vec::new();
        let mut i: usize = 0;
        while i < n
            invariant
                i <= n,
                n == raw.tx_in.len(),
                raw == unsigned_payment(change, amount, outs, pub_key@, address@),
                outs == unspent_outpoints@.map_values(|o: Outpoint| o@),
                change == unspent_balance - amount - fee,
                raw_tx@ == raw,
                pk_script@ == p2pkh_script(hash160_of(pub_key@)),
                signatures@.len() == i,
                forall|j: int|
                    0 <= j < i ==> input_signature(raw, j, pub_key@, priv_key@) == Some(
                        #[trigger] signatures@[j]@,
                    ),
            decreases n - i,
        {
            let mut script: Vec<u8> = Vec::new();
            push_all(&mut script, pk_script.as_slice());
            raw_tx.set_signature_script(i, script);
            assert(raw_tx@ == with_script(raw, i as int, pk_script@));
            let signature_script = match raw_tx.get_signature_script(pub_key, priv_key) {
                Ok(s) => s,
                Err(e) => {
                    assert(input_signature(raw, i as int, pub_key@, priv_key@) is None);
                    return Err(e);
                },
            };
            signatures.push(signature_script);
            let empty: Vec<u8> = Vec::new();
            assert(empty@ =~= Seq::<u8>::empty());
            assert(raw.tx_in[i as int].signature_script == Seq::<u8>::empty());
            assert(raw.tx_in[i as int].script_length == varint_encode(0));
            raw_tx.set_signature_script(i, empty);
            assert(raw_tx@.tx_in =~= raw.tx_in);
            i = i + 1;
        }
        let mut j: usize = 0;
        while j < n
            invariant
                j <= n,
                n == raw.tx_in.len(),
                signatures@.len() == n,
                forall|k: int|
                    0 <= k < n ==> input_signature(raw, k, pub_key@, priv_key@) == Some(
                        #[trigger] signatures@[k]@,
                    ),
                raw_tx@.tx_in.len() == n,
                raw_tx@ == (TransactionView { tx_in: raw_tx@.tx_in, ..raw }),
                forall|k: int|
                    0 <= k < j ==> #[trigger] raw_tx@.tx_in[k] == (TxInView {
                        script_length: varint_encode(signatures@[k]@.len()),
                        signature_script: signatures@[k]@,
                        ..raw.tx_in[k]
                    }),
                forall|k: int| j <= k < n ==> #[trigger] raw_tx@.tx_in[k] == raw.tx_in[k],
            decreases n - j,
        {
            let s = signatures[j].clone();
            raw_tx.set_signature_script(j, s);
            j = j + 1;
        }
        proof {
            assert forall|k: int| 0 <= k < raw.tx_in.len() implies #[trigger] input_signature(
                raw,
                k,
                pub_key@,
                priv_key@,
            ) is Some by {
                assert(input_signature(raw, k, pub_key@, priv_key@) == Some(signatures@[k]@));
            }
            let t = signed_transaction(raw, pub_key@, priv_key@)->0;
            assert(raw_tx@.tx_in =~= t.tx_in);
        }
        Ok(raw_tx)
    }
}

} // verus!
