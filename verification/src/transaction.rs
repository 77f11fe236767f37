//! Transactions, their inputs and outputs, and their wire format.
use vstd::prelude::*;
use vstd::slice::slice_subrange;
use crate::codec::{
    copy_range, i32_le, i32_of_le, i64_le, i64_of_le, lemma_signed_le, lemma_u32_le, push_all,
    push_i32_le, push_i64_le, push_u32_le, read_hash, read_i32_le, read_i64_le, read_u32_le,
    u32_le, u32_of_le,
};
use crate::errors::TransactionError;
use crate::hashing::{double_sha256, sha256d_hash};
use crate::var_len_int::{
    lemma_varint_encode, lemma_varint_parse_prefix, lemma_varint_parse_result, varint_encode,
    varint_parse, varint_value, varint_wf, VarLenInt,
};

verus! {

pub const MIN_BYTES_TX_IN: usize = 41;

pub const MIN_BYTES_TX_OUT: usize = 9;

pub const MIN_BYTES_TRANSACTION: usize = 10;

pub const OUTPOINT_BYTES: usize = 36;

/// The output of an earlier transaction that an input spends.
#[derive(Debug, PartialEq, Eq, Clone, Copy, Hash)]
pub struct Outpoint {
    pub hash: [u8; 32],
    pub index: u32,
}

/// An `Outpoint` as plain values.
pub struct OutpointView {
    pub hash: Seq<u8>,
    pub index: u32,
}

impl View for Outpoint {
    type V = OutpointView;

    open spec fn view(&self) -> OutpointView {
        OutpointView { hash: self.hash@, index: self.index }
    }
}

/// An input of a transaction as plain values.
pub struct TxInView {
    pub previous_output: OutpointView,
    pub script_length: Seq<u8>,
    pub signature_script: Seq<u8>,
    pub sequence: u32,
}

/// An output of a transaction as plain values.
pub struct TxOutView {
    pub value: i64,
    pub pk_script_length: Seq<u8>,
    pub pk_script: Seq<u8>,
}

/// A transaction as plain values.
pub struct TransactionView {
    pub version: i32,
    pub tx_in_count: Seq<u8>,
    pub tx_in: Seq<TxInView>,
    pub tx_out_count: Seq<u8>,
    pub tx_out: Seq<TxOutView>,
    pub lock_time: u32,
}

/// An input of a transaction.
#[derive(Debug, PartialEq, Eq)]
pub struct TxIn {
    pub previous_output: Outpoint,
    script_length: VarLenInt,
    signature_script: Vec<u8>,
    sequence: u32,
}

/// An output of a transaction.
#[derive(Debug, PartialEq, Eq)]
pub struct TxOut {
    pub value: i64,
    pub pk_script_length: VarLenInt,
    pub pk_script: Vec<u8>,
}

/// A transaction of a Bitcoin block.
#[derive(Debug, PartialEq, Eq)]
pub struct Transaction {
    version: i32,
    tx_in_count: VarLenInt,
    pub tx_in: Vec<TxIn>,
    tx_out_count: VarLenInt,
    pub tx_out: Vec<TxOut>,
    lock_time: u32,
}

impl View for TxIn {
    type V = TxInView;

    closed spec fn view(&self) -> TxInView {
        TxInView {
            previous_output: self.previous_output@,
            script_length: self.script_length@,
            signature_script: self.signature_script@,
            sequence: self.sequence,
        }
    }
}

impl View for TxOut {
    type V = TxOutView;

    open spec fn view(&self) -> TxOutView {
        TxOutView {
            value: self.value,
            pk_script_length: self.pk_script_length@,
            pk_script: self.pk_script@,
        }
    }
}

pub open spec fn tx_ins_view(v: Seq<TxIn>) -> Seq<TxInView> {
    v.map_values(|t: TxIn| t@)
}

pub open spec fn tx_outs_view(v: Seq<TxOut>) -> Seq<TxOutView> {
    v.map_values(|t: TxOut| t@)
}

impl View for Transaction {
    type V = TransactionView;

    closed spec fn view(&self) -> TransactionView {
        TransactionView {
            version: self.version,
            tx_in_count: self.tx_in_count@,
            tx_in: tx_ins_view(self.tx_in@),
            tx_out_count: self.tx_out_count@,
            tx_out: tx_outs_view(self.tx_out@),
            lock_time: self.lock_time,
        }
    }
}

// ------------------------------------------------------------------------
// The wire format.
// ------------------------------------------------------------------------

pub open spec fn outpoint_bytes(o: OutpointView) -> Seq<u8> {
    o.hash + u32_le(o.index)
}

pub open spec fn tx_in_bytes(t: TxInView) -> Seq<u8> {
    outpoint_bytes(t.previous_output) + t.script_length + t.signature_script + u32_le(t.sequence)
}

pub open spec fn tx_out_bytes(t: TxOutView) -> Seq<u8> {
    i64_le(t.value) + t.pk_script_length + t.pk_script
}

pub open spec fn tx_ins_bytes(s: Seq<TxInView>) -> Seq<u8>
    decreases s.len(),
{
    if s.len() == 0 {
        Seq::empty()
    } else {
        tx_ins_bytes(s.drop_last()) + tx_in_bytes(s.last())
    }
}

pub open spec fn tx_outs_bytes(s: Seq<TxOutView>) -> Seq<u8>
    decreases s.len(),
{
    if s.len() == 0 {
        Seq::empty()
    } else {
        tx_outs_bytes(s.drop_last()) + tx_out_bytes(s.last())
    }
}

#[verifier::opaque]
pub open spec fn transaction_bytes(t: TransactionView) -> Seq<u8> {
    i32_le(t.version) + t.tx_in_count + tx_ins_bytes(t.tx_in) + t.tx_out_count + tx_outs_bytes(
        t.tx_out,
    ) + u32_le(t.lock_time)
}

/// The lengths that an input announces agree with what it holds.
pub open spec fn tx_in_consistent(t: TxInView) -> bool {
    &&& t.previous_output.hash.len() == 32
    &&& varint_wf(t.script_length)
    &&& varint_value(t.script_length) == t.signature_script.len()
}

/// The lengths that an output announces agree with what it holds.
pub open spec fn tx_out_consistent(t: TxOutView) -> bool {
    &&& varint_wf(t.pk_script_length)
    &&& varint_value(t.pk_script_length) == t.pk_script.len()
}

/// The counts and lengths that a transaction announces agree with what it holds.
pub open spec fn transaction_consistent(t: TransactionView) -> bool {
    &&& varint_wf(t.tx_in_count)
    &&& varint_value(t.tx_in_count) == t.tx_in.len()
    &&& varint_wf(t.tx_out_count)
    &&& varint_value(t.tx_out_count) == t.tx_out.len()
    &&& forall|i: int| 0 <= i < t.tx_in.len() ==> #[trigger] tx_in_consistent(t.tx_in[i])
    &&& forall|i: int| 0 <= i < t.tx_out.len() ==> #[trigger] tx_out_consistent(t.tx_out[i])
}

pub open spec fn outpoint_parse(s: Seq<u8>) -> OutpointView {
    OutpointView { hash: s.take(32), index: u32_of_le(s.subrange(32, 36)) }
}

/// The input at the front of `s`, if `s` holds all of it.
pub open spec fn tx_in_parse(s: Seq<u8>) -> Option<TxInView> {
    if s.len() < MIN_BYTES_TX_IN {
        None
    } else {
        match varint_parse(s.skip(36)) {
            None => None,
            Some(b) => {
                let n = varint_value(b);
                let r = s.skip(36 + b.len() as int);
                if r.len() < n + 4 {
                    None
                } else {
                    Some(
                        TxInView {
                            previous_output: outpoint_parse(s),
                            script_length: b,
                            signature_script: r.take(n as int),
                            sequence: u32_of_le(r.subrange(n as int, n as int + 4)),
                        },
                    )
                }
            },
        }
    }
}

/// The output at the front of `s`, if `s` holds all of it.
pub open spec fn tx_out_parse(s: Seq<u8>) -> Option<TxOutView> {
    if s.len() < MIN_BYTES_TX_OUT {
        None
    } else {
        match varint_parse(s.skip(8)) {
            None => None,
            Some(b) => {
                let n = varint_value(b);
                let r = s.skip(8 + b.len() as int);
                if r.len() < n {
                    None
                } else {
                    Some(
                        TxOutView {
                            value: i64_of_le(s.take(8)),
                            pk_script_length: b,
                            pk_script: r.take(n as int),
                        },
                    )
                }
            },
        }
    }
}

/// `n` inputs one after the other at the front of `s`.
pub open spec fn tx_ins_parse(s: Seq<u8>, n: nat) -> Option<Seq<TxInView>>
    decreases n,
{
    if n == 0 {
        Some(Seq::empty())
    } else {
        match tx_ins_parse(s, (n - 1) as nat) {
            None => None,
            Some(vs) => match tx_in_parse(s.skip(tx_ins_bytes(vs).len() as int)) {
                None => None,
                Some(v) => Some(vs.push(v)),
            },
        }
    }
}

/// `n` outputs one after the other at the front of `s`.
pub open spec fn tx_outs_parse(s: Seq<u8>, n: nat) -> Option<Seq<TxOutView>>
    decreases n,
{
    if n == 0 {
        Some(Seq::empty())
    } else {
        match tx_outs_parse(s, (n - 1) as nat) {
            None => None,
            Some(vs) => match tx_out_parse(s.skip(tx_outs_bytes(vs).len() as int)) {
                None => None,
                Some(v) => Some(vs.push(v)),
            },
        }
    }
}

/// The transaction at the front of `s`, if `s` holds all of it.
#[verifier::opaque]
pub open spec fn transaction_parse(s: Seq<u8>) -> Option<TransactionView> {
    if s.len() < MIN_BYTES_TRANSACTION {
        None
    } else {
        match varint_parse(s.skip(4)) {
            None => None,
            Some(c1) => {
                let p1: int = 4 + c1.len() as int;
                match tx_ins_parse(s.skip(p1), varint_value(c1)) {
                    None => None,
                    Some(ins) => {
                        let p2: int = p1 + tx_ins_bytes(ins).len() as int;
                        match varint_parse(s.skip(p2)) {
                            None => None,
                            Some(c2) => {
                                let p3: int = p2 + c2.len() as int;
                                match tx_outs_parse(s.skip(p3), varint_value(c2)) {
                                    None => None,
                                    Some(outs) => {
                                        let p4: int = p3 + tx_outs_bytes(outs).len() as int;
                                        if s.len() < p4 + 4 {
                                            None
                                        } else {
                                            Some(
                                                TransactionView {
                                                    version: i32_of_le(s.take(4)),
                                                    tx_in_count: c1,
                                                    tx_in: ins,
                                                    tx_out_count: c2,
                                                    tx_out: outs,
                                                    lock_time: u32_of_le(s.subrange(p4, p4 + 4)),
                                                },
                                            )
                                        }
                                    },
                                }
                            },
                        }
                    },
                }
            },
        }
    }
}

// ------------------------------------------------------------------------
// Outpoint
// ------------------------------------------------------------------------
impl Outpoint {
    /// Creates a new Outpoint.
    pub fn new(hash: [u8; 32], index: u32) -> (r: Outpoint)
        ensures
            r.hash == hash,
            r.index == index,
    {
        Outpoint { hash, index }
    }

    /// The outpoint as bytes: the hash, then the index in little endian.
    pub fn to_bytes(&self) -> (r: Vec<u8>)
        ensures
            r@ == outpoint_bytes(self@),
    {
        let mut bytes: Vec<u8> = Vec::new();
        push_all(&mut bytes, self.hash.as_slice());
        push_u32_le(&mut bytes, self.index);
        bytes
    }

    /// Reads an outpoint from exactly 36 bytes; any other length is an error.
    pub fn from_bytes(slice: &[u8]) -> (r: Result<Outpoint, TransactionError>)
        ensures
            slice@.len() == OUTPOINT_BYTES ==> (r matches Ok(o) && o@ == outpoint_parse(slice@)),
            slice@.len() != OUTPOINT_BYTES ==> r == Err::<Outpoint, _>(
                TransactionError::ErrorCreatingOutpointFromBytes,
            ),
    {
        if slice.len() != OUTPOINT_BYTES {
            return Err(TransactionError::ErrorCreatingOutpointFromBytes);
        }
        let hash = read_hash(slice, 0);
        let index = read_u32_le(slice, 32);
        assert(hash@ =~= slice@.take(32));
        Ok(Outpoint::new(hash, index))
    }
}

// ------------------------------------------------------------------------
// TxOut
// ------------------------------------------------------------------------
impl TxOut {
    /// Creates a new output paying `value` to `pk_script`.
    pub fn new(value: i64, pk_script: Vec<u8>) -> (r: TxOut)
        ensures
            r@ == (TxOutView {
                value,
                pk_script_length: varint_encode(pk_script@.len()),
                pk_script: pk_script@,
            }),
            tx_out_consistent(r@),
    {
        let pk_script_length = VarLenInt::new(pk_script.len());
        proof {
            lemma_varint_encode(pk_script@.len());
        }
        TxOut { value, pk_script_length, pk_script }
    }

    /// The output as bytes.
    pub fn to_bytes(&self) -> (r: Vec<u8>)
        ensures
            r@ == tx_out_bytes(self@),
    {
        let mut bytes_vector: Vec<u8> = Vec::new();
        push_i64_le(&mut bytes_vector, self.value);
        let len_bytes = self.pk_script_length.to_bytes();
        push_all(&mut bytes_vector, len_bytes.as_slice());
        push_all(&mut bytes_vector, self.pk_script.as_slice());
        bytes_vector
    }

    /// Reads the output at the front of `slice`; bytes after it are not used.
    pub fn from_bytes(slice: &[u8]) -> (r: Result<TxOut, TransactionError>)
        ensures
            match r {
                Ok(t) => tx_out_parse(slice@) == Some(t@),
                Err(e) => tx_out_parse(slice@) is None && e
                    == TransactionError::ErrorCreatingTxOutFromBytes,
            },
    {
        if slice.len() < MIN_BYTES_TX_OUT {
            return Err(TransactionError::ErrorCreatingTxOutFromBytes);
        }
        let value = read_i64_le(slice, 0);
        let rest = slice_subrange(slice, 8, slice.len());
        assert(rest@ =~= slice@.skip(8));
        match VarLenInt::from_bytes(rest) {
            Some(pk_script_length) => {
                let k = pk_script_length.amount_of_bytes();
                let n = pk_script_length.to_u64();
                proof {
                    lemma_varint_parse_result(rest@);
                }
                let start = 8 + k;
                let avail = slice.len() - start;
                if (avail as u64) < n {
                    return Err(TransactionError::ErrorCreatingTxOutFromBytes);
                }
                let pk_script = copy_range(slice, start, n as usize);
                assert(pk_script@ =~= slice@.skip(start as int).take(n as int));
                assert(slice@.take(8) =~= slice@.subrange(0, 8));
                Ok(TxOut { value, pk_script_length, pk_script })
            },
            None => Err(TransactionError::ErrorCreatingTxOutFromBytes),
        }
    }

    /// How many bytes the output takes.
    pub fn amount_of_bytes(&self) -> (r: usize)
        ensures
            r == tx_out_bytes(self@).len(),
    {
        self.to_bytes().len()
    }
}

// ------------------------------------------------------------------------
// TxIn
// ------------------------------------------------------------------------
impl TxIn {
    /// Creates a new input.
    pub fn new(previous_output: Outpoint, signature_script: Vec<u8>, sequence: u32) -> (r: TxIn)
        ensures
            r@ == (TxInView {
                previous_output: previous_output@,
                script_length: varint_encode(signature_script@.len()),
                signature_script: signature_script@,
                sequence,
            }),
            tx_in_consistent(r@),
    {
        let script_length = VarLenInt::new(signature_script.len());
        proof {
            lemma_varint_encode(signature_script@.len());
        }
        TxIn { previous_output, script_length, signature_script, sequence }
    }

    /// Creates an input that spends `previous_output`, with an empty signature
    /// script and the largest sequence number.
    pub fn create_unsigned_with(previous_output: Outpoint) -> (r: TxIn)
        ensures
            r@ == (TxInView {
                previous_output: previous_output@,
                script_length: varint_encode(0),
                signature_script: Seq::empty(),
                sequence: u32::MAX,
            }),
            tx_in_consistent(r@),
    {
        TxIn::new(previous_output, Vec::new(), u32::MAX)
    }

    /// Replaces the signature script, and its length with it.
    pub fn insert_script_signature(&mut self, signature_script: Vec<u8>)
        ensures
            final(self)@ == (TxInView {
                script_length: varint_encode(signature_script@.len()),
                signature_script: signature_script@,
                ..old(self)@
            }),
    {
        self.script_length = VarLenInt::new(signature_script.len());
        self.signature_script = signature_script;
    }

    /// The signature script of the input.
    pub fn signature_script(&self) -> (r: &Vec<u8>)
        ensures
            r@ == self@.signature_script,
    {
        &self.signature_script
    }

    /// The outpoint that the input spends.
    pub fn script_length_value(&self) -> (r: u64)
        ensures
            r == varint_value(self@.script_length),
    {
        self.script_length.to_u64()
    }

    pub fn previous_output(&self) -> (r: &Outpoint)
        ensures
            r@ == self@.previous_output,
    {
        &self.previous_output
    }

    /// The input as bytes.
    pub fn to_bytes(&self) -> (r: Vec<u8>)
        ensures
            r@ == tx_in_bytes(self@),
    {
        let mut bytes_vector: Vec<u8> = Vec::new();
        let outpoint_bytes = self.previous_output.to_bytes();
        push_all(&mut bytes_vector, outpoint_bytes.as_slice());
        let len_bytes = self.script_length.to_bytes();
        push_all(&mut bytes_vector, len_bytes.as_slice());
        push_all(&mut bytes_vector, self.signature_script.as_slice());
        push_u32_le(&mut bytes_vector, self.sequence);
        bytes_vector
    }

    /// Reads the input at the front of `slice`; bytes after it are not used.
    pub fn from_bytes(slice: &[u8]) -> (r: Result<TxIn, TransactionError>)
        ensures
            match r {
                Ok(t) => tx_in_parse(slice@) == Some(t@),
                Err(e) => tx_in_parse(slice@) is None && e
                    == TransactionError::ErrorCreatingTxInFromBytes,
            },
    {
        if slice.len() < MIN_BYTES_TX_IN {
            return Err(TransactionError::ErrorCreatingTxInFromBytes);
        }
        let prev_out_bytes = slice_subrange(slice, 0, OUTPOINT_BYTES);
        let previous_output = match Outpoint::from_bytes(prev_out_bytes) {
            Ok(o) => o,
            Err(e) => return Err(e),
        };
        assert(prev_out_bytes@.take(32) =~= slice@.take(32));
        assert(prev_out_bytes@.subrange(32, 36) =~= slice@.subrange(32, 36));
        let rest = slice_subrange(slice, OUTPOINT_BYTES, slice.len());
        assert(rest@ =~= slice@.skip(36));
        let script_length = match VarLenInt::from_bytes(rest) {
            Some(script_length) => script_length,
            None => return Err(TransactionError::ErrorCreatingTxInFromBytes),
        };
        proof {
            lemma_varint_parse_result(rest@);
        }
        let k = script_length.amount_of_bytes();
        let n = script_length.to_u64();
        let start = OUTPOINT_BYTES + k;
        let avail = slice.len() - start;
        if (avail as u64) < 4 || ((avail - 4) as u64) < n {
            return Err(TransactionError::ErrorCreatingTxInFromBytes);
        }
        let signature_script = copy_range(slice, start, n as usize);
        let sequence = read_u32_le(slice, start + n as usize);
        proof {
            let r = slice@.skip(start as int);
            assert(signature_script@ =~= r.take(n as int));
            assert(slice@.subrange(start + n, start + n + 4) =~= r.subrange(n as int, n + 4));
        }
        Ok(TxIn { previous_output, script_length, signature_script, sequence })
    }

    /// How many bytes the input takes.
    pub fn amount_of_bytes(&self) -> (r: usize)
        ensures
            r == tx_in_bytes(self@).len(),
    {
        self.to_bytes().len()
    }
}

// ------------------------------------------------------------------------
// Transaction
// ------------------------------------------------------------------------
impl Transaction {
    /// Creates a new transaction; the counts are the shortest encodings of the
    /// numbers of inputs and outputs.
    pub fn new(version: i32, tx_in_vector: Vec<TxIn>, tx_out_vector: Vec<TxOut>, lock_time: u32) -> (r:
        Transaction)
        ensures
            r@ == (TransactionView {
                version,
                tx_in_count: varint_encode(tx_in_vector@.len()),
                tx_in: tx_ins_view(tx_in_vector@),
                tx_out_count: varint_encode(tx_out_vector@.len()),
                tx_out: tx_outs_view(tx_out_vector@),
                lock_time,
            }),
    {
        Transaction {
            version,
            tx_in_count: VarLenInt::new(tx_in_vector.len()),
            tx_in: tx_in_vector,
            tx_out_count: VarLenInt::new(tx_out_vector.len()),
            tx_out: tx_out_vector,
            lock_time,
        }
    }

    /// The transaction as bytes.
    pub fn to_bytes(&self) -> (r: Vec<u8>)
        ensures
            r@ == transaction_bytes(self@),
    {
        let mut bytes_vector: Vec<u8> = Vec::new();
        push_i32_le(&mut bytes_vector, self.version);
        let count_bytes = self.tx_in_count.to_bytes();
        push_all(&mut bytes_vector, count_bytes.as_slice());
        let ghost start = bytes_vector@;
        let ghost ins = tx_ins_view(self.tx_in@);
        let mut i: usize = 0;
        while i < self.tx_in.len()
            invariant
                i <= self.tx_in@.len(),
                ins == tx_ins_view(self.tx_in@),
                bytes_vector@ == start + tx_ins_bytes(ins.take(i as int)),
            decreases self.tx_in@.len() - i,
        {
            let b = self.tx_in[i].to_bytes();
            push_all(&mut bytes_vector, b.as_slice());
            proof {
                assert(ins.take(i + 1).drop_last() =~= ins.take(i as int));
                assert(ins.take(i + 1).last() == self.tx_in@[i as int]@);
                assert(bytes_vector@ =~= start + tx_ins_bytes(ins.take(i + 1)));
            }
            i = i + 1;
        }
        assert(ins.take(i as int) =~= ins);
        let count_bytes = self.tx_out_count.to_bytes();
        push_all(&mut bytes_vector, count_bytes.as_slice());
        let ghost start2 = bytes_vector@;
        let ghost outs = tx_outs_view(self.tx_out@);
        let mut j: usize = 0;
        while j < self.tx_out.len()
            invariant
                j <= self.tx_out@.len(),
                outs == tx_outs_view(self.tx_out@),
                bytes_vector@ == start2 + tx_outs_bytes(outs.take(j as int)),
            decreases self.tx_out@.len() - j,
        {
            let b = self.tx_out[j].to_bytes();
            push_all(&mut bytes_vector, b.as_slice());
            proof {
                assert(outs.take(j + 1).drop_last() =~= outs.take(j as int));
                assert(outs.take(j + 1).last() == self.tx_out@[j as int]@);
                assert(bytes_vector@ =~= start2 + tx_outs_bytes(outs.take(j + 1)));
            }
            j = j + 1;
        }
        assert(outs.take(j as int) =~= outs);
        push_u32_le(&mut bytes_vector, self.lock_time);
        reveal(transaction_bytes);
        assert(bytes_vector@ =~= transaction_bytes(self@));
        bytes_vector
    }

    /// Reads the transaction at the front of `slice`; bytes after it are not
    /// used. Every failure is reported as `ErrorCreatingTxInFromBytes`.
    pub fn from_bytes(slice: &[u8]) -> (r: Result<Transaction, TransactionError>)
        ensures
            match r {
                Ok(t) => transaction_parse(slice@) == Some(t@),
                Err(e) => transaction_parse(slice@) is None && e
                    == TransactionError::ErrorCreatingTxInFromBytes,
            },
    {
        if slice.len() < MIN_BYTES_TRANSACTION {
            proof {
                reveal(transaction_parse);
            }
            return Err(TransactionError::ErrorCreatingTxInFromBytes);
        }
        match Self::_from_bytes(slice) {
            Some(transaction) => Ok(transaction),
            None => Err(TransactionError::ErrorCreatingTxInFromBytes),
        }
    }

    /// Reads the transaction at the front of `slice`, field by field.
    pub fn _from_bytes(slice: &[u8]) -> (r: Option<Transaction>)
        requires
            slice@.len() >= MIN_BYTES_TRANSACTION,
        ensures
            match r {
                Some(t) => transaction_parse(slice@) == Some(t@),
                None => transaction_parse(slice@) is None,
            },
    {
        reveal(transaction_parse);
        let ghost s = slice@;
        let version = read_i32_le(slice, 0);
        assert(s.subrange(0, 4) =~= s.take(4));
        let rest = slice_subrange(slice, 4, slice.len());
        assert(rest@ =~= s.skip(4));
        let tx_in_count = match VarLenInt::from_bytes(rest) {
            Some(c) => c,
            None => return None,
        };
        proof {
            lemma_varint_parse_result(rest@);
        }
        let p1: usize = 4 + tx_in_count.amount_of_bytes();
        let (tx_in, p2) = match parse_tx_ins(slice, p1, tx_in_count.to_u64()) {
            Some(r) => r,
            None => return None,
        };
        let rest = slice_subrange(slice, p2, slice.len());
        assert(rest@ =~= s.skip(p2 as int));
        let tx_out_count = match VarLenInt::from_bytes(rest) {
            Some(c) => c,
            None => return None,
        };
        proof {
            lemma_varint_parse_result(rest@);
        }
        let p3: usize = p2 + tx_out_count.amount_of_bytes();
        let (tx_out, pos) = match parse_tx_outs(slice, p3, tx_out_count.to_u64()) {
            Some(r) => r,
            None => return None,
        };
        if slice.len() - pos < 4 {
            return None;
        }
        let lock_time = read_u32_le(slice, pos);
        let r = Transaction { version, tx_in_count, tx_in, tx_out_count, tx_out, lock_time };
        Some(r)
    }

    /// How many bytes the transaction takes.
    pub fn amount_of_bytes(&self) -> (r: usize)
        ensures
            r == transaction_bytes(self@).len(),
    {
        self.to_bytes().len()
    }

    /// How many bytes the transaction takes (the name that the block code uses).
    pub fn ammount_of_bytes(&self) -> (r: usize)
        ensures
            r == transaction_bytes(self@).len(),
    {
        self.to_bytes().len()
    }

    /// The transaction's identifier: the double SHA-256 of its bytes.
    pub fn hash(&self) -> (r: [u8; 32])
        ensures
            r@ == double_sha256(transaction_bytes(self@)),
    {
        let bytes = self.to_bytes();
        sha256d_hash(bytes.as_slice())
    }

    /// The outputs of the transaction.
    pub fn tx_out(&self) -> (r: &Vec<TxOut>)
        ensures
            tx_outs_view(r@) == self@.tx_out,
    {
        &self.tx_out
    }

    /// The inputs of the transaction.
    pub fn tx_in(&self) -> (r: &Vec<TxIn>)
        ensures
            tx_ins_view(r@) == self@.tx_in,
    {
        &self.tx_in
    }

    /// Replaces the signature script of the input at `index`; its length is
    /// the shortest encoding of the new script's length.
    pub fn set_signature_script(&mut self, index: usize, signature_script: Vec<u8>)
        requires
            index < old(self)@.tx_in.len(),
        ensures
            final(self)@ == (TransactionView {
                tx_in: old(self)@.tx_in.update(
                    index as int,
                    TxInView {
                        script_length: varint_encode(signature_script@.len()),
                        signature_script: signature_script@,
                        ..old(self)@.tx_in[index as int]
                    },
                ),
                ..old(self)@
            }),
    {
        let previous_output = self.tx_in[index].previous_output;
        let sequence = self.tx_in[index].sequence;
        let t = TxIn {
            previous_output,
            script_length: VarLenInt::new(signature_script.len()),
            signature_script,
            sequence,
        };
        self.tx_in.set(index, t);
        assert(tx_ins_view(self.tx_in@) =~= old(self)@.tx_in.update(
            index as int,
            TxInView {
                script_length: varint_encode(t.signature_script@.len()),
                signature_script: t.signature_script@,
                ..old(self)@.tx_in[index as int]
            },
        ));
    }

    /// Does nothing; kept for the callers that name it.
    pub fn get_ballance_regarding(&self) {
    }
}

/// Reads `count` inputs one after the other, starting at `start`. Returns them
/// and the position just after the last one.
fn parse_tx_ins(slice: &[u8], start: usize, count: u64) -> (r: Option<(Vec<TxIn>, usize)>)
    requires
        start <= slice@.len(),
    ensures
        match r {
            Some((v, end)) => {
                &&& tx_ins_parse(slice@.skip(start as int), count as nat) == Some(tx_ins_view(v@))
                &&& end == start + tx_ins_bytes(tx_ins_view(v@)).len()
                &&& end <= slice@.len()
            },
            None => tx_ins_parse(slice@.skip(start as int), count as nat) is None,
        },
{
    let ghost s = slice@.skip(start as int);
    let mut pos: usize = start;
    let mut tx_in: Vec<TxIn> = Vec::new();
    let mut i: u64 = 0;
    while i < count
        invariant
            s == slice@.skip(start as int),
            i <= count,
            start <= pos <= slice@.len(),
            tx_ins_parse(s, i as nat) == Some(tx_ins_view(tx_in@)),
            pos == start + tx_ins_bytes(tx_ins_view(tx_in@)).len(),
        decreases count - i,
    {
        let sub = slice_subrange(slice, pos, slice.len());
        let ghost k = tx_ins_bytes(tx_ins_view(tx_in@)).len();
        assert(sub@ =~= s.skip(k as int));
        match TxIn::from_bytes(sub) {
            Ok(t) => {
                proof {
                    lemma_tx_in_parse_prefix(sub@);
                }
                let amt = t.amount_of_bytes();
                let ghost old_view = tx_ins_view(tx_in@);
                tx_in.push(t);
                proof {
                    assert(tx_ins_view(tx_in@) =~= old_view.push(t@));
                    assert(tx_ins_view(tx_in@).drop_last() =~= old_view);
                }
                pos = pos + amt;
                i = i + 1;
            },
            Err(_) => {
                proof {
                    lemma_tx_ins_parse_fails_later(s, (i + 1) as nat, count as nat);
                }
                return None;
            },
        }
    }
    Some((tx_in, pos))
}

/// Reads `count` outputs one after the other, starting at `start`. Returns them
/// and the position just after the last one.
fn parse_tx_outs(slice: &[u8], start: usize, count: u64) -> (r: Option<(Vec<TxOut>, usize)>)
    requires
        start <= slice@.len(),
    ensures
        match r {
            Some((v, end)) => {
                &&& tx_outs_parse(slice@.skip(start as int), count as nat) == Some(tx_outs_view(v@))
                &&& end == start + tx_outs_bytes(tx_outs_view(v@)).len()
                &&& end <= slice@.len()
            },
            None => tx_outs_parse(slice@.skip(start as int), count as nat) is None,
        },
{
    let ghost s = slice@.skip(start as int);
    let mut pos: usize = start;
    let mut tx_out: Vec<TxOut> = Vec::new();
    let mut i: u64 = 0;
    while i < count
        invariant
            s == slice@.skip(start as int),
            i <= count,
            start <= pos <= slice@.len(),
            tx_outs_parse(s, i as nat) == Some(tx_outs_view(tx_out@)),
            pos == start + tx_outs_bytes(tx_outs_view(tx_out@)).len(),
        decreases count - i,
    {
        let sub = slice_subrange(slice, pos, slice.len());
        let ghost k = tx_outs_bytes(tx_outs_view(tx_out@)).len();
        assert(sub@ =~= s.skip(k as int));
        match TxOut::from_bytes(sub) {
            Ok(t) => {
                proof {
                    lemma_tx_out_parse_prefix(sub@);
                }
                let amt = t.amount_of_bytes();
                let ghost old_view = tx_outs_view(tx_out@);
                tx_out.push(t);
                proof {
                    assert(tx_outs_view(tx_out@) =~= old_view.push(t@));
                    assert(tx_outs_view(tx_out@).drop_last() =~= old_view);
                }
                pos = pos + amt;
                i = i + 1;
            },
            Err(_) => {
                proof {
                    lemma_tx_outs_parse_fails_later(s, (i + 1) as nat, count as nat);
                }
                return None;
            },
        }
    }
    Some((tx_out, pos))
}

/// An unsigned input for each of `unspent_outpoints`, in the same order.
pub fn create_unsigned_tx_in_vector(unspent_outpoints: Vec<Outpoint>) -> (r: Vec<TxIn>)
    ensures
        r@.len() == unspent_outpoints@.len(),
        forall|i: int|
            0 <= i < r@.len() ==> #[trigger] r@[i]@ == (TxInView {
                previous_output: unspent_outpoints@[i]@,
                script_length: varint_encode(0),
                signature_script: Seq::empty(),
                sequence: u32::MAX,
            }),
{
    let mut tx_in_vector: Vec<TxIn> = Vec::new();
    let mut i: usize = 0;
    while i < unspent_outpoints.len()
        invariant
            i <= unspent_outpoints@.len(),
            tx_in_vector@.len() == i,
            forall|k: int|
                0 <= k < i ==> #[trigger] tx_in_vector@[k]@ == (TxInView {
                    previous_output: unspent_outpoints@[k]@,
                    script_length: varint_encode(0),
                    signature_script: Seq::empty(),
                    sequence: u32::MAX,
                }),
        decreases unspent_outpoints@.len() - i,
    {
        let txin = TxIn::create_unsigned_with(unspent_outpoints[i]);
        tx_in_vector.push(txin);
        i = i + 1;
    }
    tx_in_vector
}

// ------------------------------------------------------------------------
// What parsing returns is what it read.
// ------------------------------------------------------------------------

/// An input read from the front of `s` is consistent, and its bytes are the
/// bytes it was read from.
pub proof fn lemma_tx_in_parse_prefix(s: Seq<u8>)
    ensures
        tx_in_parse(s) matches Some(v) ==> {
            &&& tx_in_consistent(v)
            &&& tx_in_bytes(v).len() <= s.len()
            &&& tx_in_bytes(v) == s.take(tx_in_bytes(v).len() as int)
        },
{
    if let Some(v) = tx_in_parse(s) {
        let b = v.script_length;
        lemma_varint_parse_result(s.skip(36));
        let n = varint_value(b);
        let r = s.skip(36 + b.len() as int);
        lemma_u32_le(0, s.subrange(32, 36));
        lemma_u32_le(0, r.subrange(n as int, n as int + 4));
        assert(outpoint_bytes(v.previous_output) =~= s.take(36));
        assert(tx_in_bytes(v) =~= s.take(tx_in_bytes(v).len() as int));
    }
}

/// An output read from the front of `s` is consistent, and its bytes are the
/// bytes it was read from.
pub proof fn lemma_tx_out_parse_prefix(s: Seq<u8>)
    ensures
        tx_out_parse(s) matches Some(v) ==> {
            &&& tx_out_consistent(v)
            &&& tx_out_bytes(v).len() <= s.len()
            &&& tx_out_bytes(v) == s.take(tx_out_bytes(v).len() as int)
        },
{
    if let Some(v) = tx_out_parse(s) {
        lemma_varint_parse_result(s.skip(8));
        let x = i64_of_le(s.take(8));
        crate::codec::lemma_u64_le(0, s.take(8));
        assert(i64_le(x) =~= s.take(8)) by {
            assert((x as u64) == crate::codec::u64_of_le(s.take(8))) by {
                let y = crate::codec::u64_of_le(s.take(8));
                assert(((y as i64) as u64) == y) by (bit_vector);
            }
        }
        assert(tx_out_bytes(v) =~= s.take(tx_out_bytes(v).len() as int));
    }
}

/// Once reading `m` inputs fails, reading more fails too.
pub proof fn lemma_tx_ins_parse_fails_later(s: Seq<u8>, m: nat, n: nat)
    requires
        m <= n,
        tx_ins_parse(s, m) is None,
    ensures
        tx_ins_parse(s, n) is None,
    decreases n,
{
    if n > m {
        lemma_tx_ins_parse_fails_later(s, m, (n - 1) as nat);
    }
}

/// Once reading `m` outputs fails, reading more fails too.
pub proof fn lemma_tx_outs_parse_fails_later(s: Seq<u8>, m: nat, n: nat)
    requires
        m <= n,
        tx_outs_parse(s, m) is None,
    ensures
        tx_outs_parse(s, n) is None,
    decreases n,
{
    if n > m {
        lemma_tx_outs_parse_fails_later(s, m, (n - 1) as nat);
    }
}

// ------------------------------------------------------------------------
// Laws of the wire format.
// ------------------------------------------------------------------------

/// A consistent input is read back from the front of any bytes that start
/// with its encoding.
pub proof fn lemma_tx_in_roundtrip(v: TxInView, rest: Seq<u8>)
    requires
        tx_in_consistent(v),
    ensures
        tx_in_parse(tx_in_bytes(v) + rest) == Some(v),
{
    let s = tx_in_bytes(v) + rest;
    let b = v.script_length;
    let n = v.signature_script.len();
    lemma_u32_le(v.previous_output.index, seq![]);
    lemma_u32_le(v.sequence, seq![]);
    assert(s.skip(36) =~= b + (v.signature_script + u32_le(v.sequence) + rest));
    lemma_varint_parse_prefix(b, v.signature_script + u32_le(v.sequence) + rest);
    let r = s.skip(36 + b.len() as int);
    assert(r =~= v.signature_script + u32_le(v.sequence) + rest);
    assert(r.take(n as int) =~= v.signature_script);
    assert(r.subrange(n as int, n as int + 4) =~= u32_le(v.sequence));
    assert(s.take(32) =~= v.previous_output.hash);
    assert(s.subrange(32, 36) =~= u32_le(v.previous_output.index));
}

/// A consistent output is read back from the front of any bytes that start
/// with its encoding.
pub proof fn lemma_tx_out_roundtrip(v: TxOutView, rest: Seq<u8>)
    requires
        tx_out_consistent(v),
    ensures
        tx_out_parse(tx_out_bytes(v) + rest) == Some(v),
{
    let s = tx_out_bytes(v) + rest;
    let b = v.pk_script_length;
    lemma_signed_le(0, v.value);
    assert(s.skip(8) =~= b + (v.pk_script + rest));
    lemma_varint_parse_prefix(b, v.pk_script + rest);
    let r = s.skip(8 + b.len() as int);
    assert(r =~= v.pk_script + rest);
    assert(r.take(v.pk_script.len() as int) =~= v.pk_script);
    assert(s.take(8) =~= i64_le(v.value));
}

/// Consistent inputs are read back, in order, from the front of any bytes
/// that start with their encodings.
pub proof fn lemma_tx_ins_roundtrip(vs: Seq<TxInView>, rest: Seq<u8>)
    requires
        forall|i: int| 0 <= i < vs.len() ==> #[trigger] tx_in_consistent(vs[i]),
    ensures
        tx_ins_parse(tx_ins_bytes(vs) + rest, vs.len()) == Some(vs),
    decreases vs.len(),
{
    if vs.len() > 0 {
        let init = vs.drop_last();
        let last = vs.last();
        assert(tx_in_consistent(vs[vs.len() - 1]));
        assert forall|i: int| 0 <= i < init.len() implies #[trigger] tx_in_consistent(init[i]) by {
            assert(tx_in_consistent(vs[i]));
        }
        let tail = tx_in_bytes(last) + rest;
        lemma_tx_ins_roundtrip(init, tail);
        let s = tx_ins_bytes(vs) + rest;
        assert(s =~= tx_ins_bytes(init) + tail);
        assert(s.skip(tx_ins_bytes(init).len() as int) =~= tail);
        lemma_tx_in_roundtrip(last, rest);
        assert(init.push(last) =~= vs);
    }
}

/// Consistent outputs are read back, in order, from the front of any bytes
/// that start with their encodings.
pub proof fn lemma_tx_outs_roundtrip(vs: Seq<TxOutView>, rest: Seq<u8>)
    requires
        forall|i: int| 0 <= i < vs.len() ==> #[trigger] tx_out_consistent(vs[i]),
    ensures
        tx_outs_parse(tx_outs_bytes(vs) + rest, vs.len()) == Some(vs),
    decreases vs.len(),
{
    if vs.len() > 0 {
        let init = vs.drop_last();
        let last = vs.last();
        assert(tx_out_consistent(vs[vs.len() - 1]));
        assert forall|i: int| 0 <= i < init.len() implies #[trigger] tx_out_consistent(init[i]) by {
            assert(tx_out_consistent(vs[i]));
        }
        let tail = tx_out_bytes(last) + rest;
        lemma_tx_outs_roundtrip(init, tail);
        let s = tx_outs_bytes(vs) + rest;
        assert(s =~= tx_outs_bytes(init) + tail);
        assert(s.skip(tx_outs_bytes(init).len() as int) =~= tail);
        lemma_tx_out_roundtrip(last, rest);
        assert(init.push(last) =~= vs);
    }
}

/// Where the parts of a transaction's encoding lie, read from the front of
/// any bytes that start with it: the counts and the inputs.
#[verifier::spinoff_prover]
#[verifier::rlimit(80)]
proof fn lemma_transaction_layout_inputs(t: TransactionView, rest: Seq<u8>)
    requires
        transaction_consistent(t),
    ensures
        ({
            let s = transaction_bytes(t) + rest;
            let p1: int = 4 + t.tx_in_count.len() as int;
            let p2: int = p1 + tx_ins_bytes(t.tx_in).len() as int;
            &&& s.take(4) == i32_le(t.version)
            &&& p2 <= s.len()
            &&& varint_parse(s.skip(4)) == Some(t.tx_in_count)
            &&& tx_ins_parse(s.skip(p1), varint_value(t.tx_in_count)) == Some(t.tx_in)
            &&& s.skip(p2) == t.tx_out_count + tx_outs_bytes(t.tx_out) + u32_le(t.lock_time)
                + rest
        }),
{
    reveal(transaction_bytes);
    let ins_b = tx_ins_bytes(t.tx_in);
    let tail2 = t.tx_out_count + tx_outs_bytes(t.tx_out) + u32_le(t.lock_time) + rest;
    let tail1 = ins_b + tail2;
    let s = transaction_bytes(t) + rest;
    lemma_signed_le(t.version, 0);
    assert(s =~= i32_le(t.version) + (t.tx_in_count + tail1));
    assert(s.take(4) =~= i32_le(t.version));
    assert(s.skip(4) =~= t.tx_in_count + tail1);
    lemma_varint_parse_prefix(t.tx_in_count, tail1);
    let p1: int = 4 + t.tx_in_count.len() as int;
    assert(s.skip(p1) =~= ins_b + tail2);
    lemma_tx_ins_roundtrip(t.tx_in, tail2);
    let p2: int = p1 + ins_b.len() as int;
    assert(s.skip(p2) =~= tail2);
}

/// Where the parts of a transaction's encoding lie after its inputs: the
/// count of outputs, the outputs and the lock time.
#[verifier::spinoff_prover]
#[verifier::rlimit(60)]
proof fn lemma_transaction_layout_outputs(t: TransactionView, rest: Seq<u8>)
    requires
        transaction_consistent(t),
    ensures
        ({
            let s2 = t.tx_out_count + tx_outs_bytes(t.tx_out) + u32_le(t.lock_time) + rest;
            let q1: int = t.tx_out_count.len() as int;
            let q2: int = q1 + tx_outs_bytes(t.tx_out).len() as int;
            &&& varint_parse(s2) == Some(t.tx_out_count)
            &&& tx_outs_parse(s2.skip(q1), varint_value(t.tx_out_count)) == Some(t.tx_out)
            &&& s2.len() >= q2 + 4
            &&& s2.subrange(q2, q2 + 4) == u32_le(t.lock_time)
        }),
{
    lemma_u32_le(t.lock_time, seq![]);
    let outs_b = tx_outs_bytes(t.tx_out);
    let tail4 = u32_le(t.lock_time) + rest;
    let s2 = t.tx_out_count + tx_outs_bytes(t.tx_out) + u32_le(t.lock_time) + rest;
    assert(s2 =~= t.tx_out_count + (outs_b + tail4));
    lemma_varint_parse_prefix(t.tx_out_count, outs_b + tail4);
    let q1: int = t.tx_out_count.len() as int;
    assert(s2.skip(q1) =~= outs_b + tail4);
    lemma_tx_outs_roundtrip(t.tx_out, tail4);
    let q2: int = q1 + outs_b.len() as int;
    assert(s2.subrange(q2, q2 + 4) =~= u32_le(t.lock_time));
}

/// The law of the transaction format: a consistent transaction is read back
/// whole from the front of any bytes that start with its encoding, which is
/// what `Transaction::from_bytes` applied to `to_bytes` gives.
#[verifier::spinoff_prover]
pub proof fn lemma_transaction_roundtrip(t: TransactionView, rest: Seq<u8>)
    requires
        transaction_consistent(t),
    ensures
        transaction_parse(transaction_bytes(t) + rest) == Some(t),
{
    let s = transaction_bytes(t) + rest;
    lemma_transaction_layout_inputs(t, rest);
    lemma_transaction_layout_outputs(t, rest);
    lemma_signed_le(t.version, 0);
    lemma_u32_le(t.lock_time, seq![]);
    let p1: int = 4 + t.tx_in_count.len() as int;
    let p2: int = p1 + tx_ins_bytes(t.tx_in).len() as int;
    let s2 = s.skip(p2);
    let q1: int = t.tx_out_count.len() as int;
    let q2: int = q1 + tx_outs_bytes(t.tx_out).len() as int;
    assert(s.skip(p2 + q1) =~= s2.skip(q1));
    assert(s.subrange(p2 + q2, p2 + q2 + 4) =~= s2.subrange(q2, q2 + 4));
    assert(s.len() >= MIN_BYTES_TRANSACTION);
    reveal(transaction_parse);
}

/// Inputs read one after the other are consistent, and their encodings are
/// the bytes they were read from.
pub proof fn lemma_tx_ins_parse_prefix(s: Seq<u8>, n: nat)
    ensures
        tx_ins_parse(s, n) matches Some(vs) ==> {
            &&& vs.len() == n
            &&& forall|i: int| 0 <= i < vs.len() ==> #[trigger] tx_in_consistent(vs[i])
            &&& tx_ins_bytes(vs).len() <= s.len()
            &&& tx_ins_bytes(vs) == s.take(tx_ins_bytes(vs).len() as int)
        },
    decreases n,
{
    if n > 0 {
        lemma_tx_ins_parse_prefix(s, (n - 1) as nat);
        if let Some(init) = tx_ins_parse(s, (n - 1) as nat) {
            let k = tx_ins_bytes(init).len() as int;
            lemma_tx_in_parse_prefix(s.skip(k));
            if let Some(v) = tx_in_parse(s.skip(k)) {
                let vs = init.push(v);
                assert(vs.drop_last() =~= init);
                assert(tx_ins_bytes(vs) =~= s.take(tx_ins_bytes(vs).len() as int));
                assert forall|i: int| 0 <= i < vs.len() implies #[trigger] tx_in_consistent(vs[i]) by {
                    if i < init.len() {
                        assert(vs[i] == init[i]);
                    }
                }
            }
        }
    }
}

/// Outputs read one after the other are consistent, and their encodings are
/// the bytes they were read from.
pub proof fn lemma_tx_outs_parse_prefix(s: Seq<u8>, n: nat)
    ensures
        tx_outs_parse(s, n) matches Some(vs) ==> {
            &&& vs.len() == n
            &&& forall|i: int| 0 <= i < vs.len() ==> #[trigger] tx_out_consistent(vs[i])
            &&& tx_outs_bytes(vs).len() <= s.len()
            &&& tx_outs_bytes(vs) == s.take(tx_outs_bytes(vs).len() as int)
        },
    decreases n,
{
    if n > 0 {
        lemma_tx_outs_parse_prefix(s, (n - 1) as nat);
        if let Some(init) = tx_outs_parse(s, (n - 1) as nat) {
            let k = tx_outs_bytes(init).len() as int;
            lemma_tx_out_parse_prefix(s.skip(k));
            if let Some(v) = tx_out_parse(s.skip(k)) {
                let vs = init.push(v);
                assert(vs.drop_last() =~= init);
                assert(tx_outs_bytes(vs) =~= s.take(tx_outs_bytes(vs).len() as int));
                assert forall|i: int| 0 <= i < vs.len() implies #[trigger] tx_out_consistent(vs[i]) by {
                    if i < init.len() {
                        assert(vs[i] == init[i]);
                    }
                }
            }
        }
    }
}

/// The converse law: a transaction read from the front of `s` is consistent,
/// and its encoding is exactly the bytes it was read from.
pub proof fn lemma_transaction_parse_prefix(s: Seq<u8>)
    ensures
        transaction_parse(s) matches Some(t) ==> {
            &&& transaction_consistent(t)
            &&& transaction_bytes(t).len() <= s.len()
            &&& transaction_bytes(t) == s.take(transaction_bytes(t).len() as int)
        },
{
    reveal(transaction_parse);
    reveal(transaction_bytes);
    if let Some(t) = transaction_parse(s) {
        lemma_varint_parse_result(s.skip(4));
        let p1: int = 4 + t.tx_in_count.len() as int;
        lemma_tx_ins_parse_prefix(s.skip(p1), varint_value(t.tx_in_count));
        let p2: int = p1 + tx_ins_bytes(t.tx_in).len() as int;
        lemma_varint_parse_result(s.skip(p2));
        let p3: int = p2 + t.tx_out_count.len() as int;
        lemma_tx_outs_parse_prefix(s.skip(p3), varint_value(t.tx_out_count));
        let p4: int = p3 + tx_outs_bytes(t.tx_out).len() as int;
        lemma_signed_le(0, 0);
        crate::codec::lemma_u32_le(0, s.take(4));
        crate::codec::lemma_u32_le(0, s.subrange(p4, p4 + 4));
        let x = i32_of_le(s.take(4));
        let y = u32_of_le(s.take(4));
        assert(((y as i32) as u32) == y) by (bit_vector);
        assert(i32_le(x) =~= s.take(4));
        assert(transaction_bytes(t) =~= s.take(transaction_bytes(t).len() as int));
    }
}

} // verus!
