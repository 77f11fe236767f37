//! Block headers and blocks, and their wire format.
use vstd::prelude::*;
use vstd::slice::slice_subrange;
use crate::codec::{
    i32_le, i32_of_le, lemma_signed_le, lemma_u32_le, push_all, push_i32_le, push_u32_be,
    push_u32_le, read_hash, read_i32_le, read_u32_be, read_u32_le, u32_be, u32_le, u32_of_be,
    u32_of_le,
};
use crate::environment::{now_timestamp, random_u32};
use crate::errors::BlockChainError;
use crate::hashing::{double_sha256, sha256d_hash};
use crate::transaction::{
    lemma_transaction_parse_prefix, lemma_transaction_roundtrip, transaction_bytes,
    transaction_consistent, transaction_parse, Transaction, TransactionView,
};
use crate::var_len_int::{
    lemma_varint_encode, lemma_varint_parse_prefix, lemma_varint_parse_result, varint_encode,
    varint_parse, varint_value, varint_wf, VarLenInt,
};

verus! {

pub const BLOCKHEADER_SIZE: usize = 80;

pub const MINIMAL_BLOCK_SIZE: usize = 81;

/// The header of a block.
#[derive(Debug, PartialEq, Eq, Clone, Copy)]
pub struct BlockHeader {
    pub version: i32,
    pub prev_hash: [u8; 32],
    pub merkle_root_hash: [u8; 32],
    pub time: u32,
    pub n_bits: u32,
    pub nonce: u32,
}

/// A block: its header and its transactions.
#[derive(Debug, PartialEq, Eq)]
pub struct Block {
    header: BlockHeader,
    transaction_count: VarLenInt,
    transactions: Vec<Transaction>,
}

/// A block header as plain values.
pub struct HeaderView {
    pub version: i32,
    pub prev_hash: Seq<u8>,
    pub merkle_root_hash: Seq<u8>,
    pub time: u32,
    pub n_bits: u32,
    pub nonce: u32,
}

impl View for BlockHeader {
    type V = HeaderView;

    open spec fn view(&self) -> HeaderView {
        HeaderView {
            version: self.version,
            prev_hash: self.prev_hash@,
            merkle_root_hash: self.merkle_root_hash@,
            time: self.time,
            n_bits: self.n_bits,
            nonce: self.nonce,
        }
    }
}

/// A block as plain values.
pub struct BlockView {
    pub header: HeaderView,
    pub transaction_count: Seq<u8>,
    pub transactions: Seq<TransactionView>,
}

pub open spec fn transactions_view(v: Seq<Transaction>) -> Seq<TransactionView> {
    v.map_values(|t: Transaction| t@)
}

impl View for Block {
    type V = BlockView;

    closed spec fn view(&self) -> BlockView {
        BlockView {
            header: self.header@,
            transaction_count: self.transaction_count@,
            transactions: transactions_view(self.transactions@),
        }
    }
}

/// The 80 bytes of a header. The difficulty bits are written big-endian.
pub open spec fn header_bytes(h: HeaderView) -> Seq<u8> {
    i32_le(h.version) + h.prev_hash + h.merkle_root_hash + u32_le(h.time) + u32_be(h.n_bits)
        + u32_le(h.nonce)
}

/// The header held in the first 80 bytes of `s`.
pub open spec fn header_parse(s: Seq<u8>) -> HeaderView {
    HeaderView {
        version: i32_of_le(s.subrange(0, 4)),
        prev_hash: s.subrange(4, 36),
        merkle_root_hash: s.subrange(36, 68),
        time: u32_of_le(s.subrange(68, 72)),
        n_bits: u32_of_be(s.subrange(72, 76)),
        nonce: u32_of_le(s.subrange(76, 80)),
    }
}

/// Both hashes of the header are 32 bytes long.
pub open spec fn header_wf(h: HeaderView) -> bool {
    h.prev_hash.len() == 32 && h.merkle_root_hash.len() == 32
}

pub open spec fn header_hash(h: HeaderView) -> Seq<u8> {
    double_sha256(header_bytes(h))
}

pub open spec fn transactions_bytes(s: Seq<TransactionView>) -> Seq<u8>
    decreases s.len(),
{
    if s.len() == 0 {
        Seq::empty()
    } else {
        transactions_bytes(s.drop_last()) + transaction_bytes(s.last())
    }
}

pub open spec fn block_bytes(b: BlockView) -> Seq<u8> {
    header_bytes(b.header) + b.transaction_count + transactions_bytes(b.transactions)
}

/// `n` transactions one after the other at the front of `s`.
pub open spec fn transactions_parse(s: Seq<u8>, n: nat) -> Option<Seq<TransactionView>>
    decreases n,
{
    if n == 0 {
        Some(Seq::empty())
    } else {
        match transactions_parse(s, (n - 1) as nat) {
            None => None,
            Some(vs) => match transaction_parse(s.skip(transactions_bytes(vs).len() as int)) {
                None => None,
                Some(v) => Some(vs.push(v)),
            },
        }
    }
}

/// The block at the front of `s` with header `h`, if `s` holds all of it.
pub open spec fn block_parse_with(s: Seq<u8>, h: HeaderView) -> Option<BlockView> {
    match varint_parse(s.skip(80)) {
        None => None,
        Some(c) => match transactions_parse(s.skip(80 + c.len() as int), varint_value(c)) {
            None => None,
            Some(txs) => Some(BlockView { header: h, transaction_count: c, transactions: txs }),
        },
    }
}

/// The block at the front of `s`, if `s` holds all of it.
pub open spec fn block_parse(s: Seq<u8>) -> Option<BlockView> {
    if s.len() < MINIMAL_BLOCK_SIZE {
        None
    } else {
        block_parse_with(s, header_parse(s))
    }
}

/// A block's counts and lengths agree with what it holds.
pub open spec fn block_consistent(b: BlockView) -> bool {
    &&& header_wf(b.header)
    &&& varint_wf(b.transaction_count)
    &&& varint_value(b.transaction_count) == b.transactions.len()
    &&& forall|i: int|
        0 <= i < b.transactions.len() ==> #[trigger] transaction_consistent(b.transactions[i])
}

impl BlockHeader {
    /// Creates a header with the given fields; the time is the current time and
    /// the nonce is random.
    pub fn new(version: i32, prev_hash: [u8; 32], merkle_root_hash: [u8; 32], n_bits: u32) -> (r:
        BlockHeader)
        ensures
            r.version == version,
            r.prev_hash == prev_hash,
            r.merkle_root_hash == merkle_root_hash,
            r.n_bits == n_bits,
    {
        let time = now_timestamp() as u32;
        let nonce = random_u32();
        BlockHeader { version, prev_hash, merkle_root_hash, time, n_bits, nonce }
    }

    /// The 80 bytes of the header.
    pub fn to_bytes(&self) -> (r: Vec<u8>)
        ensures
            r@ == header_bytes(self@),
    {
        let mut bytes_vector: Vec<u8> = Vec::new();
        push_i32_le(&mut bytes_vector, self.version);
        push_all(&mut bytes_vector, self.prev_hash.as_slice());
        push_all(&mut bytes_vector, self.merkle_root_hash.as_slice());
        push_u32_le(&mut bytes_vector, self.time);
        push_u32_be(&mut bytes_vector, self.n_bits);
        push_u32_le(&mut bytes_vector, self.nonce);
        bytes_vector
    }

    /// Reads a header from exactly 80 bytes; any other length is an error.
    pub fn from_bytes(slice: &[u8]) -> (r: Result<BlockHeader, BlockChainError>)
        ensures
            slice@.len() == BLOCKHEADER_SIZE ==> (r matches Ok(h) && h@ == header_parse(slice@)),
            slice@.len() != BLOCKHEADER_SIZE ==> r == Err::<BlockHeader, _>(
                BlockChainError::ErrorCreatingBlockHeader,
            ),
    {
        if slice.len() != BLOCKHEADER_SIZE {
            return Err(BlockChainError::ErrorCreatingBlockHeader);
        }
        let version = read_i32_le(slice, 0);
        let prev_hash = read_hash(slice, 4);
        let merkle_root_hash = read_hash(slice, 36);
        let time = read_u32_le(slice, 68);
        let n_bits = read_u32_be(slice, 72);
        let nonce = read_u32_le(slice, 76);
        Ok(BlockHeader { version, prev_hash, merkle_root_hash, time, n_bits, nonce })
    }

    /// The hash of the header: the double SHA-256 of its 80 bytes.
    pub fn hash(&self) -> (r: [u8; 32])
        ensures
            r@ == header_hash(self@),
    {
        let bytes = self.to_bytes();
        sha256d_hash(bytes.as_slice())
    }

    /// The difficulty bits, from which the target threshold is computed.
    pub fn get_n_bits(&self) -> (r: u32)
        ensures
            r == self.n_bits,
    {
        self.n_bits
    }

    /// The Merkle root of the block's transactions.
    pub fn get_merkle_root(&self) -> (r: &[u8; 32])
        ensures
            *r == self.merkle_root_hash,
    {
        &self.merkle_root_hash
    }

    /// The time at which the block was created.
    pub fn time(&self) -> (r: u32)
        ensures
            r == self.time,
    {
        self.time
    }
}

/// A header is read back from its own 80 bytes.
pub proof fn lemma_header_roundtrip(h: HeaderView, rest: Seq<u8>)
    requires
        header_wf(h),
    ensures
        header_bytes(h).len() == BLOCKHEADER_SIZE,
        header_parse(header_bytes(h) + rest) == h,
{
    let s = header_bytes(h) + rest;
    lemma_signed_le(h.version, 0);
    lemma_u32_le(h.time, seq![]);
    lemma_u32_le(h.n_bits, seq![]);
    lemma_u32_le(h.nonce, seq![]);
    assert(s.subrange(0, 4) =~= i32_le(h.version));
    assert(s.subrange(4, 36) =~= h.prev_hash);
    assert(s.subrange(36, 68) =~= h.merkle_root_hash);
    assert(s.subrange(68, 72) =~= u32_le(h.time));
    assert(s.subrange(72, 76) =~= u32_be(h.n_bits));
    assert(s.subrange(76, 80) =~= u32_le(h.nonce));
}

/// A well-formed header takes 80 bytes.
pub proof fn lemma_header_bytes_len(h: HeaderView)
    requires
        header_wf(h),
    ensures
        header_bytes(h).len() == BLOCKHEADER_SIZE,
{
    lemma_signed_le(h.version, 0);
    lemma_u32_le(h.time, seq![]);
    lemma_u32_le(h.n_bits, seq![]);
    lemma_u32_le(h.nonce, seq![]);
}

/// The header read from 80 bytes is well formed and encodes back to them.
pub proof fn lemma_header_parse_prefix(s: Seq<u8>)
    requires
        s.len() >= BLOCKHEADER_SIZE,
    ensures
        header_wf(header_parse(s)),
        header_bytes(header_parse(s)) == s.take(80),
{
    lemma_u32_le(0, s.subrange(0, 4));
    lemma_u32_le(0, s.subrange(68, 72));
    lemma_u32_le(0, s.subrange(72, 76));
    lemma_u32_le(0, s.subrange(76, 80));
    let y = u32_of_le(s.subrange(0, 4));
    assert(((y as i32) as u32) == y) by (bit_vector);
    assert(i32_le(header_parse(s).version) =~= s.subrange(0, 4));
    assert(header_bytes(header_parse(s)) =~= s.take(80));
}

impl Block {
    /// Creates a block; the count is the shortest encoding of the number of
    /// transactions.
    pub fn new(header: BlockHeader, transactions: Vec<Transaction>) -> (r: Block)
        ensures
            r@ == (BlockView {
                header: header@,
                transaction_count: varint_encode(transactions@.len()),
                transactions: transactions_view(transactions@),
            }),
    {
        let transaction_count = VarLenInt::new(transactions.len());
        Block { header, transaction_count, transactions }
    }

    /// The block as bytes.
    pub fn to_bytes(&self) -> (r: Vec<u8>)
        ensures
            r@ == block_bytes(self@),
    {
        let mut bytes_vector = self.header.to_bytes();
        let count_bytes = self.transaction_count.to_bytes();
        push_all(&mut bytes_vector, count_bytes.as_slice());
        let ghost start = bytes_vector@;
        let ghost txs = transactions_view(self.transactions@);
        let mut i: usize = 0;
        while i < self.transactions.len()
            invariant
                i <= self.transactions@.len(),
                txs == transactions_view(self.transactions@),
                bytes_vector@ == start + transactions_bytes(txs.take(i as int)),
            decreases self.transactions@.len() - i,
        {
            let b = self.transactions[i].to_bytes();
            push_all(&mut bytes_vector, b.as_slice());
            proof {
                assert(txs.take(i + 1).drop_last() =~= txs.take(i as int));
                assert(txs.take(i + 1).last() == self.transactions@[i as int]@);
                assert(bytes_vector@ =~= start + transactions_bytes(txs.take(i + 1)));
            }
            i = i + 1;
        }
        assert(txs.take(i as int) =~= txs);
        assert(bytes_vector@ =~= block_bytes(self@));
        bytes_vector
    }

    /// Reads the block at the front of `slice`: an 80-byte header, a count and
    /// that many transactions. Bytes after it are not used.
    pub fn from_bytes(slice: &[u8]) -> (r: Result<Block, BlockChainError>)
        ensures
            match r {
                Ok(b) => block_parse(slice@) == Some(b@),
                Err(e) => e == BlockChainError::ErrorCreatingBlock && block_parse(slice@) is None,
            },
    {
        if slice.len() < MINIMAL_BLOCK_SIZE {
            return Err(BlockChainError::ErrorCreatingBlock);
        }
        let header_bytes = slice_subrange(slice, 0, BLOCKHEADER_SIZE);
        assert(header_bytes@ =~= slice@.take(80));
        let header = match BlockHeader::from_bytes(header_bytes) {
            Ok(h) => h,
            Err(_) => return Err(BlockChainError::ErrorCreatingBlock),
        };
        proof {
            let t = slice@.take(80);
            assert(t.subrange(0, 4) =~= slice@.subrange(0, 4));
            assert(t.subrange(4, 36) =~= slice@.subrange(4, 36));
            assert(t.subrange(36, 68) =~= slice@.subrange(36, 68));
            assert(t.subrange(68, 72) =~= slice@.subrange(68, 72));
            assert(t.subrange(72, 76) =~= slice@.subrange(72, 76));
            assert(t.subrange(76, 80) =~= slice@.subrange(76, 80));
            assert(header@ == header_parse(slice@));
        }

        let rest = slice_subrange(slice, BLOCKHEADER_SIZE, slice.len());
        assert(rest@ =~= slice@.skip(80));
        let transaction_count = match VarLenInt::from_bytes(rest) {
            Some(c) => c,
            None => return Err(BlockChainError::ErrorCreatingBlock),
        };
        proof {
            lemma_varint_parse_result(rest@);
        }
        let start = BLOCKHEADER_SIZE + transaction_count.amount_of_bytes();
        match parse_transactions(slice, start, transaction_count.to_u64()) {
            Some(transactions) => Ok(Block { header, transaction_count, transactions }),
            None => Err(BlockChainError::ErrorCreatingBlock),
        }
    }

    /// How many bytes the block takes.
    pub fn amount_of_bytes(&self) -> (r: usize)
        ensures
            r == block_bytes(self@).len(),
    {
        self.to_bytes().len()
    }

    /// The time at which the block was created.
    pub fn time(&self) -> (r: u32)
        ensures
            r == self@.header.time,
    {
        self.header.time
    }

    /// A copy of the header of the block.
    pub fn get_header(&self) -> (r: BlockHeader)
        ensures
            r@ == self@.header,
    {
        BlockHeader {
            version: self.header.version,
            prev_hash: self.header.prev_hash,
            merkle_root_hash: self.header.merkle_root_hash,
            time: self.header.time,
            n_bits: self.header.n_bits,
            nonce: self.header.nonce,
        }
    }

    /// The transactions of the block.
    pub fn get_transactions(&self) -> (r: &Vec<Transaction>)
        ensures
            transactions_view(r@) == self@.transactions,
    {
        &self.transactions
    }

    /// The hash of the block's header.
    pub fn header_hash(&self) -> (r: [u8; 32])
        ensures
            r@ == header_hash(self@.header),
    {
        self.get_header().hash()
    }

    /// The hashes of the block's transactions, in order.
    pub fn get_tx_hashes(&self) -> (r: Vec<[u8; 32]>)
        ensures
            r@.len() == self@.transactions.len(),
            forall|i: int|
                0 <= i < r@.len() ==> #[trigger] r@[i]@ == double_sha256(
                    transaction_bytes(self@.transactions[i]),
                ),
    {
        let mut hashes: Vec<[u8; 32]> = Vec::new();
        let mut i: usize = 0;
        while i < self.transactions.len()
            invariant
                i <= self.transactions@.len(),
                hashes@.len() == i,
                forall|k: int|
                    0 <= k < i ==> #[trigger] hashes@[k]@ == double_sha256(
                        transaction_bytes(self.transactions@[k]@),
                    ),
            decreases self.transactions@.len() - i,
        {
            let h = self.transactions[i].hash();
            hashes.push(h);
            i = i + 1;
        }
        hashes
    }
}

/// Reads `count` transactions one after the other, starting at `start`.
fn parse_transactions(slice: &[u8], start: usize, count: u64) -> (r: Option<Vec<Transaction>>)
    requires
        start <= slice@.len(),
    ensures
        match r {
            Some(v) => transactions_parse(slice@.skip(start as int), count as nat) == Some(
                transactions_view(v@),
            ),
            None => transactions_parse(slice@.skip(start as int), count as nat) is None,
        },
{
    let ghost s = slice@.skip(start as int);
    let mut pos: usize = start;
    let mut txs: Vec<Transaction> = Vec::new();
    let mut i: u64 = 0;
    while i < count
        invariant
            s == slice@.skip(start as int),
            i <= count,
            start <= pos <= slice@.len(),
            transactions_parse(s, i as nat) == Some(transactions_view(txs@)),
            pos == start + transactions_bytes(transactions_view(txs@)).len(),
        decreases count - i,
    {
        let sub = slice_subrange(slice, pos, slice.len());
        let ghost k = transactions_bytes(transactions_view(txs@)).len();
        assert(sub@ =~= s.skip(k as int));
        match Transaction::from_bytes(sub) {
            Ok(t) => {
                proof {
                    lemma_transaction_parse_prefix(sub@);
                }
                let amt = t.amount_of_bytes();
                let ghost old_view = transactions_view(txs@);
                txs.push(t);
                proof {
                    assert(transactions_view(txs@) =~= old_view.push(t@));
                    assert(transactions_view(txs@).drop_last() =~= old_view);
                }
                pos = pos + amt;
                i = i + 1;
            },
            Err(_) => {
                proof {
                    lemma_transactions_parse_fails_later(s, (i + 1) as nat, count as nat);
                }
                return None;
            },
        }
    }
    Some(txs)
}

/// Once reading `m` transactions fails, reading more fails too.
pub proof fn lemma_transactions_parse_fails_later(s: Seq<u8>, m: nat, n: nat)
    requires
        m <= n,
        transactions_parse(s, m) is None,
    ensures
        transactions_parse(s, n) is None,
    decreases n,
{
    if n > m {
        lemma_transactions_parse_fails_later(s, m, (n - 1) as nat);
    }
}

/// Consistent transactions are read back, in order, from the front of any
/// bytes that start with their encodings.
pub proof fn lemma_transactions_roundtrip(vs: Seq<TransactionView>, rest: Seq<u8>)
    requires
        forall|i: int| 0 <= i < vs.len() ==> #[trigger] transaction_consistent(vs[i]),
    ensures
        transactions_parse(transactions_bytes(vs) + rest, vs.len()) == Some(vs),
    decreases vs.len(),
{
    if vs.len() > 0 {
        let init = vs.drop_last();
        let last = vs.last();
        assert(transaction_consistent(vs[vs.len() - 1]));
        assert forall|i: int| 0 <= i < init.len() implies #[trigger] transaction_consistent(
            init[i],
        ) by {
            assert(transaction_consistent(vs[i]));
        }
        let tail = transaction_bytes(last) + rest;
        lemma_transactions_roundtrip(init, tail);
        let s = transactions_bytes(vs) + rest;
        assert(s =~= transactions_bytes(init) + tail);
        assert(s.skip(transactions_bytes(init).len() as int) =~= tail);
        lemma_transaction_roundtrip(last, rest);
        assert(init.push(last) =~= vs);
    }
}

/// The law of the block format: a consistent block is read back whole from
/// the front of any bytes that start with its encoding.
#[verifier::rlimit(50)]
pub proof fn lemma_block_roundtrip(b: BlockView, rest: Seq<u8>)
    requires
        block_consistent(b),
    ensures
        block_parse(block_bytes(b) + rest) == Some(b),
{
    let s = block_bytes(b) + rest;
    lemma_header_roundtrip(b.header, s.skip(80));
    let txs_b = transactions_bytes(b.transactions);
    assert(s =~= header_bytes(b.header) + s.skip(80));
    assert(s.skip(80) =~= b.transaction_count + (txs_b + rest));
    lemma_varint_parse_prefix(b.transaction_count, txs_b + rest);
    assert(varint_parse(s.skip(80)) == Some(b.transaction_count));
    assert(s.skip(80 + b.transaction_count.len() as int) =~= txs_b + rest);
    lemma_transactions_roundtrip(b.transactions, rest);
    assert(transactions_parse(txs_b + rest, b.transactions.len()) == Some(b.transactions));
    assert(header_parse(s) == b.header);
    assert(s.len() >= MINIMAL_BLOCK_SIZE);
}

/// A block's header and its transactions, as they come out of
/// `Block::from_bytes`, encode back to the bytes they were read from.
pub proof fn lemma_block_parse_prefix(s: Seq<u8>)
    ensures
        block_parse(s) matches Some(b) ==> block_bytes(b) == s.take(block_bytes(b).len() as int),
{
    if let Some(b) = block_parse(s) {
        lemma_header_parse_prefix(s);
        lemma_varint_parse_result(s.skip(80));
        let p: int = 80 + b.transaction_count.len() as int;
        lemma_transactions_parse_prefix(s.skip(p), varint_value(b.transaction_count));
        assert(block_bytes(b) =~= s.take(block_bytes(b).len() as int));
    }
}

/// Transactions read one after the other encode back to the bytes they were
/// read from.
pub proof fn lemma_transactions_parse_prefix(s: Seq<u8>, n: nat)
    ensures
        transactions_parse(s, n) matches Some(vs) ==> {
            &&& vs.len() == n
            &&& transactions_bytes(vs).len() <= s.len()
            &&& transactions_bytes(vs) == s.take(transactions_bytes(vs).len() as int)
        },
    decreases n,
{
    if n > 0 {
        lemma_transactions_parse_prefix(s, (n - 1) as nat);
        if let Some(init) = transactions_parse(s, (n - 1) as nat) {
            let k = transactions_bytes(init).len() as int;
            lemma_transaction_parse_prefix(s.skip(k));
            if let Some(v) = transaction_parse(s.skip(k)) {
                let vs = init.push(v);
                assert(vs.drop_last() =~= init);
                assert(transactions_bytes(vs) =~= s.take(transactions_bytes(vs).len() as int));
            }
        }
    }
}

} // verus!
