//! The files the node keeps its chain in: one holds headers back to back,
//! 80 bytes each; the other holds blocks back to back.
use vstd::prelude::*;
use crate::blockchain::{
    block_bytes, block_consistent, block_parse, header_bytes, header_wf, lemma_block_roundtrip,
    lemma_header_roundtrip, header_hash, header_parse, lemma_header_parse_prefix,
    lemma_transactions_parse_prefix, transactions_bytes, Block, BlockHeader, BlockView, HeaderView, BLOCKHEADER_SIZE,
};
use crate::var_len_int::{lemma_varint_parse_result, varint_value};
use vstd::slice::slice_subrange;
use crate::codec::push_all;
use crate::errors::NodeDataHandlerError;
use crate::hash_store::HashStore;
use crate::text::{chars_of, parse_unsigned, parse_unsigned_chars, split_chars, split_on};
use crate::node_state::headers_view;

verus! {

/// The headers of a headers file: one for each whole 80 bytes, in order;
/// bytes after the last whole header are not used.
#[verifier::opaque]
pub open spec fn headers_of_file(s: Seq<u8>) -> Seq<HeaderView>
    decreases s.len(),
{
    if s.len() < 80 {
        Seq::empty()
    } else {
        seq![header_parse(s)] + headers_of_file(s.skip(80))
    }
}

/// The blocks of a blocks file, each read from where the one before ends;
/// `None` when a block cannot be read.
#[verifier::opaque]
pub open spec fn blocks_of_file(s: Seq<u8>) -> Option<Seq<BlockView>>
    decreases s.len(),
{
    if s.len() == 0 {
        Some(Seq::empty())
    } else {
        match block_parse(s) {
            None => None,
            Some(b) => {
                if 0 < block_bytes(b).len() <= s.len() {
                    match blocks_of_file(s.skip(block_bytes(b).len() as int)) {
                        None => None,
                        Some(rest) => Some(seq![b] + rest),
                    }
                } else {
                    None
                }
            },
        }
    }
}

/// A block read from the front of some bytes takes at least its 80-byte
/// header and no more than the bytes.
proof fn lemma_block_parse_len(s: Seq<u8>)
    ensures
        block_parse(s) matches Some(b) ==> 80 <= block_bytes(b).len() <= s.len(),
{
    if let Some(b) = block_parse(s) {
        lemma_header_parse_prefix(s);
        assert(b.header == header_parse(s));
        assert(header_bytes(b.header).len() == 80);
        lemma_varint_parse_result(s.skip(80));
        let c = b.transaction_count;
        assert(c.len() <= s.len() - 80);
        let p: int = 80 + c.len() as int;
        lemma_transactions_parse_prefix(s.skip(p), varint_value(c));
        assert(transactions_bytes(b.transactions).len() <= s.len() - p);
    }
}

/// The headers kept in the bytes of a headers file (see `headers_of_file`).
pub fn get_all_headers(bytes: &[u8]) -> (r: Result<Vec<BlockHeader>, NodeDataHandlerError>)
    ensures
        r matches Ok(hs) && headers_view(hs@) == headers_of_file(bytes@),
{
    reveal(headers_of_file);
    let mut headers: Vec<BlockHeader> = Vec::new();
    let mut pos: usize = 0;
    assert(bytes@.skip(0) =~= bytes@);
    while bytes.len() - pos >= BLOCKHEADER_SIZE
        invariant
            pos <= bytes@.len(),
            headers_view(headers@) + headers_of_file(bytes@.skip(pos as int)) == headers_of_file(
                bytes@,
            ),
        decreases bytes@.len() - pos,
    {
        reveal(headers_of_file);
        let ghost rest = bytes@.skip(pos as int);
        let curr = slice_subrange(bytes, pos, pos + BLOCKHEADER_SIZE);
        let header = match BlockHeader::from_bytes(curr) {
            Ok(h) => h,
            Err(_) => return Err(NodeDataHandlerError::ErrorReadingHeaders),
        };
        proof {
            assert(curr@ =~= rest.take(80));
            assert(header_parse(curr@) == header_parse(rest)) by {
                assert(curr@.subrange(0, 4) =~= rest.subrange(0, 4));
                assert(curr@.subrange(4, 36) =~= rest.subrange(4, 36));
                assert(curr@.subrange(36, 68) =~= rest.subrange(36, 68));
                assert(curr@.subrange(68, 72) =~= rest.subrange(68, 72));
                assert(curr@.subrange(72, 76) =~= rest.subrange(72, 76));
                assert(curr@.subrange(76, 80) =~= rest.subrange(76, 80));
            }
            assert(rest.skip(80) =~= bytes@.skip(pos + 80));
        }
        let ghost before = headers@;
        headers.push(header);
        assert(headers_view(headers@) =~= headers_view(before).push(header@));
        assert(headers_view(before).push(header@) + headers_of_file(bytes@.skip(pos + 80))
            =~= headers_view(before) + (seq![header_parse(rest)] + headers_of_file(rest.skip(80))));
        pos = pos + BLOCKHEADER_SIZE;
    }
    reveal(headers_of_file);
    assert(headers_of_file(bytes@.skip(pos as int)) =~= Seq::<HeaderView>::empty());
    assert(headers_view(headers@) + Seq::<HeaderView>::empty() =~= headers_view(headers@));
    Ok(headers)
}

/// The blocks kept in the bytes of a blocks file (see `blocks_of_file`); a
/// block that cannot be read is `ErrorReadingBlocks`.
pub fn get_all_blocks(bytes: &[u8]) -> (r: Result<Vec<Block>, NodeDataHandlerError>)
    ensures
        match blocks_of_file(bytes@) {
            Some(bs) => r matches Ok(v) && v@.map_values(|b: Block| b@) == bs,
            None => r == Err::<Vec<Block>, NodeDataHandlerError>(
                NodeDataHandlerError::ErrorReadingBlocks,
            ),
        },
{
    reveal(blocks_of_file);
    let mut blocks: Vec<Block> = Vec::new();
    let mut pos: usize = 0;
    assert(bytes@.skip(0) =~= bytes@);
    assert(blocks@.map_values(|b: Block| b@) =~= Seq::<BlockView>::empty());
    while pos < bytes.len()
        invariant
            pos <= bytes@.len(),
            match blocks_of_file(bytes@.skip(pos as int)) {
                None => blocks_of_file(bytes@) is None,
                Some(rest) => blocks_of_file(bytes@) == Some(
                    blocks@.map_values(|b: Block| b@) + rest,
                ),
            },
        decreases bytes@.len() - pos,
    {
        reveal(blocks_of_file);
        let ghost rest = bytes@.skip(pos as int);
        let remaining = slice_subrange(bytes, pos, bytes.len());
        assert(remaining@ =~= rest);
        let block = match Block::from_bytes(remaining) {
            Ok(b) => b,
            Err(_) => return Err(NodeDataHandlerError::ErrorReadingBlocks),
        };
        proof {
            lemma_block_parse_len(rest);
        }
        let size = block.amount_of_bytes();
        proof {
            assert(rest.skip(size as int) =~= bytes@.skip(pos + size));
            let before = blocks@.map_values(|b: Block| b@);
            match blocks_of_file(rest.skip(size as int)) {
                None => {},
                Some(tail) => {
                    assert(before.push(block@) + tail =~= before + (seq![block@] + tail));
                },
            }
        }
        let ghost before = blocks@;
        blocks.push(block);
        assert(blocks@.map_values(|b: Block| b@) =~= before.map_values(|b: Block| b@).push(
            blocks@[before.len() as int]@,
        ));
        pos = pos + size;
    }
    reveal(blocks_of_file);
    assert(bytes@.skip(pos as int) =~= Seq::<u8>::empty());
    assert(blocks@.map_values(|b: Block| b@) + Seq::<BlockView>::empty() =~= blocks@.map_values(
        |b: Block| b@,
    ));
    Ok(blocks)
}

/// The bytes of the headers `hs`, back to back.
pub open spec fn headers_bytes(hs: Seq<HeaderView>) -> Seq<u8>
    decreases hs.len(),
{
    if hs.len() == 0 {
        Seq::empty()
    } else {
        headers_bytes(hs.drop_last()) + header_bytes(hs.last())
    }
}

/// The bytes of the blocks that `m` holds under the hashes of `hs`, back to
/// back, in the order of the headers.
pub open spec fn blocks_bytes(hs: Seq<HeaderView>, m: Map<Seq<u8>, Block>) -> Seq<u8>
    decreases hs.len(),
{
    if hs.len() == 0 {
        Seq::empty()
    } else {
        let h = header_hash(hs.last());
        blocks_bytes(hs.drop_last(), m) + if m.contains_key(h) {
            block_bytes(m[h]@)
        } else {
            Seq::empty()
        }
    }
}

/// What the headers file gains when the headers from `start` on are saved.
pub fn headers_to_save(block_headers: &Vec<BlockHeader>, start: usize) -> (r: Vec<u8>)
    ensures
        r@ == headers_bytes(
            if start <= block_headers@.len() {
                headers_view(block_headers@).skip(start as int)
            } else {
                Seq::empty()
            },
        ),
{
    let mut bytes: Vec<u8> = Vec::new();
    if start >= block_headers.len() {
        return bytes;
    }
    let ghost hs = headers_view(block_headers@).skip(start as int);
    let mut i: usize = start;
    assert(hs.take(0) =~= Seq::<HeaderView>::empty());
    while i < block_headers.len()
        invariant
            start <= i <= block_headers@.len(),
            hs == headers_view(block_headers@).skip(start as int),
            bytes@ == headers_bytes(hs.take(i - start)),
        decreases block_headers@.len() - i,
    {
        proof {
            assert(hs.take(i + 1 - start).drop_last() =~= hs.take(i - start));
            assert(hs.take(i + 1 - start).last() == block_headers@[i as int]@);
        }
        let header_bytes_vec = block_headers[i].to_bytes();
        push_all(&mut bytes, header_bytes_vec.as_slice());
        i = i + 1;
    }
    assert(hs.take(i - start) =~= hs);
    bytes
}

/// What the blocks file gains when the blocks of the headers from `start`
/// on are saved: those the chain holds, in the order of the headers.
pub fn blocks_to_save(block_headers: &Vec<BlockHeader>, blockchain: &HashStore<Block>, start: usize) -> (r:
    Vec<u8>)
    ensures
        r@ == blocks_bytes(
            if start <= block_headers@.len() {
                headers_view(block_headers@).skip(start as int)
            } else {
                Seq::empty()
            },
            blockchain@,
        ),
{
    let mut bytes: Vec<u8> = Vec::new();
    if start >= block_headers.len() {
        return bytes;
    }
    let ghost hs = headers_view(block_headers@).skip(start as int);
    let mut i: usize = start;
    assert(hs.take(0) =~= Seq::<HeaderView>::empty());
    while i < block_headers.len()
        invariant
            start <= i <= block_headers@.len(),
            hs == headers_view(block_headers@).skip(start as int),
            bytes@ == blocks_bytes(hs.take(i - start), blockchain@),
        decreases block_headers@.len() - i,
    {
        proof {
            assert(hs.take(i + 1 - start).drop_last() =~= hs.take(i - start));
            assert(hs.take(i + 1 - start).last() == block_headers@[i as int]@);
        }
        let hash = block_headers[i].hash();
        match blockchain.get(&hash) {
            Some(block) => {
                let block_bytes_vec = block.to_bytes();
                push_all(&mut bytes, block_bytes_vec.as_slice());
            },
            None => {
                assert(bytes@ + Seq::<u8>::empty() =~= bytes@);
            },
        }
        i = i + 1;
    }
    assert(hs.take(i - start) =~= hs);
    bytes
}

/// Takes in what was loaded from the files: each block joins the chain under
/// the hash of its header, and the headers follow the known ones.
pub fn load_blocks_and_headers(
    headers: Vec<BlockHeader>,
    blocks: Vec<Block>,
    block_headers: &mut Vec<BlockHeader>,
    blockchain: &mut HashStore<Block>,
)
    requires
        old(block_headers)@.len() + headers@.len() <= usize::MAX,
    ensures
        headers_view(final(block_headers)@) == headers_view(old(block_headers)@) + headers_view(
            headers@,
        ),
        final(blockchain)@ == insert_blocks(old(blockchain)@, blocks@),
{
    let ghost start = blockchain@;
    let ghost all = blocks@;
    let mut blocks = blocks;
    let mut i: usize = 0;
    assert(all.skip(0) =~= all);
    assert(all.len() == blocks.len());
    while blocks.len() > 0
        invariant
            i + blocks@.len() == all.len(),
            all.len() <= usize::MAX,
            blocks@ == all.skip(i as int),
            blockchain@ == insert_blocks(start, all.take(i as int)),
        decreases blocks@.len(),
    {
        let block = blocks.remove(0);
        proof {
            assert(block == all[i as int]);
            assert(all.take(i + 1).drop_last() =~= all.take(i as int));
            assert(all.take(i + 1).last() == all[i as int]);
            assert(blocks@ =~= all.skip(i + 1));
        }
        let hash = block.header_hash();
        blockchain.insert(hash, block);
        i = i + 1;
    }
    assert(all.take(i as int) =~= all);
    let ghost old_headers = block_headers@;
    let ghost new_headers = headers@;
    let mut headers = headers;
    block_headers.append(&mut headers);
    assert(headers_view(block_headers@) =~= headers_view(old_headers) + headers_view(new_headers));
}

/// The chain after each of `bs` joins it under the hash of its header, in
/// order.
pub open spec fn insert_blocks(m: Map<Seq<u8>, Block>, bs: Seq<Block>) -> Map<Seq<u8>, Block>
    decreases bs.len(),
{
    if bs.len() == 0 {
        m
    } else {
        insert_blocks(m, bs.drop_last()).insert(header_hash(bs.last()@.header), bs.last())
    }
}

/// The blocks that `m` holds under the hashes of `hs`, in the order of the
/// headers.
pub open spec fn held_blocks(hs: Seq<HeaderView>, m: Map<Seq<u8>, Block>) -> Seq<BlockView>
    decreases hs.len(),
{
    if hs.len() == 0 {
        Seq::empty()
    } else {
        let h = header_hash(hs.last());
        held_blocks(hs.drop_last(), m) + if m.contains_key(h) {
            seq![m[h]@]
        } else {
            Seq::empty()
        }
    }
}

/// The headers read from the bytes of `hs` followed by more bytes are `hs`
/// and then those of the bytes that follow.
#[verifier::spinoff_prover]
#[verifier::rlimit(50)]
proof fn lemma_headers_file_prefix(hs: Seq<HeaderView>, rest: Seq<u8>)
    requires
        forall|i: int| 0 <= i < hs.len() ==> header_wf(#[trigger] hs[i]),
    ensures
        headers_of_file(headers_bytes(hs) + rest) == hs + headers_of_file(rest),
    decreases hs.len(),
{
    if hs.len() == 0 {
        assert(headers_bytes(hs) + rest =~= rest);
        assert(hs + headers_of_file(rest) =~= headers_of_file(rest));
    } else {
        let init = hs.drop_last();
        let last = hs.last();
        let tail = header_bytes(last) + rest;
        assert forall|i: int| 0 <= i < init.len() implies header_wf(#[trigger] init[i]) by {
            assert(init[i] == hs[i]);
        }
        lemma_headers_file_prefix(init, tail);
        assert(headers_bytes(hs) + rest =~= headers_bytes(init) + tail);
        assert(headers_of_file(tail) == seq![last] + headers_of_file(rest)) by {
            reveal(headers_of_file);
            assert(header_wf(hs[hs.len() - 1]));
            lemma_header_roundtrip(last, rest);
            assert(tail.skip(80) =~= rest);
        }
        assert(init + (seq![last] + headers_of_file(rest)) =~= hs + headers_of_file(rest));
    }
}

/// The law of the headers file: the headers saved are the headers read back.
pub proof fn lemma_headers_file_roundtrip(hs: Seq<HeaderView>)
    requires
        forall|i: int| 0 <= i < hs.len() ==> header_wf(#[trigger] hs[i]),
    ensures
        headers_of_file(headers_bytes(hs)) == hs,
{
    lemma_headers_file_prefix(hs, Seq::empty());
    assert(headers_bytes(hs) + Seq::<u8>::empty() =~= headers_bytes(hs));
    assert(headers_of_file(Seq::<u8>::empty()) =~= Seq::<HeaderView>::empty()) by {
        reveal(headers_of_file);
    }
    assert(hs + Seq::<HeaderView>::empty() =~= hs);
}

/// A consistent block followed by more bytes reads as that block and then
/// the blocks of the bytes that follow.
proof fn lemma_blocks_file_step(b: BlockView, rest: Seq<u8>)
    requires
        block_consistent(b),
    ensures
        blocks_of_file(block_bytes(b) + rest) == match blocks_of_file(rest) {
            None => None,
            Some(tail) => Some(seq![b] + tail),
        },
{
    reveal(blocks_of_file);
    let s = block_bytes(b) + rest;
    lemma_block_roundtrip(b, rest);
    lemma_block_parse_len(s);
    assert(s.skip(block_bytes(b).len() as int) =~= rest);
}

/// The blocks read from the saved bytes followed by more bytes are the
/// saved blocks and then those of the bytes that follow.
#[verifier::spinoff_prover]
proof fn lemma_blocks_file_prefix(hs: Seq<HeaderView>, m: Map<Seq<u8>, Block>, rest: Seq<u8>)
    requires
        forall|k: Seq<u8>| #[trigger] m.contains_key(k) ==> block_consistent(m[k]@),
    ensures
        blocks_of_file(blocks_bytes(hs, m) + rest) == match blocks_of_file(rest) {
            None => None,
            Some(tail) => Some(held_blocks(hs, m) + tail),
        },
    decreases hs.len(),
{
    if hs.len() == 0 {
        assert(blocks_bytes(hs, m) + rest =~= rest);
        match blocks_of_file(rest) {
            None => {},
            Some(tail) => {
                assert(held_blocks(hs, m) + tail =~= tail);
            },
        }
    } else {
        let init = hs.drop_last();
        let h = header_hash(hs.last());
        if m.contains_key(h) {
            let b = m[h]@;
            assert(block_consistent(b));
            let tail = block_bytes(b) + rest;
            lemma_blocks_file_prefix(init, m, tail);
            assert(blocks_bytes(hs, m) == blocks_bytes(init, m) + block_bytes(b));
            assert(blocks_bytes(hs, m) + rest =~= blocks_bytes(init, m) + tail);
            assert(held_blocks(hs, m) == held_blocks(init, m) + seq![b]);
            lemma_blocks_file_step(b, rest);
            match blocks_of_file(rest) {
                None => {},
                Some(more) => {
                    assert(held_blocks(init, m) + (seq![b] + more) =~= held_blocks(hs, m) + more);
                },
            }
        } else {
            lemma_blocks_file_prefix(init, m, rest);
            assert(blocks_bytes(hs, m) =~= blocks_bytes(init, m));
            assert(held_blocks(hs, m) =~= held_blocks(init, m));
        }
    }
}

/// The law of the blocks file: when every block of the chain is consistent,
/// the blocks saved for the headers `hs` are the blocks read back, in the
/// order of the headers.
pub proof fn lemma_blocks_file_roundtrip(hs: Seq<HeaderView>, m: Map<Seq<u8>, Block>)
    requires
        forall|k: Seq<u8>| #[trigger] m.contains_key(k) ==> block_consistent(m[k]@),
    ensures
        blocks_of_file(blocks_bytes(hs, m)) == Some(held_blocks(hs, m)),
{
    lemma_blocks_file_prefix(hs, m, Seq::empty());
    assert(blocks_of_file(Seq::<u8>::empty()) == Some(Seq::<BlockView>::empty())) by {
        reveal(blocks_of_file);
    }
    assert(blocks_bytes(hs, m) + Seq::<u8>::empty() =~= blocks_bytes(hs, m));
    assert(held_blocks(hs, m) + Seq::<BlockView>::empty() =~= held_blocks(hs, m));
}

/// The bytes written on a line as numbers separated by commas; `None` when
/// a piece is not a number below 256.
pub open spec fn bytes_of_line(line: Seq<char>) -> Option<Seq<u8>> {
    let parts = split_on(line, ',');
    if forall|i: int| 0 <= i < parts.len() ==> (#[trigger] parse_unsigned(parts[i], 255)) is Some {
        Some(Seq::new(parts.len(), |i: int| parse_unsigned(parts[i], 255)->0 as u8))
    } else {
        None
    }
}

/// The bytes written on `line` (see `bytes_of_line`); a piece that is not a
/// byte is `ErrorReadingBytes`.
pub fn get_bytes_from_line(line: String) -> (r: Result<Vec<u8>, NodeDataHandlerError>)
    ensures
        match bytes_of_line(line@) {
            Some(b) => r matches Ok(v) && v@ == b,
            None => r == Err::<Vec<u8>, NodeDataHandlerError>(NodeDataHandlerError::ErrorReadingBytes),
        },
{
    let chars = chars_of(line.as_str());
    let parts = split_chars(chars.as_slice(), ',');
    let ghost ps = split_on(line@, ',');
    assert(parts@.map_values(|p: Vec<char>| p@) == ps);
    let mut bytes: Vec<u8> = Vec::new();
    let mut i: usize = 0;
    while i < parts.len()
        invariant
            i <= parts@.len(),
            ps == parts@.map_values(|p: Vec<char>| p@),
            ps == split_on(line@, ','),
            bytes@.len() == i,
            forall|k: int| 0 <= k < i ==> (#[trigger] parse_unsigned(ps[k], 255)) is Some,
            forall|k: int| 0 <= k < i ==> bytes@[k] == parse_unsigned(ps[k], 255)->0 as u8,
        decreases parts@.len() - i,
    {
        assert(ps[i as int] == parts@[i as int]@);
        match parse_unsigned_chars(parts[i].as_slice(), 255) {
            Some(b) => {
                bytes.push(b as u8);
            },
            None => {
                assert(parse_unsigned(ps[i as int], 255) is None);
                return Err(NodeDataHandlerError::ErrorReadingBytes);
            },
        }
        i = i + 1;
    }
    assert(bytes@ =~= Seq::new(ps.len(), |k: int| parse_unsigned(ps[k], 255)->0 as u8));
    Ok(bytes)
}

} // verus!
