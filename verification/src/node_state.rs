//! What the node does with the messages of its peers: the headers it
//! answers with, the blocks and transactions it keeps, and what it asks for.
use vstd::prelude::*;
use crate::block_proofs::{
    hashes_view, merkle_root, proof_of_work_valid, tx_hashes, validate_block_proof_of_inclusion,
    validate_proof_of_work,
};
use crate::blockchain::{block_bytes, block_parse, header_hash, Block, BlockHeader, HeaderView};
use crate::codec::{hash_eq, push_all};
use crate::errors::{MessageError, NodeError};
use crate::hash_store::HashStore;
use crate::messages::block_message::{block_command, BlockMessage};
use crate::messages::block_headers_message::{block_headers_parse, BlockHeadersMessage};
use crate::messages::header_message::{header_message_bytes, header_message_for};
use crate::messages::tx_message::tx_command;
use crate::messages::get_block_headers_message::MAX_QUANTITY_FOR_GET_HEADERS;
use crate::messages::get_block_headers_message::GetBlockHeadersMessage;
use crate::messages::get_data_message::GetDataMessage;
use crate::messages::message::Message;
use crate::messages::inv_message::{block_type, hashes_of_type, transaction_type, InvMessage};
use crate::messages::ping_pong_messages::{PingMessage, PongMessage};
use crate::messages::tx_message::TxMessage;
use crate::transaction::{transaction_bytes, Transaction};
use crate::hashing::double_sha256;

verus! {

/// The hash of the genesis block of the test network.
pub open spec fn genesis_hash() -> Seq<u8> {
    seq![
        0x00u8, 0x00u8, 0x00u8, 0x00u8, 0x00u8, 0x19u8, 0xd6u8, 0x68u8, 0x9cu8, 0x08u8, 0x5au8,
        0xe1u8, 0x65u8, 0x83u8, 0x1eu8, 0x93u8, 0x4fu8, 0xf7u8, 0x63u8, 0xaeu8, 0x46u8, 0xa2u8,
        0xa6u8, 0xc1u8, 0x72u8, 0xb3u8, 0xf1u8, 0xb6u8, 0x0au8, 0x8cu8, 0xe2u8, 0x6fu8,
    ]
}

/// The hash of the genesis block of the test network.
pub fn hashed_genesis_block() -> (r: [u8; 32])
    ensures
        r@ == genesis_hash(),
{
    let r = [
        0x00u8, 0x00u8, 0x00u8, 0x00u8, 0x00u8, 0x19u8, 0xd6u8, 0x68u8, 0x9cu8, 0x08u8, 0x5au8,
        0xe1u8, 0x65u8, 0x83u8, 0x1eu8, 0x93u8, 0x4fu8, 0xf7u8, 0x63u8, 0xaeu8, 0x46u8, 0xa2u8,
        0xa6u8, 0xc1u8, 0x72u8, 0xb3u8, 0xf1u8, 0xb6u8, 0x0au8, 0x8cu8, 0xe2u8, 0x6fu8,
    ];
    assert(r@ =~= genesis_hash());
    r
}

pub open spec fn headers_view(v: Seq<BlockHeader>) -> Seq<HeaderView> {
    v.map_values(|h: BlockHeader| h@)
}

/// How many headers to send from the front of `hs`: up to the one whose hash
/// is `stop`, and never more than 2000.
pub open spec fn headers_to_send_count(hs: Seq<HeaderView>, stop: Seq<u8>, i: int) -> int
    decreases hs.len() - i,
{
    if i >= hs.len() || i >= MAX_QUANTITY_FOR_GET_HEADERS {
        i
    } else if header_hash(hs[i]) == stop {
        i + 1
    } else {
        headers_to_send_count(hs, stop, i + 1)
    }
}

/// The headers to answer a request with, from `start` on (see
/// `headers_to_send_count`).
pub open spec fn headers_to_send(hs: Seq<HeaderView>, start: int, stop: Seq<u8>) -> Seq<HeaderView> {
    let rest = if start <= hs.len() {
        hs.skip(start)
    } else {
        Seq::empty()
    };
    rest.take(headers_to_send_count(rest, stop, 0))
}

/// The position of the first hash of `hashes` that the index holds, `None`
/// when the genesis hash comes first, an error when neither comes.
pub open spec fn starting_position(hashes: Seq<Seq<u8>>, index: Map<Seq<u8>, usize>) -> Result<
    Option<usize>,
    NodeError,
>
    decreases hashes.len(),
{
    if hashes.len() == 0 {
        Err(NodeError::ErrorFindingBlock)
    } else if index.contains_key(hashes[0]) {
        Ok(Some(index[hashes[0]]))
    } else if hashes[0] == genesis_hash() {
        Ok(None)
    } else {
        starting_position(hashes.skip(1), index)
    }
}

/// The index after the headers `hs` come after `n` known ones: each hash
/// names its position.
pub open spec fn index_after(index: Map<Seq<u8>, usize>, hs: Seq<HeaderView>, n: int) -> Map<
    Seq<u8>,
    usize,
>
    decreases hs.len(),
{
    if hs.len() == 0 {
        index
    } else {
        index_after(index, hs.drop_last(), n).insert(
            header_hash(hs.last()),
            (n + hs.len() - 1) as usize,
        )
    }
}

/// The map without each of `keys`.
pub open spec fn remove_all<V>(m: Map<Seq<u8>, V>, keys: Seq<Seq<u8>>) -> Map<Seq<u8>, V>
    decreases keys.len(),
{
    if keys.len() == 0 {
        m
    } else {
        remove_all(m, keys.drop_last()).remove(keys.last())
    }
}

/// The hashes among `hs` that `m` does not hold, in order.
pub open spec fn unknown<V>(hs: Seq<Seq<u8>>, m: Map<Seq<u8>, V>) -> Seq<Seq<u8>>
    decreases hs.len(),
{
    if hs.len() == 0 {
        Seq::empty()
    } else if m.contains_key(hs.last()) {
        unknown(hs.drop_last(), m)
    } else {
        unknown(hs.drop_last(), m).push(hs.last())
    }
}

/// Headers to answer a request with: from `starting_header_position`, each
/// header in turn, up to the one whose hash is `stopping_hash`, the end, or
/// 2000 headers.
pub fn get_headers_to_send(
    headers: &Vec<BlockHeader>,
    starting_header_position: usize,
    stopping_hash: &[u8; 32],
) -> (r: Vec<BlockHeader>)
    ensures
        headers_view(r@) == headers_to_send(
            headers_view(headers@),
            starting_header_position as int,
            stopping_hash@,
        ),
{
    let ghost hs = headers_view(headers@);
    let ghost rest = if starting_header_position <= hs.len() {
        hs.skip(starting_header_position as int)
    } else {
        Seq::empty()
    };
    let mut headers_to_send: Vec<BlockHeader> = Vec::new();
    if starting_header_position >= headers.len() {
        assert(rest.take(headers_to_send_count(rest, stopping_hash@, 0)) =~= Seq::empty());
        assert(headers_view(headers_to_send@) =~= Seq::empty());
        return headers_to_send;
    }
    let mut i: usize = starting_header_position;
    assert(headers_view(headers_to_send@) =~= rest.take(0));
    while i < headers.len()
        invariant_except_break
            starting_header_position <= i <= headers@.len(),
            hs == headers_view(headers@),
            rest == hs.skip(starting_header_position as int),
            i - starting_header_position < MAX_QUANTITY_FOR_GET_HEADERS,
            headers_view(headers_to_send@) == rest.take(i - starting_header_position),
            headers_to_send_count(rest, stopping_hash@, 0) == headers_to_send_count(
                rest,
                stopping_hash@,
                i - starting_header_position,
            ),
        ensures
            headers_view(headers_to_send@) == rest.take(
                headers_to_send_count(rest, stopping_hash@, 0),
            ),
        decreases headers@.len() - i,
    {
        let ghost k = i - starting_header_position;
        let header = headers[i];
        assert(rest[k] == header@);
        let ghost old_sent = headers_to_send@;
        headers_to_send.push(header);
        assert(headers_view(headers_to_send@) =~= headers_view(old_sent).push(header@));
        assert(rest.take(k + 1) =~= rest.take(k).push(rest[k]));
        let h = header.hash();
        assert(header_hash(rest[k]) == h@);
        if headers_to_send.len() >= MAX_QUANTITY_FOR_GET_HEADERS || hash_eq(&h, stopping_hash) {
            proof {
                if header_hash(rest[k]) != stopping_hash@ {
                    assert(headers_to_send_count(rest, stopping_hash@, k + 1) == k + 1);
                }
                assert(headers_to_send_count(rest, stopping_hash@, k) == k + 1);
            }
            break;
        }
        i = i + 1;
    }
    proof {
        if i == headers@.len() {
            assert(headers_to_send_count(rest, stopping_hash@, i - starting_header_position)
                == i - starting_header_position);
        }
    }
    headers_to_send
}

/// The position after which to answer a request for headers: that of the
/// first hash of the request the index knows; `None` when the genesis hash
/// comes first; an error when neither comes.
pub fn get_starting_header_position(
    block_header_hashes: &Vec<[u8; 32]>,
    headers_index: &HashStore<usize>,
) -> (r: Result<Option<usize>, NodeError>)
    ensures
        r == starting_position(hashes_view(block_header_hashes@), headers_index@),
{
    let ghost hv = hashes_view(block_header_hashes@);
    let genesis = hashed_genesis_block();
    assert(hv.skip(0) =~= hv);
    let mut i: usize = 0;
    while i < block_header_hashes.len()
        invariant
            i <= block_header_hashes@.len(),
            hv == hashes_view(block_header_hashes@),
            genesis@ == genesis_hash(),
            starting_position(hv, headers_index@) == starting_position(
                hv.skip(i as int),
                headers_index@,
            ),
        decreases block_header_hashes@.len() - i,
    {
        let hash = &block_header_hashes[i];
        assert(hv.skip(i as int)[0] == hash@);
        match headers_index.get(hash) {
            Some(position) => return Ok(Some(*position)),
            None => {},
        }
        if hash_eq(hash, &genesis) {
            return Ok(None);
        }
        assert(hv.skip(i as int).skip(1) =~= hv.skip(i + 1));
        i = i + 1;
    }
    Err(NodeError::ErrorFindingBlock)
}

/// The index gives each header of `hs` its position.
pub open spec fn index_matches(hs: Seq<HeaderView>, m: Map<Seq<u8>, usize>) -> bool {
    forall|i: int|
        0 <= i < hs.len() ==> m.contains_key(#[trigger] header_hash(hs[i])) && m[header_hash(hs[i])]
            == i
}

/// No two headers of `hs` have the same hash.
pub open spec fn hashes_distinct(hs: Seq<HeaderView>) -> bool {
    forall|i: int, j: int|
        0 <= i < j < hs.len() ==> header_hash(#[trigger] hs[i]) != header_hash(#[trigger] hs[j])
}

/// The law of the index of headers: an index that gives each known header
/// its position still does so after new headers, with hashes of their own,
/// follow the known ones (see `insert_new_headers`).
pub proof fn lemma_index_after_matches(hs: Seq<HeaderView>, m: Map<Seq<u8>, usize>, new: Seq<HeaderView>)
    requires
        index_matches(hs, m),
        hashes_distinct(hs + new),
        hs.len() + new.len() <= usize::MAX,
    ensures
        index_matches(hs + new, index_after(m, new, hs.len() as int)),
    decreases new.len(),
{
    if new.len() > 0 {
        let init = new.drop_last();
        let all = hs + new;
        assert(hs + init =~= all.drop_last());
        assert forall|i: int, j: int| 0 <= i < j < (hs + init).len() implies header_hash(
            #[trigger] (hs + init)[i],
        ) != header_hash(#[trigger] (hs + init)[j]) by {
            assert((hs + init)[i] == all[i] && (hs + init)[j] == all[j]);
        }
        lemma_index_after_matches(hs, m, init);
        let before = index_after(m, init, hs.len() as int);
        let last = new.last();
        let idx = index_after(m, new, hs.len() as int);
        assert(idx == before.insert(header_hash(last), (hs.len() + new.len() - 1) as usize));
        assert forall|i: int| 0 <= i < all.len() implies idx.contains_key(
            #[trigger] header_hash(all[i]),
        ) && idx[header_hash(all[i])] == i by {
            if i < all.len() - 1 {
                assert(all[i] == (hs + init)[i]);
                assert(header_hash(all[i]) != header_hash(all[all.len() - 1]));
                assert(all[all.len() - 1] == last);
            } else {
                assert(all[i] == last);
            }
        }
    }
}

/// Appends `headers` to the chain of headers and indexes each one under its
/// hash with its position.
pub fn insert_new_headers(
    headers: Vec<BlockHeader>,
    block_headers: &mut Vec<BlockHeader>,
    headers_index: &mut HashStore<usize>,
)
    requires
        old(block_headers)@.len() + headers@.len() <= usize::MAX,
    ensures
        headers_view(final(block_headers)@) == headers_view(old(block_headers)@) + headers_view(
            headers@,
        ),
        final(headers_index)@ == index_after(
            old(headers_index)@,
            headers_view(headers@),
            old(block_headers)@.len() as int,
        ),
{
    let ghost hv = headers_view(headers@);
    let ghost n = block_headers@.len();
    let ghost start_headers = headers_view(block_headers@);
    let ghost start_index = headers_index@;
    let mut i: usize = 0;
    assert(hv.take(0) =~= Seq::<HeaderView>::empty());
    assert(start_headers + hv.take(0) =~= start_headers);
    while i < headers.len()
        invariant
            i <= headers@.len(),
            hv == headers_view(headers@),
            n + headers@.len() <= usize::MAX,
            block_headers@.len() == n + i,
            headers_view(block_headers@) == start_headers + hv.take(i as int),
            headers_index@ == index_after(start_index, hv.take(i as int), n as int),
        decreases headers@.len() - i,
    {
        let header = headers[i];
        proof {
            assert(hv.take(i + 1).drop_last() =~= hv.take(i as int));
            assert(hv.take(i + 1).last() == header@);
        }
        let position = block_headers.len();
        headers_index.insert(header.hash(), position);
        let ghost old_headers = block_headers@;
        block_headers.push(header);
        assert(headers_view(block_headers@) =~= headers_view(old_headers).push(header@));
        assert(start_headers + hv.take(i + 1) =~= (start_headers + hv.take(i as int)).push(header@));
        i = i + 1;
    }
    assert(hv.take(i as int) =~= hv);
}

/// The pong that answers a ping.
pub fn handle_ping_message(ping_msg: &PingMessage) -> (r: PongMessage)
    ensures
        r@ == ping_msg@,
{
    ping_msg.reply_pong()
}

/// Keeps the transaction of the message as pending, under its hash.
pub fn handle_tx_message(tx_msg: TxMessage, pending_tx: &mut HashStore<Transaction>)
    ensures
        final(pending_tx)@ == old(pending_tx)@.insert(
            double_sha256(transaction_bytes(tx_msg.tx@)),
            tx_msg.tx,
        ),
{
    let tx = tx_msg.tx;
    let hash = tx.hash();
    pending_tx.insert(hash, tx);
}

/// What to ask for after an inventory: the announced blocks that the chain
/// does not hold, and the announced transactions that are not pending.
pub fn handle_inv_message(
    inv_msg: &InvMessage,
    blockchain: &HashStore<Block>,
    pending_tx: &HashStore<Transaction>,
) -> (r: (Vec<[u8; 32]>, Vec<[u8; 32]>))
    ensures
        hashes_view(r.0@) == unknown(hashes_of_type(inv_msg@.inventory, block_type()), blockchain@),
        hashes_view(r.1@) == unknown(
            hashes_of_type(inv_msg@.inventory, transaction_type()),
            pending_tx@,
        ),
{
    let block_hashes = inv_msg.get_block_hashes();
    let transaction_hashes = inv_msg.get_transaction_hashes();
    (unknown_hashes(&block_hashes, blockchain), unknown_hashes(&transaction_hashes, pending_tx))
}

/// The hashes among `hashes` that `store` does not hold, in order.
pub fn unknown_hashes<V>(hashes: &Vec<[u8; 32]>, store: &HashStore<V>) -> (r: Vec<[u8; 32]>)
    ensures
        hashes_view(r@) == unknown(hashes_view(hashes@), store@),
{
    let ghost hv = hashes_view(hashes@);
    let mut result: Vec<[u8; 32]> = Vec::new();
    let mut i: usize = 0;
    assert(hashes_view(result@) =~= unknown(hv.take(0), store@));
    while i < hashes.len()
        invariant
            i <= hashes@.len(),
            hv == hashes_view(hashes@),
            hashes_view(result@) == unknown(hv.take(i as int), store@),
        decreases hashes@.len() - i,
    {
        let hash = hashes[i];
        proof {
            assert(hv.take(i + 1).drop_last() =~= hv.take(i as int));
            assert(hv.take(i + 1).last() == hash@);
        }
        if !store.contains_key(&hash) {
            let ghost old_r = result@;
            result.push(hash);
            assert(hashes_view(result@) =~= hashes_view(old_r).push(hash@));
        }
        i = i + 1;
    }
    assert(hv.take(i as int) =~= hv);
    result
}

/// The hashes among `hs` that `m` holds, in order.
pub open spec fn known<V>(hs: Seq<Seq<u8>>, m: Map<Seq<u8>, V>) -> Seq<Seq<u8>>
    decreases hs.len(),
{
    if hs.len() == 0 {
        Seq::empty()
    } else if m.contains_key(hs.last()) {
        known(hs.drop_last(), m).push(hs.last())
    } else {
        known(hs.drop_last(), m)
    }
}

/// Whether each block held under one of `ks` reads back from its own bytes.
pub open spec fn blocks_reparse(ks: Seq<Seq<u8>>, m: Map<Seq<u8>, Block>) -> bool {
    forall|j: int| 0 <= j < ks.len() ==> (#[trigger] block_parse(block_bytes(m[ks[j]]@))) is Some
}

/// What is known of a prefix of `hs` is a prefix of what is known of `hs`.
proof fn lemma_known_prefix<V>(hs: Seq<Seq<u8>>, m: Map<Seq<u8>, V>, a: int)
    requires
        0 <= a <= hs.len(),
    ensures
        known(hs.take(a), m).len() <= known(hs, m).len(),
        known(hs.take(a), m) == known(hs, m).take(known(hs.take(a), m).len() as int),
    decreases hs.len(),
{
    if a == hs.len() {
        assert(hs.take(a) =~= hs);
        assert(known(hs, m).take(known(hs, m).len() as int) =~= known(hs, m));
    } else {
        assert(hs.drop_last().take(a) =~= hs.take(a));
        lemma_known_prefix(hs.drop_last(), m, a);
        let k = known(hs.take(a), m);
        let kd = known(hs.drop_last(), m);
        if m.contains_key(hs.last()) {
            assert(known(hs, m) == kd.push(hs.last()));
            assert(kd.push(hs.last()).take(k.len() as int) =~= kd.take(k.len() as int));
        }
    }
}

/// One more hash: what is known grows by it exactly when `m` holds it.
proof fn lemma_known_step<V>(hs: Seq<Seq<u8>>, m: Map<Seq<u8>, V>, i: int)
    requires
        0 <= i < hs.len(),
    ensures
        known(hs.take(i + 1), m) == if m.contains_key(hs[i]) {
            known(hs.take(i), m).push(hs[i])
        } else {
            known(hs.take(i), m)
        },
{
    assert(hs.take(i + 1).drop_last() =~= hs.take(i));
    assert(hs.take(i + 1).last() == hs[i]);
}

/// A block that does not read back, held under a hash of a prefix of `hs`,
/// makes the whole of what is known of `hs` fail to read back.
proof fn lemma_known_fails(hs: Seq<Seq<u8>>, m: Map<Seq<u8>, Block>, i: int)
    requires
        0 <= i < hs.len(),
        m.contains_key(hs[i]),
        block_parse(block_bytes(m[hs[i]]@)) is None,
    ensures
        !blocks_reparse(known(hs, m), m),
{
    lemma_known_step(hs, m, i);
    lemma_known_prefix(hs, m, i + 1);
    let ki = known(hs.take(i), m);
    let kn = known(hs.take(i + 1), m);
    let kf = known(hs, m);
    assert(kn[ki.len() as int] == hs[i]);
    assert(kf[ki.len() as int] == kn[ki.len() as int]);
    assert(block_parse(block_bytes(m[kf[ki.len() as int]]@)) is None);
}

/// What answers a request for data: a block message for each requested
/// block the chain holds, in order, and the requested blocks it does not
/// hold. Each message carries its block as read back from the block's
/// bytes; a block that does not read back is an error.
#[verifier::spinoff_prover]
#[verifier::rlimit(40)]
pub fn handle_get_data(get_data_msg: &GetDataMessage, blockchain: &HashStore<Block>) -> (r: Result<
    (Vec<BlockMessage>, Vec<[u8; 32]>),
    NodeError,
>)
    ensures
        ({
            let hs = hashes_of_type(get_data_msg@.inventory, block_type());
            let ks = known(hs, blockchain@);
            &&& (r is Ok <==> blocks_reparse(ks, blockchain@))
            &&& r matches Ok((messages, not_found)) ==> {
                &&& hashes_view(not_found@) == unknown(hs, blockchain@)
                &&& messages@.len() == ks.len()
                &&& forall|j: int|
                    0 <= j < ks.len() ==> block_parse(block_bytes(blockchain@[ks[j]]@)) == Some(
                        #[trigger] messages@[j].block@,
                    )
            }
            &&& r matches Err(e) ==> e == NodeError::ErrorMessage(
                MessageError::ErrorCreatingGetDataMessage,
            )
        }),
{
    let hashes = get_data_msg.get_block_hashes();
    let ghost hv = hashes_view(hashes@);
    let ghost m = blockchain@;
    assert(hv == hashes_of_type(get_data_msg@.inventory, block_type()));
    let mut block_messages: Vec<BlockMessage> = Vec::new();
    let mut not_found_blocks: Vec<[u8; 32]> = Vec::new();
    let mut i: usize = 0;
    let ghost mut ks: Seq<Seq<u8>> = Seq::empty();
    assert(hashes_view(not_found_blocks@) =~= unknown(hv.take(0), blockchain@));
    assert(known(hv.take(0), m) =~= ks);
    while i < hashes.len()
        invariant
            i <= hashes@.len(),
            hv == hashes_view(hashes@),
            hv == hashes_of_type(get_data_msg@.inventory, block_type()),
            m == blockchain@,
            hashes_view(not_found_blocks@) == unknown(hv.take(i as int), m),
            ks == known(hv.take(i as int), m),
            block_messages@.len() == ks.len(),
            forall|j: int|
                0 <= j < ks.len() ==> block_parse(block_bytes(m[ks[j]]@)) == Some(
                    #[trigger] block_messages@[j].block@,
                ),
        decreases hashes@.len() - i,
    {
        let hash = hashes[i];
        proof {
            assert(hv[i as int] == hash@);
            lemma_known_step(hv, m, i as int);
            assert(hv.take(i + 1).drop_last() =~= hv.take(i as int));
            assert(hv.take(i + 1).last() == hash@);
        }
        match blockchain.get(&hash) {
            Some(block) => {
                match BlockMessage::from(block) {
                    Ok(msg) => {
                        block_messages.push(msg);
                        proof {
                            ks = ks.push(hash@);
                        }
                    },
                    Err(_) => {
                        proof {
                            lemma_known_fails(hv, m, i as int);
                        }
                        return Err(NodeError::ErrorMessage(MessageError::ErrorCreatingGetDataMessage));
                    },
                }
            },
            None => {
                let ghost old_r = not_found_blocks@;
                not_found_blocks.push(hash);
                assert(hashes_view(not_found_blocks@) =~= hashes_view(old_r).push(hash@));
            },
        }
        i = i + 1;
    }
    assert(hv.take(i as int) =~= hv);
    assert(blocks_reparse(ks, m)) by {
        assert forall|j: int| 0 <= j < ks.len() implies (#[trigger] block_parse(
            block_bytes(m[ks[j]]@),
        )) is Some by {
            assert(block_parse(block_bytes(m[ks[j]]@)) == Some(block_messages@[j].block@));
        }
    }
    Ok((block_messages, not_found_blocks))
}

/// Whether a block's transactions agree with the Merkle root of its header.
pub open spec fn inclusion_valid(b: crate::blockchain::BlockView) -> bool {
    b.transactions.len() == 0 || merkle_root(tx_hashes(b)) == b.header.merkle_root_hash
}

/// Takes in a block received from a peer. A block the chain already holds
/// changes nothing; a block whose proof of work or Merkle root fails is an
/// error; otherwise its transactions leave the pending ones, its header
/// joins the chain of headers (after the initial download), and the block
/// joins the chain under its hash.
pub fn handle_block_message(
    block: Block,
    block_headers: &mut Vec<BlockHeader>,
    headers_index: &mut HashStore<usize>,
    blockchain: &mut HashStore<Block>,
    pending_tx: &mut HashStore<Transaction>,
    ibd: bool,
) -> (r: Result<(), NodeError>)
    requires
        old(block_headers)@.len() < usize::MAX,
    ensures
        ({
            let h = header_hash(block@.header);
            if old(blockchain)@.contains_key(h) {
                &&& r is Ok
                &&& final(blockchain)@ == old(blockchain)@
                &&& final(pending_tx)@ == old(pending_tx)@
                &&& final(block_headers)@ == old(block_headers)@
                &&& final(headers_index)@ == old(headers_index)@
            } else if !proof_of_work_valid(block@.header) || !inclusion_valid(block@) {
                &&& r == Err::<(), NodeError>(NodeError::ErrorValidatingBlock)
                &&& final(blockchain)@ == old(blockchain)@
                &&& final(pending_tx)@ == old(pending_tx)@
                &&& final(block_headers)@ == old(block_headers)@
                &&& final(headers_index)@ == old(headers_index)@
            } else {
                &&& r is Ok
                &&& final(blockchain)@ == old(blockchain)@.insert(h, block)
                &&& final(pending_tx)@ == remove_all(old(pending_tx)@, tx_hashes(block@))
                &&& if ibd {
                    &&& final(block_headers)@ == old(block_headers)@
                    &&& final(headers_index)@ == old(headers_index)@
                } else {
                    &&& headers_view(final(block_headers)@) == headers_view(old(block_headers)@).push(
                        block@.header,
                    )
                    &&& final(headers_index)@ == old(headers_index)@.insert(
                        h,
                        old(block_headers)@.len() as usize,
                    )
                }
            }
        }),
{
    let block_header = block.get_header();
    let hash = block_header.hash();
    if blockchain.contains_key(&hash) {
        return Ok(());
    }
    if !validate_proof_of_work(&block_header) {
        return Err(NodeError::ErrorValidatingBlock);
    }
    if !validate_block_proof_of_inclusion(&block) {
        return Err(NodeError::ErrorValidatingBlock);
    }
    let tx_hashes_vec = block.get_tx_hashes();
    let ghost th = tx_hashes(block@);
    assert(hashes_view(tx_hashes_vec@) =~= th);
    let ghost start_pending = pending_tx@;
    let mut i: usize = 0;
    assert(th.take(0) =~= Seq::<Seq<u8>>::empty());
    while i < tx_hashes_vec.len()
        invariant
            i <= tx_hashes_vec@.len(),
            th == hashes_view(tx_hashes_vec@),
            pending_tx@ == remove_all(start_pending, th.take(i as int)),
        decreases tx_hashes_vec@.len() - i,
    {
        proof {
            assert(th.take(i + 1).drop_last() =~= th.take(i as int));
            assert(th.take(i + 1).last() == tx_hashes_vec@[i as int]@);
        }
        let _ = pending_tx.remove(&tx_hashes_vec[i]);
        i = i + 1;
    }
    assert(th.take(i as int) =~= th);
    if !ibd {
        let mut new_headers: Vec<BlockHeader> = Vec::new();
        new_headers.push(block_header);
        let ghost hv = headers_view(new_headers@);
        let ghost old_index = headers_index@;
        let ghost n = block_headers@.len() as int;
        proof {
            assert(hv.drop_last() =~= Seq::<HeaderView>::empty());
            assert(hv.last() == block@.header);
            assert(index_after(old_index, hv.drop_last(), n) == old_index);
        }
        insert_new_headers(new_headers, block_headers, headers_index);
    }
    let key = block.header_hash();
    blockchain.insert(key, block);
    Ok(())
}

/// The number of the block to show, when `block_number` (counting from 1)
/// names a header whose block the chain holds; `ErrorFindingBlock` when it
/// does not.
pub open spec fn block_lookup(block_number: usize, headers: Seq<BlockHeader>, m: Map<Seq<u8>, Block>) -> Result<
    usize,
    NodeError,
> {
    if block_number == 0 || block_number > headers.len() {
        Err(NodeError::ErrorFindingBlock)
    } else if m.contains_key(header_hash(headers[block_number - 1]@)) {
        Ok(block_number)
    } else {
        Err(NodeError::ErrorFindingBlock)
    }
}

/// The block numbered `block_number` (counting from 1) as shown to the user:
/// its header and transaction hashes. A number beyond the chain, zero, or a
/// block the chain does not hold is `ErrorFindingBlock`.
pub fn get_block_info_from(
    block_number: usize,
    block_headers: &Vec<BlockHeader>,
    blockchain: &HashStore<Block>,
) -> (r: Result<crate::ui_protocol::BlockInfo, NodeError>)
    ensures
        (block_number == 0 || block_number > block_headers@.len()) ==> r == Err::<
            crate::ui_protocol::BlockInfo,
            NodeError,
        >(NodeError::ErrorFindingBlock),
        (1 <= block_number <= block_headers@.len()) ==> {
            let h = header_hash(block_headers@[block_number - 1]@);
            match r {
                Ok(info) => blockchain@.contains_key(h) && info.block_number == block_number
                    && info.block_header@ == blockchain@[h]@.header && hashes_view(
                    info.block_tx_hashes@,
                ) == tx_hashes(blockchain@[h]@),
                Err(e) => !blockchain@.contains_key(h) && e == NodeError::ErrorFindingBlock,
            }
        },
{
    if block_number == 0 || block_number > block_headers.len() {
        return Err(NodeError::ErrorFindingBlock);
    }
    let hash = block_headers[block_number - 1].hash();
    get_block_info(hash, block_number, blockchain)
}

/// The last block of the chain as shown to the user; an empty chain is
/// `ErrorFindingBlock`.
pub fn get_last_block_info(block_headers: &Vec<BlockHeader>, blockchain: &HashStore<Block>) -> (r:
    Result<crate::ui_protocol::BlockInfo, NodeError>)
    ensures
        block_headers@.len() == 0 ==> r == Err::<crate::ui_protocol::BlockInfo, NodeError>(
            NodeError::ErrorFindingBlock,
        ),
        block_headers@.len() > 0 ==> {
            let h = header_hash(block_headers@.last()@);
            match r {
                Ok(info) => blockchain@.contains_key(h) && info.block_number
                    == block_headers@.len() && info.block_header@ == blockchain@[h]@.header
                    && hashes_view(info.block_tx_hashes@) == tx_hashes(blockchain@[h]@),
                Err(e) => !blockchain@.contains_key(h) && e == NodeError::ErrorFindingBlock,
            }
        },
{
    if block_headers.len() == 0 {
        return Err(NodeError::ErrorFindingBlock);
    }
    let n = block_headers.len();
    let hash = block_headers[n - 1].hash();
    get_block_info(hash, n, blockchain)
}

/// The block under `hash` as shown to the user, numbered `block_number`.
fn get_block_info(hash: [u8; 32], block_number: usize, blockchain: &HashStore<Block>) -> (r: Result<
    crate::ui_protocol::BlockInfo,
    NodeError,
>)
    ensures
        match r {
            Ok(info) => blockchain@.contains_key(hash@) && info.block_number == block_number
                && info.block_header@ == blockchain@[hash@]@.header && hashes_view(
                info.block_tx_hashes@,
            ) == tx_hashes(blockchain@[hash@]@),
            Err(e) => !blockchain@.contains_key(hash@) && e == NodeError::ErrorFindingBlock,
        },
{
    match blockchain.get(&hash) {
        Some(block) => {
            let hashes = block.get_tx_hashes();
            assert(hashes_view(hashes@) =~= tx_hashes(block@));
            Ok(crate::ui_protocol::BlockInfo::new(block_number, block.get_header(), hashes))
        },
        None => Err(NodeError::ErrorFindingBlock),
    }
}

/// The proof that the transaction `transaction_hash` is in the block
/// numbered `block_number` (counting from 1), with the block's Merkle root.
pub fn get_merkle_tx_proof(
    transaction_hash: [u8; 32],
    block_number: usize,
    block_headers: &Vec<BlockHeader>,
    blockchain: &HashStore<Block>,
) -> (r: Result<(Vec<crate::block_proofs::HashPair>, [u8; 32]), NodeError>)
    ensures
        (block_number == 0 || block_number > block_headers@.len()) ==> r == Err::<
            (Vec<crate::block_proofs::HashPair>, [u8; 32]),
            NodeError,
        >(NodeError::ErrorFindingBlock),
        (1 <= block_number <= block_headers@.len()) ==> {
            let h = header_hash(block_headers@[block_number - 1]@);
            match r {
                Ok((proof, root)) => blockchain@.contains_key(h) && (
                blockchain@[h]@.transactions.len() > 0 ==> crate::block_proofs::pairs_view(
                    proof@,
                ) == crate::block_proofs::inclusion_proof(
                    tx_hashes(blockchain@[h]@),
                    transaction_hash@,
                ) && root@ == merkle_root(tx_hashes(blockchain@[h]@))) && (
                blockchain@[h]@.transactions.len() == 0 ==> proof@.len() == 0 && root@
                    == blockchain@[h]@.header.merkle_root_hash),
                Err(e) => !blockchain@.contains_key(h) && e == NodeError::ErrorFindingBlock,
            }
        },
{
    if block_number == 0 || block_number > block_headers.len() {
        return Err(NodeError::ErrorFindingBlock);
    }
    let hash = block_headers[block_number - 1].hash();
    match blockchain.get(&hash) {
        Some(block) => Ok(crate::block_proofs::proof_of_transaction_included_in(transaction_hash, block)),
        None => Err(NodeError::ErrorFindingBlock),
    }
}

/// The headers that answer a request for headers: from the one after the
/// first hash of the request that the index knows (from the start when the
/// genesis hash comes first), as `get_headers_to_send` picks them; `None`
/// when the request names no known hash, which goes unanswered.
pub fn handle_get_headers_message(
    get_headers_msg: &GetBlockHeadersMessage,
    block_headers: &Vec<BlockHeader>,
    headers_index: &HashStore<usize>,
) -> (r: Option<Vec<BlockHeader>>)
    requires
        starting_position(get_headers_msg@.block_header_hashes, headers_index@) matches Ok(Some(p))
            ==> p < usize::MAX,
    ensures
        match starting_position(get_headers_msg@.block_header_hashes, headers_index@) {
            Err(_) => r is None,
            Ok(p) => r matches Some(hs) && headers_view(hs@) == headers_to_send(
                headers_view(block_headers@),
                match p {
                    Some(q) => q + 1,
                    None => 0,
                },
                get_headers_msg@.stopping_hash,
            ),
        },
{
    let hashes = get_headers_msg.block_header_hashes();
    assert(hashes_view(hashes@) =~= get_headers_msg@.block_header_hashes);
    let starting_header_position = match get_starting_header_position(hashes, headers_index) {
        Ok(Some(p)) => p + 1,
        Ok(None) => 0,
        Err(_) => return None,
    };
    let stop = get_headers_msg.stopping_hash();
    Some(get_headers_to_send(block_headers, starting_header_position, &stop))
}

/// What the node sends back after taking in a message.
pub enum Reply {
    /// Nothing is sent.
    Nothing,
    /// A pong with the nonce of the ping.
    Pong(PongMessage),
    /// A headers message carrying these headers.
    Headers(Vec<BlockHeader>),
    /// A block message for each block, then a not-found message for these
    /// hashes when there are any.
    Blocks(Vec<BlockMessage>, Vec<[u8; 32]>),
    /// A request for the data of these blocks, when there are any, then of
    /// these transactions, when there are any.
    GetData(Vec<[u8; 32]>, Vec<[u8; 32]>),
}

/// Takes in a message from a peer during the initial download (`ibd`) or
/// after it, and says what to send back: headers are kept during the
/// download and requests for headers, data and inventories are answered
/// after it; blocks, transactions and pings are taken in at any time; a
/// header where a message should be is `DoubleHeader`; anything else is
/// passed over. Each case is that of the function that handles it.
pub fn handle_message(
    message: Message,
    block_headers: &mut Vec<BlockHeader>,
    headers_index: &mut HashStore<usize>,
    blockchain: &mut HashStore<Block>,
    pending_tx: &mut HashStore<Transaction>,
    ibd: bool,
) -> (r: Result<Reply, NodeError>)
    requires
        old(block_headers)@.len() < usize::MAX,
        message matches Message::BlockHeaders(m) ==> old(block_headers)@.len() + m@.headers.len()
            <= usize::MAX,
        message matches Message::GetBlockHeaders(m) ==> (starting_position(
            m@.block_header_hashes,
            old(headers_index)@,
        ) matches Ok(Some(p)) ==> p < usize::MAX),
    ensures
        match message {
            Message::BlockHeaders(m) => r matches Ok(Reply::Nothing) && final(blockchain)@
                == old(blockchain)@ && final(pending_tx)@ == old(pending_tx)@ && if ibd {
                &&& headers_view(final(block_headers)@) == headers_view(old(block_headers)@)
                    + m@.headers
                &&& final(headers_index)@ == index_after(
                    old(headers_index)@,
                    m@.headers,
                    old(block_headers)@.len() as int,
                )
            } else {
                final(block_headers)@ == old(block_headers)@ && final(headers_index)@ == old(headers_index)@
            },
            Message::Block(m) => {
                let h = header_hash(m.block@.header);
                if old(blockchain)@.contains_key(h) {
                    &&& r matches Ok(Reply::Nothing)
                    &&& final(blockchain)@ == old(blockchain)@
                    &&& final(pending_tx)@ == old(pending_tx)@
                    &&& final(block_headers)@ == old(block_headers)@
                    &&& final(headers_index)@ == old(headers_index)@
                } else if !proof_of_work_valid(m.block@.header) || !inclusion_valid(m.block@) {
                    &&& r == Err::<Reply, NodeError>(NodeError::ErrorValidatingBlock)
                    &&& final(blockchain)@ == old(blockchain)@
                    &&& final(pending_tx)@ == old(pending_tx)@
                    &&& final(block_headers)@ == old(block_headers)@
                    &&& final(headers_index)@ == old(headers_index)@
                } else {
                    &&& r matches Ok(Reply::Nothing)
                    &&& final(blockchain)@ == old(blockchain)@.insert(h, m.block)
                    &&& final(pending_tx)@ == remove_all(old(pending_tx)@, tx_hashes(m.block@))
                    &&& if ibd {
                        &&& final(block_headers)@ == old(block_headers)@
                        &&& final(headers_index)@ == old(headers_index)@
                    } else {
                        &&& headers_view(final(block_headers)@) == headers_view(
                            old(block_headers)@,
                        ).push(m.block@.header)
                        &&& final(headers_index)@ == old(headers_index)@.insert(
                            h,
                            old(block_headers)@.len() as usize,
                        )
                    }
                }
            },
            Message::GetBlockHeaders(m) => final(blockchain)@ == old(blockchain)@ && final(pending_tx)@ == old(pending_tx)@ && final(block_headers)@ == old(block_headers)@ && final(headers_index)@ == old(headers_index)@ && if ibd {
                r matches Ok(Reply::Nothing)
            } else {
                match starting_position(m@.block_header_hashes, old(headers_index)@) {
                    Err(_) => r matches Ok(Reply::Nothing),
                    Ok(p) => r matches Ok(Reply::Headers(hs)) && headers_view(hs@)
                        == headers_to_send(
                        headers_view(old(block_headers)@),
                        match p {
                            Some(q) => q + 1,
                            None => 0,
                        },
                        m@.stopping_hash,
                    ),
                }
            },
            Message::GetData(m) => final(blockchain)@ == old(blockchain)@ && final(pending_tx)@
                == old(pending_tx)@ && final(block_headers)@ == old(block_headers)@ && final(headers_index)@ == old(headers_index)@ && if ibd {
                r matches Ok(Reply::Nothing)
            } else {
                let hs = hashes_of_type(m@.inventory, block_type());
                let ks = known(hs, old(blockchain)@);
                &&& (r is Ok <==> blocks_reparse(ks, old(blockchain)@))
                &&& r matches Ok(reply) ==> reply matches Reply::Blocks(messages, not_found) && {
                    &&& hashes_view(not_found@) == unknown(hs, old(blockchain)@)
                    &&& messages@.len() == ks.len()
                    &&& forall|j: int|
                        0 <= j < ks.len() ==> block_parse(block_bytes(old(blockchain)@[ks[j]]@))
                            == Some(#[trigger] messages@[j].block@)
                }
                &&& r matches Err(e) ==> e == NodeError::ErrorMessage(
                    MessageError::ErrorCreatingGetDataMessage,
                )
            },
            Message::Header(_) => r == Err::<Reply, NodeError>(NodeError::DoubleHeader) && final(blockchain)@ == old(blockchain)@ && final(pending_tx)@ == old(pending_tx)@ && final(block_headers)@ == old(block_headers)@ && final(headers_index)@ == old(headers_index)@,
            Message::Inv(m) => final(blockchain)@ == old(blockchain)@ && final(pending_tx)@ == old(pending_tx)@ && final(block_headers)@ == old(block_headers)@ && final(headers_index)@ == old(headers_index)@ && if ibd {
                r matches Ok(Reply::Nothing)
            } else {
                r matches Ok(Reply::GetData(blocks, txs)) && hashes_view(blocks@) == unknown(
                    hashes_of_type(m@.inventory, block_type()),
                    old(blockchain)@,
                ) && hashes_view(txs@) == unknown(
                    hashes_of_type(m@.inventory, transaction_type()),
                    old(pending_tx)@,
                )
            },
            Message::Tx(m) => r matches Ok(Reply::Nothing) && final(pending_tx)@ == old(pending_tx)@.insert(double_sha256(transaction_bytes(m.tx@)), m.tx) && final(blockchain)@ == old(blockchain)@ && final(block_headers)@ == old(block_headers)@ && final(headers_index)@ == old(headers_index)@,
            Message::Ping(m) => r matches Ok(Reply::Pong(p)) && p@ == m@ && final(blockchain)@
                == old(blockchain)@ && final(pending_tx)@ == old(pending_tx)@ && final(block_headers)@ == old(block_headers)@ && final(headers_index)@ == old(headers_index)@,
            _ => r matches Ok(Reply::Nothing) && final(blockchain)@ == old(blockchain)@ && final(pending_tx)@ == old(pending_tx)@ && final(block_headers)@ == old(block_headers)@ && final(headers_index)@ == old(headers_index)@,
        },
{
    match message {
        Message::BlockHeaders(msg) => {
            if ibd {
                insert_new_headers(msg.into_headers(), block_headers, headers_index);
            }
            Ok(Reply::Nothing)
        },
        Message::Block(msg) => {
            match handle_block_message(
                msg.block,
                block_headers,
                headers_index,
                blockchain,
                pending_tx,
                ibd,
            ) {
                Ok(()) => Ok(Reply::Nothing),
                Err(e) => Err(e),
            }
        },
        Message::GetBlockHeaders(msg) => {
            if ibd {
                return Ok(Reply::Nothing);
            }
            match handle_get_headers_message(&msg, block_headers, headers_index) {
                Some(headers) => Ok(Reply::Headers(headers)),
                None => Ok(Reply::Nothing),
            }
        },
        Message::GetData(msg) => {
            if ibd {
                return Ok(Reply::Nothing);
            }
            match handle_get_data(&msg, blockchain) {
                Ok((messages, not_found)) => Ok(Reply::Blocks(messages, not_found)),
                Err(e) => Err(e),
            }
        },
        Message::Header(_) => Err(NodeError::DoubleHeader),
        Message::Inv(msg) => {
            if ibd {
                return Ok(Reply::Nothing);
            }
            let (blocks, txs) = handle_inv_message(&msg, blockchain, pending_tx);
            Ok(Reply::GetData(blocks, txs))
        },
        Message::Tx(msg) => {
            handle_tx_message(msg, pending_tx);
            Ok(Reply::Nothing)
        },
        Message::Ping(msg) => Ok(Reply::Pong(handle_ping_message(&msg))),
        _ => Ok(Reply::Nothing),
    }
}

/// Where a header made at `t` goes among the headers `v`: after the last one
/// not made later than `t`.
pub open spec fn time_position(v: Seq<HeaderView>, t: u32) -> int
    decreases v.len(),
{
    if v.len() == 0 {
        0
    } else if t < v.last().time {
        time_position(v.drop_last(), t)
    } else {
        v.len() as int
    }
}

/// The headers `v` with `h` put in its place by time.
pub open spec fn insert_by_time(v: Seq<HeaderView>, h: HeaderView) -> Seq<HeaderView> {
    v.insert(time_position(v, h.time), h)
}

/// The headers `v` with each of `hs`, in order, put in its place by time.
pub open spec fn insert_all_by_time(v: Seq<HeaderView>, hs: Seq<HeaderView>) -> Seq<HeaderView>
    decreases hs.len(),
{
    if hs.len() == 0 {
        v
    } else {
        insert_by_time(insert_all_by_time(v, hs.drop_last()), hs.last())
    }
}

/// Whether the headers come in order of time.
pub open spec fn sorted_by_time(v: Seq<HeaderView>) -> bool {
    forall|i: int, j: int| 0 <= i <= j < v.len() ==> v[i].time <= v[j].time
}

/// The position of a header made at `t` is within the headers, every one
/// before it not made later, every one after it made later.
proof fn lemma_time_position(v: Seq<HeaderView>, t: u32)
    ensures
        0 <= time_position(v, t) <= v.len(),
        time_position(v, t) > 0 ==> v[time_position(v, t) - 1].time <= t,
        forall|j: int| time_position(v, t) <= j < v.len() ==> t < (#[trigger] v[j]).time,
    decreases v.len(),
{
    if v.len() > 0 && t < v.last().time {
        lemma_time_position(v.drop_last(), t);
        assert forall|j: int| time_position(v, t) <= j < v.len() implies t < (#[trigger] v[j]).time by {
            if j < v.len() - 1 {
                assert(v[j] == v.drop_last()[j]);
            }
        }
    }
}

/// The law of the ordered insertion: headers in order of time stay in order
/// of time when a header is put in its place.
pub proof fn lemma_insert_by_time_sorted(v: Seq<HeaderView>, h: HeaderView)
    requires
        sorted_by_time(v),
    ensures
        sorted_by_time(insert_by_time(v, h)),
        insert_by_time(v, h).len() == v.len() + 1,
{
    lemma_time_position(v, h.time);
    let p = time_position(v, h.time);
    let w = insert_by_time(v, h);
    assert forall|i: int, j: int| 0 <= i <= j < w.len() implies w[i].time <= w[j].time by {
        if i < p && j < p {
        } else if i < p && j == p {
            assert(v[i].time <= v[p - 1].time);
        } else if i < p {
            assert(w[j] == v[j - 1]);
        } else if i == p && j > p {
            assert(w[j] == v[j - 1]);
        } else if i > p {
            assert(w[i] == v[i - 1] && w[j] == v[j - 1]);
        }
    }
}

/// Headers in order of time stay in order of time, and keep every header,
/// when several are put in their places one after the other.
pub proof fn lemma_insert_all_by_time_sorted(v: Seq<HeaderView>, hs: Seq<HeaderView>)
    requires
        sorted_by_time(v),
    ensures
        sorted_by_time(insert_all_by_time(v, hs)),
        insert_all_by_time(v, hs).len() == v.len() + hs.len(),
    decreases hs.len(),
{
    if hs.len() > 0 {
        lemma_insert_all_by_time_sorted(v, hs.drop_last());
        lemma_insert_by_time_sorted(insert_all_by_time(v, hs.drop_last()), hs.last());
    }
}

/// Puts `header` among `vec_headers` in its place by time (see
/// `time_position`).
pub fn insert_time_orderly(header: BlockHeader, vec_headers: &mut Vec<BlockHeader>)
    ensures
        headers_view(final(vec_headers)@) == insert_by_time(headers_view(old(vec_headers)@), header@),
{
    let ghost v = headers_view(vec_headers@);
    let mut i: usize = vec_headers.len();
    assert(v.take(i as int) =~= v);
    while i > 0 && header.time() < vec_headers[i - 1].time()
        invariant
            i <= vec_headers@.len(),
            v == headers_view(vec_headers@),
            time_position(v, header@.time) == time_position(v.take(i as int), header@.time),
        decreases i,
    {
        proof {
            assert(v.take(i as int).drop_last() =~= v.take(i - 1));
            assert(v.take(i as int).last() == v[i - 1]);
        }
        i = i - 1;
    }
    proof {
        assert(v.take(vec_headers@.len() as int) =~= v);
        if i > 0 {
            assert(v.take(i as int).last() == v[i - 1]);
        }
    }
    let ghost old_vec = vec_headers@;
    vec_headers.insert(i, header);
    assert(headers_view(vec_headers@) =~= headers_view(old_vec).insert(i as int, header@));
}

/// The chain after the blocks `bs` it does not hold join it, in order, under
/// the hashes of their headers, with the headers of those that joined.
pub open spec fn add_new_blocks(m: Map<Seq<u8>, Block>, bs: Seq<Block>) -> (
    Map<Seq<u8>, Block>,
    Seq<HeaderView>,
)
    decreases bs.len(),
{
    if bs.len() == 0 {
        (m, Seq::empty())
    } else {
        let before = add_new_blocks(m, bs.drop_last());
        let b = bs.last();
        let h = header_hash(b@.header);
        if before.0.contains_key(h) {
            before
        } else {
            (before.0.insert(h, b), before.1.push(b@.header))
        }
    }
}

/// Takes in what a peer sent: each received block the chain does not hold
/// joins it and adds its header to the received ones, and then each received
/// header is put among the headers in its place by time.
pub fn add_block_or_headers(
    received_block_headers: Vec<BlockHeader>,
    received_blocks: Vec<Block>,
    headers: &mut Vec<BlockHeader>,
    blockchain: &mut HashStore<Block>,
)
    ensures
        ({
            let added = add_new_blocks(old(blockchain)@, received_blocks@);
            &&& final(blockchain)@ == added.0
            &&& headers_view(final(headers)@) == insert_all_by_time(
                headers_view(old(headers)@),
                headers_view(received_block_headers@) + added.1,
            )
        }),
{
    let ghost start = blockchain@;
    let ghost all = received_blocks@;
    let ghost first = headers_view(received_block_headers@);
    let mut received_block_headers = received_block_headers;
    let mut received_blocks = received_blocks;
    let mut k: usize = 0;
    assert(all.skip(0) =~= all);
    assert(all.take(0) =~= Seq::<Block>::empty());
    assert(headers_view(received_block_headers@) =~= first + Seq::<HeaderView>::empty());
    assert(all.len() == received_blocks.len());
    while received_blocks.len() > 0
        invariant
            k + received_blocks@.len() == all.len(),
            all.len() <= usize::MAX,
            received_blocks@ == all.skip(k as int),
            blockchain@ == add_new_blocks(start, all.take(k as int)).0,
            headers_view(received_block_headers@) == first + add_new_blocks(
                start,
                all.take(k as int),
            ).1,
        decreases received_blocks@.len(),
    {
        let block = received_blocks.remove(0);
        proof {
            assert(block == all[k as int]);
            assert(all.take(k + 1).drop_last() =~= all.take(k as int));
            assert(all.take(k + 1).last() == all[k as int]);
            assert(received_blocks@ =~= all.skip(k + 1));
        }
        let hash = block.header_hash();
        if !blockchain.contains_key(&hash) {
            let header = block.get_header();
            let ghost old_r = received_block_headers@;
            received_block_headers.push(header);
            assert(headers_view(received_block_headers@) =~= headers_view(old_r).push(header@));
            assert(first + add_new_blocks(start, all.take(k + 1)).1 =~= (first + add_new_blocks(
                start,
                all.take(k as int),
            ).1).push(header@));
            blockchain.insert(hash, block);
        }
        k = k + 1;
    }
    assert(all.take(k as int) =~= all);
    let ghost to_insert = headers_view(received_block_headers@);
    let ghost base = headers_view(headers@);
    let mut j: usize = 0;
    let n = received_block_headers.len();
    assert(to_insert.take(0) =~= Seq::<HeaderView>::empty());
    while j < n
        invariant
            j <= n,
            n == received_block_headers@.len(),
            to_insert == headers_view(received_block_headers@),
            headers_view(headers@) == insert_all_by_time(base, to_insert.take(j as int)),
        decreases n - j,
    {
        proof {
            assert(to_insert.take(j + 1).drop_last() =~= to_insert.take(j as int));
            assert(to_insert.take(j + 1).last() == received_block_headers@[j as int]@);
        }
        insert_time_orderly(received_block_headers[j], headers);
        j = j + 1;
    }
    assert(to_insert.take(n as int) =~= to_insert);
}

/// A message on the wire: its header, then its payload.
pub open spec fn wire_bytes(name: Seq<u8>, payload: Seq<u8>) -> Seq<u8> {
    header_message_bytes(header_message_for(name, payload)) + payload
}

/// What to pass on to the other peers of a message a peer sent: a block the
/// chain does not hold yet, or a transaction that is not pending yet, as it
/// goes on the wire; nothing for anything else.
pub fn propagate_messages(
    msg: &Message,
    blockchain: &HashStore<Block>,
    pending_tx: &HashStore<Transaction>,
) -> (r: Option<Vec<u8>>)
    ensures
        match msg {
            Message::Block(m) => if blockchain@.contains_key(header_hash(m.block@.header)) {
                r is None
            } else {
                r matches Some(b) && b@ == wire_bytes(block_command(), block_bytes(m.block@))
            },
            Message::Tx(m) => if pending_tx@.contains_key(double_sha256(transaction_bytes(m.tx@))) {
                r is None
            } else {
                r matches Some(b) && b@ == wire_bytes(tx_command(), transaction_bytes(m.tx@))
            },
            _ => r is None,
        },
{
    match msg {
        Message::Block(block_msg) => {
            let hash = block_msg.block.header_hash();
            if blockchain.contains_key(&hash) {
                return None;
            }
            match block_msg.get_header_message() {
                Ok(header) => {
                    let mut msg_bytes = header.to_bytes();
                    let payload = block_msg.to_bytes();
                    push_all(&mut msg_bytes, payload.as_slice());
                    Some(msg_bytes)
                },
                Err(_) => None,
            }
        },
        Message::Tx(tx_msg) => {
            let hash = tx_msg.tx.hash();
            if pending_tx.contains_key(&hash) {
                return None;
            }
            match tx_msg.get_header_message() {
                Ok(header) => {
                    let mut msg_bytes = header.to_bytes();
                    let payload = tx_msg.to_bytes();
                    push_all(&mut msg_bytes, payload.as_slice());
                    Some(msg_bytes)
                },
                Err(_) => None,
            }
        },
        _ => None,
    }
}

/// Takes in the bytes of a headers message: its headers follow the known
/// ones. Bytes that do not read as one are `ErrorReceivingHeadersMessageInIBD`.
pub fn handle_block_headers_message(msg_bytes: &[u8], block_headers: &mut Vec<BlockHeader>) -> (r:
    Result<(), NodeError>)
    ensures
        match block_headers_parse(msg_bytes@) {
            None => r == Err::<(), NodeError>(NodeError::ErrorReceivingHeadersMessageInIBD)
                && final(block_headers)@ == old(block_headers)@,
            Some(m) => r is Ok && headers_view(final(block_headers)@) == headers_view(
                old(block_headers)@,
            ) + m.headers,
        },
{
    let block_headers_msg = match BlockHeadersMessage::from_bytes(msg_bytes) {
        Ok(m) => m,
        Err(_) => return Err(NodeError::ErrorReceivingHeadersMessageInIBD),
    };
    let mut received = block_headers_msg.into_headers();
    let ghost old_headers = block_headers@;
    let ghost new_headers = received@;
    block_headers.append(&mut received);
    assert(headers_view(block_headers@) =~= headers_view(old_headers) + headers_view(new_headers));
    Ok(())
}

} // verus!
