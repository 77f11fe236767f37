use btc_node::block_proofs::{proof_of_transaction_included_in, verify_merkle_proof};
use btc_node::blockchain::{Block, BlockHeader};
use btc_node::errors::NodeError;
use btc_node::hash_store::HashStore;
use btc_node::messages::get_data_message::GetDataMessage;
use btc_node::messages::block_message::BlockMessage;
use btc_node::messages::not_found_message::NotFoundMessage;
use btc_node::messages::inv_message::{Entry, InvMessage};
use btc_node::messages::ping_pong_messages::PingMessage;
use btc_node::messages::tx_message::TxMessage;
use btc_node::node_state::{
    get_block_info_from, get_headers_to_send, get_last_block_info, get_merkle_tx_proof,
    get_starting_header_position, handle_block_message, handle_get_data, handle_inv_message,
    handle_ping_message, handle_tx_message, hashed_genesis_block, insert_new_headers,
    unknown_hashes,
};
use btc_node::transaction::Transaction;
use btc_node::replies::{messages_of_reply, Outgoing};
use btc_node::node_state::Reply;

fn double_hash(data: &[u8]) -> [u8; 32] {
    let h = <bitcoin_hashes::sha256d::Hash as bitcoin_hashes::Hash>::hash(data);
    <bitcoin_hashes::sha256d::Hash as bitcoin_hashes::Hash>::to_byte_array(h)
}


const VALID_HEADER_BYTES: [u8; 80] = [
    0, 128, 154, 33, 97, 0, 155, 57, 119, 6, 109, 83, 36, 160, 202, 81, 110, 211, 12, 33, 242, 251,
    163, 225, 189, 198, 99, 91, 39, 0, 0, 0, 0, 0, 0, 0, 81, 36, 107, 173, 77, 174, 133, 197, 186, 33,
    40, 129, 186, 247, 243, 121, 96, 34, 123, 34, 217, 248, 194, 216, 2, 183, 11, 96, 57, 6, 158,
    34, 104, 145, 103, 100, 140, 202, 39, 25, 74, 168, 232, 213,
];

fn header(n: u8) -> BlockHeader {
    BlockHeader::new(70015, [n; 32], [n; 32], 0)
}

fn valid_header() -> BlockHeader {
    BlockHeader::from_bytes(&VALID_HEADER_BYTES).unwrap()
}

fn tx(lock_time: u32) -> Transaction {
    Transaction::new(70015, Vec::new(), Vec::new(), lock_time)
}

fn block_with_transactions(count: u32) -> Block {
    let mut transactions = Vec::new();
    for i in 0..count {
        transactions.push(tx(i));
    }
    Block::new(header(9), transactions)
}

#[test]
fn genesis_hash_is_the_test_network_one() {
    let genesis = hashed_genesis_block();
    assert_eq!(genesis[0..5], [0, 0, 0, 0, 0]);
    assert_eq!(genesis[5], 0x19);
    assert_eq!(genesis[31], 0x6f);
}

#[test]
fn headers_are_sent_up_to_the_stopping_hash() {
    let headers = vec![header(1), header(2), header(3), header(4)];
    let stop = headers[2].hash();
    let sent = get_headers_to_send(&headers, 1, &stop);
    assert_eq!(sent, vec![headers[1], headers[2]]);
    let all = get_headers_to_send(&headers, 0, &[0; 32]);
    assert_eq!(all, headers);
    assert!(get_headers_to_send(&headers, 4, &stop).is_empty());
    assert!(get_headers_to_send(&headers, 10, &stop).is_empty());
}

#[test]
fn at_most_two_thousand_headers_are_sent() {
    let headers: Vec<BlockHeader> = (0..2100u32)
        .map(|i| BlockHeader::new(1, [0; 32], [0; 32], i))
        .collect();
    let sent = get_headers_to_send(&headers, 0, &[0; 32]);
    assert_eq!(sent.len(), 2000);
    assert_eq!(sent[1999], headers[1999]);
}

#[test]
fn starting_position_is_that_of_the_first_known_hash() {
    let mut index: HashStore<usize> = HashStore::new();
    index.insert([7; 32], 41);
    index.insert([8; 32], 12);
    assert_eq!(get_starting_header_position(&vec![[1; 32], [8; 32], [7; 32]], &index), Ok(Some(12)));
    assert_eq!(
        get_starting_header_position(&vec![[1; 32], hashed_genesis_block(), [7; 32]], &index),
        Ok(None)
    );
    assert_eq!(
        get_starting_header_position(&vec![[1; 32], [2; 32]], &index),
        Err(NodeError::ErrorFindingBlock)
    );
}

#[test]
fn new_headers_are_appended_and_indexed() {
    let (h1, h2, h3) = (header(1), header(2), header(3));
    let mut headers = vec![h1];
    let mut index: HashStore<usize> = HashStore::new();
    index.insert(h1.hash(), 0);
    insert_new_headers(vec![h2, h3], &mut headers, &mut index);
    assert_eq!(headers, vec![h1, h2, h3]);
    assert_eq!(index.get(&h2.hash()), Some(&1));
    assert_eq!(index.get(&h3.hash()), Some(&2));
    assert_eq!(index.get(&h1.hash()), Some(&0));
}

#[test]
fn a_ping_is_answered_with_its_nonce() {
    let ping = PingMessage::from_bytes(&[1, 2, 3, 4, 5, 6, 7, 8]).unwrap();
    let pong = handle_ping_message(&ping);
    assert_eq!(pong.to_bytes(), vec![1, 2, 3, 4, 5, 6, 7, 8]);
}

#[test]
fn a_transaction_message_becomes_pending() {
    let mut pending: HashStore<Transaction> = HashStore::new();
    let t = tx(5);
    let hash = t.hash();
    handle_tx_message(TxMessage::new(t), &mut pending);
    assert_eq!(pending.get(&hash), Some(&tx(5)));
}

#[test]
fn inventories_ask_for_what_is_unknown() {
    let mut blockchain: HashStore<Block> = HashStore::new();
    blockchain.insert([1; 32], block_with_transactions(0));
    let mut pending: HashStore<Transaction> = HashStore::new();
    pending.insert([3; 32], tx(0));
    let inv = InvMessage::new(vec![
        Entry::as_block_entry([1; 32]),
        Entry::as_transaction_entry([3; 32]),
        Entry::as_block_entry([2; 32]),
        Entry::as_transaction_entry([4; 32]),
    ]);
    let (blocks, txs) = handle_inv_message(&inv, &blockchain, &pending);
    assert_eq!(blocks, vec![[2; 32]]);
    assert_eq!(txs, vec![[4; 32]]);
    assert_eq!(unknown_hashes(&vec![[1; 32], [5; 32], [1; 32]], &blockchain), vec![[5; 32]]);
}

#[test]
fn requests_for_data_are_answered_with_blocks_and_not_found() {
    let mut blockchain: HashStore<Block> = HashStore::new();
    let block = block_with_transactions(2);
    let bytes = block.to_bytes();
    blockchain.insert([1; 32], block);
    let request = GetDataMessage::create_message_inventory_block_type(vec![[2; 32], [1; 32]]);
    let (messages, not_found) = handle_get_data(&request, &blockchain).unwrap();
    assert_eq!(messages.len(), 1);
    assert_eq!(messages[0].block.to_bytes(), bytes);
    assert_eq!(not_found, vec![[2; 32]]);
}

#[test]
fn a_known_block_changes_nothing() {
    let block = Block::new(valid_header(), Vec::new());
    let mut headers = Vec::new();
    let mut index: HashStore<usize> = HashStore::new();
    let mut blockchain: HashStore<Block> = HashStore::new();
    blockchain.insert(valid_header().hash(), Block::new(valid_header(), Vec::new()));
    let mut pending: HashStore<Transaction> = HashStore::new();
    assert_eq!(
        handle_block_message(block, &mut headers, &mut index, &mut blockchain, &mut pending, false),
        Ok(())
    );
    assert!(headers.is_empty());
    assert!(!index.contains_key(&valid_header().hash()));
}

#[test]
fn a_block_without_proof_of_work_is_refused() {
    let block = block_with_transactions(1);
    let hash = block.header_hash();
    let mut headers = Vec::new();
    let mut index: HashStore<usize> = HashStore::new();
    let mut blockchain: HashStore<Block> = HashStore::new();
    let mut pending: HashStore<Transaction> = HashStore::new();
    assert_eq!(
        handle_block_message(block, &mut headers, &mut index, &mut blockchain, &mut pending, false),
        Err(NodeError::ErrorValidatingBlock)
    );
    assert!(!blockchain.contains_key(&hash));
    assert!(headers.is_empty());
}

#[test]
fn a_new_valid_block_joins_the_chain() {
    let block = Block::new(valid_header(), Vec::new());
    let hash = valid_header().hash();
    let h1 = header(1);
    let mut headers = vec![h1];
    let mut index: HashStore<usize> = HashStore::new();
    let mut blockchain: HashStore<Block> = HashStore::new();
    let mut pending: HashStore<Transaction> = HashStore::new();
    pending.insert([4; 32], tx(4));
    assert_eq!(
        handle_block_message(block, &mut headers, &mut index, &mut blockchain, &mut pending, false),
        Ok(())
    );
    assert_eq!(headers, vec![h1, valid_header()]);
    assert_eq!(index.get(&hash), Some(&1));
    assert_eq!(blockchain.get(&hash), Some(&Block::new(valid_header(), Vec::new())));
    assert!(pending.contains_key(&[4; 32]));

    let mut ibd_headers = vec![h1];
    let mut ibd_index: HashStore<usize> = HashStore::new();
    let mut ibd_chain: HashStore<Block> = HashStore::new();
    assert_eq!(
        handle_block_message(
            Block::new(valid_header(), Vec::new()),
            &mut ibd_headers,
            &mut ibd_index,
            &mut ibd_chain,
            &mut pending,
            true
        ),
        Ok(())
    );
    assert_eq!(ibd_headers, vec![h1]);
    assert!(ibd_chain.contains_key(&hash));
}

#[test]
fn block_information_is_found_by_number() {
    let block = block_with_transactions(2);
    let h9 = block.get_header();
    let headers = vec![h9];
    let mut blockchain: HashStore<Block> = HashStore::new();
    blockchain.insert(h9.hash(), block);
    let info = get_block_info_from(1, &headers, &blockchain).unwrap();
    assert_eq!(info.block_number, 1);
    assert_eq!(info.block_header, h9);
    assert_eq!(info.block_tx_hashes, vec![tx(0).hash(), tx(1).hash()]);
    assert!(get_block_info_from(0, &headers, &blockchain).is_err());
    assert!(get_block_info_from(2, &headers, &blockchain).is_err());
    let last = get_last_block_info(&headers, &blockchain).unwrap();
    assert_eq!(last.block_number, 1);
    assert_eq!(
        get_last_block_info(&Vec::new(), &blockchain).err(),
        Some(NodeError::ErrorFindingBlock)
    );
    let missing = vec![header(3)];
    assert_eq!(
        get_block_info_from(1, &missing, &blockchain).err(),
        Some(NodeError::ErrorFindingBlock)
    );
}

#[test]
fn merkle_proofs_of_stored_blocks_verify() {
    let block = block_with_transactions(5);
    let headers = vec![block.get_header()];
    let mut blockchain: HashStore<Block> = HashStore::new();
    blockchain.insert(block.header_hash(), block);
    for i in 0..5 {
        let h = tx(i).hash();
        let (proof, root) = get_merkle_tx_proof(h, 1, &headers, &blockchain).unwrap();
        assert!(verify_merkle_proof(h, &proof, root));
        assert!(!verify_merkle_proof(tx(9).hash(), &proof, root));
    }
    assert_eq!(
        get_merkle_tx_proof(tx(0).hash(), 2, &headers, &blockchain).err(),
        Some(NodeError::ErrorFindingBlock)
    );
}

#[test]
fn merkle_root_of_two_transactions_is_their_hashed_pair() {
    let block = block_with_transactions(2);
    let (proof, root) = proof_of_transaction_included_in(tx(0).hash(), &block);
    let mut joined = Vec::from(tx(0).hash());
    joined.extend(tx(1).hash());
    assert_eq!(root, double_hash(&joined));
    assert_eq!(proof.len(), 1);
    assert!(verify_merkle_proof(tx(0).hash(), &proof, root));
}

fn sent_bytes(reply: Reply) -> Vec<Vec<u8>> {
    messages_of_reply(reply)
        .into_iter()
        .map(|m| match m {
            Outgoing::Pong(m) => m.to_bytes(),
            Outgoing::Headers(m) => m.to_bytes(),
            Outgoing::Block(m) => m.to_bytes(),
            Outgoing::NotFound(m) => m.to_bytes(),
            Outgoing::GetData(m) => m.to_bytes(),
        })
        .collect()
}

#[test]
fn data_is_asked_for_only_for_lists_that_are_not_empty() {
    assert!(sent_bytes(Reply::GetData(vec![], vec![])).is_empty());
    assert!(sent_bytes(Reply::Nothing).is_empty());
    let blocks_only = sent_bytes(Reply::GetData(vec![[2; 32]], vec![]));
    assert_eq!(blocks_only, vec![GetDataMessage::create_message_inventory_block_type(vec![[2; 32]]).to_bytes()]);
    let txs_only = sent_bytes(Reply::GetData(vec![], vec![[4; 32]]));
    assert_eq!(
        txs_only,
        vec![GetDataMessage::create_message_inventory_transaction_type(vec![[4; 32]]).to_bytes()]
    );
}

#[test]
fn an_inventory_is_answered_with_a_request_for_each_unknown_kind() {
    let mut blockchain: HashStore<Block> = HashStore::new();
    blockchain.insert([1; 32], block_with_transactions(0));
    let pending: HashStore<Transaction> = HashStore::new();
    let inv = InvMessage::new(vec![
        Entry::as_block_entry([1; 32]),
        Entry::as_transaction_entry([3; 32]),
        Entry::as_block_entry([2; 32]),
    ]);
    let (blocks, txs) = handle_inv_message(&inv, &blockchain, &pending);
    let sent = sent_bytes(Reply::GetData(blocks, txs));
    assert_eq!(
        sent,
        vec![
            GetDataMessage::create_message_inventory_block_type(vec![[2; 32]]).to_bytes(),
            GetDataMessage::create_message_inventory_transaction_type(vec![[3; 32]]).to_bytes(),
        ]
    );
    let inv_known = InvMessage::new(vec![Entry::as_block_entry([1; 32])]);
    let (blocks, txs) = handle_inv_message(&inv_known, &blockchain, &pending);
    assert!(sent_bytes(Reply::GetData(blocks, txs)).is_empty());
}

#[test]
fn blocks_go_out_in_order_then_what_was_not_found() {
    let first = block_with_transactions(1);
    let second = block_with_transactions(2);
    let (b1, b2) = (first.to_bytes(), second.to_bytes());
    let sent = sent_bytes(Reply::Blocks(
        vec![BlockMessage::new(first), BlockMessage::new(second)],
        vec![[9; 32]],
    ));
    assert_eq!(sent.len(), 3);
    assert_eq!(sent[0], b1);
    assert_eq!(sent[1], b2);
    assert_eq!(sent[2], NotFoundMessage::from_block_hashes(vec![[9; 32]]).to_bytes());
    assert_eq!(sent_bytes(Reply::Blocks(vec![], vec![])).len(), 0);
}

#[test]
fn each_pair_of_a_proof_holds_the_running_hash_on_its_path_side() {
    let block = block_with_transactions(5);
    for k in 0..5 {
        let h = tx(k).hash();
        let (proof, root) = proof_of_transaction_included_in(h, &block);
        assert_eq!(proof.len(), 3);
        assert!(proof[0].equals_path_side(h));
        for j in 1..proof.len() {
            assert!(proof[j].equals_path_side(proof[j - 1].hash()));
        }
        assert_eq!(proof[proof.len() - 1].hash(), root);
    }
}
