use btc_node::messages::block_message::BlockMessage;
use btc_node::block_proofs::{hash_pairs_for_merkle_tree, HashPair, Side};
use btc_node::proof_drawing::funcion_re_fachera;
use btc_node::blockchain::{Block, BlockHeader};
use btc_node::data_files::{
    blocks_to_save, get_all_blocks, get_all_headers, get_bytes_from_line, headers_to_save,
    load_blocks_and_headers,
};
use btc_node::errors::{NodeDataHandlerError, NodeError, WalletError};
use btc_node::hash_store::HashStore;
use btc_node::ibd::{
    after_download_attempt, blocks_to_download, create_get_block_header_message, keep_asking_for_headers,
    last_known_hash, request_blocks, DownloadOutcome, NextDownloadStep,
};
use btc_node::messages::block_headers_message::BlockHeadersMessage;
use btc_node::messages::header_message::HeaderMessage;
use btc_node::messages::message::Message;
use btc_node::messages::ping_pong_messages::PingMessage;
use btc_node::messages::tx_message::TxMessage;
use btc_node::node_state::{
    add_block_or_headers, handle_block_headers_message, handle_message, hashed_genesis_block,
    insert_time_orderly, propagate_messages, Reply,
};
use btc_node::pending::{get_pending_tx_info_from, record_sent_transaction};
use btc_node::signing::{get_pk_script, get_pk_script_from_pubkey};
use btc_node::transaction::{Outpoint, Transaction, TxIn, TxOut};
use btc_node::ui_protocol::WalletToUICommunication;
use btc_node::utxo_set::{apply_blocks_from, create_utxo_set, UtxoSet};
use btc_node::var_len_int::calculate_variable_length_integer;
use btc_node::wallet::Wallet;

const KEY_ONE_HEX: &str = "0000000000000000000000000000000000000000000000000000000000000001";

fn header_at(time: u32, tag: u8) -> BlockHeader {
    let mut h = BlockHeader::new(1, [tag; 32], [tag; 32], 0);
    let mut bytes = h.to_bytes();
    bytes[68..72].copy_from_slice(&time.to_le_bytes());
    bytes[76..80].copy_from_slice(&[0, 0, 0, 0]);
    h = BlockHeader::from_bytes(&bytes).unwrap();
    h
}

fn pays_to(owner: [u8; 20], value: i64) -> TxOut {
    TxOut::new(value, get_pk_script(owner).to_vec())
}

#[test]
fn the_utxo_set_is_built_from_the_blocks_of_the_chain() {
    let coinbase = Transaction::new(1, vec![], vec![pays_to([7; 20], 50)], 0);
    let id = coinbase.hash();
    let spend = Transaction::new(
        1,
        vec![TxIn::new(Outpoint::new(id, 0), vec![], 0)],
        vec![pays_to([8; 20], 20), pays_to([7; 20], 29)],
        0,
    );
    let spend_id = spend.hash();
    let b1 = Block::new(header_at(10, 1), vec![coinbase]);
    let b2 = Block::new(header_at(20, 2), vec![spend]);
    let headers = vec![header_at(5, 0), b1.get_header(), b2.get_header(), header_at(30, 3)];
    let mut blockchain: HashStore<Block> = HashStore::new();
    blockchain.insert(b2.header_hash(), b2);
    blockchain.insert(b1.header_hash(), b1);
    assert_eq!(blockchain.len(), 2);
    // The chain holds two blocks, so only the last two headers are gone
    // through: the first block is passed over and the last header has none.
    let set = create_utxo_set(&headers, &blockchain).unwrap();
    assert_eq!(set.len(), 2);
    assert!(!set.contains_key(&Outpoint::new(id, 0)));
    assert_eq!(set.get(&Outpoint::new(spend_id, 0)), Some(&pays_to([8; 20], 20)));
    assert_eq!(set.get_utxo_balance([7; 20]).1, 29);
}

#[test]
fn new_blocks_are_applied_to_the_set_from_a_position_on() {
    let coinbase = Transaction::new(1, vec![], vec![pays_to([7; 20], 50)], 0);
    let id = coinbase.hash();
    let spend = Transaction::new(
        1,
        vec![TxIn::new(Outpoint::new(id, 0), vec![], 0)],
        vec![pays_to([8; 20], 20), pays_to([7; 20], 29)],
        0,
    );
    let spend_id = spend.hash();
    let b1 = Block::new(header_at(10, 1), vec![coinbase]);
    let b2 = Block::new(header_at(20, 2), vec![spend]);
    let headers = vec![b1.get_header(), header_at(15, 4), b2.get_header()];
    let mut blockchain: HashStore<Block> = HashStore::new();
    blockchain.insert(b1.header_hash(), b1);
    blockchain.insert(b2.header_hash(), b2);
    let mut set = UtxoSet::new();
    assert_eq!(apply_blocks_from(&headers, &blockchain, 0, &mut set), Ok(()));
    assert_eq!(set.len(), 2);
    assert_eq!(set.get(&Outpoint::new(spend_id, 1)), Some(&pays_to([7; 20], 29)));
    let mut from_two = UtxoSet::new();
    from_two.insert(Outpoint::new([5; 32], 0), pays_to([7; 20], 1));
    assert_eq!(apply_blocks_from(&headers, &blockchain, 2, &mut from_two), Ok(()));
    assert_eq!(from_two.len(), 3);
    assert!(!from_two.contains_key(&Outpoint::new(id, 0)));
    assert_eq!(from_two.get(&Outpoint::new(spend_id, 0)), Some(&pays_to([8; 20], 20)));
    let mut past_end = UtxoSet::new();
    assert_eq!(apply_blocks_from(&headers, &blockchain, 9, &mut past_end), Ok(()));
    assert_eq!(past_end.len(), 0);
}

#[test]
fn pending_transactions_are_summed_for_the_wallet() {
    let wallet = Wallet::from(KEY_ONE_HEX.to_string()).unwrap();
    let pk_hash = wallet.get_pk_hash();
    let mut set = UtxoSet::new();
    set.insert(Outpoint::new([1; 32], 0), pays_to(pk_hash, 100));
    let script = {
        let mut s = vec![1u8, 0x01];
        s.push(33);
        s.extend(wallet.pub_key);
        s
    };
    let spending = Transaction::new(
        1,
        vec![TxIn::new(Outpoint::new([1; 32], 0), script, 0)],
        vec![pays_to([9; 20], 60), pays_to(pk_hash, 30)],
        0,
    );
    let receiving = Transaction::new(1, vec![], vec![pays_to(pk_hash, 5)], 0);
    let foreign = Transaction::new(1, vec![], vec![pays_to([9; 20], 5)], 0);
    let mut pending: HashStore<Transaction> = HashStore::new();
    pending.insert([1; 32], spending);
    pending.insert([2; 32], receiving);
    pending.insert([3; 32], foreign);
    let infos = get_pending_tx_info_from(&pending, &set, &wallet.pub_key, pk_hash);
    assert_eq!(infos.len(), 2);
    assert_eq!(infos[0].tx_in_total, 100);
    assert_eq!(infos[0].tx_out_total, 30);
    assert_eq!(infos[1].tx_in_total, 0);
    assert_eq!(infos[1].tx_out_total, 5);
}

#[test]
fn a_sent_transaction_is_pending_and_spends_its_outputs() {
    let mut set = UtxoSet::new();
    set.insert(Outpoint::new([1; 32], 0), pays_to([7; 20], 100));
    set.insert(Outpoint::new([1; 32], 1), pays_to([7; 20], 5));
    let tx = Transaction::new(
        1,
        vec![TxIn::new(Outpoint::new([1; 32], 0), vec![], 0)],
        vec![pays_to([8; 20], 90)],
        0,
    );
    let hash = tx.hash();
    let mut pending: HashStore<Transaction> = HashStore::new();
    record_sent_transaction(tx, &mut pending, &mut set);
    assert!(pending.contains_key(&hash));
    assert!(!set.contains_key(&Outpoint::new([1; 32], 0)));
    assert!(set.contains_key(&Outpoint::new([1; 32], 1)));
}

#[test]
fn messages_are_handled_by_kind() {
    let mut headers: Vec<BlockHeader> = Vec::new();
    let mut index: HashStore<usize> = HashStore::new();
    let mut blockchain: HashStore<Block> = HashStore::new();
    let mut pending: HashStore<Transaction> = HashStore::new();

    let ping = PingMessage::from_bytes(&[7; 8]).unwrap();
    match handle_message(Message::Ping(ping), &mut headers, &mut index, &mut blockchain, &mut pending, false) {
        Ok(Reply::Pong(p)) => assert_eq!(p.to_bytes(), vec![7; 8]),
        _ => panic!("a ping is answered with a pong"),
    }

    let h1 = header_at(1, 1);
    let h2 = header_at(2, 2);
    let msg = BlockHeadersMessage::new(vec![h1, h2]);
    assert!(matches!(
        handle_message(Message::BlockHeaders(msg), &mut headers, &mut index, &mut blockchain, &mut pending, true),
        Ok(Reply::Nothing)
    ));
    assert_eq!(headers, vec![h1, h2]);
    assert_eq!(index.get(&h2.hash()), Some(&1));

    let late = BlockHeadersMessage::new(vec![header_at(3, 3)]);
    assert!(matches!(
        handle_message(Message::BlockHeaders(late), &mut headers, &mut index, &mut blockchain, &mut pending, false),
        Ok(Reply::Nothing)
    ));
    assert_eq!(headers.len(), 2);

    let tx = Transaction::new(1, vec![], vec![], 9);
    let hash = tx.hash();
    assert!(matches!(
        handle_message(Message::Tx(TxMessage::new(tx)), &mut headers, &mut index, &mut blockchain, &mut pending, false),
        Ok(Reply::Nothing)
    ));
    assert!(pending.contains_key(&hash));

    let header = HeaderMessage::new("verack\0\0\0\0\0\0", &Vec::new()).unwrap();
    assert!(matches!(
        handle_message(Message::Header(header), &mut headers, &mut index, &mut blockchain, &mut pending, false),
        Err(NodeError::DoubleHeader)
    ));

    let request = create_get_block_header_message(70015, h1.hash());
    match handle_message(Message::GetBlockHeaders(request), &mut headers, &mut index, &mut blockchain, &mut pending, false) {
        Ok(Reply::Headers(hs)) => assert_eq!(hs, vec![h2]),
        _ => panic!("a request for headers is answered with the following ones"),
    }
    let unknown = create_get_block_header_message(70015, [5; 32]);
    assert!(matches!(
        handle_message(Message::GetBlockHeaders(unknown), &mut headers, &mut index, &mut blockchain, &mut pending, false),
        Ok(Reply::Nothing)
    ));
    let from_genesis = create_get_block_header_message(70015, hashed_genesis_block());
    match handle_message(Message::GetBlockHeaders(from_genesis), &mut headers, &mut index, &mut blockchain, &mut pending, false) {
        Ok(Reply::Headers(hs)) => assert_eq!(hs, vec![h1, h2]),
        _ => panic!("a request from the genesis block is answered from the start"),
    }
}

#[test]
fn headers_are_kept_in_order_of_time() {
    let mut headers = vec![header_at(10, 1), header_at(20, 2), header_at(30, 3)];
    insert_time_orderly(header_at(20, 4), &mut headers);
    insert_time_orderly(header_at(5, 5), &mut headers);
    insert_time_orderly(header_at(40, 6), &mut headers);
    let times: Vec<u32> = headers.iter().map(|h| h.time()).collect();
    assert_eq!(times, vec![5, 10, 20, 20, 30, 40]);
    assert_eq!(headers[3], header_at(20, 4));
}

#[test]
fn received_blocks_and_headers_are_added() {
    let b = Block::new(header_at(15, 7), vec![]);
    let hash = b.header_hash();
    let mut headers = vec![header_at(10, 1), header_at(20, 2)];
    let mut blockchain: HashStore<Block> = HashStore::new();
    add_block_or_headers(vec![header_at(12, 3)], vec![b], &mut headers, &mut blockchain);
    assert!(blockchain.contains_key(&hash));
    let times: Vec<u32> = headers.iter().map(|h| h.time()).collect();
    assert_eq!(times, vec![10, 12, 15, 20]);
    add_block_or_headers(vec![], vec![Block::new(header_at(15, 7), vec![])], &mut headers, &mut blockchain);
    assert_eq!(headers.len(), 4);
}

#[test]
fn saved_headers_and_blocks_read_back() {
    let headers = vec![header_at(1, 1), header_at(2, 2), header_at(3, 3)];
    let mut file = headers_to_save(&headers, 0);
    assert_eq!(file.len(), 240);
    file.extend([1, 2, 3]);
    assert_eq!(get_all_headers(&file), Ok(headers.clone()));
    assert_eq!(get_all_headers(&headers_to_save(&headers, 2)), Ok(vec![headers[2]]));
    assert!(headers_to_save(&headers, 5).is_empty());

    let b1 = Block::new(headers[0], vec![Transaction::new(1, vec![], vec![], 0)]);
    let b3 = Block::new(headers[2], vec![]);
    let mut blockchain: HashStore<Block> = HashStore::new();
    blockchain.insert(b1.header_hash(), b1);
    blockchain.insert(b3.header_hash(), b3);
    let blocks_file = blocks_to_save(&headers, &blockchain, 0);
    let blocks = get_all_blocks(&blocks_file).unwrap();
    assert_eq!(blocks.len(), 2);
    assert_eq!(blocks[0].get_header(), headers[0]);
    assert_eq!(blocks[1].get_header(), headers[2]);
    assert_eq!(get_all_blocks(&blocks_file[..blocks_file.len() - 1]), Err(NodeDataHandlerError::ErrorReadingBlocks));
    assert_eq!(get_all_blocks(&[]), Ok(vec![]));

    let mut chain_headers = Vec::new();
    let mut chain: HashStore<Block> = HashStore::new();
    load_blocks_and_headers(headers.clone(), blocks, &mut chain_headers, &mut chain);
    assert_eq!(chain_headers, headers);
    assert!(chain.contains_key(&headers[0].hash()));
    assert!(!chain.contains_key(&headers[1].hash()));
}

#[test]
fn lines_of_bytes_are_read() {
    assert_eq!(get_bytes_from_line("1,2,255".to_string()), Ok(vec![1, 2, 255]));
    assert_eq!(get_bytes_from_line("1,256".to_string()), Err(NodeDataHandlerError::ErrorReadingBytes));
    assert_eq!(get_bytes_from_line("".to_string()), Err(NodeDataHandlerError::ErrorReadingBytes));
}

#[test]
fn blocks_are_requested_in_bundles_of_sixteen() {
    let headers: Vec<BlockHeader> = (0..40u32).map(|i| header_at(i, i as u8)).collect();
    let mut total = 3;
    let mut first = -1;
    let (bundles, rest) = request_blocks(2, &headers, vec![[9; 32]], &mut total, 9, &mut first);
    assert_eq!(total, 3 + 30);
    assert_eq!(first, 10);
    assert_eq!(bundles.len(), 1);
    assert_eq!(bundles[0].len(), 16);
    assert_eq!(bundles[0][0], [9; 32]);
    assert_eq!(bundles[0][1], headers[10].hash());
    assert_eq!(rest.len(), 15);
    assert_eq!(rest[14], headers[39].hash());
    let mut first_again = 4;
    let (none, left) = request_blocks(40, &headers, vec![], &mut total, 0, &mut first_again);
    assert!(none.is_empty() && left.is_empty());
    assert_eq!(first_again, 4);
    let (past, carried) = request_blocks(41, &headers, vec![[7; 32]], &mut total, 0, &mut first_again);
    assert!(past.is_empty());
    assert_eq!(carried, vec![[7; 32]]);
    assert_eq!(total, 33);
}

#[test]
fn headers_are_asked_for_again_only_after_a_full_answer() {
    assert!(keep_asking_for_headers(0, 2000));
    assert!(keep_asking_for_headers(2000, 4000));
    assert!(!keep_asking_for_headers(2000, 3999));
    assert!(!keep_asking_for_headers(2000, 2000));
    assert!(!keep_asking_for_headers(5000, 3000));
}

#[test]
fn blocks_to_download_count_from_the_first_marked_one() {
    assert_eq!(blocks_to_download(100, -1), 0);
    assert_eq!(blocks_to_download(100, 40), 60);
    assert_eq!(blocks_to_download(100, 100), 0);
}

#[test]
fn a_failed_peer_passes_the_turn_and_a_failed_bundle_aborts() {
    assert_eq!(after_download_attempt(DownloadOutcome::Finished, 1, 3, 4), NextDownloadStep::Stop);
    assert_eq!(after_download_attempt(DownloadOutcome::BundleFailed, 1, 3, 4), NextDownloadStep::Abort);
    assert_eq!(
        after_download_attempt(DownloadOutcome::PeerFailed, 1, 3, 4),
        NextDownloadStep::Try { peer: 2, timeout: 3 }
    );
    assert_eq!(
        after_download_attempt(DownloadOutcome::PeerFailed, 3, 3, 4),
        NextDownloadStep::Try { peer: 0, timeout: 4 }
    );
    assert_eq!(after_download_attempt(DownloadOutcome::PeerFailed, 3, 9, 4), NextDownloadStep::Stop);
    assert_eq!(
        after_download_attempt(DownloadOutcome::PeerFailed, 0, 1, 0),
        NextDownloadStep::Try { peer: 0, timeout: 2 }
    );
}

#[test]
fn headers_are_asked_for_after_the_last_known_one() {
    assert_eq!(last_known_hash(&vec![]), hashed_genesis_block());
    let h = header_at(1, 1);
    assert_eq!(last_known_hash(&vec![header_at(0, 0), h]), h.hash());
    let request = create_get_block_header_message(70015, h.hash());
    let mut expected = Vec::new();
    expected.extend((70015u32).to_le_bytes());
    expected.push(1);
    expected.extend(h.hash());
    expected.extend([0u8; 32]);
    assert_eq!(request.to_bytes(), expected);
}

#[test]
fn variable_length_integers_are_cut_from_the_front() {
    assert_eq!(calculate_variable_length_integer(&[5, 1, 2]), (vec![5], 1));
    assert_eq!(calculate_variable_length_integer(&[0xfd, 1, 2, 3]), (vec![0xfd, 1, 2], 3));
    assert_eq!(calculate_variable_length_integer(&[0xfe, 1]), (vec![0xfe, 1], 5));
    assert_eq!(calculate_variable_length_integer(&[0xff, 1, 2, 3, 4, 5, 6, 7, 8, 9]).1, 9);
}

#[test]
fn the_wallet_answers_the_user_interface() {
    let mut wallet = Wallet::from(KEY_ONE_HEX.to_string()).unwrap();
    let tx = Transaction::new(1, vec![], vec![], 0);
    let tx_hash = tx.hash();
    let block = Block::new(header_at(1, 1), vec![tx]);
    let headers = vec![block.get_header()];
    let mut blockchain: HashStore<Block> = HashStore::new();
    blockchain.insert(block.header_hash(), block);

    match wallet.handle_get_block_info(&headers, &blockchain, 1) {
        Ok(WalletToUICommunication::BlockInfo(info)) => assert_eq!(info.block_tx_hashes, vec![tx_hash]),
        _ => panic!("the block is shown"),
    }
    assert_eq!(wallet.current_block(), 1);
    assert!(matches!(
        wallet.handle_get_block_info(&headers, &blockchain, 2),
        Err(WalletError::ErrorFindingBlock)
    ));
    assert!(matches!(
        wallet.handle_last_block_info(&headers, &blockchain),
        Ok(WalletToUICommunication::BlockInfo(_))
    ));
    assert!(matches!(
        wallet.handle_last_block_info(&vec![], &blockchain),
        Err(WalletError::ErrorFindingBlock)
    ));
    assert!(matches!(
        wallet.handle_obtain_tx_proof(&headers, &blockchain, tx_hash, 1),
        Ok(WalletToUICommunication::ResultOFTXProof(true))
    ));
    assert!(matches!(
        wallet.handle_obtain_tx_proof(&headers, &blockchain, [3; 32], 1),
        Ok(WalletToUICommunication::ResultOFTXProof(false))
    ));
    assert!(matches!(
        wallet.handle_obtain_tx_proof(&headers, &blockchain, tx_hash, 0),
        Err(WalletError::ErrorObtainingTxProof)
    ));
}

#[test]
fn payments_need_a_good_address_and_enough_money() {
    let wallet = Wallet::from(KEY_ONE_HEX.to_string()).unwrap();
    let mut set = UtxoSet::new();
    set.insert(
        Outpoint::new([1; 32], 0),
        TxOut::new(1000, get_pk_script_from_pubkey(wallet.pub_key).to_vec()),
    );
    assert_eq!(
        wallet.handle_create_tx(&set, 10, 1, "0OIl".to_string()).err(),
        Some(WalletError::ErrorSendingTx)
    );
    assert_eq!(
        wallet.handle_create_tx(&set, 10, 1, "1".to_string()).err(),
        Some(WalletError::ErrorSendingTx)
    );
    let address = "mipcBbFg9gMiCh81Kj8tqqdgoZub1ZJRfn".to_string();
    let tx = wallet.handle_create_tx(&set, 10, 1, address.clone()).unwrap();
    assert_eq!(tx.tx_out.len(), 2);
    assert_eq!(tx.tx_out[0].value, 10);
    assert_eq!(tx.tx_out[1].value, 989);
    assert_eq!(
        wallet.handle_create_tx(&set, 1000, 1, address).err(),
        Some(WalletError::ErrorNotEnoughSatoshis)
    );
    let direct = wallet.create_transaction(&set, 5, 5, [0; 25]).unwrap();
    assert_eq!(direct.tx_in.len(), 1);
}

fn spaces(n: usize) -> String {
    " ".repeat(n)
}

#[test]
fn a_proof_of_one_pair_is_drawn() {
    let mut pairs = vec![HashPair::new([1; 32], [2; 32], Side::Left)];
    let drawing = funcion_re_fachera(&mut pairs);
    let expected = format!(
        "{}MR{}\n{} /{}\\ {}\n{}1L{}1R{}",
        spaces(6),
        spaces(4),
        spaces(4),
        spaces(2),
        spaces(2),
        spaces(4),
        spaces(2),
        spaces(2)
    );
    assert_eq!(drawing, expected);
}

#[test]
fn a_proof_turning_right_is_drawn() {
    let bottom = HashPair::new([1; 32], [2; 32], Side::Left);
    let top = HashPair::new([3; 32], hash_pairs_for_merkle_tree([1; 32], [2; 32]), Side::Right);
    let mut pairs = vec![bottom, top];
    let drawing = funcion_re_fachera(&mut pairs);
    assert_eq!(pairs, vec![top, bottom]);
    let rows: Vec<String> = vec![
        format!("{}MR{}", spaces(8), spaces(6)),
        format!("{} /{}\\ {}", spaces(6), spaces(2), spaces(4)),
        format!("{}1L{}1R{}", spaces(6), spaces(2), spaces(4)),
        format!("{} /{}\\ {}", spaces(8), spaces(2), spaces(2)),
        format!("{}2L{}2R{}", spaces(8), spaces(2), spaces(2)),
    ];
    assert_eq!(drawing, rows.join("\n"));

    let turning_left = HashPair::new(hash_pairs_for_merkle_tree([1; 32], [2; 32]), [3; 32], Side::Left);
    let mut left_pairs = vec![bottom, turning_left];
    let left_drawing = funcion_re_fachera(&mut left_pairs);
    assert!(left_drawing.ends_with(&format!("\n{}2L{}2R{}", spaces(4), spaces(2), spaces(6))));
}

#[test]
fn new_blocks_and_transactions_are_passed_on() {
    let block = Block::new(header_at(1, 1), vec![]);
    let block_bytes = block.to_bytes();
    let hash = block.header_hash();
    let msg = Message::Block(BlockMessage::new(block));
    let mut blockchain: HashStore<Block> = HashStore::new();
    let pending: HashStore<Transaction> = HashStore::new();
    let wire = propagate_messages(&msg, &blockchain, &pending).unwrap();
    assert_eq!(&wire[4..9], b"block");
    assert_eq!(wire[24..].to_vec(), block_bytes);
    blockchain.insert(hash, Block::new(header_at(1, 1), vec![]));
    assert!(propagate_messages(&msg, &blockchain, &pending).is_none());

    let tx = Transaction::new(1, vec![], vec![], 3);
    let tx_bytes = tx.to_bytes();
    let tx_msg = Message::Tx(TxMessage::new(tx));
    let wire_tx = propagate_messages(&tx_msg, &blockchain, &pending).unwrap();
    assert_eq!(&wire_tx[4..6], b"tx");
    assert_eq!(wire_tx[24..].to_vec(), tx_bytes);
    let ping = Message::Ping(PingMessage::from_bytes(&[0; 8]).unwrap());
    assert!(propagate_messages(&ping, &blockchain, &pending).is_none());
}

#[test]
fn headers_messages_extend_the_headers() {
    let h1 = header_at(1, 1);
    let h2 = header_at(2, 2);
    let bytes = BlockHeadersMessage::new(vec![h1, h2]).to_bytes();
    let mut headers = vec![header_at(0, 0)];
    assert_eq!(handle_block_headers_message(&bytes, &mut headers), Ok(()));
    assert_eq!(headers.len(), 3);
    assert_eq!(headers[2], h2);
    assert_eq!(
        handle_block_headers_message(&bytes[..50], &mut headers),
        Err(NodeError::ErrorReceivingHeadersMessageInIBD)
    );
    assert_eq!(headers.len(), 3);
}

#[test]
fn payments_beyond_sixty_four_bits_are_refused() {
    let wallet = Wallet::from(KEY_ONE_HEX.to_string()).unwrap();
    let set = UtxoSet::new();
    assert!(wallet.create_transaction_checked(&set, i64::MAX, 1, [0; 25]).is_none());
    assert_eq!(
        wallet.create_transaction_checked(&set, 5, 1, [0; 25]).map(|r| r.err()),
        Some(Some(WalletError::ErrorNotEnoughSatoshis))
    );
    assert_eq!(
        wallet
            .handle_create_tx(&set, i64::MAX, 1, "mipcBbFg9gMiCh81Kj8tqqdgoZub1ZJRfn".to_string())
            .err(),
        Some(WalletError::ErrorCreatingTx)
    );
}
