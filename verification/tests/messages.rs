use btc_node::blockchain::{Block, BlockHeader};
use btc_node::errors::MessageError;
use btc_node::messages::block_headers_message::BlockHeadersMessage;
use btc_node::messages::block_message::BlockMessage;
use btc_node::messages::get_block_headers_message::GetBlockHeadersMessage;
use btc_node::messages::get_data_message::GetDataMessage;
use btc_node::messages::header_message::HeaderMessage;
use btc_node::messages::inv_message::{Entry, InvMessage};
use btc_node::messages::message::Message;
use btc_node::messages::not_found_message::NotFoundMessage;
use btc_node::messages::ping_pong_messages::{PingMessage, PongMessage};
use btc_node::messages::tx_message::TxMessage;
use btc_node::messages::verack_message::VerACKMessage;
use btc_node::messages::version_message::{ipv4_to_ipv6_mapped, VersionMessage, NODE_NETWORK};
use btc_node::transaction::Transaction;
use btc_node::var_len_int::VarLenInt;

fn double_hash(data: &[u8]) -> [u8; 32] {
    let h = <bitcoin_hashes::sha256d::Hash as bitcoin_hashes::Hash>::hash(data);
    <bitcoin_hashes::sha256d::Hash as bitcoin_hashes::Hash>::to_byte_array(h)
}


const START_STRING_TEST_NET: [u8; 4] = [0x0b, 0x11, 0x09, 0x07];

fn empty_header_message_expected_bytes() -> Vec<u8> {
    let mut bytes_vector = Vec::new();
    bytes_vector.extend_from_slice(&START_STRING_TEST_NET);
    bytes_vector.extend_from_slice(&"verack\0\0\0\0\0\0".as_bytes());
    bytes_vector.extend_from_slice(&(0 as u32).to_le_bytes());
    bytes_vector.extend_from_slice([0x5d, 0xf6, 0xe0, 0xe2].as_slice());
    bytes_vector
}

fn non_empty_header_message_expected_bytes() -> Vec<u8> {
    let mut bytes_vector = Vec::new();
    bytes_vector.extend_from_slice(&START_STRING_TEST_NET);
    bytes_vector.extend_from_slice(&"n_empty\0\0\0\0\0".as_bytes());
    bytes_vector.extend_from_slice(&(4 as u32).to_le_bytes());
    bytes_vector.extend_from_slice([0x8d, 0xe4, 0x72, 0xe2].as_slice());
    bytes_vector
}

#[test]
fn header_message_test_1_to_bytes_empty_header_message() -> Result<(), MessageError> {
    let hm = HeaderMessage::new("verack\0\0\0\0\0\0", &Vec::new())?;

    let hm_bytes = hm.to_bytes();

    assert_eq!(hm_bytes, empty_header_message_expected_bytes());
    Ok(())
}

#[test]
fn header_message_test_2_to_bytes_non_empty_header_message() -> Result<(), MessageError> {
    let hm = HeaderMessage::new("n_empty\0\0\0\0\0", &vec![1, 2, 3, 4])?;

    let hm_bytes = hm.to_bytes();

    assert_eq!(hm_bytes, non_empty_header_message_expected_bytes());
    Ok(())
}

#[test]
fn header_message_test_4_from_bytes_empty_header_message() -> Result<(), MessageError> {
    let expected_hm = HeaderMessage::new("verack\0\0\0\0\0\0", &Vec::new())?;

    let hm = HeaderMessage::from_bytes(&expected_hm.to_bytes())?;

    assert_eq!(hm, expected_hm);
    Ok(())
}

#[test]
fn header_message_test_5_from_bytes_non_empty_header_message() -> Result<(), MessageError> {
    let expected_hm = HeaderMessage::new("version\0\0\0\0\0", &vec![1, 2, 3, 4])?;

    let hm = HeaderMessage::from_bytes(&expected_hm.to_bytes())?;

    assert_eq!(hm, expected_hm);
    Ok(())
}

#[test]
fn header_message_pads_short_names_and_refuses_long_ones() {
    let hm = HeaderMessage::new("verack", &Vec::new()).unwrap();
    assert_eq!(hm.to_bytes(), empty_header_message_expected_bytes());
    assert_eq!(hm.get_command_name(), "verack\0\0\0\0\0\0".to_string());
    assert_eq!(hm.get_payload_size(), 0);
    assert_eq!(
        HeaderMessage::new("thirteen_char", &Vec::new()),
        Err(MessageError::ErrorCreatingHeaderMessage)
    );
    assert_eq!(HeaderMessage::from_bytes(&[0u8; 23]), Err(MessageError::ErrorCreatingHeaderMessage));
    let mut bytes = empty_header_message_expected_bytes();
    bytes[4] = 0xff;
    let hm = HeaderMessage::from_bytes(&bytes).unwrap();
    assert_eq!(hm.get_command_name(), "\0\0\0\0\0\0\0\0\0\0\0\0".to_string());
}

#[test]
fn verack_message_test_2_to_bytes() -> Result<(), MessageError> {
    let verack_msg = VerACKMessage::new()?;

    let verack_msg_bytes = verack_msg.to_bytes();

    assert_eq!(verack_msg_bytes, Vec::<u8>::new());
    Ok(())
}

#[test]
fn verack_message_test_3_from_bytes_from_empty_slice() -> Result<(), MessageError> {
    let expected_verack_msg = VerACKMessage::new()?;

    let verack_msg = VerACKMessage::from_bytes(&expected_verack_msg.to_bytes())?;

    assert_eq!(verack_msg, expected_verack_msg);
    Ok(())
}

#[test]
fn verack_message_test_4_from_bytes_from_non_empty_slice() -> Result<(), MessageError> {
    let expected_verack_msg = VerACKMessage::new()?;
    let mut expected_bytes = expected_verack_msg.to_bytes();
    expected_bytes.extend(vec![1, 2, 3, 4]);

    let verack_msg = VerACKMessage::from_bytes(&expected_bytes).unwrap_err();

    assert_eq!(verack_msg, MessageError::ErrorCreatingVerAckMessage);
    Ok(())
}

#[test]
fn verack_header_is_the_empty_verack_header() {
    let hm = VerACKMessage::new().unwrap().get_header_message().unwrap();
    assert_eq!(hm.to_bytes(), empty_header_message_expected_bytes());
}

const LOCAL_HOST: [u8; 4] = [127, 0, 0, 1];
const LOCAL_PORT: u16 = 1001;

fn create_version_message() -> VersionMessage {
    VersionMessage::new(
        70015,
        ipv4_to_ipv6_mapped([127, 0, 0, 2]),
        8080,
        ipv4_to_ipv6_mapped(LOCAL_HOST),
        LOCAL_PORT,
    )
    .unwrap()
}

fn version_message_without_user_agent_expected_bytes(timestamp: i64, rand: u64) -> Vec<u8> {
    let mut bytes_vector = Vec::new();
    bytes_vector.extend_from_slice(&(70015 as i32).to_le_bytes());
    bytes_vector.extend_from_slice(&NODE_NETWORK.to_le_bytes());
    bytes_vector.extend_from_slice(&timestamp.to_le_bytes());
    bytes_vector.extend_from_slice(&(0 as u64).to_le_bytes());
    bytes_vector.extend_from_slice(&[0, 0, 0, 0, 0, 0, 0, 0, 0, 0, 255, 255, 127, 0, 0, 2]);
    bytes_vector.extend_from_slice(&(8080 as u16).to_be_bytes());
    bytes_vector.extend_from_slice(&(NODE_NETWORK as u64).to_le_bytes());
    bytes_vector.extend_from_slice(&[0, 0, 0, 0, 0, 0, 0, 0, 0, 0, 255, 255, 127, 0, 0, 1]);
    bytes_vector.extend_from_slice(&LOCAL_PORT.to_be_bytes());
    bytes_vector.extend_from_slice(&rand.to_le_bytes());
    bytes_vector.push(0 as u8);
    bytes_vector.extend_from_slice(&(0 as i32).to_le_bytes());
    bytes_vector.push(0x01);
    bytes_vector
}

fn version_message_with_user_agent_expected_bytes() -> Vec<u8> {
    let rand: u64 = 0x1122334455667788;
    let mut bytes_vector = Vec::new();
    bytes_vector.extend_from_slice(&(70015 as i32).to_le_bytes());
    bytes_vector.extend_from_slice(&NODE_NETWORK.to_le_bytes());
    bytes_vector.extend_from_slice(&(1681084800 as u64).to_le_bytes());
    bytes_vector.extend_from_slice(&(0 as u64).to_le_bytes());
    bytes_vector.extend_from_slice(&[0, 0, 0, 0, 0, 0, 0, 0, 0, 0, 255, 255, 127, 0, 0, 2]);
    bytes_vector.extend_from_slice(&(8080 as u16).to_be_bytes());
    bytes_vector.extend_from_slice(&(NODE_NETWORK as u64).to_le_bytes());
    bytes_vector.extend_from_slice(&[0, 0, 0, 0, 0, 0, 0, 0, 0, 0, 255, 255, 127, 0, 0, 1]);
    bytes_vector.extend_from_slice(&LOCAL_PORT.to_be_bytes());
    bytes_vector.extend_from_slice(&rand.to_le_bytes());
    bytes_vector.push(253 as u8);
    bytes_vector.extend_from_slice(&(4 as u16).to_le_bytes());
    bytes_vector.extend_from_slice(&"test".as_bytes());
    bytes_vector.extend_from_slice(&(0 as i32).to_le_bytes());
    bytes_vector.push(0x01);
    bytes_vector
}

#[test]
fn version_message_test_1_to_bytes_without_user_agent() -> Result<(), MessageError> {
    let version_msg = create_version_message();

    let version_msg_bytes = version_msg.to_bytes();

    assert_eq!(
        version_msg_bytes,
        version_message_without_user_agent_expected_bytes(version_msg.timestamp(), version_msg.nonce())
    );
    Ok(())
}

#[test]
fn version_message_test_2_to_bytes_with_user_agent() -> Result<(), MessageError> {
    let expected_bytes = version_message_with_user_agent_expected_bytes();
    let version_msg = VersionMessage::from_bytes(&expected_bytes)?;

    let version_msg_bytes = version_msg.to_bytes();

    assert_eq!(version_msg_bytes, expected_bytes);
    Ok(())
}

#[test]
fn version_message_test_4_from_bytes_without_user_agent() -> Result<(), MessageError> {
    let expected_version_msg = create_version_message();

    let version_msg = VersionMessage::from_bytes(&expected_version_msg.to_bytes())?;

    assert_eq!(version_msg, expected_version_msg);
    Ok(())
}

#[test]
fn version_message_test_5_from_bytes_with_user_agent() -> Result<(), MessageError> {
    let mut expected_version_msg = create_version_message();
    expected_version_msg.set_user_agent(VarLenInt::from_bytes(&[253, 4, 0]).unwrap(), Vec::from("test"));

    let version_msg = VersionMessage::from_bytes(&expected_version_msg.to_bytes())?;

    assert_eq!(version_msg, expected_version_msg);
    Ok(())
}

#[test]
fn version_message_from_too_few_bytes_is_an_error() {
    assert_eq!(VersionMessage::from_bytes(&[0u8; 85]), Err(MessageError::ErrorCreatingVersionMessage));
    let mut bytes = version_message_with_user_agent_expected_bytes();
    bytes.truncate(86);
    bytes[80] = 0xff;
    assert_eq!(VersionMessage::from_bytes(&bytes), Err(MessageError::ErrorCreatingVersionMessage));
}

#[test]
fn version_message_header_announces_its_payload() {
    let version_msg = create_version_message();
    let hm = version_msg.get_header_message().unwrap();
    let expected = HeaderMessage::new("version", &version_msg.to_bytes()).unwrap();
    assert_eq!(hm, expected);
    assert_eq!(hm.get_payload_size(), 86);
    assert_eq!(version_msg.version(), 70015);
}

fn get_block_headers_message_expected_bytes() -> Vec<u8> {
    let mut bytes_vector = Vec::new();
    bytes_vector.extend_from_slice(&(70015 as i32).to_le_bytes());
    bytes_vector.push(1 as u8);
    bytes_vector.extend_from_slice(&double_hash(b"test"));
    bytes_vector.extend_from_slice(&double_hash(b"test"));
    bytes_vector
}

#[test]
fn get_block_headers_message_test_1_to_bytes() -> Result<(), MessageError> {
    let expected_bytes = get_block_headers_message_expected_bytes();

    let mut vec_hash = Vec::new();
    let hash: [u8; 32] = double_hash(b"test");
    vec_hash.push(hash);

    let get_block_headers_msg = GetBlockHeadersMessage::new(70015, vec_hash, hash);

    let get_block_headers_msg = get_block_headers_msg.to_bytes();

    assert_eq!(get_block_headers_msg, expected_bytes);
    Ok(())
}

#[test]
fn get_block_headers_message_test_3_from_bytes() -> Result<(), MessageError> {
    let mut vec_hash = Vec::new();
    let hash: [u8; 32] = double_hash(b"test");
    vec_hash.push(hash);

    let expected_get_block_headers_msg = GetBlockHeadersMessage::new(70015, vec_hash, hash);

    let get_block_headers_msg =
        GetBlockHeadersMessage::from_bytes(&expected_get_block_headers_msg.to_bytes())?;

    assert_eq!(get_block_headers_msg, expected_get_block_headers_msg);
    Ok(())
}

#[test]
fn get_block_headers_message_with_a_wrong_count_is_an_error() {
    let mut bytes = get_block_headers_message_expected_bytes();
    bytes[4] = 2;
    assert_eq!(
        GetBlockHeadersMessage::from_bytes(&bytes),
        Err(MessageError::ErrorCreatingGetBlockHeadersMessage)
    );
    assert_eq!(
        GetBlockHeadersMessage::from_bytes(&bytes[..36]),
        Err(MessageError::ErrorCreatingGetBlockHeadersMessage)
    );
}

fn block_headers_message_expected_bytes(double_bytes_for_count: bool) -> (Vec<u8>, BlockHeader, BlockHeader) {
    let hash1: [u8; 32] = double_hash(b"test1");
    let hash2: [u8; 32] = double_hash(b"test2");
    let merkle_hash1: [u8; 32] = double_hash(b"test merkle root1");
    let merkle_hash2: [u8; 32] = double_hash(b"test merkle root2");

    let b_h1 = BlockHeader::new(70015, hash1, merkle_hash1, 0);
    let b_h2 = BlockHeader::new(70015, hash2, merkle_hash2, 0);

    let mut expected_bytes = Vec::new();
    if double_bytes_for_count {
        expected_bytes.push(253);
        expected_bytes.extend_from_slice(&(2 as u16).to_le_bytes());
    } else {
        expected_bytes.push(2);
    }

    expected_bytes.extend(b_h1.to_bytes());
    expected_bytes.push(0);
    expected_bytes.extend(b_h2.to_bytes());
    expected_bytes.push(0);

    (expected_bytes, b_h1, b_h2)
}

#[test]
fn block_headers_message_test_1_to_bytes() -> Result<(), MessageError> {
    let (expected_bytes, b_h1, b_h2) = block_headers_message_expected_bytes(false);
    let block_headers = vec![b_h1, b_h2];

    let block_headers_message = BlockHeadersMessage::new(block_headers);

    assert_eq!(block_headers_message.to_bytes(), expected_bytes);
    Ok(())
}

#[test]
fn block_headers_message_test_2_from_bytes() -> Result<(), MessageError> {
    let (expected_bytes, b_h1, b_h2) = block_headers_message_expected_bytes(false);
    let block_headers = vec![b_h1, b_h2];

    let expected_block_headers_message = BlockHeadersMessage::new(block_headers);

    let block_headers_message = BlockHeadersMessage::from_bytes(&expected_bytes)?;
    assert_eq!(block_headers_message, expected_block_headers_message);
    Ok(())
}

#[test]
fn block_headers_message_test_3_from_bytes_with_more_than_one_byte_in_coun() -> Result<(), MessageError> {
    let (expected_bytes, _b_h1, _b_h2) = block_headers_message_expected_bytes(true);

    let block_headers_message = BlockHeadersMessage::from_bytes(&expected_bytes)?;
    assert_eq!(block_headers_message.to_bytes(), expected_bytes);
    Ok(())
}

fn inv_message_expected_bytes(double_bytes_for_count: bool) -> (Vec<u8>, [u8; 32], [u8; 32]) {
    let hash1: [u8; 32] = double_hash(b"test1");
    let hash2: [u8; 32] = double_hash(b"test2");

    let mut expected_bytes = Vec::new();
    if double_bytes_for_count {
        expected_bytes.push(253);
        expected_bytes.extend_from_slice(&(2 as u16).to_le_bytes());
    } else {
        expected_bytes.push(2);
    }
    expected_bytes.extend(Entry::as_block_entry(hash1).to_bytes());
    expected_bytes.extend(Entry::as_block_entry(hash2).to_bytes());
    (expected_bytes, hash1, hash2)
}

#[test]
fn inv_test1_to_bytes() -> Result<(), MessageError> {
    let (expected_bytes, hash1, hash2) = inv_message_expected_bytes(false);

    let hashes = vec![Entry::as_block_entry(hash1), Entry::as_block_entry(hash2)];

    let block_headers_message = InvMessage::new(hashes);

    assert_eq!(block_headers_message.to_bytes(), expected_bytes);
    Ok(())
}

#[test]
fn inv_test2_cant_create_from_an_incorrect_ammount_of_bytes() {
    let (mut expected_bytes, _hash1, _hash2) = inv_message_expected_bytes(false);
    expected_bytes.push(0);

    InvMessage::from_bytes(&expected_bytes).unwrap_err();
}

#[test]
fn inv_test3_message_is_created_properly_from_correct_amount_of_bytes() -> Result<(), MessageError> {
    let (expected_bytes, _hash1, _hash2) = inv_message_expected_bytes(false);
    let inv_message = InvMessage::from_bytes(&expected_bytes)?;

    assert_eq!(inv_message.to_bytes(), expected_bytes);
    Ok(())
}

#[test]
fn inventory_hashes_come_back_by_type() {
    let h1 = [1u8; 32];
    let h2 = [2u8; 32];
    let h3 = [3u8; 32];
    let inv = InvMessage::new(vec![
        Entry::as_block_entry(h1),
        Entry::as_transaction_entry(h2),
        Entry::as_block_entry(h3),
    ]);
    assert_eq!(inv.get_block_hashes(), vec![h1, h3]);
    assert_eq!(inv.get_transaction_hashes(), vec![h2]);
    let blocks = InvMessage::create_message_inventory_block_type(vec![h1, h2]);
    assert_eq!(blocks.get_block_hashes(), vec![h1, h2]);
    assert!(blocks.get_transaction_hashes().is_empty());
    let bytes = blocks.to_bytes();
    assert_eq!(bytes.len(), 1 + 2 * 36);
    assert_eq!(&bytes[1..5], &[2, 0, 0, 0]);
    let txs = InvMessage::create_message_inventory_transaction_type(vec![h3]);
    assert_eq!(&txs.to_bytes()[1..5], &[1, 0, 0, 0]);
}

#[test]
fn get_data_and_not_found_messages_carry_inventories() {
    let h1 = [7u8; 32];
    let get_data = GetDataMessage::create_message_inventory_block_type(vec![h1]);
    let bytes = get_data.to_bytes();
    let parsed = GetDataMessage::from_bytes(&bytes).unwrap();
    assert_eq!(parsed.get_block_hashes(), vec![h1]);
    let get_tx = GetDataMessage::create_message_inventory_transaction_type(vec![h1]);
    assert_eq!(get_tx.get_transaction_hashes(), vec![h1]);
    assert!(GetDataMessage::from_bytes(&[3]).is_err());
    let not_found = NotFoundMessage::from_block_hashes(vec![h1]);
    assert_eq!(not_found.to_bytes(), bytes);
    assert_eq!(NotFoundMessage::from_bytes(&bytes).unwrap().get_block_hashes(), vec![h1]);
    assert_eq!(NotFoundMessage::from_bytes(&[]).err(), Some(MessageError::ErrorCreatingNotFoundMessage));
    let hm = get_data.get_header_message().unwrap();
    assert_eq!(hm.get_command_name(), "getdata\0\0\0\0\0".to_string());
}

#[test]
fn ping_is_answered_with_its_nonce() {
    let ping = PingMessage::from_bytes(&[1, 2, 3, 4, 5, 6, 7, 8]).unwrap();
    assert_eq!(ping.to_bytes(), vec![1, 2, 3, 4, 5, 6, 7, 8]);
    let pong = ping.reply_pong();
    assert_eq!(pong.to_bytes(), vec![1, 2, 3, 4, 5, 6, 7, 8]);
    assert!(PingMessage::from_bytes(&[1, 2, 3]).is_err());
    assert_eq!(
        PingMessage::from_bytes(&[1, 2, 3, 4, 5, 6, 7, 8, 9]).err(),
        Some(MessageError::ErrorCreatingPingMessage)
    );
    assert_eq!(PongMessage::from_bytes(&[0; 9]).err(), Some(MessageError::ErrorCreatingPongMessage));
    assert_eq!(PongMessage::from_bytes(&[0; 7]).err(), Some(MessageError::ErrorCreatingPongMessage));
    assert_eq!(PongMessage::from([9; 8]).to_bytes(), vec![9; 8]);
}

#[test]
fn tx_and_block_messages_carry_their_payload() {
    let tx = Transaction::new(1, vec![], vec![], 5);
    let bytes = tx.to_bytes();
    let msg = TxMessage::new(tx);
    assert_eq!(msg.to_bytes(), bytes);
    assert_eq!(TxMessage::from_bytes(&bytes).unwrap().tx.to_bytes(), bytes);
    assert_eq!(TxMessage::from_bytes(&[0; 3]).err(), Some(MessageError::ErrorCreatingBlockMessage));

    let header = BlockHeader::new(1, [0; 32], [0; 32], 0);
    let block = Block::new(header, vec![Transaction::new(1, vec![], vec![], 5)]);
    let block_message = BlockMessage::from(&block).unwrap();
    assert_eq!(block_message.to_bytes(), block.to_bytes());
    assert_eq!(BlockMessage::from_bytes(&[0; 10]).err(), Some(MessageError::ErrorCreatingBlockMessage));
}

#[test]
fn messages_are_told_apart_by_command_name() {
    let ping = Message::from_bytes(vec![1; 8], "ping\0\0\0\0\0\0\0\0".to_string()).unwrap();
    assert!(matches!(ping, Message::Ping(_)));
    let verack = Message::from_bytes(vec![], "verack\0\0\0\0\0\0".to_string()).unwrap();
    assert!(matches!(verack, Message::VerACK(_)));
    let unknown = Message::from_bytes(vec![1, 2], "sendcmpct\0\0\0".to_string()).unwrap();
    assert!(matches!(unknown, Message::UnknownMessage));
    let bad = Message::from_bytes(vec![1, 2], "verack\0\0\0\0\0\0".to_string());
    assert!(matches!(bad, Err(MessageError::ErrorCreatingVerAckMessage)));
    let (inv_bytes, _, _) = inv_message_expected_bytes(false);
    let inv = Message::from_bytes(inv_bytes, "inv\0\0\0\0\0\0\0\0\0".to_string()).unwrap();
    assert!(matches!(inv, Message::Inv(_)));
}

fn get_block_headers_message_for_test() -> GetBlockHeadersMessage {
    let hash: [u8; 32] = double_hash(b"test");
    let mut vec_hash = Vec::new();
    vec_hash.push(hash);
    GetBlockHeadersMessage::new(70015, vec_hash, hash)
}

#[test]
fn test_to_bytes_2_empty_header_message() -> Result<(), MessageError> {
    let header_message = HeaderMessage::new("verack\0\0\0\0\0\0", &Vec::new())?;

    let header_message_bytes = header_message.to_bytes();

    assert_eq!(header_message_bytes, empty_header_message_expected_bytes());
    Ok(())
}

#[test]
fn test_to_bytes_3_non_empty_header_message() -> Result<(), MessageError> {
    let header_message = HeaderMessage::new("n_empty\0\0\0\0\0", &vec![1, 2, 3, 4])?;

    let header_message_bytes = header_message.to_bytes();

    assert_eq!(header_message_bytes, non_empty_header_message_expected_bytes());
    Ok(())
}

#[test]
fn test_to_bytes_4_verack_message() -> Result<(), MessageError> {
    let verack_message = VerACKMessage::new()?;

    let verack_message_bytes = verack_message.to_bytes();

    assert_eq!(verack_message_bytes, Vec::<u8>::new());
    Ok(())
}

#[test]
fn messages_test_to_bytes_6_get_block_headers_message() -> Result<(), MessageError> {
    let expected_bytes = get_block_headers_message_expected_bytes();
    let get_block_headers_message = get_block_headers_message_for_test();

    assert_eq!(get_block_headers_message.to_bytes(), expected_bytes);
    Ok(())
}

#[test]
fn get_block_headers_message_test_to_bytes_6_get_block_headers_message() -> Result<(), MessageError> {
    let expected_bytes = get_block_headers_message_expected_bytes();
    let get_block_headers_msg = get_block_headers_message_for_test();

    assert_eq!(get_block_headers_msg.to_bytes(), expected_bytes);
    Ok(())
}

#[test]
fn test_from_bytes_3_empty_header_message() -> Result<(), MessageError> {
    let expected_header_message = HeaderMessage::new("verack\0\0\0\0\0\0", &Vec::new())?;

    let header_message = HeaderMessage::from_bytes(&expected_header_message.to_bytes())?;

    assert_eq!(header_message, expected_header_message);
    Ok(())
}

#[test]
fn test_from_bytes_4_non_empty_header_message() -> Result<(), MessageError> {
    let expected_header_message = HeaderMessage::new("version\0\0\0\0\0", &vec![1, 2, 3, 4])?;

    let header_message = HeaderMessage::from_bytes(&expected_header_message.to_bytes())?;

    assert_eq!(header_message, expected_header_message);
    Ok(())
}

#[test]
fn test_from_bytes_5_verack_message_from_empty_slice() -> Result<(), MessageError> {
    let expected_verack_message = VerACKMessage::new()?;

    let verack_message = VerACKMessage::from_bytes(&expected_verack_message.to_bytes())?;

    assert_eq!(verack_message, expected_verack_message);
    Ok(())
}

#[test]
fn test_from_bytes_6_verack_message_from_non_empty_slice() -> Result<(), MessageError> {
    let expected_verack_message = VerACKMessage::new()?;
    let mut expected_bytes = expected_verack_message.to_bytes();
    expected_bytes.extend(vec![1, 2, 3, 4]);

    let verack_message = VerACKMessage::from_bytes(&expected_bytes).unwrap_err();

    assert_eq!(verack_message, MessageError::ErrorCreatingVerAckMessage);
    Ok(())
}

#[test]
fn messages_test_from_bytes_7_get_block_headers_message() -> Result<(), MessageError> {
    let expected_get_block_headers_message = get_block_headers_message_for_test();

    let get_block_headers_message =
        GetBlockHeadersMessage::from_bytes(&expected_get_block_headers_message.to_bytes())?;

    assert_eq!(get_block_headers_message, expected_get_block_headers_message);
    Ok(())
}

#[test]
fn get_block_headers_message_test_from_bytes_7_get_block_headers_message() -> Result<(), MessageError> {
    let expected_get_block_headers_msg = get_block_headers_message_for_test();

    let get_block_headers_msg =
        GetBlockHeadersMessage::from_bytes(&expected_get_block_headers_msg.to_bytes())?;

    assert_eq!(get_block_headers_msg, expected_get_block_headers_msg);
    Ok(())
}

#[test]
fn test_to_bytes_5_version_message_with_user_agent() -> Result<(), MessageError> {
    let rand: u64 = rand::random();
    let now = chrono::Utc::now().timestamp() as u64;
    let mut expected_bytes = version_message_with_user_agent_expected_bytes();
    expected_bytes[12..20].copy_from_slice(&now.to_le_bytes());
    expected_bytes[72..80].copy_from_slice(&rand.to_le_bytes());
    let version_message = VersionMessage::from_bytes(&expected_bytes)?;

    let version_message_bytes = version_message.to_bytes();

    assert_eq!(version_message_bytes, expected_bytes);
    Ok(())
}
