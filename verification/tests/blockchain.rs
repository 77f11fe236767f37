use btc_node::block_proofs::{validate_block_proof_of_inclusion, validate_proof_of_work};
use btc_node::blockchain::{Block, BlockHeader};
use btc_node::errors::BlockChainError;
use btc_node::transaction::Transaction;

fn double_hash(data: &[u8]) -> [u8; 32] {
    let h = <bitcoin_hashes::sha256d::Hash as bitcoin_hashes::Hash>::hash(data);
    <bitcoin_hashes::sha256d::Hash as bitcoin_hashes::Hash>::to_byte_array(h)
}


fn block_header_expected_bytes() -> Vec<u8> {
    let mut bytes_vector = Vec::new();
    bytes_vector.extend_from_slice(&(70015 as i32).to_le_bytes());
    bytes_vector.extend_from_slice(&double_hash(b"test"));
    bytes_vector.extend_from_slice(&double_hash(b"test merkle root"));
    bytes_vector.extend_from_slice(&(0 as u32).to_le_bytes());
    bytes_vector.extend_from_slice(&(0x30c31b18 as u32).to_be_bytes());
    bytes_vector.extend_from_slice(&(14082023 as u32).to_le_bytes());
    bytes_vector
}

fn block_expected_bytes() -> Vec<u8> {
    let mut expected_bytes = block_header_expected_bytes();
    expected_bytes.push(2);
    let t1 = Transaction::new(70015, Vec::new(), Vec::new(), 123);
    let t2 = Transaction::new(70015, Vec::new(), Vec::new(), 123);
    expected_bytes.extend(t1.to_bytes());
    expected_bytes.extend(t2.to_bytes());
    expected_bytes
}

fn test_header() -> BlockHeader {
    BlockHeader {
        version: 70015,
        prev_hash: double_hash(b"test"),
        merkle_root_hash: double_hash(b"test merkle root"),
        time: 0,
        n_bits: 0x30c31b18,
        nonce: 14082023,
    }
}

#[test]
fn blockchain_test_blockheader_1_to_bytes() {
    let block_header = test_header();

    assert_eq!(block_header_expected_bytes(), block_header.to_bytes());
}

#[test]
fn blockchain_test_blockheader_2_from_bytes() {
    let block_header_bytes = block_header_expected_bytes();
    let block_header = BlockHeader::from_bytes(&block_header_bytes).unwrap();

    assert_eq!(block_header.to_bytes(), block_header_bytes);
}

#[test]
fn blockchain_test_block_1_to_bytes() {
    let header = test_header();
    let t1 = Transaction::new(70015, Vec::new(), Vec::new(), 123);
    let t2 = Transaction::new(70015, Vec::new(), Vec::new(), 123);

    let block = Block::new(header, vec![t1, t2]);

    assert_eq!(block_expected_bytes(), block.to_bytes());
}

#[test]
fn blockchain_test_block2_from_bytes() {
    let expected_block_bytes = block_expected_bytes();
    let block_header = Block::from_bytes(&expected_block_bytes).unwrap();

    assert_eq!(block_header.to_bytes(), expected_block_bytes);
}

#[test]
fn block_header_from_the_wrong_number_of_bytes_is_an_error() {
    let mut bytes = block_header_expected_bytes();
    bytes.push(0);
    assert_eq!(BlockHeader::from_bytes(&bytes), Err(BlockChainError::ErrorCreatingBlockHeader));
}

#[test]
fn block_with_a_missing_transaction_is_an_error() {
    let mut bytes = block_expected_bytes();
    bytes.truncate(bytes.len() - 1);
    assert!(Block::from_bytes(&bytes).is_err());
    assert!(Block::from_bytes(&block_header_expected_bytes()).is_err());
}

#[test]
fn block_accessors() {
    let block = Block::from_bytes(&block_expected_bytes()).unwrap();
    assert_eq!(block.amount_of_bytes(), block_expected_bytes().len());
    assert_eq!(block.time(), 0);
    assert_eq!(block.get_header(), test_header());
    assert_eq!(block.get_transactions().len(), 2);
    assert_eq!(block.header_hash(), test_header().hash());
    let expected = double_hash(&test_header().to_bytes());
    assert_eq!(test_header().hash(), expected);
    assert_eq!(test_header().get_n_bits(), 0x30c31b18);
    assert_eq!(*test_header().get_merkle_root(), double_hash(b"test merkle root"));
}

const VALID_HEADER_BYTES: [u8; 80] = [
    0, 128, 154, 33, 97, 0, 155, 57, 119, 6, 109, 83, 36, 160, 202, 81, 110, 211, 12, 33, 242, 251,
    163, 225, 189, 198, 99, 91, 39, 0, 0, 0, 0, 0, 0, 0, 81, 36, 107, 173, 77, 174, 133, 197, 186, 33,
    40, 129, 186, 247, 243, 121, 96, 34, 123, 34, 217, 248, 194, 216, 2, 183, 11, 96, 57, 6, 158,
    34, 104, 145, 103, 100, 140, 202, 39, 25, 74, 168, 232, 213,
];

fn get_transactions(lock_time: u32) -> Transaction {
    Transaction::new(70015, Vec::new(), Vec::new(), lock_time)
}

fn get_merkle_root(transactions: &Vec<Transaction>) -> [u8; 32] {
    let mut first_joined_hashes = Vec::from(transactions[0].hash());
    first_joined_hashes.extend(transactions[1].hash());
    let first_hash = double_hash(&first_joined_hashes.as_slice());

    let mut second_joined_hashes = Vec::from(transactions[2].hash());
    second_joined_hashes.extend(transactions[2].hash());
    let second_hash = double_hash(&second_joined_hashes.as_slice());

    let mut final_joined_hashes = Vec::from(first_hash);
    final_joined_hashes.extend(second_hash);
    double_hash(&&final_joined_hashes.as_slice())
}

fn get_block(valid: bool) -> Block {
    let mut transactions = Vec::new();
    for i in 0..3 {
        transactions.push(get_transactions(i));
    }
    let header: BlockHeader;
    if valid {
        header = BlockHeader::new(70015, [0u8; 32], get_merkle_root(&transactions), 0);
    } else {
        header = BlockHeader::new(70015, [0u8; 32], [0u8; 32], 0);
    }
    Block::new(header, transactions)
}

#[test]
fn proof_proof_of_work_test_1_invalid_block_header() {
    let hash: [u8; 32] = double_hash(b"test");
    let merkle_hash: [u8; 32] = double_hash(b"test merkle root");
    let block_header = BlockHeader::new(70015, hash, merkle_hash, 0);
    assert!(!validate_proof_of_work(&block_header));
}

#[test]
fn proof_of_work_test_2_valid_block_header() {
    let header = BlockHeader::from_bytes(&VALID_HEADER_BYTES).unwrap();
    assert!(validate_proof_of_work(&header))
}

#[test]
fn proof_of_inclusion_test_1_invalidad_merkle_root() {
    let block = get_block(false);
    assert!(!validate_block_proof_of_inclusion(&block))
}

#[test]
fn proof_of_inclusion_test_1_validad_merkle_root() {
    let block = get_block(true);
    assert!(validate_block_proof_of_inclusion(&block))
}
