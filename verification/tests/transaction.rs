use btc_node::errors::TransactionError;
use btc_node::transaction::{Outpoint, Transaction, TxIn, TxOut};
use btc_node::var_len_int::VarLenInt;

fn double_hash(data: &[u8]) -> [u8; 32] {
    let h = <bitcoin_hashes::sha256d::Hash as bitcoin_hashes::Hash>::hash(data);
    <bitcoin_hashes::sha256d::Hash as bitcoin_hashes::Hash>::to_byte_array(h)
}


fn outpoint_32_byte_array() -> [u8; 32] {
    [
        0, 1, 2, 3, 4, 5, 6, 7, 8, 9, 10, 11, 12, 13, 14, 15, 16, 17, 18, 19, 20, 21, 22, 23, 24,
        25, 26, 27, 28, 29, 30, 31,
    ]
}

fn tx_in_expected_bytes() -> Vec<u8> {
    let mut bytes_vector: Vec<u8> = Vec::new();
    let outpoint = Outpoint::new(outpoint_32_byte_array(), 4);
    bytes_vector.extend_from_slice(&outpoint.to_bytes());
    bytes_vector.extend_from_slice(&VarLenInt::new(5).to_bytes());
    bytes_vector.extend_from_slice(&[1, 2, 3, 4, 5]);
    bytes_vector.extend_from_slice(&(123 as u32).to_le_bytes());
    bytes_vector
}

fn tx_out_expected_bytes() -> Vec<u8> {
    let mut bytes_vector: Vec<u8> = Vec::new();
    bytes_vector.extend((5 as i64).to_le_bytes());
    bytes_vector.extend(VarLenInt::new(5).to_bytes());
    bytes_vector.extend([1, 2, 3, 4, 5]);
    bytes_vector
}

fn transaction_expected_bytes_with_tx_in_and_tx_out() -> (Vec<u8>, Vec<TxIn>, Vec<TxOut>) {
    let mut bytes_vector: Vec<u8> = Vec::new();
    bytes_vector.extend((70015 as i32).to_le_bytes());

    bytes_vector.extend(VarLenInt::new(2).to_bytes());
    let outpoint1 = Outpoint::new(outpoint_32_byte_array(), 4);
    let outpoint2 = Outpoint::new(outpoint_32_byte_array(), 4);
    let tx_in1 = TxIn::new(outpoint1, vec![1, 2, 3], 123);
    let tx_in2 = TxIn::new(outpoint2, vec![4, 5, 6], 456);
    bytes_vector.extend(tx_in1.to_bytes());
    bytes_vector.extend(tx_in2.to_bytes());

    bytes_vector.extend(VarLenInt::new(2).to_bytes());
    let tx_out1 = TxOut::new(1, vec![1, 2, 3]);
    let tx_out2 = TxOut::new(2, vec![4, 5, 6]);
    bytes_vector.extend(tx_out1.to_bytes());
    bytes_vector.extend(tx_out2.to_bytes());

    bytes_vector.extend((15 as u32).to_le_bytes());

    (bytes_vector, vec![tx_in1, tx_in2], vec![tx_out1, tx_out2])
}

fn transaction_expected_bytes_without_tx_in_and_tx_out() -> Vec<u8> {
    let mut bytes_vector: Vec<u8> = Vec::new();
    bytes_vector.extend((70015 as i32).to_le_bytes());
    bytes_vector.extend(VarLenInt::new(0).to_bytes());
    bytes_vector.extend(VarLenInt::new(0).to_bytes());
    bytes_vector.extend((0 as u32).to_le_bytes());
    bytes_vector
}

#[test]
fn transaction_tx_in_test_1_to_bytes() {
    let tx_in = TxIn::new(Outpoint::new(outpoint_32_byte_array(), 4), vec![1, 2, 3, 4, 5], 123);
    let tx_in_bytes = tx_in.to_bytes();
    let tx_in_expected_bytes = tx_in_expected_bytes();
    assert_eq!(tx_in_bytes, tx_in_expected_bytes);
}

#[test]
fn transaction_tx_test_2_from_bytes() {
    let tx_in = TxIn::new(Outpoint::new(outpoint_32_byte_array(), 4), vec![1, 2, 3, 4, 5], 123);
    let tx_in_bytes = tx_in.to_bytes();
    let tx_in_from_bytes = TxIn::from_bytes(&tx_in_bytes).unwrap();
    assert_eq!(tx_in, tx_in_from_bytes);
}

#[test]
fn transaction_tx_out_test_1_to_bytes() {
    let tx_out = TxOut::new(5, vec![1, 2, 3, 4, 5]);

    assert_eq!(tx_out.to_bytes(), tx_out_expected_bytes());
}

#[test]
fn transaction_tx_out_test_2_from_bytes() -> Result<(), TransactionError> {
    let expected_tx_out = TxOut::new(5, vec![1, 2, 3, 4, 5]);

    let tx_out = TxOut::from_bytes(&expected_tx_out.to_bytes())?;

    assert_eq!(expected_tx_out, tx_out);
    Ok(())
}

#[test]
fn transaction_transaction_test_1_to_bytes_without_tx_in_and_tx_out() {
    let transaction = Transaction::new(70015, vec![], vec![], 0);
    let transaction_bytes = transaction.to_bytes();
    let transaction_expected_bytes = transaction_expected_bytes_without_tx_in_and_tx_out();
    assert_eq!(transaction_bytes, transaction_expected_bytes);
}

#[test]
fn transaction_transaction_test_2_to_bytes_with_tx_in_and_tx_out() {
    let (transaction_expected_bytes, tx_in, tx_out) =
        transaction_expected_bytes_with_tx_in_and_tx_out();
    let transaction = Transaction::new(70015, tx_in, tx_out, 15);
    let transaction_bytes = transaction.to_bytes();
    assert_eq!(transaction_bytes, transaction_expected_bytes);
}

#[test]
fn transaction_transaction_test_3_from_bytes_without_tx_in_and_tx_out() -> Result<(), TransactionError> {
    let transaction_bytes = transaction_expected_bytes_without_tx_in_and_tx_out();

    let transaction = Transaction::from_bytes(&transaction_bytes)?;

    assert_eq!(transaction_bytes, transaction.to_bytes());
    Ok(())
}

#[test]
fn transaction_transaction_test_4_from_bytes_with_tx_in_and_tx_out() -> Result<(), TransactionError> {
    let (transaction_bytes, _tx_in, _tx_out) = transaction_expected_bytes_with_tx_in_and_tx_out();

    let transaction = Transaction::from_bytes(&transaction_bytes)?;

    assert_eq!(transaction_bytes, transaction.to_bytes());
    Ok(())
}

#[test]
fn outpoint_round_trips_through_its_bytes() {
    let outpoint = Outpoint::new(outpoint_32_byte_array(), 0x01020304);
    let bytes = outpoint.to_bytes();
    assert_eq!(bytes.len(), 36);
    assert_eq!(&bytes[32..], &[4, 3, 2, 1]);
    assert_eq!(Outpoint::from_bytes(&bytes).unwrap(), outpoint);
}

#[test]
fn outpoint_from_the_wrong_number_of_bytes_is_an_error() {
    assert_eq!(
        Outpoint::from_bytes(&[0u8; 35]),
        Err(TransactionError::ErrorCreatingOutpointFromBytes)
    );
}

#[test]
fn tx_in_from_too_few_bytes_is_an_error() {
    assert_eq!(TxIn::from_bytes(&[0u8; 40]), Err(TransactionError::ErrorCreatingTxInFromBytes));
}

#[test]
fn tx_out_with_a_script_longer_than_the_bytes_is_an_error() {
    let mut bytes = (7 as i64).to_le_bytes().to_vec();
    bytes.push(10);
    bytes.extend([1, 2, 3]);
    assert_eq!(TxOut::from_bytes(&bytes), Err(TransactionError::ErrorCreatingTxOutFromBytes));
}

#[test]
fn transaction_from_too_few_bytes_is_an_error() {
    assert_eq!(
        Transaction::from_bytes(&[0u8; 9]),
        Err(TransactionError::ErrorCreatingTxInFromBytes)
    );
}

#[test]
fn transaction_read_from_bytes_followed_by_more_bytes_ignores_them() {
    let (mut bytes, _tx_in, _tx_out) = transaction_expected_bytes_with_tx_in_and_tx_out();
    let written = bytes.clone();
    bytes.extend([9, 9, 9]);
    let transaction = Transaction::from_bytes(&bytes).unwrap();
    assert_eq!(transaction.to_bytes(), written);
    assert_eq!(transaction.amount_of_bytes(), written.len());
}

#[test]
fn transaction_hash_is_the_double_sha256_of_its_bytes() {
        let transaction = Transaction::new(70015, vec![], vec![], 0);
    let expected = double_hash(&transaction.to_bytes());
    assert_eq!(transaction.hash(), expected);
    assert_ne!(transaction.hash(), Transaction::new(70015, vec![], vec![], 1).hash());
}
