use secp256k1::{ecdsa::Signature, Message, PublicKey, Secp256k1};
use btc_node::errors::{TransactionError, WalletError};
use btc_node::hex::{get_bytes_from_hex, get_hex_from_bytes, get_string_representation_from_bytes};
use btc_node::signing::{
    assemble_signature_script, create_tx_out_vector, get_pk_script, get_pk_script_from_pubkey,
};
use btc_node::transaction::{create_unsigned_tx_in_vector, Outpoint, Transaction, TxIn, TxOut};
use btc_node::ui_protocol::{TxInfo, WalletInfo};
use btc_node::wallet::Wallet;

const KEY_ONE_HEX: &str = "0000000000000000000000000000000000000000000000000000000000000001";
const KEY_ONE_WIF: &str = "KwDiBf89QgGbjEhKnhXJuH7LrciVrZi3qYjgd9M7rFU73sVHnoWn";
const KEY_ONE_PUB: &str = "0279BE667EF9DCBBAC55A06295CE870B07029BFCDB2DCE28D959F2815B16F81798";
const KEY_ONE_HASH: &str = "751E76E8199196D454941C45D1B3A323F1433BD6";

fn key_one_pub() -> [u8; 33] {
    get_bytes_from_hex(KEY_ONE_PUB.to_string()).unwrap().try_into().unwrap()
}

fn key_one_hash() -> [u8; 20] {
    get_bytes_from_hex(KEY_ONE_HASH.to_string()).unwrap().try_into().unwrap()
}

#[test]
fn hex_text_of_bytes() {
    assert_eq!(get_hex_from_bytes(&vec![0x0a, 0xff, 0x00]), "0AFF00".to_string());
    let mut bytes = vec![1, 2, 0xab];
    assert_eq!(get_string_representation_from_bytes(&mut bytes), "AB0201".to_string());
    assert_eq!(bytes, vec![0xab, 2, 1]);
}

#[test]
fn bytes_of_hex_text() {
    assert_eq!(get_bytes_from_hex("0aFF".to_string()), Some(vec![10, 255]));
    assert_eq!(get_bytes_from_hex("abc".to_string()), Some(vec![0xab, 0x0c]));
    assert_eq!(get_bytes_from_hex("+f".to_string()), Some(vec![15]));
    assert_eq!(get_bytes_from_hex("zz".to_string()), None);
    assert_eq!(get_bytes_from_hex("+".to_string()), None);
    assert_eq!(get_bytes_from_hex(String::new()), Some(vec![]));
    let bytes: Vec<u8> = (0..=255).collect();
    assert_eq!(get_bytes_from_hex(get_hex_from_bytes(&bytes)), Some(bytes));
}

#[test]
fn wallet_from_hex_and_base58_keys() {
    let from_hex = Wallet::from(KEY_ONE_HEX.to_string()).unwrap();
    assert_eq!(from_hex.pub_key, key_one_pub());
    assert_eq!(from_hex.get_pk_hash(), key_one_hash());
    assert_eq!(from_hex.balance, 0);
    let from_wif = Wallet::from(KEY_ONE_WIF.to_string()).unwrap();
    assert_eq!(from_wif.pub_key, key_one_pub());
    assert_eq!(from_wif.get_priv_key(), from_hex.get_priv_key());
}

#[test]
fn wallet_from_a_bad_key_is_an_error() {
    assert_eq!(Wallet::from("1234".to_string()).err(), Some(WalletError::ErrorHandlingPrivKey));
    let zero = "0".repeat(64);
    assert_eq!(Wallet::from(zero).err(), Some(WalletError::ErrorHandlingPrivKey));
    let not_hex = "g".repeat(64);
    assert_eq!(Wallet::from(not_hex).err(), Some(WalletError::ErrorHandlingPrivKey));
    let not_base58 = "0".repeat(52);
    assert_eq!(Wallet::from(not_base58).err(), Some(WalletError::ErrorHandlingPrivKey));
}

#[test]
fn p2pkh_outputs_belong_to_their_key_hash() {
    let script = get_pk_script(key_one_hash());
    assert_eq!(script[0], 0x76);
    assert_eq!(script[1], 0xa9);
    assert_eq!(script[2], 0x14);
    assert_eq!(&script[3..23], &key_one_hash());
    assert_eq!(script[23], 0x88);
    assert_eq!(script[24], 0xac);
    assert_eq!(get_pk_script_from_pubkey(key_one_pub()), script);
    let out = TxOut::new(10, script.to_vec());
    assert_eq!(out.pk_hash_under_p2pkh_protocol(), Some(key_one_hash()));
    assert!(out.belongs_to(key_one_hash()));
    assert!(!out.belongs_to([0; 20]));
    let other = TxOut::new(10, vec![1, 2, 3]);
    assert_eq!(other.pk_hash_under_p2pkh_protocol(), None);
    assert!(!other.belongs_to(key_one_hash()));
    let copy = out.clone();
    assert_eq!(copy, out);
}

#[test]
fn inputs_belong_to_the_key_they_carry() {
    let signature = vec![0x30; 71];
    let script = assemble_signature_script(signature.clone(), key_one_pub());
    assert_eq!(script.len(), 1 + 71 + 1 + 33);
    assert_eq!(script[0], 71);
    assert_eq!(script[72], 33);
    let tx_in = TxIn::new(Outpoint::new([0; 32], 0), script, 0xffffffff);
    assert!(tx_in.belongs_to(&key_one_pub()));
    let mut other_key = key_one_pub();
    other_key[0] = 0x03;
    assert!(!tx_in.belongs_to(&other_key));
    let unsigned = TxIn::create_unsigned_with(Outpoint::new([0; 32], 0));
    assert!(!unsigned.belongs_to(&key_one_pub()));
}

#[test]
fn created_transactions_are_signed_by_the_key() {
    let wallet = Wallet::from(KEY_ONE_HEX.to_string()).unwrap();
    let mut address = [0u8; 25];
    address[1..21].copy_from_slice(&[5u8; 20]);
    let outpoints = vec![Outpoint::new([1; 32], 0), Outpoint::new([2; 32], 3)];
    let tx = Transaction::create(
        1000,
        10,
        outpoints.clone(),
        5000,
        wallet.pub_key,
        wallet.get_priv_key(),
        address,
    )
    .unwrap();
    assert_eq!(tx.tx_out.len(), 2);
    assert_eq!(tx.tx_out[0].value, 1000);
    assert!(tx.tx_out[0].belongs_to([5u8; 20]));
    assert_eq!(tx.tx_out[1].value, 3990);
    assert!(tx.tx_out[1].belongs_to(wallet.get_pk_hash()));
    assert_eq!(tx.tx_in.len(), 2);

    let secp = Secp256k1::new();
    let key = PublicKey::from_slice(&wallet.pub_key).unwrap();
    for i in 0..2 {
        assert!(tx.tx_in[i].belongs_to(&wallet.pub_key));
        assert_eq!(*tx.tx_in[i].previous_output(), outpoints[i]);
        let script = tx.tx_in[i].signature_script().clone();
        let sig_len = script[0] as usize;
        let der = &script[1..sig_len];
        assert_eq!(script[sig_len], 0x01);
        let mut unsigned = Transaction::new(
            1,
            create_unsigned_tx_in_vector(outpoints.clone()),
            create_tx_out_vector(3990, 1000, wallet.pub_key, address),
            0,
        );
        unsigned.set_signature_script(i, get_pk_script_from_pubkey(wallet.pub_key).to_vec());
        let mut signed_bytes = unsigned.to_bytes();
        signed_bytes.extend([1, 0, 0, 0]);
        let message = Message::from_hashed_data::<bitcoin_hashes::sha256d::Hash>(&signed_bytes);
        let signature = Signature::from_der(der).unwrap();
        assert!(secp.verify_ecdsa(&message, &signature, &key).is_ok());
    }
}

#[test]
fn signing_with_an_invalid_key_is_an_error() {
    let tx = Transaction::create(1, 1, vec![Outpoint::new([1; 32], 0)], 5, [2; 33], [0; 32], [0; 25]);
    assert_eq!(tx.err(), Some(TransactionError::ErrorCreatingSignature));
    let no_inputs = Transaction::create(1, 1, vec![], 5, [2; 33], [0; 32], [0; 25]).unwrap();
    assert_eq!(no_inputs.tx_in.len(), 0);
}

#[test]
fn pending_transactions_keep_known_totals() {
    let mut wallet = Wallet::from(KEY_ONE_HEX.to_string()).unwrap();
    wallet.update_pending_tx(vec![TxInfo::new([1; 32], 0, 50), TxInfo::new([2; 32], 30, -20)]);
    assert_eq!(wallet.receiving_pending_balance, 30);
    assert_eq!(wallet.sending_pending_balance, 10);
    wallet.update_pending_tx(vec![TxInfo::new([2; 32], 0, 0), TxInfo::new([3; 32], 0, 7)]);
    assert_eq!(wallet.pending_tx, vec![TxInfo::new([2; 32], 30, -20), TxInfo::new([3; 32], 0, 7)]);
    assert_eq!(wallet.receiving_pending_balance, -13);
    assert_eq!(wallet.sending_pending_balance, 10);
    let info = WalletInfo::from(&wallet);
    assert_eq!(info.pending_tx.len(), 2);
    assert_eq!(info.available_balance, 0);
    assert_eq!(info.utxos.len(), 0);
}
