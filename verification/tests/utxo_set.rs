use btc_node::blockchain::{Block, BlockHeader};
use btc_node::errors::NodeError;
use btc_node::hash_store::HashStore;
use btc_node::signing::get_pk_script;
use btc_node::transaction::{Outpoint, Transaction, TxIn, TxOut};
use btc_node::utxo_set::{insert_new_utxo, outpoint_eq, update_utxo_set_with_transactions, UtxoSet};

fn pays_to(owner: u8, value: i64) -> TxOut {
    TxOut::new(value, get_pk_script([owner; 20]).to_vec())
}

fn outpoint(n: u8, index: u32) -> Outpoint {
    Outpoint::new([n; 32], index)
}

fn wallet_set() -> UtxoSet {
    let mut set = UtxoSet::new();
    set.insert(outpoint(1, 0), pays_to(7, 100));
    set.insert(outpoint(2, 0), pays_to(8, 500));
    set.insert(outpoint(3, 1), pays_to(7, 200));
    set.insert(outpoint(4, 0), pays_to(7, 300));
    set
}

#[test]
fn outpoints_are_equal_by_hash_and_index() {
    assert!(outpoint_eq(&outpoint(1, 2), &outpoint(1, 2)));
    assert!(!outpoint_eq(&outpoint(1, 2), &outpoint(1, 3)));
    assert!(!outpoint_eq(&outpoint(1, 2), &outpoint(2, 2)));
}

#[test]
fn a_read_gives_back_what_was_written() {
    let mut set = UtxoSet::new();
    assert_eq!(set.len(), 0);
    set.insert(outpoint(1, 0), pays_to(7, 100));
    set.insert(outpoint(1, 1), pays_to(7, 5));
    assert_eq!(set.get(&outpoint(1, 0)), Some(&pays_to(7, 100)));
    set.insert(outpoint(1, 0), pays_to(8, 1));
    assert_eq!(set.len(), 2);
    assert_eq!(set.get(&outpoint(1, 0)), Some(&pays_to(8, 1)));
    assert_eq!(set.remove(&outpoint(1, 0)), Some(pays_to(8, 1)));
    assert!(!set.contains_key(&outpoint(1, 0)));
    assert_eq!(set.remove(&outpoint(1, 0)), None);
    assert!(set.contains_key(&outpoint(1, 1)));
}

#[test]
fn the_balance_of_a_key_adds_up_its_outputs() {
    let set = wallet_set();
    let (utxos, balance) = set.get_utxo_balance([7; 20]);
    assert_eq!(balance, 600);
    assert_eq!(utxos, vec![(outpoint(1, 0), 100), (outpoint(3, 1), 200), (outpoint(4, 0), 300)]);
    let (none, zero) = set.get_utxo_balance([9; 20]);
    assert!(none.is_empty());
    assert_eq!(zero, 0);
}

#[test]
fn outputs_are_picked_until_the_amount_is_passed() {
    let set = wallet_set();
    assert_eq!(
        set.get_utxos_sum_up_to([7; 20], 150),
        Ok((vec![outpoint(1, 0), outpoint(3, 1)], 300))
    );
    assert_eq!(
        set.get_utxos_sum_up_to([7; 20], 600),
        Ok((vec![outpoint(1, 0), outpoint(3, 1), outpoint(4, 0)], 600))
    );
    assert_eq!(
        set.get_utxos_sum_up_to([7; 20], 100),
        Ok((vec![outpoint(1, 0), outpoint(3, 1)], 300))
    );
    assert_eq!(set.get_utxos_sum_up_to([7; 20], 99), Ok((vec![outpoint(1, 0)], 100)));
    assert_eq!(
        set.get_utxos_sum_up_to([7; 20], 601),
        Err(NodeError::ErrorNotEnoughSatoshis)
    );
    assert_eq!(
        set.get_utxos_sum_up_to([9; 20], 1),
        Err(NodeError::ErrorNotEnoughSatoshis)
    );
}

#[test]
fn a_new_output_is_stored_under_its_outpoint() {
    let mut set = UtxoSet::new();
    assert_eq!(insert_new_utxo([5; 32], &pays_to(7, 42), 3, &mut set), Ok(()));
    assert_eq!(set.get(&outpoint(5, 3)), Some(&pays_to(7, 42)));
}

#[test]
fn a_block_spends_and_creates_outputs() {
    let mut set = wallet_set();
    let spend = Transaction::new(
        1,
        vec![TxIn::new(outpoint(1, 0), vec![], 0xffffffff), TxIn::new(outpoint(2, 0), vec![], 0)],
        vec![pays_to(9, 550), pays_to(7, 40)],
        0,
    );
    let txid = spend.hash();
    let chained = Transaction::new(
        1,
        vec![TxIn::new(Outpoint::new(txid, 0), vec![], 0)],
        vec![pays_to(6, 549)],
        0,
    );
    let chained_id = chained.hash();
    let block = Block::new(BlockHeader::new(1, [0; 32], [0; 32], 0), vec![spend, chained]);
    assert_eq!(update_utxo_set_with_transactions(&block, &mut set), Ok(()));
    assert!(!set.contains_key(&outpoint(1, 0)));
    assert!(!set.contains_key(&outpoint(2, 0)));
    assert!(!set.contains_key(&Outpoint::new(txid, 0)));
    assert_eq!(set.get(&Outpoint::new(txid, 1)), Some(&pays_to(7, 40)));
    assert_eq!(set.get(&Outpoint::new(chained_id, 0)), Some(&pays_to(6, 549)));
    assert_eq!(set.get_utxo_balance([7; 20]).1, 540);
}

#[test]
fn the_hash_store_reads_back_the_last_write() {
    let mut store: HashStore<u32> = HashStore::new();
    assert!(!store.contains_key(&[1; 32]));
    store.insert([1; 32], 10);
    store.insert([2; 32], 20);
    store.insert([1; 32], 11);
    assert_eq!(store.get(&[1; 32]), Some(&11));
    assert_eq!(store.get(&[2; 32]), Some(&20));
    assert!(store.remove(&[1; 32]));
    assert!(!store.remove(&[1; 32]));
    assert_eq!(store.get(&[1; 32]), None);
    assert_eq!(store.get(&[3; 32]), None);
}
