use parity_scale_codec::{Decode, Encode};
use rust_node::blockchain::Transaction;
use rust_node::database::{
    current_block_height_key, get_block_number, set_block_number, write_transaction, Put,
};
use std::collections::HashMap;

fn apply(store: &mut HashMap<Vec<u8>, Vec<u8>>, put: Put) {
    store.insert(put.key, put.value);
}

#[test]
fn test_db_open() {
    let mut store: HashMap<Vec<u8>, Vec<u8>> = HashMap::new();
    let height_key = current_block_height_key();
    let block_number = get_block_number(store.get(&height_key));
    assert_eq!(block_number, 0);
    apply(&mut store, set_block_number(100));
    assert_eq!(get_block_number(store.get(&height_key)), 100);
    let key = b"key";
    let value = b"value";
    apply(&mut store, Put { key: key.to_vec(), value: value.to_vec() });
    assert_eq!(store.get(&key.to_vec()).unwrap(), &value.to_vec());

    let data = ("a".to_string(), 10i64);
    apply(&mut store, Put { key: key.to_vec(), value: data.encode() });
    let decoded_data = store.get(&key.to_vec()).unwrap();
    let result: (String, i64) = Decode::decode(&mut decoded_data.as_slice()).unwrap();
    assert_eq!(result.1, 10);
}

#[test]
fn the_height_key_is_the_text_itself() {
    assert_eq!(current_block_height_key(), b"current block height".to_vec());
}

#[test]
fn an_absent_height_is_zero() {
    assert_eq!(get_block_number(None), 0);
}

#[test]
fn a_height_that_does_not_decode_is_zero() {
    assert_eq!(get_block_number(Some(&Vec::new())), 0);
    assert_eq!(get_block_number(Some(&vec![1, 2, 3, 4, 5, 6, 7])), 0);
}

#[test]
fn a_height_is_eight_bytes_little_endian() {
    let put = set_block_number(0x0102_0304_0506_0708);
    assert_eq!(put.key, current_block_height_key());
    assert_eq!(put.value, vec![8, 7, 6, 5, 4, 3, 2, 1]);
    assert_eq!(get_block_number(Some(&put.value)), 0x0102_0304_0506_0708);
    assert_eq!(get_block_number(Some(&vec![1, 0, 0, 0, 0, 0, 0, 0])), 1);
    assert_eq!(get_block_number(Some(&vec![255; 8])), u64::MAX);
    assert_eq!(set_block_number(u64::MAX).value, vec![255; 8]);
}

#[test]
fn bytes_behind_a_stored_height_are_ignored() {
    assert_eq!(get_block_number(Some(&vec![2, 1, 0, 0, 0, 0, 0, 0, 9, 9])), 258);
}

#[test]
fn a_transaction_is_recorded_under_its_hash() {
    let tx = Transaction::new("alice".to_string(), "bob".to_string(), 10, 1, "hi".to_string());
    let put = write_transaction(&tx);
    assert_eq!(put.key, tx.hash());
    assert_eq!(put.value, tx.encode());
    assert_eq!(put.key.len(), 32);
    assert_eq!(Transaction::decode(&put.value), Ok(tx));
}

#[test]
fn recording_a_transaction_twice_writes_the_same() {
    let tx = Transaction::new("alice".to_string(), "bob".to_string(), 10, 1, "hi".to_string());
    let mut store: HashMap<Vec<u8>, Vec<u8>> = HashMap::new();
    apply(&mut store, write_transaction(&tx));
    let once = store.clone();
    apply(&mut store, write_transaction(&tx.clone()));
    assert_eq!(store, once);
    assert_eq!(store.len(), 1);
}
