use rust_node::blockchain::{Block, Transaction};
use rust_node::database::{current_block_height_key, get_block_number, set_block_number, Put};
use rust_node::error::NodeError;
use rust_node::node::{RustNode, Step, ROLLUP_SIZE};
use std::collections::HashMap;

type Store = HashMap<Vec<u8>, Vec<u8>>;

fn tx(sender: &str, nonce: u64, amount: u128) -> Transaction {
    Transaction::new(sender.to_string(), "carol".to_string(), amount, nonce, String::new())
}

/// Performs the writes that the node asks for until the operation is over.
fn finish(
    node: &mut RustNode,
    mut step: Step,
    store: &mut Store,
) -> Result<Option<Block>, NodeError> {
    loop {
        match step {
            Step::Write(put) => {
                store.insert(put.key, put.value);
                step = node.resume(true);
            }
            Step::Done(outcome) => return outcome,
        }
    }
}

fn accept(node: &mut RustNode, t: &Transaction, store: &mut Store) -> Option<Block> {
    let step = node.add_transaction(t);
    finish(node, step, store).unwrap()
}

fn cut(node: &mut RustNode, store: &mut Store) -> Block {
    let step = node.rollup();
    finish(node, step, store).unwrap().unwrap()
}

fn stored_height(store: &Store) -> u64 {
    get_block_number(store.get(&current_block_height_key()))
}

#[test]
fn the_threshold_is_two() {
    assert_eq!(ROLLUP_SIZE, 2);
}

#[test]
fn a_node_starts_at_zero_when_nothing_is_stored() {
    let node = RustNode::init(None);
    assert_eq!(node.block_number(), 0);
    assert_eq!(node.pool_len(), 0);
    assert!(node.is_idle());
}

#[test]
fn a_node_starts_at_the_stored_height() {
    let stored = set_block_number(41).value;
    let node = RustNode::init(Some(&stored));
    assert_eq!(node.block_number(), 41);
    let node = RustNode::init(Some(&vec![7]));
    assert_eq!(node.block_number(), 0);
}

#[test]
fn the_second_key_cuts_a_batch_of_both() {
    let mut store = Store::new();
    let mut node = RustNode::init(store.get(&current_block_height_key()));
    let a = tx("alice", 1, 10);
    let b = tx("bob", 1, 20);
    assert_eq!(accept(&mut node, &a, &mut store), None);
    assert_eq!(node.pool_len(), 1);
    assert_eq!(node.block_number(), 0);
    let batch = accept(&mut node, &b, &mut store).unwrap();
    assert_eq!(batch, Block { block_number: 0, transactions: vec![a, b] });
    assert_eq!(node.pool_len(), 0);
    assert_eq!(node.block_number(), 1);
    assert_eq!(stored_height(&store), 1);
}

#[test]
fn accepting_the_same_key_again_replaces_the_transaction() {
    let mut store = Store::new();
    let mut node = RustNode::init(None);
    assert_eq!(accept(&mut node, &tx("alice", 1, 10), &mut store), None);
    assert_eq!(accept(&mut node, &tx("alice", 1, 25), &mut store), None);
    assert_eq!(node.pool_len(), 1);
    let batch = cut(&mut node, &mut store);
    assert_eq!(batch, Block { block_number: 0, transactions: vec![tx("alice", 1, 25)] });
}

#[test]
fn no_batch_while_one_key_keeps_coming() {
    let mut store = Store::new();
    let mut node = RustNode::init(None);
    for amount in 0..20 {
        assert_eq!(accept(&mut node, &tx("alice", 1, amount), &mut store), None);
        assert_eq!(node.pool_len(), 1);
        assert_eq!(node.block_number(), 0);
    }
    assert_eq!(stored_height(&store), 0);
}

#[test]
fn the_batch_holds_the_latest_value_of_a_replaced_key() {
    let mut store = Store::new();
    let mut node = RustNode::init(None);
    accept(&mut node, &tx("alice", 1, 10), &mut store);
    accept(&mut node, &tx("alice", 1, 11), &mut store);
    let batch = accept(&mut node, &tx("alice", 2, 12), &mut store).unwrap();
    assert_eq!(batch.transactions, vec![tx("alice", 1, 11), tx("alice", 2, 12)]);
}

#[test]
fn every_accept_records_the_transaction_first() {
    let mut node = RustNode::init(None);
    let a = tx("alice", 1, 10);
    let step = node.add_transaction(&a);
    assert_eq!(step, Step::Write(Put { key: a.hash(), value: a.encode() }));
    assert!(!node.is_idle());
    assert_eq!(node.pool_len(), 0);
    assert_eq!(node.resume(true), Step::Done(Ok(None)));
    assert!(node.is_idle());
    assert_eq!(node.pool_len(), 1);
}

#[test]
fn a_failed_record_leaves_the_pool_alone() {
    let mut store = Store::new();
    let mut node = RustNode::init(None);
    accept(&mut node, &tx("alice", 1, 10), &mut store);
    let _ = node.add_transaction(&tx("bob", 1, 20));
    assert_eq!(node.resume(false), Step::Done(Err(NodeError::Storage)));
    assert!(node.is_idle());
    assert_eq!(node.pool_len(), 1);
    assert_eq!(node.block_number(), 0);
    let batch = cut(&mut node, &mut store);
    assert_eq!(batch.transactions, vec![tx("alice", 1, 10)]);
}

#[test]
fn a_failed_height_write_loses_the_batch_and_keeps_the_new_height() {
    let mut store = Store::new();
    let mut node = RustNode::init(None);
    accept(&mut node, &tx("alice", 1, 10), &mut store);
    let _ = node.add_transaction(&tx("bob", 1, 20));
    let step = node.resume(true);
    assert_eq!(step, Step::Write(set_block_number(1)));
    assert_eq!(node.resume(false), Step::Done(Err(NodeError::Storage)));
    assert!(node.is_idle());
    assert_eq!(node.block_number(), 1);
    assert_eq!(node.pool_len(), 0);
    assert_eq!(stored_height(&store), 0);
    let batch = cut(&mut node, &mut store);
    assert_eq!(batch, Block { block_number: 1, transactions: Vec::new() });
    assert_eq!(stored_height(&store), 2);
}

#[test]
fn a_rollup_of_an_empty_pool_gives_an_empty_batch() {
    let mut store = Store::new();
    let mut node = RustNode::init(None);
    assert_eq!(cut(&mut node, &mut store), Block { block_number: 0, transactions: Vec::new() });
    assert_eq!(cut(&mut node, &mut store), Block { block_number: 1, transactions: Vec::new() });
    assert_eq!(node.block_number(), 2);
    assert_eq!(stored_height(&store), 2);
}

#[test]
fn a_rollup_numbers_the_batch_before_the_height_goes_up() {
    let stored = set_block_number(7).value;
    let mut store = Store::new();
    let mut node = RustNode::init(Some(&stored));
    accept(&mut node, &tx("alice", 1, 10), &mut store);
    let step = node.rollup();
    assert_eq!(step, Step::Write(set_block_number(8)));
    assert_eq!(node.block_number(), 8);
    assert_eq!(node.pool_len(), 0);
    assert_eq!(
        node.resume(true),
        Step::Done(Ok(Some(Block { block_number: 7, transactions: vec![tx("alice", 1, 10)] })))
    );
}

#[test]
fn a_failed_rollup_write_is_a_storage_error() {
    let mut node = RustNode::init(None);
    let _ = node.rollup();
    assert_eq!(node.resume(false), Step::Done(Err(NodeError::Storage)));
    assert_eq!(node.block_number(), 1);
}

#[test]
fn resume_without_a_write_in_flight_does_nothing() {
    let mut node = RustNode::init(None);
    assert_eq!(node.resume(true), Step::Done(Ok(None)));
    assert_eq!(node.resume(false), Step::Done(Ok(None)));
    assert!(node.is_idle());
    assert_eq!(node.block_number(), 0);
    assert_eq!(node.pool_len(), 0);
}

#[test]
fn heights_go_up_by_one_per_batch() {
    let mut store = Store::new();
    let mut node = RustNode::init(None);
    for round in 0..5u64 {
        assert_eq!(accept(&mut node, &tx("alice", round, 1), &mut store), None);
        let batch = accept(&mut node, &tx("bob", round, 2), &mut store).unwrap();
        assert_eq!(batch.block_number, round);
        assert_eq!(batch.transactions.len(), 2);
        assert_eq!(node.block_number(), round + 1);
        assert_eq!(stored_height(&store), round + 1);
    }
}

#[test]
fn a_restart_goes_on_from_the_stored_height_with_an_empty_pool() {
    let mut store = Store::new();
    let mut node = RustNode::init(None);
    cut(&mut node, &mut store);
    accept(&mut node, &tx("alice", 1, 10), &mut store);
    let node = RustNode::init(store.get(&current_block_height_key()));
    assert_eq!(node.block_number(), 1);
    assert_eq!(node.pool_len(), 0);
}
