use rust_node::blockchain::{Transaction, TransactionPool};

fn tx(sender: &str, nonce: u64, amount: u128) -> Transaction {
    Transaction::new(sender.to_string(), "carol".to_string(), amount, nonce, String::new())
}

#[test]
fn a_new_pool_is_empty() {
    let mut pool = TransactionPool::init();
    assert_eq!(pool.len(), 0);
    assert_eq!(pool.clean_for_block(), Vec::new());
}

#[test]
fn insert_counts_distinct_keys() {
    let mut pool = TransactionPool::init();
    pool.insert(&tx("alice", 1, 10));
    assert_eq!(pool.len(), 1);
    pool.insert(&tx("alice", 2, 10));
    assert_eq!(pool.len(), 2);
    pool.insert(&tx("bob", 1, 10));
    assert_eq!(pool.len(), 3);
    pool.insert(&tx("alice", 1, 99));
    assert_eq!(pool.len(), 3);
}

#[test]
fn insert_replaces_the_transaction_with_the_same_sender_and_nonce() {
    let mut pool = TransactionPool::init();
    pool.insert(&tx("alice", 1, 10));
    pool.insert(&tx("bob", 1, 20));
    pool.insert(&tx("alice", 1, 30));
    assert_eq!(pool.clean_for_block(), vec![tx("alice", 1, 30), tx("bob", 1, 20)]);
}

#[test]
fn the_key_is_the_pair_not_its_text() {
    // "a-1" with nonce 2 and "a" with nonce 12 would collide if the key were
    // glued together carelessly; sender and nonce are compared one by one.
    let mut pool = TransactionPool::init();
    pool.insert(&tx("a-1", 2, 1));
    pool.insert(&tx("a", 12, 2));
    pool.insert(&tx("a-", 12, 3));
    assert_eq!(pool.len(), 3);
}

#[test]
fn clean_for_block_hands_out_everything_and_empties_the_pool() {
    let mut pool = TransactionPool::init();
    pool.insert(&tx("alice", 1, 10));
    pool.insert(&tx("bob", 7, 20));
    pool.insert(&tx("alice", 2, 30));
    let batch = pool.clean_for_block();
    assert_eq!(batch, vec![tx("alice", 1, 10), tx("bob", 7, 20), tx("alice", 2, 30)]);
    assert_eq!(pool.len(), 0);
    assert_eq!(pool.clean_for_block(), Vec::new());
    pool.insert(&tx("alice", 1, 10));
    assert_eq!(pool.len(), 1);
}

#[test]
fn insert_keeps_a_copy() {
    let mut pool = TransactionPool::init();
    let given = tx("alice", 1, 10);
    pool.insert(&given);
    drop(given);
    assert_eq!(pool.clean_for_block(), vec![tx("alice", 1, 10)]);
}
