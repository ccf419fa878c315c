//! What the node keeps in its durable store, and how it reads it back.
//!
//! The store itself is the caller's: it maps byte keys to byte values. This
//! module decides which key and value a write carries, and what a stored
//! value means.

use vstd::prelude::*;
use vstd::utf8::*;
use vstd::string::*;
use crate::blockchain::Transaction;
use crate::codec::{
    decode_u64, encode_u64, le_bytes, le_value, lemma_le_bytes_len, lemma_le_value_of_le_bytes,
    lemma_radix_values,
};

verus! {

/// One write to the durable store: `value` is to be stored under `key`,
/// replacing what was there.
#[derive(Debug, PartialEq, Eq)]
pub struct Put {
    pub key: Vec<u8>,
    pub value: Vec<u8>,
}

/// The key under which the block number is stored.
pub open spec fn block_number_key() -> Seq<u8> {
    encode_utf8("current block height"@)
}

/// The block number that a stored value stands for. Nothing stored means 0,
/// and so does a value too short to hold a number.
pub open spec fn stored_block_number(stored: Option<Seq<u8>>) -> u64 {
    match stored {
        Some(value) => if value.len() >= 8 {
            le_value(value.take(8)) as u64
        } else {
            0
        },
        None => 0,
    }
}

/// The key under which the block number is stored.
pub fn current_block_height_key() -> (key: Vec<u8>)
    ensures
        key@ == block_number_key(),
{
    "current block height".as_bytes_vec()
}

/// The write that records a transaction: its canonical bytes, under its
/// content hash. Recording the same transaction again writes the same value
/// under the same key.
pub fn write_transaction(transaction: &Transaction) -> (put: Put)
    requires
        transaction@.encodable(),
    ensures
        put.key@ == transaction@.content_hash(),
        put.value@ == transaction@.encoding(),
{
    Put { key: transaction.hash(), value: transaction.encode() }
}

/// The block number to start from, given what the store holds under
/// `block_number_key()`.
pub fn get_block_number(stored: Option<&Vec<u8>>) -> (block_number: u64)
    ensures
        block_number == stored_block_number(
            match stored {
                Some(value) => Some(value@),
                None => None,
            },
        ),
{
    match stored {
        Some(value) => {
            let (decoded, _) = decode_u64(value.as_slice());
            proof {
                if value@.len() >= 8 {
                    crate::codec::lemma_le_bytes_of_le_value(value@.take(8));
                    lemma_radix_values();
                }
            }
            match decoded {
                Ok(n) => n,
                Err(_) => 0,
            }
        },
        None => 0,
    }
}

/// The write that stores a block number.
pub fn set_block_number(block_number: u64) -> (put: Put)
    ensures
        put.key@ == block_number_key(),
        put.value@ == le_bytes(block_number as nat, 8),
{
    Put { key: current_block_height_key(), value: encode_u64(block_number) }
}

/// A block number that was stored is read back as it was.
pub proof fn lemma_block_number_round_trip(block_number: u64)
    ensures
        stored_block_number(Some(le_bytes(block_number as nat, 8))) == block_number,
{
    let value = le_bytes(block_number as nat, 8);
    lemma_le_bytes_len(block_number as nat, 8);
    lemma_radix_values();
    lemma_le_value_of_le_bytes(block_number as nat, 8);
    assert(value.take(8) =~= value);
}

} // verus!
