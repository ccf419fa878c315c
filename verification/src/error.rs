//! The ways in which the node's operations fail.

use vstd::prelude::*;

verus! {

/// The fields of a transaction, by name.
#[derive(Debug, Clone, Copy, PartialEq, Eq, Structural)]
pub enum Field {
    Sender,
    Recipient,
    Amount,
    Nonce,
    Memo,
}

/// Input from outside that is not a transaction.
#[derive(Debug, Clone, Copy, PartialEq, Eq, Structural)]
pub enum DecodeError {
    /// The bytes do not begin with the encoding of a transaction.
    Bytes,
    /// A request names no value for the field.
    Missing(Field),
    /// The value given for a numeric field is not a number that fits it.
    Unparsable(Field),
}

/// Why the node gave up on an operation.
#[derive(Debug, Clone, Copy, PartialEq, Eq, Structural)]
pub enum NodeError {
    /// A peer identifier was configured without a peer address, or the reverse.
    Config,
    /// A write to the durable store failed.
    Storage,
    /// Input from outside could not be decoded.
    Decode(DecodeError),
    /// The other end of a channel is gone.
    ChannelClosed,
}

} // verus!
