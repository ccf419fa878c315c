//! The canonical bytes of a transaction, and its content hash.
//!
//! The canonical bytes are the fields one after the other: sender,
//! recipient, amount, nonce, memo. No two transactions have the same
//! canonical bytes, and none has bytes that another's begin with, so bytes
//! can be read back in one way only.

use vstd::prelude::*;
use crate::blockchain::{Transaction, TransactionView};
use crate::codec::{
    decode_string, decode_u128, decode_u64, encode_str, encode_u128, encode_u64, fits, le_bytes,
    le_value, lemma_concat_parts, lemma_le_bytes_injective, lemma_le_bytes_len,
    lemma_le_bytes_of_le_value, lemma_radix_values, lemma_str_bytes_unique, radix, str_bytes,
};
use crate::digest::{sha256, sha256_digest};
use crate::error::DecodeError;

verus! {

impl TransactionView {
    /// Whether the transaction has a byte encoding: each of its strings must
    /// fit a 32-bit length prefix.
    pub open spec fn encodable(self) -> bool {
        fits(self.sender) && fits(self.recipient) && fits(self.memo)
    }

    /// The canonical bytes: the fields one after the other, in the order
    /// sender, recipient, amount, nonce, memo.
    pub open spec fn encoding(self) -> Seq<u8> {
        str_bytes(self.sender) + str_bytes(self.recipient) + le_bytes(self.amount as nat, 16)
            + le_bytes(self.nonce as nat, 8) + str_bytes(self.memo)
    }

    /// The content hash: the SHA-256 digest of the canonical bytes.
    pub open spec fn content_hash(self) -> Seq<u8> {
        sha256(self.encoding())
    }

    /// What follows the sender in the canonical bytes, with `tail` behind.
    spec fn after_sender(self, tail: Seq<u8>) -> Seq<u8> {
        str_bytes(self.recipient) + self.after_recipient(tail)
    }

    /// What follows the recipient in the canonical bytes, with `tail` behind.
    spec fn after_recipient(self, tail: Seq<u8>) -> Seq<u8> {
        le_bytes(self.amount as nat, 16) + self.after_amount(tail)
    }

    /// What follows the amount in the canonical bytes, with `tail` behind.
    spec fn after_amount(self, tail: Seq<u8>) -> Seq<u8> {
        le_bytes(self.nonce as nat, 8) + self.after_nonce(tail)
    }

    /// What follows the nonce in the canonical bytes, with `tail` behind.
    spec fn after_nonce(self, tail: Seq<u8>) -> Seq<u8> {
        str_bytes(self.memo) + tail
    }

    /// The canonical bytes followed by `tail` are the sender's bytes followed
    /// by the rest.
    proof fn lemma_encoding_parts(self, tail: Seq<u8>)
        ensures
            self.encoding() + tail == str_bytes(self.sender) + self.after_sender(tail),
    {
        assert(self.encoding() + tail =~= str_bytes(self.sender) + self.after_sender(tail));
    }
}

/// The transaction that `bytes` begin with: the one whose canonical bytes are
/// a prefix of `bytes`, if there is one.
pub open spec fn decoding(bytes: Seq<u8>) -> Option<TransactionView> {
    if exists|t: TransactionView| begins_with(bytes, t) {
        Some(choose|t: TransactionView| begins_with(bytes, t))
    } else {
        None
    }
}

/// Whether `bytes` begin with the canonical bytes of `t`.
pub open spec fn begins_with(bytes: Seq<u8>, t: TransactionView) -> bool {
    t.encodable() && t.encoding().is_prefix_of(bytes)
}

/// Bytes begin with the canonical bytes of at most one transaction, and what
/// follows them is determined too.
pub proof fn lemma_encoding_unique(
    a: TransactionView,
    tail_a: Seq<u8>,
    b: TransactionView,
    tail_b: Seq<u8>,
)
    requires
        a.encodable(),
        b.encodable(),
        a.encoding() + tail_a == b.encoding() + tail_b,
    ensures
        a == b,
        tail_a == tail_b,
{
    a.lemma_encoding_parts(tail_a);
    b.lemma_encoding_parts(tail_b);
    lemma_str_bytes_unique(a.sender, a.after_sender(tail_a), b.sender, b.after_sender(tail_b));
    lemma_str_bytes_unique(
        a.recipient,
        a.after_recipient(tail_a),
        b.recipient,
        b.after_recipient(tail_b),
    );
    lemma_radix_values();
    lemma_le_bytes_len(a.amount as nat, 16);
    lemma_le_bytes_len(b.amount as nat, 16);
    lemma_concat_parts(
        le_bytes(a.amount as nat, 16),
        a.after_amount(tail_a),
        le_bytes(b.amount as nat, 16),
        b.after_amount(tail_b),
    );
    lemma_le_bytes_injective(a.amount as nat, b.amount as nat, 16);
    lemma_le_bytes_len(a.nonce as nat, 8);
    lemma_le_bytes_len(b.nonce as nat, 8);
    lemma_concat_parts(
        le_bytes(a.nonce as nat, 8),
        a.after_nonce(tail_a),
        le_bytes(b.nonce as nat, 8),
        b.after_nonce(tail_b),
    );
    lemma_le_bytes_injective(a.nonce as nat, b.nonce as nat, 8);
    lemma_str_bytes_unique(a.memo, tail_a, b.memo, tail_b);
}

/// If `bytes` begin with the canonical bytes of `t`, then `t` is the
/// transaction that `bytes` decode to.
pub proof fn lemma_decoding_is(bytes: Seq<u8>, t: TransactionView)
    requires
        begins_with(bytes, t),
    ensures
        decoding(bytes) == Some(t),
{
    let found = choose|u: TransactionView| begins_with(bytes, u);
    let tail_t = bytes.skip(t.encoding().len() as int);
    let tail_found = bytes.skip(found.encoding().len() as int);
    assert(t.encoding() + tail_t =~= bytes);
    assert(found.encoding() + tail_found =~= bytes);
    lemma_encoding_unique(t, tail_t, found, tail_found);
}

/// What bytes decode to is a transaction that they begin with.
pub proof fn lemma_decoding_begins(bytes: Seq<u8>)
    ensures
        decoding(bytes) matches Some(t) ==> begins_with(bytes, t),
{
}

/// Decoding inverts encoding: bytes that consist of the canonical bytes of a
/// transaction, and of anything behind them, decode to that transaction.
pub proof fn lemma_decode_inverts_encode(t: TransactionView, tail: Seq<u8>)
    requires
        t.encodable(),
    ensures
        decoding(t.encoding() + tail) == Some(t),
{
    assert(t.encoding().is_prefix_of(t.encoding() + tail));
    lemma_decoding_is(t.encoding() + tail, t);
}

/// Transactions that say the same have the same canonical bytes and the same
/// content hash.
pub proof fn lemma_same_transaction_same_hash(a: Transaction, b: Transaction)
    requires
        a@ == b@,
    ensures
        a@.encoding() == b@.encoding(),
        a@.content_hash() == b@.content_hash(),
{
}

/// What was read so far from the front of some bytes, and what is left.
///
/// `field` counts the fields read: after the sender it is 1, after the memo 5.
/// The fields of `read` that were not read yet say nothing.
struct Progress {
    field: nat,
    read: TransactionView,
    rest: Seq<u8>,
}

impl Progress {
    /// Whether `t`, followed by `tail`, continues from here: it has the fields
    /// read so far, and its remaining bytes and `tail` are what is left.
    spec fn leads_to(self, t: TransactionView, tail: Seq<u8>) -> bool {
        &&& self.field >= 1 ==> t.sender == self.read.sender
        &&& self.field >= 2 ==> t.recipient == self.read.recipient
        &&& self.field >= 3 ==> t.amount == self.read.amount
        &&& self.field >= 4 ==> t.nonce == self.read.nonce
        &&& self.field >= 5 ==> t.memo == self.read.memo
        &&& self.rest == if self.field == 0 {
            t.encoding() + tail
        } else if self.field == 1 {
            t.after_sender(tail)
        } else if self.field == 2 {
            t.after_recipient(tail)
        } else if self.field == 3 {
            t.after_amount(tail)
        } else if self.field == 4 {
            t.after_nonce(tail)
        } else {
            tail
        }
    }

    /// Whether every transaction that the bytes `whole` begin with continues
    /// from here.
    spec fn covers(self, whole: Seq<u8>) -> bool {
        forall|t: TransactionView, tail: Seq<u8>|
            t.encodable() && whole == #[trigger] (t.encoding() + tail) ==> self.leads_to(t, tail)
    }

    /// The state after a string field was read from the front of what is left.
    spec fn after_string(self, s: Seq<char>, rest: Seq<u8>) -> Progress {
        Progress {
            field: self.field + 1,
            read: if self.field == 0 {
                TransactionView { sender: s, ..self.read }
            } else if self.field == 1 {
                TransactionView { recipient: s, ..self.read }
            } else {
                TransactionView { memo: s, ..self.read }
            },
            rest,
        }
    }

    /// The state after a number was read from the front of what is left.
    spec fn after_number(self, n: nat, rest: Seq<u8>) -> Progress {
        Progress {
            field: self.field + 1,
            read: if self.field == 2 {
                TransactionView { amount: n as u128, ..self.read }
            } else {
                TransactionView { nonce: n as u64, ..self.read }
            },
            rest,
        }
    }

    /// Where what is left does not begin with a string, no transaction
    /// continues from a state that expects one.
    proof fn lemma_string_missing(self, whole: Seq<u8>)
        requires
            self.covers(whole),
            self.field == 0 || self.field == 1 || self.field == 4,
            forall|s: Seq<char>, rest: Seq<u8>|
                fits(s) ==> self.rest != #[trigger] (str_bytes(s) + rest),
        ensures
            decoding(whole) is None,
    {
        assert forall|t: TransactionView| !begins_with(whole, t) by {
            if begins_with(whole, t) {
                let tail = whole.skip(t.encoding().len() as int);
                assert(whole =~= t.encoding() + tail);
                assert(self.leads_to(t, tail));
                t.lemma_encoding_parts(tail);
                if self.field == 0 {
                    assert(self.rest == str_bytes(t.sender) + t.after_sender(tail));
                } else if self.field == 1 {
                    assert(self.rest == str_bytes(t.recipient) + t.after_recipient(tail));
                } else {
                    assert(self.rest == str_bytes(t.memo) + tail);
                }
            }
        }
    }

    /// Where what is left is shorter than the number that comes next, no
    /// transaction continues from here.
    proof fn lemma_number_missing(self, whole: Seq<u8>)
        requires
            self.covers(whole),
            self.field == 2 && self.rest.len() < 16 || self.field == 3 && self.rest.len() < 8,
        ensures
            decoding(whole) is None,
    {
        assert forall|t: TransactionView| !begins_with(whole, t) by {
            if begins_with(whole, t) {
                let tail = whole.skip(t.encoding().len() as int);
                assert(whole =~= t.encoding() + tail);
                assert(self.leads_to(t, tail));
                lemma_le_bytes_len(t.amount as nat, 16);
                lemma_le_bytes_len(t.nonce as nat, 8);
            }
        }
    }

    /// Reading a string from the front of what is left keeps every
    /// transaction that the bytes begin with.
    proof fn lemma_string_read(self, whole: Seq<u8>, s: Seq<char>, rest: Seq<u8>)
        requires
            self.covers(whole),
            self.field == 0 || self.field == 1 || self.field == 4,
            fits(s),
            self.rest == str_bytes(s) + rest,
        ensures
            self.after_string(s, rest).covers(whole),
    {
        let next = self.after_string(s, rest);
        assert forall|t: TransactionView, tail: Seq<u8>|
            t.encodable() && whole == #[trigger] (t.encoding() + tail) implies next.leads_to(
            t,
            tail,
        ) by {
            assert(self.leads_to(t, tail));
            t.lemma_encoding_parts(tail);
            if self.field == 0 {
                lemma_str_bytes_unique(s, rest, t.sender, t.after_sender(tail));
            } else if self.field == 1 {
                lemma_str_bytes_unique(s, rest, t.recipient, t.after_recipient(tail));
            } else {
                lemma_str_bytes_unique(s, rest, t.memo, tail);
            }
        }
    }

    /// Reading a number from the front of what is left keeps every
    /// transaction that the bytes begin with.
    proof fn lemma_number_read(self, whole: Seq<u8>, width: nat, n: nat)
        requires
            self.covers(whole),
            self.field == 2 && width == 16 || self.field == 3 && width == 8,
            self.rest.len() >= width,
            n == le_value(self.rest.take(width as int)),
        ensures
            n < radix(width),
            self.rest == le_bytes(n, width) + self.rest.skip(width as int),
            self.after_number(n, self.rest.skip(width as int)).covers(whole),
    {
        let rest = self.rest.skip(width as int);
        let next = self.after_number(n, rest);
        lemma_le_bytes_of_le_value(self.rest.take(width as int));
        lemma_radix_values();
        assert(self.rest =~= le_bytes(n, width) + rest);
        assert forall|t: TransactionView, tail: Seq<u8>|
            t.encodable() && whole == #[trigger] (t.encoding() + tail) implies next.leads_to(
            t,
            tail,
        ) by {
            assert(self.leads_to(t, tail));
            if self.field == 2 {
                lemma_le_bytes_len(t.amount as nat, 16);
                lemma_concat_parts(
                    le_bytes(n, 16),
                    rest,
                    le_bytes(t.amount as nat, 16),
                    t.after_amount(tail),
                );
                lemma_le_bytes_injective(n, t.amount as nat, 16);
            } else {
                lemma_le_bytes_len(t.nonce as nat, 8);
                lemma_concat_parts(
                    le_bytes(n, 8),
                    rest,
                    le_bytes(t.nonce as nat, 8),
                    t.after_nonce(tail),
                );
                lemma_le_bytes_injective(n, t.nonce as nat, 8);
            }
        }
    }
}

impl Transaction {
    /// Whether the transaction can be encoded, and so hashed and recorded.
    pub fn is_encodable(&self) -> (yes: bool)
        ensures
            yes == self@.encodable(),
    {
        let limit: usize = u32::MAX as usize;
        self.sender().as_str().as_bytes().len() <= limit
            && self.recipient().as_str().as_bytes().len() <= limit
            && self.memo().as_str().as_bytes().len() <= limit
    }

    /// The canonical bytes of the transaction.
    pub fn encode(&self) -> (bytes: Vec<u8>)
        requires
            self@.encodable(),
        ensures
            bytes@ == self@.encoding(),
    {
        let mut bytes = encode_str(self.sender().as_str());
        let mut recipient = encode_str(self.recipient().as_str());
        let mut amount = encode_u128(self.amount());
        let mut nonce = encode_u64(self.nonce());
        let mut memo = encode_str(self.memo().as_str());
        bytes.append(&mut recipient);
        bytes.append(&mut amount);
        bytes.append(&mut nonce);
        bytes.append(&mut memo);
        bytes
    }

    /// The content hash of the transaction: 32 bytes that stand for it in the
    /// durable store.
    pub fn hash(&self) -> (digest: Vec<u8>)
        requires
            self@.encodable(),
        ensures
            digest@ == self@.content_hash(),
            digest@.len() == 32,
    {
        let bytes = self.encode();
        sha256_digest(bytes.as_slice())
    }
    /// Reads a transaction from the front of `bytes`; what follows its
    /// canonical bytes is ignored. Fails where `bytes` begin with the
    /// canonical bytes of no transaction.
    pub fn decode(bytes: &[u8]) -> (r: Result<Transaction, DecodeError>)
        ensures
            match r {
                Ok(tx) => decoding(bytes@) == Some(tx@) && tx@.encodable(),
                Err(e) => e == DecodeError::Bytes && decoding(bytes@) is None,
            },
    {
        let ghost start = Progress { field: 0, read: arbitrary(), rest: bytes@ };
        assert(start.covers(bytes@));
        let (sender, rest) = decode_string(bytes);
        let sender = match sender {
            Ok(s) => s,
            Err(_) => {
                proof {
                    start.lemma_string_missing(bytes@);
                }
                return Err(DecodeError::Bytes);
            },
        };
        let ghost had_sender = start.after_string(sender@, rest@);
        proof {
            start.lemma_string_read(bytes@, sender@, rest@);
        }
        let (recipient, rest) = decode_string(rest);
        let recipient = match recipient {
            Ok(s) => s,
            Err(_) => {
                proof {
                    had_sender.lemma_string_missing(bytes@);
                }
                return Err(DecodeError::Bytes);
            },
        };
        let ghost had_recipient = had_sender.after_string(recipient@, rest@);
        proof {
            had_sender.lemma_string_read(bytes@, recipient@, rest@);
        }
        let (amount, rest) = decode_u128(rest);
        let amount = match amount {
            Ok(n) => n,
            Err(_) => {
                proof {
                    had_recipient.lemma_number_missing(bytes@);
                }
                return Err(DecodeError::Bytes);
            },
        };
        let ghost had_amount = had_recipient.after_number(amount as nat, rest@);
        proof {
            had_recipient.lemma_number_read(bytes@, 16, amount as nat);
        }
        let (nonce, rest) = decode_u64(rest);
        let nonce = match nonce {
            Ok(n) => n,
            Err(_) => {
                proof {
                    had_amount.lemma_number_missing(bytes@);
                }
                return Err(DecodeError::Bytes);
            },
        };
        let ghost had_nonce = had_amount.after_number(nonce as nat, rest@);
        proof {
            had_amount.lemma_number_read(bytes@, 8, nonce as nat);
        }
        let (memo, rest) = decode_string(rest);
        let memo = match memo {
            Ok(s) => s,
            Err(_) => {
                proof {
                    had_nonce.lemma_string_missing(bytes@);
                }
                return Err(DecodeError::Bytes);
            },
        };
        let tx = Transaction::new(sender, recipient, amount, nonce, memo);
        proof {
            assert(bytes@ =~= tx@.encoding() + rest@);
            assert(tx@.encoding().is_prefix_of(bytes@));
            lemma_decoding_is(bytes@, tx@);
        }
        Ok(tx)
    }
}

} // verus!
