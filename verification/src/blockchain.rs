//! Transactions, batches, and the pool of transactions that wait for the
//! next batch.

use vstd::prelude::*;
use vstd::string::StringExecFns;
use crate::decimal::{parse_u128, parse_u64, unsigned_value};
use crate::error::{DecodeError, Field};
use crate::pool::{
    distinct_keys, has_key, inserted, keyed, lemma_inserted, lemma_keyed_distinct, lemma_position,
};

verus! {

/// A transfer request as the node received it. Nothing about it is validated:
/// the amount has no currency, and the nonce is whatever the sender chose.
#[derive(Debug, PartialEq, Eq)]
pub struct Transaction {
    sender: String,
    recipient: String,
    amount: u128,
    nonce: u64,
    memo: String,
}

/// What a transaction says, as mathematical values.
pub struct TransactionView {
    pub sender: Seq<char>,
    pub recipient: Seq<char>,
    pub amount: u128,
    pub nonce: u64,
    pub memo: Seq<char>,
}

impl TransactionView {
    /// The key under which the pool holds the transaction.
    pub open spec fn key(self) -> (Seq<char>, u64) {
        (self.sender, self.nonce)
    }
}

/// The value that a request gives under `name`: that of the first pair with
/// this name.
pub open spec fn field_value(fields: Seq<(String, String)>, name: Seq<char>) -> Option<Seq<char>>
    decreases fields.len(),
{
    if fields.len() == 0 {
        None
    } else if fields[0].0@ == name {
        Some(fields[0].1@)
    } else {
        field_value(fields.drop_first(), name)
    }
}

/// The transaction that a request describes, or what is wrong with the
/// request. The fields are looked at in the order sender, recipient, amount,
/// nonce, memo, and the first fault found is reported.
pub open spec fn from_fields(fields: Seq<(String, String)>) -> Result<TransactionView, DecodeError> {
    let sender = field_value(fields, "sender"@);
    let recipient = field_value(fields, "recipient"@);
    let amount = field_value(fields, "amount"@);
    let nonce = field_value(fields, "nonce"@);
    let memo = field_value(fields, "memo"@);
    if sender is None {
        Err(DecodeError::Missing(Field::Sender))
    } else if recipient is None {
        Err(DecodeError::Missing(Field::Recipient))
    } else if amount is None {
        Err(DecodeError::Missing(Field::Amount))
    } else if unsigned_value(amount->0, u128::MAX as nat) is None {
        Err(DecodeError::Unparsable(Field::Amount))
    } else if nonce is None {
        Err(DecodeError::Missing(Field::Nonce))
    } else if unsigned_value(nonce->0, u64::MAX as nat) is None {
        Err(DecodeError::Unparsable(Field::Nonce))
    } else if memo is None {
        Err(DecodeError::Missing(Field::Memo))
    } else {
        Ok(
            TransactionView {
                sender: sender->0,
                recipient: recipient->0,
                amount: unsigned_value(amount->0, u128::MAX as nat)->0 as u128,
                nonce: unsigned_value(nonce->0, u64::MAX as nat)->0 as u64,
                memo: memo->0,
            },
        )
    }
}

/// Looks `name` up among the pairs of a request.
fn lookup<'a>(fields: &'a Vec<(String, String)>, name: &str) -> (found: Option<&'a String>)
    ensures
        match found {
            Some(value) => field_value(fields@, name@) == Some(value@),
            None => field_value(fields@, name@) is None,
        },
{
    let wanted = String::from_str(name);
    let mut i: usize = 0;
    assert(fields@.skip(0) =~= fields@);
    while i < fields.len()
        invariant
            i <= fields.len(),
            wanted@ == name@,
            field_value(fields@, name@) == field_value(fields@.skip(i as int), name@),
        decreases fields.len() - i,
    {
        assert(fields@.skip(i as int)[0] == fields@[i as int]);
        assert(fields@.skip(i as int).drop_first() =~= fields@.skip(i + 1));
        if fields[i].0 == wanted {
            return Some(&fields[i].1);
        }
        i += 1;
    }
    None
}

impl View for Transaction {
    type V = TransactionView;

    closed spec fn view(&self) -> TransactionView {
        TransactionView {
            sender: self.sender@,
            recipient: self.recipient@,
            amount: self.amount,
            nonce: self.nonce,
            memo: self.memo@,
        }
    }
}

impl Clone for Transaction {
    fn clone(&self) -> (copy: Self)
        ensures
            copy@ == self@,
    {
        Transaction {
            sender: self.sender.clone(),
            recipient: self.recipient.clone(),
            amount: self.amount,
            nonce: self.nonce,
            memo: self.memo.clone(),
        }
    }
}

impl Default for Transaction {
    fn default() -> (tx: Self)
        ensures
            tx@ == (TransactionView {
                sender: Seq::empty(),
                recipient: Seq::empty(),
                amount: 0,
                nonce: 0,
                memo: Seq::empty(),
            }),
    {
        Transaction {
            sender: String::new(),
            recipient: String::new(),
            amount: 0,
            nonce: 0,
            memo: String::new(),
        }
    }
}

impl Transaction {
    /// A transaction with the given fields.
    pub fn new(sender: String, recipient: String, amount: u128, nonce: u64, memo: String) -> (tx:
        Self)
        ensures
            tx@ == (TransactionView {
                sender: sender@,
                recipient: recipient@,
                amount,
                nonce,
                memo: memo@,
            }),
    {
        Transaction { sender, recipient, amount, nonce, memo }
    }

    /// The account that the transaction comes from.
    pub fn sender(&self) -> (s: &String)
        ensures
            s@ == self@.sender,
    {
        &self.sender
    }

    /// The account that the transaction goes to.
    pub fn recipient(&self) -> (s: &String)
        ensures
            s@ == self@.recipient,
    {
        &self.recipient
    }

    /// The amount that the transaction moves.
    pub fn amount(&self) -> (n: u128)
        ensures
            n == self@.amount,
    {
        self.amount
    }

    /// The number that the sender gave the transaction.
    pub fn nonce(&self) -> (n: u64)
        ensures
            n == self@.nonce,
    {
        self.nonce
    }

    /// The note that comes with the transaction.
    pub fn memo(&self) -> (s: &String)
        ensures
            s@ == self@.memo,
    {
        &self.memo
    }

    /// Builds the transaction that a request describes. The request is a
    /// list of named values, all of them text; `amount` and `nonce` must spell
    /// numbers in base 10.
    pub fn from_map(map: &Vec<(String, String)>) -> (r: Result<Transaction, DecodeError>)
        ensures
            match r {
                Ok(tx) => from_fields(map@) == Ok::<TransactionView, DecodeError>(tx@),
                Err(e) => from_fields(map@) == Err::<TransactionView, DecodeError>(e),
            },
    {
        let sender = match lookup(map, "sender") {
            Some(value) => value.clone(),
            None => return Err(DecodeError::Missing(Field::Sender)),
        };
        let recipient = match lookup(map, "recipient") {
            Some(value) => value.clone(),
            None => return Err(DecodeError::Missing(Field::Recipient)),
        };
        let amount = match lookup(map, "amount") {
            Some(value) => match parse_u128(value.as_str()) {
                Some(n) => n,
                None => return Err(DecodeError::Unparsable(Field::Amount)),
            },
            None => return Err(DecodeError::Missing(Field::Amount)),
        };
        let nonce = match lookup(map, "nonce") {
            Some(value) => match parse_u64(value.as_str()) {
                Some(n) => n,
                None => return Err(DecodeError::Unparsable(Field::Nonce)),
            },
            None => return Err(DecodeError::Missing(Field::Nonce)),
        };
        let memo = match lookup(map, "memo") {
            Some(value) => value.clone(),
            None => return Err(DecodeError::Missing(Field::Memo)),
        };
        Ok(Transaction { sender, recipient, amount, nonce, memo })
    }
}

/// A numbered batch of transactions.
#[derive(Debug, PartialEq, Eq)]
pub struct Block {
    pub block_number: u64,
    pub transactions: Vec<Transaction>,
}

/// A batch as mathematical values.
pub struct BlockView {
    pub block_number: u64,
    pub transactions: Seq<TransactionView>,
}

impl View for Block {
    type V = BlockView;

    open spec fn view(&self) -> BlockView {
        BlockView { block_number: self.block_number, transactions: views(self.transactions@) }
    }
}

/// What each of some transactions says.
pub open spec fn views(transactions: Seq<Transaction>) -> Seq<TransactionView> {
    transactions.map_values(|t: Transaction| t@)
}

/// The transactions that wait for the next batch, at most one for each pair
/// of sender and nonce. They are kept in the order in which their keys first
/// came in.
pub struct TransactionPool {
    pool: Vec<Transaction>,
}

impl View for TransactionPool {
    type V = Map<(Seq<char>, u64), TransactionView>;

    /// The pooled transactions by their keys.
    open spec fn view(&self) -> Map<(Seq<char>, u64), TransactionView> {
        keyed(self.entries())
    }
}

impl TransactionPool {
    /// The pooled transactions, in the order in which they are handed out.
    pub closed spec fn entries(&self) -> Seq<TransactionView> {
        views(self.pool@)
    }

    #[verifier::type_invariant]
    spec fn distinct(&self) -> bool {
        distinct_keys(views(self.pool@))
    }

    /// An empty pool.
    pub fn init() -> (pool: Self)
        ensures
            pool.entries() == Seq::<TransactionView>::empty(),
            pool@ == Map::<(Seq<char>, u64), TransactionView>::empty(),
    {
        let pool = TransactionPool { pool: Vec::new() };
        assert(pool.entries() =~= Seq::<TransactionView>::empty());
        pool
    }

    /// Puts a copy of the transaction into the pool, in place of the one with
    /// the same sender and nonce if there is one.
    pub fn insert(&mut self, transaction: &Transaction)
        ensures
            final(self).entries() == inserted(old(self).entries(), transaction@),
            final(self)@ == old(self)@.insert(transaction@.key(), transaction@),
    {
        proof {
            use_type_invariant(&*self);
            lemma_inserted(self.entries(), transaction@);
        }
        let ghost before = self.entries();
        let ghost key = transaction@.key();
        let mut pool: Vec<Transaction> = Vec::new();
        std::mem::swap(&mut self.pool, &mut pool);
        let mut i: usize = 0;
        while i < pool.len()
            invariant
                i <= pool.len(),
                views(pool@) == before,
                key == transaction@.key(),
                forall|j: int| 0 <= j < i ==> (#[trigger] before[j]).key() != key,
            ensures
                i < pool.len() ==> before[i as int].key() == key,
            decreases pool.len() - i,
        {
            assert(before[i as int] == pool@[i as int]@);
            if pool[i].nonce == transaction.nonce && pool[i].sender == transaction.sender {
                assert(before[i as int].key() == key);
                break ;
            }
            i += 1;
        }
        if i < pool.len() {
            proof {
                lemma_position(before, key, i as int);
            }
            pool.set(i, transaction.clone());
            assert(views(pool@) =~= before.update(i as int, transaction@));
        } else {
            assert(!has_key(before, key));
            pool.push(transaction.clone());
            assert(views(pool@) =~= before.push(transaction@));
        }
        self.pool = pool;
    }

    /// The number of pooled transactions, which is the number of their keys.
    pub fn len(&self) -> (n: usize)
        ensures
            n == self.entries().len(),
            n == self@.dom().len(),
            distinct_keys(self.entries()),
    {
        proof {
            use_type_invariant(self);
            lemma_keyed_distinct(self.entries());
        }
        self.pool.len()
    }

    /// Takes every transaction out of the pool and hands them over.
    pub fn clean_for_block(&mut self) -> (result: Vec<Transaction>)
        ensures
            views(result@) == old(self).entries(),
            distinct_keys(views(result@)),
            keyed(views(result@)) == old(self)@,
            final(self).entries() == Seq::<TransactionView>::empty(),
            final(self)@ == Map::<(Seq<char>, u64), TransactionView>::empty(),
    {
        proof {
            use_type_invariant(&*self);
        }
        let mut result: Vec<Transaction> = Vec::new();
        std::mem::swap(&mut self.pool, &mut result);
        assert(self.entries() =~= Seq::<TransactionView>::empty());
        result
    }
}

} // verus!
