//! The sequencer: it owns the block number and the pool, admits transactions
//! and cuts batches.
//!
//! The durable store is not the node's to reach. Where an operation needs a
//! write, the node hands the write out as a `Step::Write` and waits; its
//! caller performs the write and calls `resume` with the outcome. An
//! operation is over when a step says `Done`.

use vstd::prelude::*;
use crate::blockchain::{Block, BlockView, Transaction, TransactionPool, TransactionView};
use crate::pool::{
    distinct_keys, has_key, inserted, keyed, lemma_inserted, lemma_keyed_distinct,
    lemma_keyed_dom, position,
};
use crate::codec::le_bytes;
use crate::database::{
    block_number_key, get_block_number, set_block_number, stored_block_number, write_transaction,
    Put,
};
use crate::error::NodeError;

verus! {

/// The number of pooled transactions at which a batch is cut.
pub const ROLLUP_SIZE: usize = 2;

/// The block number and the pool.
pub struct State {
    current_block_number: u64,
    transaction_pool: TransactionPool,
}

/// The write that the node waits for.
pub enum Pending {
    /// None: the node is ready for the next operation.
    Idle,
    /// The write that records this transaction. The transaction is not in the
    /// pool yet.
    Recording(Transaction),
    /// The write that stores the new block number. The batch is cut already.
    Persisting(Block),
}

/// The sequencer. Nothing but its own operations changes its block number
/// or its pool.
pub struct RustNode {
    state: State,
    pending: Pending,
}

/// What the caller is to do next.
#[derive(Debug, PartialEq, Eq)]
pub enum Step {
    /// Perform this write, then call `resume` with its outcome.
    Write(Put),
    /// The operation is over: it failed, or it produced a batch, or it
    /// produced none.
    Done(Result<Option<Block>, NodeError>),
}

/// The write in flight, as mathematical values.
pub enum PendingView {
    Idle,
    Recording(TransactionView),
    Persisting(BlockView),
}

/// A step as mathematical values.
pub enum StepView {
    Write { key: Seq<u8>, value: Seq<u8> },
    Done(Result<Option<BlockView>, NodeError>),
}

/// The node as mathematical values: the next block number, the pooled
/// transactions in the order in which a batch hands them out, and the write
/// in flight.
pub struct NodeView {
    pub block_number: u64,
    pub pool: Seq<TransactionView>,
    pub pending: PendingView,
}

/// The batch that a step hands out, if it hands one out.
pub open spec fn batch_of(step: StepView) -> Option<BlockView> {
    match step {
        StepView::Done(Ok(batch)) => batch,
        _ => None,
    }
}

/// The pool that holds the transactions `txs`, put in one after the other.
pub open spec fn pooled(txs: Seq<TransactionView>) -> Seq<TransactionView>
    decreases txs.len(),
{
    if txs.len() == 0 {
        Seq::empty()
    } else {
        inserted(pooled(txs.drop_last()), txs.last())
    }
}

impl NodeView {
    /// What holds of every node: no key is pooled twice, the pool is below
    /// the threshold, and a transaction that is being recorded has an
    /// encoding and finds a block number that can still go up.
    pub open spec fn wf(self) -> bool {
        &&& distinct_keys(self.pool)
        &&& self.pool.len() < ROLLUP_SIZE
        &&& self.pending matches PendingView::Recording(tx) ==> tx.encodable() && self.block_number
            < u64::MAX
    }

    /// A whole `add_transaction` whose writes all succeed: the node after it,
    /// and the batch that came out, if one did.
    pub open spec fn accept(self, tx: TransactionView) -> (NodeView, Option<BlockView>) {
        let recorded = self.add_transaction(tx).0.resume(true);
        if recorded.1 is Write {
            let stored = recorded.0.resume(true);
            (stored.0, batch_of(stored.1))
        } else {
            (recorded.0, batch_of(recorded.1))
        }
    }

    /// The node after each of `txs` was accepted in turn.
    pub open spec fn accept_all(self, txs: Seq<TransactionView>) -> NodeView
        decreases txs.len(),
    {
        if txs.len() == 0 {
            self
        } else {
            self.accept_all(txs.drop_last()).accept(txs.last()).0
        }
    }

    /// A whole `rollup` whose write succeeds: the node after it, and the
    /// batch that came out.
    pub open spec fn cut_batch(self) -> (NodeView, Option<BlockView>) {
        let stored = self.rollup().0.resume(true);
        (stored.0, batch_of(stored.1))
    }

    /// The node that starts from what the store holds as block number.
    pub open spec fn init(stored: Option<Seq<u8>>) -> NodeView {
        NodeView {
            block_number: stored_block_number(stored),
            pool: Seq::empty(),
            pending: PendingView::Idle,
        }
    }

    /// Cuts a batch: it takes the whole pool and the block number as it is,
    /// the block number then goes up by one, and the new block number is to
    /// be written.
    pub open spec fn rollup(self) -> (NodeView, StepView) {
        let next = (self.block_number + 1) as u64;
        (
            NodeView {
                block_number: next,
                pool: Seq::empty(),
                pending: PendingView::Persisting(
                    BlockView { block_number: self.block_number, transactions: self.pool },
                ),
            },
            StepView::Write { key: block_number_key(), value: le_bytes(next as nat, 8) },
        )
    }

    /// Takes a transaction up: it is to be recorded before anything else
    /// happens to it.
    pub open spec fn add_transaction(self, tx: TransactionView) -> (NodeView, StepView) {
        (
            NodeView { pending: PendingView::Recording(tx), ..self },
            StepView::Write { key: tx.content_hash(), value: tx.encoding() },
        )
    }

    /// Goes on after the write in flight succeeded (`written`) or failed.
    ///
    /// A transaction whose record failed is dropped and the pool stays as it
    /// was. One that was recorded enters the pool, and a batch is cut if the
    /// pool has then reached `ROLLUP_SIZE`. A batch is handed out once the
    /// new block number is stored; if that write failed the batch is lost,
    /// and the block number stays advanced.
    pub open spec fn resume(self, written: bool) -> (NodeView, StepView) {
        let idle = NodeView { pending: PendingView::Idle, ..self };
        match self.pending {
            PendingView::Idle => (idle, StepView::Done(Ok(None))),
            PendingView::Recording(tx) => {
                let admitted = NodeView { pool: inserted(self.pool, tx), ..idle };
                if !written {
                    (idle, StepView::Done(Err(NodeError::Storage)))
                } else if admitted.pool.len() >= ROLLUP_SIZE {
                    admitted.rollup()
                } else {
                    (admitted, StepView::Done(Ok(None)))
                }
            },
            PendingView::Persisting(block) => if written {
                (idle, StepView::Done(Ok(Some(block))))
            } else {
                (idle, StepView::Done(Err(NodeError::Storage)))
            },
        }
    }
}

impl View for Pending {
    type V = PendingView;

    open spec fn view(&self) -> PendingView {
        match self {
            Pending::Idle => PendingView::Idle,
            Pending::Recording(tx) => PendingView::Recording(tx@),
            Pending::Persisting(block) => PendingView::Persisting(block@),
        }
    }
}

impl View for Step {
    type V = StepView;

    open spec fn view(&self) -> StepView {
        match self {
            Step::Write(put) => StepView::Write { key: put.key@, value: put.value@ },
            Step::Done(Ok(Some(block))) => StepView::Done(Ok(Some(block@))),
            Step::Done(Ok(None)) => StepView::Done(Ok(None)),
            Step::Done(Err(e)) => StepView::Done(Err(*e)),
        }
    }
}

impl View for RustNode {
    type V = NodeView;

    closed spec fn view(&self) -> NodeView {
        NodeView {
            block_number: self.state.current_block_number,
            pool: self.state.transaction_pool.entries(),
            pending: self.pending@,
        }
    }
}

impl RustNode {
    /// Between operations the pool is below the threshold; a transaction that
    /// is being recorded can be encoded; and a batch can still be numbered
    /// when one may have to be cut.
    #[verifier::type_invariant]
    spec fn sound(&self) -> bool {
        &&& distinct_keys(self.state.transaction_pool.entries())
        &&& self.state.transaction_pool.entries().len() < ROLLUP_SIZE
        &&& self.pending matches Pending::Recording(tx) ==> tx@.encodable()
            && self.state.current_block_number < u64::MAX
    }

    /// A node with an empty pool, which numbers its first batch with the
    /// block number that the store holds: `stored` is the value found under
    /// `block_number_key()`, if there is one.
    pub fn init(stored: Option<&Vec<u8>>) -> (node: Self)
        ensures
            node@ == NodeView::init(
                match stored {
                    Some(value) => Some(value@),
                    None => None,
                },
            ),
            node@.wf(),
    {
        RustNode {
            state: State {
                current_block_number: get_block_number(stored),
                transaction_pool: TransactionPool::init(),
            },
            pending: Pending::Idle,
        }
    }

    /// The number that the next batch gets.
    pub fn block_number(&self) -> (n: u64)
        ensures
            n == self@.block_number,
    {
        self.state.current_block_number
    }

    /// The number of transactions in the pool. Between operations it is
    /// below `ROLLUP_SIZE`.
    pub fn pool_len(&self) -> (n: usize)
        ensures
            n == self@.pool.len(),
            self@.wf(),
    {
        proof {
            use_type_invariant(self);
        }
        self.state.transaction_pool.len()
    }

    /// Whether no write is in flight, so that the next operation can begin.
    pub fn is_idle(&self) -> (idle: bool)
        ensures
            idle == (self@.pending is Idle),
    {
        match self.pending {
            Pending::Idle => true,
            _ => false,
        }
    }

    /// Cuts a batch from whatever the pool holds, be it nothing. The step
    /// returned is the write of the new block number; the batch comes out of
    /// `resume` once that write is done.
    pub fn rollup(&mut self) -> (step: Step)
        requires
            old(self)@.pending is Idle,
            old(self)@.block_number < u64::MAX,
        ensures
            (final(self)@, step@) == old(self)@.rollup(),
            final(self)@.wf(),
    {
        let mut pool = TransactionPool::init();
        std::mem::swap(&mut self.state.transaction_pool, &mut pool);
        self.cut(pool)
    }

    /// Numbers `pool` as the next batch, which empties it, and advances the
    /// block number.
    fn cut(&mut self, pool: TransactionPool) -> (step: Step)
        requires
            old(self)@.pending is Idle,
            old(self)@.pool.len() == 0,
            old(self)@.block_number < u64::MAX,
        ensures
            (final(self)@, step@) == (NodeView { pool: pool.entries(), ..old(self)@ }).rollup(),
            final(self)@.wf(),
    {
        let mut pool = pool;
        let transactions = pool.clean_for_block();
        let block_number: u64 = self.state.current_block_number;
        self.state.current_block_number = block_number + 1;
        self.pending = Pending::Persisting(Block { block_number, transactions });
        assert(self@.pool =~= Seq::<TransactionView>::empty());
        Step::Write(set_block_number(block_number + 1))
    }

    /// Takes a transaction up. The step returned is the write that records
    /// it; `resume` admits it to the pool once that write is done.
    pub fn add_transaction(&mut self, transaction: &Transaction) -> (step: Step)
        requires
            old(self)@.pending is Idle,
            old(self)@.block_number < u64::MAX,
            transaction@.encodable(),
        ensures
            (final(self)@, step@) == old(self)@.add_transaction(transaction@),
            final(self)@.wf(),
    {
        proof {
            use_type_invariant(&*self);
        }
        self.pending = Pending::Recording(transaction.clone());
        Step::Write(write_transaction(transaction))
    }

    /// Goes on with the operation after the write that the last step asked
    /// for: `written` says whether it succeeded.
    pub fn resume(&mut self, written: bool) -> (step: Step)
        ensures
            (final(self)@, step@) == old(self)@.resume(written),
            final(self)@.wf(),
    {
        proof {
            use_type_invariant(&*self);
            if let PendingView::Recording(tx) = self@.pending {
                lemma_inserted(self@.pool, tx);
            }
        }
        let mut pending = Pending::Idle;
        std::mem::swap(&mut self.pending, &mut pending);
        match pending {
            Pending::Idle => Step::Done(Ok(None)),
            Pending::Recording(transaction) => {
                if !written {
                    return Step::Done(Err(NodeError::Storage));
                }
                let mut pool = TransactionPool::init();
                std::mem::swap(&mut self.state.transaction_pool, &mut pool);
                pool.insert(&transaction);
                if pool.len() >= ROLLUP_SIZE {
                    self.cut(pool)
                } else {
                    self.state.transaction_pool = pool;
                    Step::Done(Ok(None))
                }
            },
            Pending::Persisting(block) => {
                if written {
                    Step::Done(Ok(Some(block)))
                } else {
                    Step::Done(Err(NodeError::Storage))
                }
            },
        }
    }
}

/// Putting transactions into an empty pool one after the other gives a pool
/// without a key twice, which holds under each key the transaction that came
/// last with it.
pub proof fn lemma_pooled(txs: Seq<TransactionView>)
    ensures
        distinct_keys(pooled(txs)),
        keyed(pooled(txs)) == keyed(txs),
        pooled(txs).len() == keyed(txs).dom().len(),
    decreases txs.len(),
{
    if txs.len() > 0 {
        lemma_pooled(txs.drop_last());
        lemma_inserted(pooled(txs.drop_last()), txs.last());
    }
    lemma_keyed_distinct(pooled(txs));
}

/// The first transactions of a sequence have no more keys than all of them.
pub proof fn lemma_keys_of_prefix(txs: Seq<TransactionView>, n: int)
    requires
        0 <= n <= txs.len(),
    ensures
        keyed(txs.take(n)).dom().len() <= keyed(txs).dom().len(),
{
    let part = txs.take(n);
    lemma_keyed_dom(part);
    lemma_keyed_dom(txs);
    assert forall|k: (Seq<char>, u64)| keyed(part).dom().contains(k) implies keyed(
        txs,
    ).dom().contains(k) by {
        assert(keyed(part).contains_key(k));
        let i = choose|i: int| 0 <= i < part.len() && (#[trigger] part[i]).key() == k;
        assert(txs[i].key() == k);
        assert(keyed(txs).contains_key(k));
    }
    vstd::set_lib::lemma_len_subset(keyed(part).dom(), keyed(txs).dom());
}

/// While fewer than `ROLLUP_SIZE` distinct keys have come in since the pool
/// was last empty, the node only collects: it is idle after each accept, its
/// block number has not moved, and its pool holds what came in.
pub proof fn lemma_collecting(node: NodeView, txs: Seq<TransactionView>)
    requires
        node.pending is Idle,
        node.pool.len() == 0,
        keyed(txs).dom().len() < ROLLUP_SIZE,
    ensures
        node.accept_all(txs) == (NodeView { pool: pooled(txs), ..node }),
    decreases txs.len(),
{
    if txs.len() > 0 {
        let front = txs.drop_last();
        assert(front =~= txs.take(txs.len() - 1));
        lemma_keys_of_prefix(txs, txs.len() - 1);
        lemma_collecting(node, front);
        lemma_pooled(txs);
    } else {
        assert(node.pool =~= pooled(txs));
    }
}

/// No batch below the threshold: of a run of accepts that starts with an
/// empty pool and brings fewer than `ROLLUP_SIZE` distinct keys, none
/// returns a batch.
pub proof fn lemma_no_batch_below_threshold(node: NodeView, txs: Seq<TransactionView>, i: int)
    requires
        node.pending is Idle,
        node.pool.len() == 0,
        keyed(txs).dom().len() < ROLLUP_SIZE,
        0 <= i < txs.len(),
    ensures
        node.accept_all(txs.take(i)).accept(txs[i]).1 is None,
{
    let upto = txs.take(i + 1);
    assert(upto.drop_last() =~= txs.take(i));
    assert(upto.last() == txs[i]);
    lemma_keys_of_prefix(txs, i);
    lemma_keys_of_prefix(txs, i + 1);
    lemma_collecting(node, txs.take(i));
    lemma_pooled(upto);
}

/// The transaction that brings the pool to `ROLLUP_SIZE` keys triggers one
/// cut, and the batch holds the whole pool, the new transaction last: the
/// batch has the block number as it was, the block number has gone up by
/// one, and the pool is empty.
pub proof fn lemma_threshold_cuts_whole_pool(node: NodeView, tx: TransactionView)
    requires
        node.wf(),
        node.pending is Idle,
        node.block_number < u64::MAX,
        !has_key(node.pool, tx.key()),
        node.pool.len() + 1 == ROLLUP_SIZE,
    ensures
        node.accept(tx) == (
            NodeView {
                block_number: (node.block_number + 1) as u64,
                pool: Seq::empty(),
                pending: PendingView::Idle,
            },
            Some(BlockView { block_number: node.block_number, transactions: node.pool.push(tx) }),
        ),
{
}

/// A batch is numbered before the block number goes up: the batch that a
/// rollup hands out has the block number that the node had, and holds the
/// pool as it was just before; afterwards the block number is one higher and
/// the pool is empty.
pub proof fn lemma_batch_is_pool_before_cut(node: NodeView)
    requires
        node.pending is Idle,
        node.block_number < u64::MAX,
    ensures
        node.cut_batch() == (
            NodeView {
                block_number: (node.block_number + 1) as u64,
                pool: Seq::empty(),
                pending: PendingView::Idle,
            },
            Some(BlockView { block_number: node.block_number, transactions: node.pool }),
        ),
{
}

/// A transaction that comes with a key that is pooled already takes the
/// place of the pooled one: no batch is returned, the pool is no larger, and
/// the next batch holds the new transaction and no other with its key.
pub proof fn lemma_latest_replaces(node: NodeView, tx: TransactionView)
    requires
        node.wf(),
        node.pending is Idle,
        has_key(node.pool, tx.key()),
    ensures
        node.accept(tx).1 is None,
        node.accept(tx).0.pool.len() == node.pool.len(),
        keyed(node.accept(tx).0.pool) == keyed(node.pool).insert(tx.key(), tx),
        node.accept(tx).0.cut_batch().1 matches Some(batch) && batch.transactions.contains(tx)
            && forall|i: int|
            0 <= i < batch.transactions.len() && (#[trigger] batch.transactions[i]).key()
                == tx.key() ==> batch.transactions[i] == tx,
{
    lemma_inserted(node.pool, tx);
    let after = node.accept(tx).0;
    let at = position(node.pool, tx.key());
    assert(after.pool == node.pool.update(at, tx));
    assert(after.pool[at] == tx);
    assert forall|i: int| 0 <= i < after.pool.len() && (#[trigger] after.pool[i]).key()
        == tx.key() implies after.pool[i] == tx by {
        if i < at {
            assert(after.pool[i].key() != after.pool[at].key());
        }
        if at < i {
            assert(after.pool[at].key() != after.pool[i].key());
        }
    }
}

/// The block number never goes down, whatever the node does and however the
/// writes end.
pub proof fn lemma_block_number_never_decreases(node: NodeView, tx: TransactionView, written: bool)
    requires
        node.block_number < u64::MAX,
    ensures
        node.rollup().0.block_number == node.block_number + 1,
        node.add_transaction(tx).0.block_number == node.block_number,
        node.resume(written).0.block_number >= node.block_number,
{
}

} // verus!
