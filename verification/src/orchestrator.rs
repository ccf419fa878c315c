//! The event loop's decisions.
//!
//! The loop itself belongs to the caller: it waits for the timer, for a
//! transaction from the request channel or for a message from the network,
//! and hands each to `Orchestrator::handle` as an event. What comes back is
//! the one thing to do next. The caller does it and reports with
//! `Event::Completed`, until the answer is `Action::Wait`: then the event is
//! dealt with, and the loop may wait for the next one. So one event is
//! worked off before another is looked at.

use vstd::prelude::*;
use crate::blockchain::{Block, BlockView, Transaction, TransactionView};
use crate::codec::le_bytes;
use crate::database::{block_number_key, Put};
use crate::error::{DecodeError, NodeError};
use crate::node::{NodeView, PendingView, RustNode, Step, StepView, ROLLUP_SIZE};
use crate::pool::inserted;
use crate::wire::decoding;

verus! {

/// The number of seconds between two ticks of the timer.
pub const ROLLUP_INTERVAL: u64 = 30;

/// The number of transactions that the request channel holds before its
/// sender has to wait.
pub const CHANNEL_CAPACITY: usize = 32;

/// What happened outside.
#[derive(Debug)]
pub enum Event {
    /// The timer fired.
    Tick,
    /// A transaction came in over the request channel.
    Submitted(Transaction),
    /// A message came in from the network.
    Received(Vec<u8>),
    /// The action last asked for was carried out, with success or without.
    Completed(bool),
}

/// What the caller is to do next.
#[derive(Debug, PartialEq, Eq)]
pub enum Action {
    /// Perform this write to the durable store.
    Write(Put),
    /// Hand this batch to the submission.
    Submit(Block),
    /// Send these bytes to the peer.
    Broadcast { peer: String, message: Vec<u8> },
    /// Nothing is left to do: wait for the next event.
    Wait,
    /// Give up: the event could not be dealt with.
    Stop(NodeError),
}

/// What the orchestrator waits for. Where it holds bytes, they are to be
/// sent to the peer once the node and the submission are done.
pub enum Phase {
    /// An event from outside.
    Waiting,
    /// The outcome of a write.
    Storing(Option<Vec<u8>>),
    /// The outcome of a submission.
    Submitting(Option<Vec<u8>>),
    /// The outcome of a send.
    Broadcasting,
}

/// The node together with what is left to do for the event at hand.
pub struct Orchestrator {
    node: RustNode,
    peer: Option<String>,
    phase: Phase,
}

/// An event as mathematical values.
pub enum EventView {
    Tick,
    Submitted(TransactionView),
    Received(Seq<u8>),
    Completed(bool),
}

/// An action as mathematical values.
pub enum ActionView {
    Write { key: Seq<u8>, value: Seq<u8> },
    Submit(BlockView),
    Broadcast { peer: Seq<char>, message: Seq<u8> },
    Wait,
    Stop(NodeError),
}

/// A phase as mathematical values.
pub enum PhaseView {
    Waiting,
    Storing(Option<Seq<u8>>),
    Submitting(Option<Seq<u8>>),
    Broadcasting,
}

/// The orchestrator as mathematical values: its node, the peer it forwards
/// to, and what it waits for.
pub struct OrchestratorView {
    pub node: NodeView,
    pub peer: Option<Seq<char>>,
    pub phase: PhaseView,
}

impl OrchestratorView {
    /// The node has a write in flight exactly while the orchestrator waits
    /// for the outcome of one.
    pub open spec fn wf(self) -> bool {
        (self.phase is Storing) == !(self.node.pending is Idle)
    }

    /// Whether the event may come now. A completion may always come. An
    /// event from outside comes only while the orchestrator waits for one,
    /// and while the block number leaves room for one more batch; and a
    /// transaction must have an encoding.
    pub open spec fn accepts(self, event: EventView) -> bool {
        event is Completed || {
            &&& self.phase is Waiting
            &&& self.node.block_number < u64::MAX
            &&& event matches EventView::Submitted(tx) ==> tx.encodable()
        }
    }

    /// The bytes to send to the peer for a transaction from the request
    /// channel: its canonical bytes, if a peer is configured.
    pub open spec fn outbound(self, tx: TransactionView) -> Option<Seq<u8>> {
        if self.peer is Some {
            Some(tx.encoding())
        } else {
            None
        }
    }

    /// The last thing done for an event: the bytes held back are sent to the
    /// peer, if there are any.
    pub open spec fn settle(self, outbound: Option<Seq<u8>>) -> (OrchestratorView, ActionView) {
        match (outbound, self.peer) {
            (Some(message), Some(peer)) => (
                OrchestratorView { phase: PhaseView::Broadcasting, ..self },
                ActionView::Broadcast { peer, message },
            ),
            _ => (OrchestratorView { phase: PhaseView::Waiting, ..self }, ActionView::Wait),
        }
    }

    /// What follows from a step of the node: its write is passed on, its
    /// failure stops the work, its batch goes to the submission, and when it
    /// is done without a batch the event is settled.
    pub open spec fn follow(self, moved: (NodeView, StepView), outbound: Option<Seq<u8>>) -> (
        OrchestratorView,
        ActionView,
    ) {
        let after = OrchestratorView { node: moved.0, ..self };
        match moved.1 {
            StepView::Write { key, value } => (
                OrchestratorView { phase: PhaseView::Storing(outbound), ..after },
                ActionView::Write { key, value },
            ),
            StepView::Done(Err(e)) => (
                OrchestratorView { phase: PhaseView::Waiting, ..after },
                ActionView::Stop(e),
            ),
            StepView::Done(Ok(Some(block))) => (
                OrchestratorView { phase: PhaseView::Submitting(outbound), ..after },
                ActionView::Submit(block),
            ),
            StepView::Done(Ok(None)) => after.settle(outbound),
        }
    }

    /// The orchestrator's answer to an event.
    ///
    /// A tick cuts a batch, whatever the pool holds. A transaction from the
    /// request channel is taken up by the node and afterwards sent on to the
    /// peer. A message from the network is decoded and taken up likewise,
    /// but never sent on; one that does not decode stops the work. A batch
    /// that the node hands out is submitted, and a failed submission stops
    /// nothing. A failed write or a failed send stops the work.
    pub open spec fn handle(self, event: EventView) -> (OrchestratorView, ActionView) {
        let waiting = OrchestratorView { phase: PhaseView::Waiting, ..self };
        match (self.phase, event) {
            (PhaseView::Waiting, EventView::Tick) => self.follow(self.node.rollup(), None),
            (PhaseView::Waiting, EventView::Submitted(tx)) => self.follow(
                self.node.add_transaction(tx),
                self.outbound(tx),
            ),
            (PhaseView::Waiting, EventView::Received(bytes)) => match decoding(bytes) {
                Some(tx) => self.follow(self.node.add_transaction(tx), None),
                None => (waiting, ActionView::Stop(NodeError::Decode(DecodeError::Bytes))),
            },
            (PhaseView::Waiting, EventView::Completed(_)) => (waiting, ActionView::Wait),
            (PhaseView::Storing(outbound), _) => self.follow(
                self.node.resume(event->Completed_0),
                outbound,
            ),
            (PhaseView::Submitting(outbound), _) => self.settle(outbound),
            (PhaseView::Broadcasting, _) => if event->Completed_0 {
                (waiting, ActionView::Wait)
            } else {
                (waiting, ActionView::Stop(NodeError::ChannelClosed))
            },
        }
    }
}

/// The view of optional bytes.
pub open spec fn bytes_view(bytes: Option<Vec<u8>>) -> Option<Seq<u8>> {
    match bytes {
        Some(bytes) => Some(bytes@),
        None => None,
    }
}

impl View for Event {
    type V = EventView;

    open spec fn view(&self) -> EventView {
        match self {
            Event::Tick => EventView::Tick,
            Event::Submitted(tx) => EventView::Submitted(tx@),
            Event::Received(bytes) => EventView::Received(bytes@),
            Event::Completed(ok) => EventView::Completed(*ok),
        }
    }
}

impl View for Action {
    type V = ActionView;

    open spec fn view(&self) -> ActionView {
        match self {
            Action::Write(put) => ActionView::Write { key: put.key@, value: put.value@ },
            Action::Submit(block) => ActionView::Submit(block@),
            Action::Broadcast { peer, message } => ActionView::Broadcast {
                peer: peer@,
                message: message@,
            },
            Action::Wait => ActionView::Wait,
            Action::Stop(e) => ActionView::Stop(*e),
        }
    }
}

impl View for Phase {
    type V = PhaseView;

    open spec fn view(&self) -> PhaseView {
        match self {
            Phase::Waiting => PhaseView::Waiting,
            Phase::Storing(outbound) => PhaseView::Storing(bytes_view(*outbound)),
            Phase::Submitting(outbound) => PhaseView::Submitting(bytes_view(*outbound)),
            Phase::Broadcasting => PhaseView::Broadcasting,
        }
    }
}

impl View for Orchestrator {
    type V = OrchestratorView;

    closed spec fn view(&self) -> OrchestratorView {
        OrchestratorView {
            node: self.node@,
            peer: match self.peer {
                Some(peer) => Some(peer@),
                None => None,
            },
            phase: self.phase@,
        }
    }
}

impl Orchestrator {
    /// An orchestrator that drives `node` and forwards to `peer`, if there is
    /// one. It waits for the first event.
    pub fn new(node: RustNode, peer: Option<String>) -> (orchestrator: Self)
        requires
            node@.pending is Idle,
        ensures
            orchestrator@.wf(),
            orchestrator@ == (OrchestratorView {
                node: node@,
                peer: match peer {
                    Some(peer) => Some(peer@),
                    None => None,
                },
                phase: PhaseView::Waiting,
            }),
    {
        Orchestrator { node, peer, phase: Phase::Waiting }
    }

    /// The number that the next batch gets.
    pub fn block_number(&self) -> (n: u64)
        ensures
            n == self@.node.block_number,
    {
        self.node.block_number()
    }

    /// Whether the orchestrator waits for an event from outside.
    pub fn is_waiting(&self) -> (waiting: bool)
        ensures
            waiting == (self@.phase is Waiting),
    {
        match self.phase {
            Phase::Waiting => true,
            _ => false,
        }
    }

    /// Sends the bytes held back for the peer, if there are any, as the last
    /// thing done for an event.
    fn settle(&mut self, outbound: Option<Vec<u8>>) -> (action: Action)
        ensures
            (final(self)@, action@) == old(self)@.settle(bytes_view(outbound)),
    {
        match (outbound, &self.peer) {
            (Some(message), Some(peer)) => {
                let peer = peer.clone();
                self.phase = Phase::Broadcasting;
                Action::Broadcast { peer, message }
            },
            _ => {
                self.phase = Phase::Waiting;
                Action::Wait
            },
        }
    }

    /// Acts on a step of the node.
    fn follow(&mut self, step: Step, outbound: Option<Vec<u8>>, Ghost(before): Ghost<
        OrchestratorView,
    >) -> (action: Action)
        requires
            before.peer == old(self)@.peer,
        ensures
            (final(self)@, action@) == before.follow(
                (old(self)@.node, step@),
                bytes_view(outbound),
            ),
    {
        match step {
            Step::Write(put) => {
                self.phase = Phase::Storing(outbound);
                Action::Write(put)
            },
            Step::Done(Err(e)) => {
                self.phase = Phase::Waiting;
                Action::Stop(e)
            },
            Step::Done(Ok(Some(block))) => {
                self.phase = Phase::Submitting(outbound);
                Action::Submit(block)
            },
            Step::Done(Ok(None)) => self.settle(outbound),
        }
    }

    /// Answers an event with the next thing to do.
    pub fn handle(&mut self, event: Event) -> (action: Action)
        requires
            old(self)@.wf(),
            old(self)@.accepts(event@),
        ensures
            final(self)@.wf(),
            (final(self)@, action@) == old(self)@.handle(event@),
    {
        let ghost before = self@;
        let mut phase = Phase::Waiting;
        std::mem::swap(&mut self.phase, &mut phase);
        match phase {
            Phase::Waiting => match event {
                Event::Tick => {
                    let step = self.node.rollup();
                    self.follow(step, None, Ghost(before))
                },
                Event::Submitted(transaction) => {
                    let outbound = if self.peer.is_some() {
                        Some(transaction.encode())
                    } else {
                        None
                    };
                    let step = self.node.add_transaction(&transaction);
                    self.follow(step, outbound, Ghost(before))
                },
                Event::Received(bytes) => match Transaction::decode(bytes.as_slice()) {
                    Ok(transaction) => {
                        let step = self.node.add_transaction(&transaction);
                        self.follow(step, None, Ghost(before))
                    },
                    Err(e) => Action::Stop(NodeError::Decode(e)),
                },
                Event::Completed(_) => Action::Wait,
            },
            Phase::Storing(outbound) => match event {
                Event::Completed(written) => {
                    let step = self.node.resume(written);
                    self.follow(step, outbound, Ghost(before))
                },
                _ => Action::Wait,
            },
            Phase::Submitting(outbound) => self.settle(outbound),
            Phase::Broadcasting => match event {
                Event::Completed(true) => Action::Wait,
                _ => Action::Stop(NodeError::ChannelClosed),
            },
        }
    }
}

/// Whether the orchestrator neither sends just now nor holds bytes back to
/// send later.
pub open spec fn sends_nothing(phase: PhaseView) -> bool {
    match phase {
        PhaseView::Waiting => true,
        PhaseView::Storing(outbound) => outbound is None,
        PhaseView::Submitting(outbound) => outbound is None,
        PhaseView::Broadcasting => false,
    }
}

/// A message from the network is never sent on, and neither is anything on
/// a tick: the answer to either is no send, and no bytes are held back.
pub proof fn lemma_only_requests_are_sent_on(o: OrchestratorView, event: EventView)
    requires
        o.phase is Waiting,
        event is Tick || event is Received,
    ensures
        !(o.handle(event).1 is Broadcast),
        sends_nothing(o.handle(event).0.phase),
{
}

/// While no bytes are held back, nothing is sent: the answer to a completion
/// is no send, and still no bytes are held back.
pub proof fn lemma_nothing_held_back_nothing_sent(o: OrchestratorView, done: bool)
    requires
        sends_nothing(o.phase),
    ensures
        !(o.handle(EventView::Completed(done)).1 is Broadcast),
        sends_nothing(o.handle(EventView::Completed(done)).0.phase),
{
}

/// A transaction from the request channel is sent on exactly if a peer is
/// configured: its canonical bytes are held back for the peer from the
/// moment it is taken up.
pub proof fn lemma_requests_are_sent_to_the_peer(o: OrchestratorView, tx: TransactionView)
    requires
        o.phase is Waiting,
    ensures
        o.handle(EventView::Submitted(tx)).0.phase == PhaseView::Storing(
            if o.peer is Some {
                Some(tx.encoding())
            } else {
                None
            },
        ),
{
}

/// The orchestrator and its node stay in step: after every answer the node
/// has a write in flight exactly if the orchestrator waits for one.
pub proof fn lemma_handle_keeps_in_step(o: OrchestratorView, event: EventView)
    requires
        o.wf(),
        event is Completed || o.phase is Waiting,
    ensures
        o.handle(event).0.wf(),
{
}

/// A tick, worked off: the new block number is written, then the whole pool
/// is submitted under the old block number, then the orchestrator waits
/// again, whether the submission succeeded or not. Nothing is sent.
pub proof fn lemma_tick_worked_off(o: OrchestratorView, submitted: bool)
    requires
        o.wf(),
        o.phase is Waiting,
        o.node.block_number < u64::MAX,
    ensures
        ({
            let next = (o.node.block_number + 1) as u64;
            let (o1, a1) = o.handle(EventView::Tick);
            let (o2, a2) = o1.handle(EventView::Completed(true));
            let (o3, a3) = o2.handle(EventView::Completed(submitted));
            &&& a1 == ActionView::Write { key: block_number_key(), value: le_bytes(next as nat, 8) }
            &&& a2 == ActionView::Submit(
                BlockView { block_number: o.node.block_number, transactions: o.node.pool },
            )
            &&& a3 == ActionView::Wait
            &&& o3 == OrchestratorView {
                node: NodeView {
                    block_number: next,
                    pool: Seq::empty(),
                    pending: PendingView::Idle,
                },
                ..o
            }
        }),
{
}

/// A transaction from the request channel that does not fill the pool,
/// worked off with a peer configured: it is recorded, it enters the pool,
/// and its canonical bytes are sent to the peer. No batch is submitted.
pub proof fn lemma_request_worked_off(o: OrchestratorView, tx: TransactionView, peer: Seq<char>)
    requires
        o.wf(),
        o.phase is Waiting,
        o.peer == Some(peer),
        inserted(o.node.pool, tx).len() < ROLLUP_SIZE,
    ensures
        ({
            let (o1, a1) = o.handle(EventView::Submitted(tx));
            let (o2, a2) = o1.handle(EventView::Completed(true));
            let (o3, a3) = o2.handle(EventView::Completed(true));
            &&& a1 == ActionView::Write { key: tx.content_hash(), value: tx.encoding() }
            &&& a2 == ActionView::Broadcast { peer, message: tx.encoding() }
            &&& a3 == ActionView::Wait
            &&& o3 == OrchestratorView {
                node: NodeView { pool: inserted(o.node.pool, tx), ..o.node },
                ..o
            }
        }),
{
}

/// A failed record stops the work before anything else happens: the pool
/// and the block number are as they were, and nothing is submitted or sent.
pub proof fn lemma_failed_record_changes_nothing(o: OrchestratorView, tx: TransactionView)
    requires
        o.wf(),
        o.phase is Waiting,
    ensures
        ({
            let (o1, a1) = o.handle(EventView::Submitted(tx));
            let (o2, a2) = o1.handle(EventView::Completed(false));
            &&& a2 == ActionView::Stop(NodeError::Storage)
            &&& o2 == o
        }),
{
}

} // verus!
