//! The hand-over of a batch to the network that settles it.

use vstd::prelude::*;
use vstd::string::*;
use crate::blockchain::Transaction;
use crate::error::NodeError;

verus! {

/// Submits batches through a client. The submission is simulated: every
/// batch is accepted, the empty one too.
pub struct RollupSubmitter {
    pub client: String,
}

impl RollupSubmitter {
    /// A submitter that goes through the client at `url`.
    pub fn new(url: &str) -> (submitter: Self)
        ensures
            submitter.client@ == url@,
    {
        RollupSubmitter { client: String::from_str(url) }
    }

    /// Submits the batch with the given number. It succeeds on every batch.
    pub fn submit(&self, block_number: u64, transactions: Vec<Transaction>) -> (r: Result<
        (),
        NodeError,
    >)
        ensures
            r == Ok::<(), NodeError>(()),
    {
        Ok(())
    }
}

} // verus!
