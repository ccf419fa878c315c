//! A minimal rollup sequencer.
//!
//! The node accepts transactions, keeps them in a pool, and bundles them into
//! numbered batches: when the pool reaches a threshold, and whenever a timer
//! fires. It records every accepted transaction and the number of the next
//! batch in a durable store, and hands each batch to a submission.
//!
//! This library holds the decisions. What touches the world (the store, the
//! timer, the request endpoint, the network) belongs to the program around
//! it, which performs what the library asks for and reports how it went.
//!
//! - [`blockchain`]: transactions, batches and the pool; [`pool`] holds the
//!   pool's model.
//! - [`wire`]: the canonical bytes of a transaction and its content hash.
//! - [`codec`], [`decimal`], [`digest`]: byte encodings, numbers in requests,
//!   and SHA-256.
//! - [`database`]: what is written to the durable store, and what a stored
//!   value means.
//! - [`node`]: the sequencer, which admits transactions and cuts batches.
//! - [`orchestrator`]: what the event loop does with each event.
//! - [`rollup`]: the submission of a batch.
//! - [`cli`]: the node's configuration.
//! - [`error`]: how operations fail.
//!
//! Everything here is proved but three things, which are believed as their
//! documentation and source give them: what the encoders and decoders of
//! `parity-scale-codec` produce ([`codec`]), that `sha2` computes a function
//! of its input with 32 bytes ([`digest`]), and what std's `parse` accepts
//! as a number ([`decimal`]).

pub mod blockchain;
pub mod cli;
pub mod codec;
pub mod database;
pub mod decimal;
pub mod digest;
pub mod error;
pub mod node;
pub mod orchestrator;
pub mod pool;
pub mod rollup;
pub mod wire;
