//! What the node is started with.

use vstd::prelude::*;
use crate::error::NodeError;

verus! {

/// The command line.
pub struct Cli {
    pub command: Commands,
}

/// What the command line asks for.
pub enum Commands {
    /// Start the node.
    Start {
        /// The identifier of the peer that accepted transactions are forwarded to.
        peer_id: Option<String>,
        /// The address at which that peer listens.
        peer_listen_addr: Option<String>,
        /// The address at which the node answers requests.
        json_server_url: String,
        /// Where the durable store lives.
        db_path: String,
    },
}

/// The peer that a pair of options names: both given name a peer, neither
/// given names none, and one without the other is an error.
pub open spec fn configured_peer(peer_id: Option<Seq<char>>, peer_listen_addr: Option<Seq<char>>)
    -> Result<Option<(Seq<char>, Seq<char>)>, NodeError> {
    match (peer_id, peer_listen_addr) {
        (Some(id), Some(addr)) => Ok(Some((id, addr))),
        (None, None) => Ok(None),
        _ => Err(NodeError::Config),
    }
}

/// The view of an optional string.
pub open spec fn text(s: Option<String>) -> Option<Seq<char>> {
    match s {
        Some(s) => Some(s@),
        None => None,
    }
}

impl Commands {
    /// The peer to forward to, as identifier and address, if one is
    /// configured.
    pub fn peer(&self) -> (r: Result<Option<(String, String)>, NodeError>)
        ensures
            match (r, configured_peer(text(self->peer_id), text(self->peer_listen_addr))) {
                (Ok(Some(peer)), Ok(Some(expected))) => peer.0@ == expected.0 && peer.1@
                    == expected.1,
                (Ok(None), Ok(None)) => true,
                (Err(e), Err(expected)) => e == expected,
                _ => false,
            },
    {
        match self {
            Commands::Start { peer_id, peer_listen_addr, .. } => match (peer_id, peer_listen_addr) {
                (Some(id), Some(addr)) => Ok(Some((id.clone(), addr.clone()))),
                (None, None) => Ok(None),
                _ => Err(NodeError::Config),
            },
        }
    }
}

} // verus!
