use vstd::prelude::*;

verus! {

/// Commands on a single node's peers, which are named by UUID.
pub enum PeerCommands {
    /// List all known peers.
    ListPeers,
    /// Fetch one or more peers from the server by UUID.
    GetConnectedPeers {
        /// One or more peer UUIDs.
        ids: Vec<String>,
    },
    /// Add a peer UUID to the local peer list.
    Add {
        /// UUID of the peer to add.
        id: String,
    },
    /// Remove a peer UUID from the local peer list.
    Remove {
        /// UUID of the peer to remove.
        id: String,
    },
}

} // verus!
