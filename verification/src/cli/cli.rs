use vstd::prelude::*;

verus! {

/// The command line of the demo: one command.
pub struct Cli {
    pub command: NodeCommands,
}

/// Commands on the demo's nodes.
pub enum NodeCommands {
    /// List all nodes created in the demo.
    All,
    /// Start the node and register it with the server.
    Start {
        /// Name of the node to start.
        name: String,
        /// Server address to register with (ip:port).
        server: String,
    },
    /// Stop the node server.
    Stop {
        /// Name of the node to stop.
        name: String,
    },
    /// Get the status of the node.
    Status {
        /// Name of the node to check status for.
        name: String,
    },
    /// Manage peers of a node.
    Peers {
        /// Name of the node.
        name: String,
        command: PeerCommands,
    },
    /// Send a message from one node to another.
    Send {
        /// Name of the sender node.
        from: String,
        /// Name of the destination node.
        to: String,
        /// The message content.
        message: String,
        /// Time to live in seconds.
        ttl: u64,
    },
}

/// Commands on a node's peers, which are named by node name.
pub enum PeerCommands {
    /// List all known peers.
    ListPeers,
    /// Fetch one or more peers from the server by UUID.
    GetConnectedPeers {
        /// One or more peer UUIDs.
        ids: Vec<String>,
    },
    /// Add a peer by name to the local peer list.
    Add {
        /// Name of the peer to add.
        name: String,
    },
    /// Remove a peer by name from the local peer list.
    Remove {
        /// Name of the peer to remove.
        name: String,
    },
}

} // verus!
