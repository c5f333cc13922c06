//! Core logic of a small gossiping peer for a single machine: the startup
//! command grammar, the set of connected peers, and the decisions a node takes
//! during handshakes, disconnections and periodic gossip.

pub mod messages;
pub mod text;
pub mod cli;
pub mod network;
