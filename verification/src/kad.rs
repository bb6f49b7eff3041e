//! Identifiers of the Kademlia overlay.

pub mod node;
