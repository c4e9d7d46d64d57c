//! Hermes: end-to-end encrypted peer-to-peer messaging.
//!
//! The crate holds the node (`crypto`, `protocol`, `discovery`, `network`,
//! `utils`) and the messaging back end (`backend`): its crypto service, its
//! protocol handler for messages, groups and file transfers, node discovery
//! and onion circuits.
pub mod backend;
pub mod clock;
pub mod collections;
pub mod crypto;
pub mod discovery;
pub mod hex;
pub mod keys;
pub mod network;
pub mod primitives;
pub mod protocol;
pub mod utils;

pub use discovery::NodeDiscovery;
pub use network::NetworkService;
pub use protocol::{Message as ProtocolMessage, MessageType as ProtocolMessageType};

use vstd::prelude::*;

verus! {

/// The node's name for an onion router; the node itself builds no circuits
/// (the back end's `OnionRouter` does).
#[derive(Debug, Clone, Copy)]
pub struct OnionRouter;

/// The node's name for a relay node; see the back end's `OnionNode`.
#[derive(Debug, Clone, Copy)]
pub struct OnionNode;

/// The node's name for a circuit; see the back end's `OnionCircuit`.
#[derive(Debug, Clone, Copy)]
pub struct OnionCircuit;

} // verus!
