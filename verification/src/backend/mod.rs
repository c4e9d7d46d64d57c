//! The messaging back end: its crypto service and its network layer
//! (node discovery, onion circuits, the messaging protocol).
pub mod crypto;
pub mod network;
