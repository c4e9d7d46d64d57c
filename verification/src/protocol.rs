//! The node's message format: a message with its sender, recipient, content,
//! time stamp and kind, and the control messages of the handshake.
use crate::backend::crypto::append_bytes;
use crate::clock::now_secs;
use crate::primitives::uuid_v4_string;
use vstd::prelude::*;

verus! {

/// Who sends the messages the node makes itself.
pub const SYSTEM_SENDER: &'static str = "system";

/// Who receives the messages the node makes itself, until a peer is known.
pub const DEFAULT_RECIPIENT: &'static str = "peer";

/// Control messages.
#[derive(Debug, Clone, Copy, PartialEq, Eq, Structural)]
pub enum ControlMessage {
    Handshake,
    KeyExchange,
    Disconnect,
    CircuitExtend,
    CircuitExtended,
    CircuitCreateFailed,
}

/// Control commands of circuits.
#[derive(Debug, Clone, Copy, PartialEq, Eq, Structural)]
pub enum ControlCommand {
    CircuitExtend,
    CircuitExtended,
    CircuitError,
}

/// The kinds of messages.
#[derive(Debug, Clone, Copy, PartialEq, Eq, Structural)]
pub enum MessageType {
    Text,
    File,
    Control(ControlMessage),
}

/// A message between nodes.
#[derive(Debug)]
pub struct Message {
    pub id: String,
    pub sender: String,
    pub recipient: String,
    pub content: Vec<u8>,
    pub timestamp: u64,
    pub message_type: MessageType,
}

impl Message {
    /// A message stamped with the current time (seconds since the epoch) and
    /// a fresh 36-character id.
    pub fn new(sender: String, recipient: String, content: Vec<u8>, message_type: MessageType) -> (m: Self)
        ensures
            m.sender@ == sender@,
            m.recipient@ == recipient@,
            m.content@ == content@,
            m.message_type == message_type,
            m.id@.len() == 36,
    {
        let timestamp = now_secs();
        Message { id: uuid_v4_string(), sender, recipient, content, timestamp, message_type }
    }

    /// A copy of the message.
    pub fn copy(&self) -> (m: Self)
        ensures
            m.id@ == self.id@,
            m.sender@ == self.sender@,
            m.recipient@ == self.recipient@,
            m.content@ == self.content@,
            m.timestamp == self.timestamp,
            m.message_type == self.message_type,
    {
        let m = Message {
            id: self.id.clone(),
            sender: self.sender.clone(),
            recipient: self.recipient.clone(),
            content: self.content.clone(),
            timestamp: self.timestamp,
            message_type: self.message_type,
        };
        assert(m.content@ =~= self.content@);
        m
    }
}

/// The node's protocol handler; it keeps no state.
#[derive(Debug, Clone, Copy)]
pub struct ProtocolHandler {}

impl ProtocolHandler {
    /// A handler.
    pub fn new() -> (h: Self) {
        ProtocolHandler {  }
    }

    /// Drops expired messages; the handler keeps none, so nothing changes.
    pub fn cleanup_expired_messages(&self) {
    }

    /// Accepts `message` for `recipient`; the handler hands nothing on.
    pub fn send_message(&self, recipient: String, message: Message) {
    }

    /// The handshake that opens a session: from the system to the peer, empty.
    pub fn create_handshake_message(&self) -> (m: Message)
        ensures
            m.sender@ == SYSTEM_SENDER@,
            m.recipient@ == DEFAULT_RECIPIENT@,
            m.content@ == Seq::<u8>::empty(),
            m.message_type == MessageType::Control(ControlMessage::Handshake),
            m.id@.len() == 36,
    {
        Message::new(
            SYSTEM_SENDER.to_owned(),
            DEFAULT_RECIPIENT.to_owned(),
            Vec::new(),
            MessageType::Control(ControlMessage::Handshake),
        )
    }

    /// The key exchange: from the system to the peer, carrying `public_key`.
    pub fn create_key_exchange_message(&self, public_key: &[u8]) -> (m: Message)
        ensures
            m.sender@ == SYSTEM_SENDER@,
            m.recipient@ == DEFAULT_RECIPIENT@,
            m.content@ == public_key@,
            m.message_type == MessageType::Control(ControlMessage::KeyExchange),
            m.id@.len() == 36,
    {
        let mut content: Vec<u8> = Vec::new();
        append_bytes(&mut content, public_key);
        assert(content@ =~= public_key@);
        Message::new(
            SYSTEM_SENDER.to_owned(),
            DEFAULT_RECIPIENT.to_owned(),
            content,
            MessageType::Control(ControlMessage::KeyExchange),
        )
    }
}

} // verus!
