//! The decisions of the node's network service, apart from the sockets: the
//! table of open connections, what each network event asks for, the address
//! tried for a peer without a connection, the messages the node sends, and
//! the framing of messages on a stream (a 4-byte big-endian length, then the
//! bytes).
use crate::backend::crypto::append_bytes;
use crate::collections::StrSet;
use crate::crypto::CryptoService;
use crate::primitives::uuid_v4_string;
use crate::protocol::{Message, MessageType, ProtocolHandler};
use vstd::prelude::*;
use vstd::string::{StrSliceExecFns, StringExecFns};

verus! {

/// The port tried for a peer whose address is not known.
pub const FALLBACK_PORT: &'static str = ":9000";

/// What the network service is told: by its user, or by the tasks that run
/// its connections.  Addresses are given as text.
#[derive(Debug)]
pub enum NetworkMessage {
    Connect(String, String),
    SendMessage(String, Vec<u8>),
    Disconnect(String),
    ConnectionEstablished(String),
    ConnectionClosed(String),
    MessageReceived(String, Vec<u8>),
    Error(String),
}

/// What the service asks its caller to do about an event.
#[derive(Debug)]
pub enum NetworkAction {
    /// Nothing is to be done.
    Nothing,
    /// Open a connection to the peer at the address.
    Dial(String, String),
    /// Send the data to the peer, as `send_message` describes.
    Send(String, Vec<u8>),
    /// Try to read the data received from the peer as a message.
    Decode(String, Vec<u8>),
}

/// `i` is where the first `-` of `s` stands, or the length of `s` when there is none.
pub open spec fn is_dash_position(s: Seq<char>, i: int) -> bool {
    &&& 0 <= i <= s.len()
    &&& forall|j: int| 0 <= j < i ==> s[j] != '-'
    &&& (i == s.len() || s[i] == '-')
}

/// The address tried for a peer without a connection: the part of its id
/// before the first `-`, at `FALLBACK_PORT`.
pub open spec fn fallback_address_of(peer: Seq<char>) -> Seq<char> {
    peer.take(choose|i: int| is_dash_position(peer, i)) + FALLBACK_PORT@
}

/// The four big-endian bytes of `x`.
pub open spec fn be_bytes(x: u32) -> Seq<u8> {
    seq![(x >> 24u32) as u8, (x >> 16u32) as u8, (x >> 8u32) as u8, x as u8]
}

/// The number whose big-endian bytes are `b0 b1 b2 b3`.
pub open spec fn be_value(b0: u8, b1: u8, b2: u8, b3: u8) -> u32 {
    ((b0 as u32) << 24u32) | ((b1 as u32) << 16u32) | ((b2 as u32) << 8u32) | (b3 as u32)
}

/// A message on the wire: its length cut to 32 bits, big-endian, then its bytes.
pub open spec fn framed(payload: Seq<u8>) -> Seq<u8> {
    be_bytes(payload.len() as u32) + payload
}

/// Reading a number back from its big-endian bytes gives the number.
pub proof fn lemma_be_roundtrip(x: u32)
    ensures
        be_value(be_bytes(x)[0], be_bytes(x)[1], be_bytes(x)[2], be_bytes(x)[3]) == x,
{
    let b0 = (x >> 24u32) as u8;
    let b1 = (x >> 16u32) as u8;
    let b2 = (x >> 8u32) as u8;
    let b3 = x as u8;
    assert(((b0 as u32) << 24u32) | ((b1 as u32) << 16u32) | ((b2 as u32) << 8u32) | (b3 as u32) == x)
        by (bit_vector)
        requires
            b0 == (x >> 24u32) as u8,
            b1 == (x >> 16u32) as u8,
            b2 == (x >> 8u32) as u8,
            b3 == x as u8,
    ;
}

/// The four big-endian bytes of `x`.
pub fn u32_to_be_bytes(x: u32) -> (b: Vec<u8>)
    ensures
        b@ == be_bytes(x),
{
    let b: Vec<u8> = vec![(x >> 24u32) as u8, (x >> 16u32) as u8, (x >> 8u32) as u8, x as u8];
    assert(b@ =~= be_bytes(x));
    b
}

/// The number whose big-endian bytes are the four bytes of `header`.
pub fn frame_length(header: &[u8]) -> (n: u32)
    requires
        header@.len() == 4,
    ensures
        n == be_value(header@[0], header@[1], header@[2], header@[3]),
{
    ((header[0] as u32) << 24u32) | ((header[1] as u32) << 16u32) | ((header[2] as u32) << 8u32) | (header[3] as u32)
}

/// Frames `payload` for a stream: its length cut to 32 bits, big-endian,
/// then its bytes.
pub fn frame_message(payload: &[u8]) -> (frame: Vec<u8>)
    ensures
        frame@ == framed(payload@),
{
    #[verifier::truncate]
    let len = payload.len() as u32;
    let mut frame = u32_to_be_bytes(len);
    append_bytes(&mut frame, payload);
    frame
}

/// Takes the first complete frame off the front of `buffer`: its payload
/// and the number of bytes it took, or nothing while the frame is incomplete.
pub fn split_frame(buffer: &[u8]) -> (r: Option<(Vec<u8>, usize)>)
    ensures
        buffer@.len() < 4 ==> r is None,
        buffer@.len() >= 4 ==> ({
            let n = be_value(buffer@[0], buffer@[1], buffer@[2], buffer@[3]);
            &&& (r is None <==> buffer@.len() < 4 + n)
            &&& (r matches Some((payload, used)) ==> used == 4 + n && payload@ == buffer@.subrange(4, used as int))
        }),
{
    if buffer.len() < 4 {
        return None;
    }
    let n = frame_length(&buffer[0..4]) as usize;
    if buffer.len() - 4 < n {
        return None;
    }
    let used = 4 + n;
    let mut payload: Vec<u8> = Vec::new();
    append_bytes(&mut payload, &buffer[4..used]);
    Some((payload, used))
}

/// Whatever follows a frame, the frame comes back off the front whole.
pub proof fn lemma_frame_roundtrip(payload: Seq<u8>, rest: Seq<u8>)
    requires
        payload.len() < 0x1_0000_0000,
    ensures
        ({
            let buffer = framed(payload) + rest;
            &&& buffer.len() >= 4
            &&& be_value(buffer[0], buffer[1], buffer[2], buffer[3]) == payload.len()
            &&& buffer.subrange(4, 4 + payload.len() as int) == payload
        }),
{
    let x = payload.len() as u32;
    assert(x == payload.len());
    lemma_be_roundtrip(x);
    let buffer = framed(payload) + rest;
    assert(buffer[0] == be_bytes(x)[0]);
    assert(buffer[1] == be_bytes(x)[1]);
    assert(buffer[2] == be_bytes(x)[2]);
    assert(buffer[3] == be_bytes(x)[3]);
    assert(buffer.subrange(4, 4 + payload.len() as int) =~= payload);
}

/// The address tried for a peer without a connection; see `fallback_address_of`.
pub fn fallback_address(peer_id: &str) -> (a: String)
    ensures
        a@ == fallback_address_of(peer_id@),
{
    let n = peer_id.unicode_len();
    let mut i: usize = 0;
    while i < n
        invariant
            n == peer_id@.len(),
            i <= n,
            forall|j: int| 0 <= j < i ==> peer_id@[j] != '-',
        ensures
            i <= n,
            forall|j: int| 0 <= j < i ==> peer_id@[j] != '-',
            i == n || peer_id@[i as int] == '-',
        decreases n - i,
    {
        if peer_id.get_char(i) == '-' {
            break;
        }
        i = i + 1;
    }
    proof {
        assert(is_dash_position(peer_id@, i as int));
        let c = choose|c: int| is_dash_position(peer_id@, c);
        if c < i {
            assert(peer_id@[c] == '-');
        } else if c > i {
            assert(peer_id@[i as int] == '-');
        }
        assert(c == i);
    }
    let mut address = peer_id.substring_char(0, i).to_owned();
    address.append(FALLBACK_PORT);
    assert(peer_id@.subrange(0, i as int) =~= peer_id@.take(i as int));
    address
}

/// The node's network service, apart from its sockets.
#[derive(Debug)]
pub struct NetworkService {
    pub crypto_service: CryptoService,
    pub protocol_handler: ProtocolHandler,
    /// The peers with an open connection.
    pub connections: StrSet,
    pub node_id: String,
}

impl NetworkService {
    /// The connection table is well formed.
    pub open spec fn wf(&self) -> bool {
        self.connections.wf()
    }

    /// A service without connections, under a fresh 36-character node id.
    pub fn new(crypto_service: CryptoService) -> (s: Self)
        ensures
            s.wf(),
            s.connections@ == Set::<Seq<char>>::empty(),
            s.node_id@.len() == 36,
    {
        NetworkService {
            crypto_service,
            protocol_handler: ProtocolHandler::new(),
            connections: StrSet::new(),
            node_id: uuid_v4_string(),
        }
    }

    /// The node's id.
    pub fn get_node_id(&self) -> (id: String)
        ensures
            id@ == self.node_id@,
    {
        self.node_id.clone()
    }

    /// Whether a connection to `peer_id` is open.
    pub fn is_connected(&self, peer_id: &str) -> (b: bool)
        requires
            self.wf(),
        ensures
            b == self.connections@.contains(peer_id@),
    {
        self.connections.contains(peer_id)
    }

    /// Whether connecting to `peer_id` needs a new connection.
    pub fn connect_to_peer(&self, peer_id: &str) -> (dial: bool)
        requires
            self.wf(),
        ensures
            dial == !self.connections@.contains(peer_id@),
    {
        !self.connections.contains(peer_id)
    }

    /// Records an open connection to `peer_id`.
    pub fn connection_opened(&mut self, peer_id: String)
        requires
            old(self).wf(),
        ensures
            final(self).wf(),
            final(self).connections@ == old(self).connections@.insert(peer_id@),
            final(self).node_id == old(self).node_id,
    {
        self.connections.insert(peer_id);
    }

    /// Forgets the connection to `peer_id`.
    pub fn disconnect_from_peer(&mut self, peer_id: &str)
        requires
            old(self).wf(),
        ensures
            final(self).wf(),
            final(self).connections@ == old(self).connections@.remove(peer_id@),
            final(self).node_id == old(self).node_id,
    {
        self.connections.remove(peer_id);
    }

    /// Makes a peer known to discovery; the node keeps no discovery cache, so
    /// nothing changes.
    pub fn add_peer_to_discovery(&self, peer_id: String, address: String) {
    }

    /// Routes the node's traffic through Tor; the node has no Tor transport,
    /// so nothing changes.
    pub fn setup_tor_transport(&self) {
    }

    /// Adds a relay at `address`; the node relays nothing, so nothing changes.
    pub fn add_relay(&self, address: String) {
    }

    /// Announces the node as a relay; the node relays nothing, so nothing changes.
    pub fn register_as_relay(&self) {
    }

    /// Prepares the node to relay; the node relays nothing, so nothing changes.
    pub fn setup_as_relay(&self) {
    }

    /// The message that carries `content` from this node to `peer_id`: a
    /// text message stamped now, with a fresh id.
    pub fn outgoing_message(&self, peer_id: String, content: Vec<u8>) -> (m: Message)
        ensures
            m.sender@ == self.node_id@,
            m.recipient@ == peer_id@,
            m.content@ == content@,
            m.message_type == MessageType::Text,
            m.id@.len() == 36,
    {
        Message::new(self.node_id.clone(), peer_id, content, MessageType::Text)
    }

    /// What an event asks for: a connection request dials unless the peer is
    /// connected; a send request is handed back to be sent; established and
    /// closed connections enter and leave the table, as does a disconnection;
    /// received data is handed back to be read; an error changes nothing.
    pub fn handle_network_message(&mut self, message: NetworkMessage) -> (action: NetworkAction)
        requires
            old(self).wf(),
        ensures
            final(self).wf(),
            final(self).node_id == old(self).node_id,
            match message {
                NetworkMessage::Connect(peer, addr) => {
                    &&& final(self).connections@ == old(self).connections@
                    &&& if old(self).connections@.contains(peer@) {
                        action is Nothing
                    } else {
                        action matches NetworkAction::Dial(p, a) && p@ == peer@ && a@ == addr@
                    }
                },
                NetworkMessage::SendMessage(peer, data) => {
                    &&& final(self).connections@ == old(self).connections@
                    &&& action matches NetworkAction::Send(p, d) && p@ == peer@ && d@ == data@
                },
                NetworkMessage::Disconnect(peer) => {
                    final(self).connections@ == old(self).connections@.remove(peer@) && action is Nothing
                },
                NetworkMessage::ConnectionEstablished(peer) => {
                    final(self).connections@ == old(self).connections@.insert(peer@) && action is Nothing
                },
                NetworkMessage::ConnectionClosed(peer) => {
                    final(self).connections@ == old(self).connections@.remove(peer@) && action is Nothing
                },
                NetworkMessage::MessageReceived(peer, data) => {
                    &&& final(self).connections@ == old(self).connections@
                    &&& action matches NetworkAction::Decode(p, d) && p@ == peer@ && d@ == data@
                },
                NetworkMessage::Error(_) => final(self).connections@ == old(self).connections@ && action is Nothing,
            },
    {
        match message {
            NetworkMessage::Connect(peer, addr) => {
                if self.connect_to_peer(peer.as_str()) {
                    NetworkAction::Dial(peer, addr)
                } else {
                    NetworkAction::Nothing
                }
            },
            NetworkMessage::SendMessage(peer, data) => NetworkAction::Send(peer, data),
            NetworkMessage::Disconnect(peer) => {
                self.disconnect_from_peer(peer.as_str());
                NetworkAction::Nothing
            },
            NetworkMessage::ConnectionEstablished(peer) => {
                self.connection_opened(peer);
                NetworkAction::Nothing
            },
            NetworkMessage::ConnectionClosed(peer) => {
                self.disconnect_from_peer(peer.as_str());
                NetworkAction::Nothing
            },
            NetworkMessage::MessageReceived(peer, data) => NetworkAction::Decode(peer, data),
            NetworkMessage::Error(_) => NetworkAction::Nothing,
        }
    }
}

} // verus!
