//! Onion circuits: a router keeps the circuits it built, each a path of two
//! or three nodes with a session key, and hands the messages for the first
//! hop to its caller.
use crate::backend::crypto::{encryptable, session_key_from_seed, session_sealed, CryptoService};
use crate::collections::StrMap;
use crate::keys::CryptoError;
use crate::primitives::uuid_v4_string;
use vstd::prelude::*;

verus! {

/// The most nodes on a circuit.
pub const MAX_HOPS: usize = 3;

/// The fewest nodes on a circuit.
pub const MIN_HOPS: usize = 2;

/// A relay node.
#[derive(Debug)]
pub struct OnionNode {
    pub id: String,
    pub public_key: Vec<u8>,
    pub address: String,
}

/// The spec form of a node.
pub struct NodeView {
    pub id: Seq<char>,
    pub public_key: Seq<u8>,
    pub address: Seq<char>,
}

impl View for OnionNode {
    type V = NodeView;

    open spec fn view(&self) -> NodeView {
        NodeView { id: self.id@, public_key: self.public_key@, address: self.address@ }
    }
}

/// The views of a sequence of nodes.
pub open spec fn node_views(nodes: Seq<OnionNode>) -> Seq<NodeView> {
    nodes.map_values(|n: OnionNode| n@)
}

impl OnionNode {
    /// A copy of the node.
    pub fn copy(&self) -> (r: OnionNode)
        ensures
            r@ == self@,
    {
        let r = OnionNode {
            id: self.id.clone(),
            public_key: self.public_key.clone(),
            address: self.address.clone(),
        };
        assert(r.public_key@ =~= self.public_key@);
        r
    }
}

/// A circuit: its id, its nodes from the first hop on, and its session key.
#[derive(Debug)]
pub struct OnionCircuit {
    pub id: String,
    pub nodes: Vec<OnionNode>,
    pub session_key: Vec<u8>,
}

/// The spec form of a circuit.
pub struct CircuitView {
    pub id: Seq<char>,
    pub nodes: Seq<NodeView>,
    pub session_key: Seq<u8>,
}

impl View for OnionCircuit {
    type V = CircuitView;

    open spec fn view(&self) -> CircuitView {
        CircuitView { id: self.id@, nodes: node_views(self.nodes@), session_key: self.session_key@ }
    }
}

/// What the router hands the first hop of a circuit.
#[derive(Debug)]
pub enum OnionMessage {
    CreateCircuit(Vec<OnionNode>),
    /// circuit id, encrypted data
    RelayMessage(String, Vec<u8>),
    DestroyCircuit(String),
}

/// Failures of the router.
#[derive(Debug, Clone, Copy, PartialEq, Eq)]
pub enum OnionError {
    /// A circuit needs between `MIN_HOPS` and `MAX_HOPS` nodes.
    InvalidHopCount,
    /// No circuit has the given id.
    CircuitNotFound,
    /// The session key could not be made or used.
    Crypto(CryptoError),
}

/// The router: its circuits by id, and the messages for first hops, oldest first.
#[derive(Debug)]
pub struct OnionRouter {
    pub crypto_service: CryptoService,
    pub circuits: StrMap<OnionCircuit>,
    pub outbox: Vec<OnionMessage>,
}

/// The spec form of the router.
#[verifier::ext_equal]
pub struct RouterState {
    pub circuits: Map<Seq<char>, CircuitView>,
    pub outbox: Seq<OnionMessage>,
}

impl View for OnionRouter {
    type V = RouterState;

    open spec fn view(&self) -> RouterState {
        RouterState {
            circuits: self.circuits@.map_values(|c: OnionCircuit| c@),
            outbox: self.outbox@,
        }
    }
}

/// A session key as the crypto service makes them: 32 bytes derived from a
/// 32-byte random seed.
pub open spec fn is_session_key(k: Seq<u8>) -> bool {
    k.len() == 32 && exists|seed: Seq<u8>| seed.len() == 32 && k == #[trigger] session_key_from_seed(seed)
}

impl OnionRouter {
    /// The table is well formed and every circuit has a session key.
    pub open spec fn wf(&self) -> bool {
        &&& self.circuits.wf()
        &&& forall|k: Seq<char>| #[trigger] self.circuits@.contains_key(k) ==> self.circuits@[k].session_key@.len() == 32
    }

    /// A router without circuits.
    pub fn new(crypto_service: CryptoService) -> (r: Self)
        ensures
            r.wf(),
            r@.circuits == Map::<Seq<char>, CircuitView>::empty(),
            r@.outbox == Seq::<OnionMessage>::empty(),
    {
        let r = OnionRouter { crypto_service, circuits: StrMap::new(), outbox: Vec::new() };
        assert(r@.circuits =~= Map::<Seq<char>, CircuitView>::empty());
        r
    }

    /// Builds a circuit through `nodes` with a fresh session key and a fresh
    /// 36-character id, records it, and asks the first hop to create it.
    /// A path of fewer than `MIN_HOPS` or more than `MAX_HOPS` nodes is refused.
    pub fn create_circuit(&mut self, nodes: Vec<OnionNode>) -> (r: Result<String, OnionError>)
        requires
            old(self).wf(),
        ensures
            final(self).wf(),
            r is Err <==> !(MIN_HOPS <= nodes@.len() <= MAX_HOPS),
            r is Err ==> r == Err::<String, OnionError>(OnionError::InvalidHopCount) && final(self)@ == old(self)@,
            r matches Ok(id) ==> ({
                &&& id@.len() == 36
                &&& final(self)@.circuits.contains_key(id@)
                &&& is_session_key(final(self)@.circuits[id@].session_key)
                &&& final(self)@.circuits == old(self)@.circuits.insert(
                    id@,
                    CircuitView {
                        id: id@,
                        nodes: node_views(nodes@),
                        session_key: final(self)@.circuits[id@].session_key,
                    },
                )
                &&& final(self)@.outbox.len() == old(self)@.outbox.len() + 1
                &&& final(self)@.outbox.drop_last() == old(self)@.outbox
                &&& final(self)@.outbox.last() matches OnionMessage::CreateCircuit(path)
                &&& node_views(final(self)@.outbox.last()->CreateCircuit_0@) == node_views(nodes@)
            }),
    {
        if nodes.len() < MIN_HOPS || nodes.len() > MAX_HOPS {
            return Err(OnionError::InvalidHopCount);
        }
        let session_key = match self.crypto_service.generate_session_key() {
            Ok(k) => k,
            Err(e) => {
                return Err(OnionError::Crypto(e));
            },
        };
        let mut path: Vec<OnionNode> = Vec::new();
        let mut i: usize = 0;
        while i < nodes.len()
            invariant
                i <= nodes@.len(),
                node_views(path@) == node_views(nodes@).take(i as int),
            decreases nodes@.len() - i,
        {
            let ghost before = path@;
            path.push(nodes[i].copy());
            assert(node_views(path@) =~= node_views(before).push(nodes@[i as int]@));
            assert(node_views(nodes@).take(i + 1) =~= node_views(nodes@).take(i as int).push(nodes@[i as int]@));
            i = i + 1;
        }
        assert(node_views(nodes@).take(i as int) =~= node_views(nodes@));
        let id = uuid_v4_string();
        let ghost pre = self@;
        let ghost key = session_key@;
        let circuit = OnionCircuit { id: id.clone(), nodes: path, session_key };
        self.circuits.insert(id.clone(), circuit);
        self.outbox.push(OnionMessage::CreateCircuit(nodes));
        proof {
            assert(self@.circuits =~= pre.circuits.insert(
                id@,
                CircuitView { id: id@, nodes: node_views(nodes@), session_key: key },
            ));
            assert(self@.outbox.drop_last() =~= pre.outbox);
        }
        Ok(id)
    }

    /// Encrypts `message` under the session key of circuit `circuit_id` and
    /// hands it to the circuit's first hop.  An unknown circuit is refused.
    pub fn send_message(&mut self, circuit_id: &str, message: &[u8]) -> (r: Result<(), OnionError>)
        requires
            old(self).wf(),
        ensures
            final(self).wf(),
            !old(self)@.circuits.contains_key(circuit_id@) ==> r == Err::<(), OnionError>(OnionError::CircuitNotFound)
                && final(self)@ == old(self)@,
            old(self)@.circuits.contains_key(circuit_id@) && !encryptable(message@.len()) ==> r == Err::<
                (),
                OnionError,
            >(OnionError::Crypto(CryptoError::Encryption)) && final(self)@ == old(self)@,
            r is Ok ==> ({
                let key = old(self)@.circuits[circuit_id@].session_key;
                &&& final(self)@.circuits == old(self)@.circuits
                &&& final(self)@.outbox.len() == old(self)@.outbox.len() + 1
                &&& final(self)@.outbox.drop_last() == old(self)@.outbox
                &&& final(self)@.outbox.last() matches OnionMessage::RelayMessage(cid, data)
                &&& final(self)@.outbox.last()->RelayMessage_0@ == circuit_id@
                &&& final(self)@.outbox.last()->RelayMessage_1@.len() >= 12
                &&& final(self)@.outbox.last()->RelayMessage_1@ == session_sealed(
                    key,
                    final(self)@.outbox.last()->RelayMessage_1@.take(12),
                    message@,
                )
            }),
            old(self)@.circuits.contains_key(circuit_id@) && encryptable(message@.len()) ==> r is Ok,
    {
        let encrypted = match self.circuits.get(circuit_id) {
            Some(circuit) => {
                assert(self.circuits@.contains_key(circuit_id@));
                self.crypto_service.encrypt_with_session_key(message, circuit.session_key.as_slice())
            },
            None => {
                return Err(OnionError::CircuitNotFound);
            },
        };
        match encrypted {
            Ok(data) => {
                let ghost pre = self@;
                let relay = OnionMessage::RelayMessage(circuit_id.to_owned(), data);
                self.outbox.push(relay);
                assert(self@.outbox.drop_last() =~= pre.outbox);
                Ok(())
            },
            Err(e) => Err(OnionError::Crypto(e)),
        }
    }

    /// Forgets circuit `circuit_id` and asks its first hop to tear it down;
    /// an unknown circuit changes nothing.
    pub fn destroy_circuit(&mut self, circuit_id: &str) -> (r: Result<(), OnionError>)
        requires
            old(self).wf(),
        ensures
            final(self).wf(),
            r is Ok,
            final(self)@.circuits == old(self)@.circuits.remove(circuit_id@),
            !old(self)@.circuits.contains_key(circuit_id@) ==> final(self)@.outbox == old(self)@.outbox,
            old(self)@.circuits.contains_key(circuit_id@) ==> ({
                &&& final(self)@.outbox.len() == old(self)@.outbox.len() + 1
                &&& final(self)@.outbox.drop_last() == old(self)@.outbox
                &&& final(self)@.outbox.last() matches OnionMessage::DestroyCircuit(cid)
                &&& final(self)@.outbox.last()->DestroyCircuit_0@ == circuit_id@
            }),
    {
        let ghost pre = self@;
        if let Some(_circuit) = self.circuits.remove(circuit_id) {
            self.outbox.push(OnionMessage::DestroyCircuit(circuit_id.to_owned()));
            assert(self@.outbox.drop_last() =~= pre.outbox);
        }
        assert(self@.circuits =~= pre.circuits.remove(circuit_id@));
        Ok(())
    }
}

} // verus!
