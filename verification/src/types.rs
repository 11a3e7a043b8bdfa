//! Plain values shared by every component: identities, addresses, node
//! records and the configuration surface.
use vstd::prelude::*;

verus! {

/// Topic under which nodes subscribe to new fragments.
pub const NEW_MESSAGES_TOPIC: u32 = 0;

/// Topic under which nodes subscribe to new blocks.
pub const NEW_BLOCKS_TOPIC: u32 = 1;

/// Connection timeout of a peer that was given none, in microseconds.
pub const DEFAULT_TIMEOUT_MICROSECONDS: u64 = 500_000;

/// Identity of a node: the 32 bytes of its public key, as two big-endian
/// halves.
#[derive(Clone, Copy, PartialEq, Eq, Structural, Debug, Hash)]
pub struct NodeIdentity {
    pub hi: u128,
    pub lo: u128,
}

/// The secret from which a node's identity is derived: the 32 bytes of an
/// Ed25519 seed.
#[derive(Clone, Copy, PartialEq, Eq, Debug)]
pub struct PrivateId {
    pub seed: [u8; 32],
}

/// Hash of a block header, as two big-endian halves of its 32 bytes.
#[derive(Clone, Copy, PartialEq, Eq, Structural, Debug, Hash)]
pub struct HeaderHash {
    pub hi: u128,
    pub lo: u128,
}

/// Blocks are identified by the hash of their header.
pub type BlockId = HeaderHash;

/// A TCP endpoint.
#[derive(Clone, Copy, PartialEq, Eq, Structural, Debug, Hash)]
pub enum SocketAddress {
    V4 { ip: u32, port: u16 },
    V6 { ip: u128, port: u16 },
}

/// The address a node advertises. Only the two TCP forms can be dialed; any
/// other form is carried by a key under which the caller keeps it.
#[derive(Clone, Copy, PartialEq, Eq, Structural, Debug, Hash)]
pub enum Address {
    Tcp4 { ip: u32, port: u16 },
    Tcp6 { ip: u128, port: u16 },
    Other { key: u64 },
}

impl Address {
    /// The endpoint this address names, if it names one.
    pub open spec fn socket(self) -> Option<SocketAddress> {
        match self {
            Address::Tcp4 { ip, port } => Some(SocketAddress::V4 { ip, port }),
            Address::Tcp6 { ip, port } => Some(SocketAddress::V6 { ip, port }),
            Address::Other { .. } => None,
        }
    }

    pub fn to_socketaddr(&self) -> (r: Option<SocketAddress>)
        ensures
            r == self.socket(),
    {
        match *self {
            Address::Tcp4 { ip, port } => Some(SocketAddress::V4 { ip, port }),
            Address::Tcp6 { ip, port } => Some(SocketAddress::V6 { ip, port }),
            Address::Other { .. } => None,
        }
    }
}

/// How much a node cares for a topic.
#[derive(Clone, Copy, PartialEq, Eq, Structural, Debug)]
pub enum InterestLevel {
    Low,
    Normal,
    High,
}

/// A subject of publication, by number.
#[derive(Clone, Copy, PartialEq, Eq, Structural, Debug)]
pub struct Topic(pub u32);

/// Wire protocol of a connection.
#[derive(Clone, Copy, PartialEq, Eq, Structural, Debug)]
pub enum Protocol {
    Ntt,
    Grpc,
}

/// What is known of one node: who it is, where it can be reached, what it
/// subscribes to, and when it was last heard of.
#[derive(Clone, Copy, PartialEq, Eq, Debug)]
pub struct NodeRecord {
    pub id: NodeIdentity,
    pub address: Option<Address>,
    pub blocks: Option<InterestLevel>,
    pub messages: Option<InterestLevel>,
    pub last_seen: u64,
}

impl NodeRecord {
    /// The endpoint at which the node can be dialed, if any.
    pub open spec fn socket(self) -> Option<SocketAddress> {
        match self.address {
            Some(a) => a.socket(),
            None => None,
        }
    }

    /// A record without subscriptions that was never heard of.
    pub fn new(id: NodeIdentity, address: Option<Address>) -> (node: NodeRecord)
        ensures
            node == (NodeRecord { id, address, blocks: None, messages: None, last_seen: 0 }),
    {
        NodeRecord { id, address, blocks: None, messages: None, last_seen: 0 }
    }

    pub fn id(&self) -> (id: NodeIdentity)
        ensures
            id == self.id,
    {
        self.id
    }

    pub fn address(&self) -> (r: Option<SocketAddress>)
        ensures
            r == self.socket(),
    {
        match self.address {
            Some(a) => a.to_socketaddr(),
            None => None,
        }
    }

    pub fn add_block_subscription(&mut self, level: InterestLevel)
        ensures
            *final(self) == (NodeRecord { blocks: Some(level), ..*old(self) }),
    {
        self.blocks = Some(level);
    }

    pub fn add_message_subscription(&mut self, level: InterestLevel)
        ensures
            *final(self) == (NodeRecord { messages: Some(level), ..*old(self) }),
    {
        self.messages = Some(level);
    }
}

/// A peer to connect to, with the protocol to speak and the time to wait.
#[derive(Clone, Copy, PartialEq, Eq, Structural, Debug)]
pub struct Peer {
    pub connection: SocketAddress,
    pub protocol: Protocol,
    pub timeout: u64,
}

impl Peer {
    /// The peer at `connection` that is dialed the usual way.
    pub open spec fn grpc(connection: SocketAddress) -> Peer {
        Peer { connection, protocol: Protocol::Grpc, timeout: DEFAULT_TIMEOUT_MICROSECONDS }
    }

    pub fn new(connection: SocketAddress, protocol: Protocol) -> (peer: Peer)
        ensures
            peer == (Peer { connection, protocol, timeout: DEFAULT_TIMEOUT_MICROSECONDS }),
    {
        Peer { connection, protocol, timeout: DEFAULT_TIMEOUT_MICROSECONDS }
    }

    pub fn with_timeout(connection: SocketAddress, protocol: Protocol, timeout: u64) -> (peer:
        Peer)
        ensures
            peer == (Peer { connection, protocol, timeout }),
    {
        Peer { connection, protocol, timeout }
    }
}

/// The endpoint on which the node accepts connections.
#[derive(Clone, Copy, PartialEq, Eq, Structural, Debug)]
pub struct Listen {
    pub connection: SocketAddress,
    pub protocol: Protocol,
    pub timeout: u64,
}

/// A peer named in the configuration: always eligible, never evicted.
#[derive(Clone, Copy, PartialEq, Eq, Structural, Debug)]
pub struct TrustedPeer {
    pub id: NodeIdentity,
    pub address: Address,
}

/// What the network core reads of the node's settings.
#[derive(Clone, Debug)]
pub struct Configuration {
    /// The address under which other nodes reach this one, if any.
    pub public_address: Option<Address>,
    /// The secret behind this node's identity.
    pub private_id: PrivateId,
    /// Where to accept connections; `None` for an outbound-only node.
    pub listen_address: Option<SocketAddress>,
    /// The protocol to listen with and to dial with.
    pub protocol: Protocol,
    /// Peers named by the operator, in the order given.
    pub trusted_peers: Vec<TrustedPeer>,
    /// Topics this node subscribes to; of two entries for one topic the
    /// later one counts.
    pub subscriptions: Vec<(Topic, InterestLevel)>,
    /// Bound on the number of peer handles kept at a time.
    pub max_connections: usize,
    /// Time to wait for a connection, in microseconds.
    pub timeout: u64,
}

impl Configuration {
    /// The listening endpoint the settings ask for.
    pub open spec fn listen_spec(&self) -> Option<Listen> {
        match self.listen_address {
            Some(connection) => Some(
                Listen { connection, protocol: self.protocol, timeout: self.timeout },
            ),
            None => None,
        }
    }

    pub fn listen(&self) -> (r: Option<Listen>)
        ensures
            r == self.listen_spec(),
    {
        match self.listen_address {
            Some(connection) => Some(
                Listen { connection, protocol: self.protocol, timeout: self.timeout },
            ),
            None => None,
        }
    }
}

} // verus!
