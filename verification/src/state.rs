//! The state that every task of the network shares: the genesis hash, the
//! settings, the topology and the registry of peer handles; and what
//! becomes of them when a connection is opened, fails, stands or ends.
use crate::connection::ConnectionAction;
use crate::message::{Gossip, MessageView, PeerMessage};
use crate::peers::{HandleView, InsertOutcome, PeerHandle, Peers, PeersView, SendError};
use crate::topology::{Topology, TopologyState, EVICTION_DECAY_ROUNDS};
use crate::types::{
    Configuration, HeaderHash, NodeIdentity, NodeRecord, Peer, PrivateId, Protocol,
    SocketAddress, DEFAULT_TIMEOUT_MICROSECONDS,
};
use vstd::prelude::*;

verus! {

/// Global state shared between all network tasks.
#[derive(Debug)]
pub struct GlobalState {
    pub block0_hash: HeaderHash,
    pub config: Configuration,
    pub topology: Topology,
    pub peers: Peers,
}

/// A connection that the caller has to open.
#[derive(Clone, Copy, PartialEq, Eq, Structural, Debug)]
pub struct ConnectRequest {
    /// The node that the address is believed to belong to.
    pub node_id: NodeIdentity,
    /// Where to dial, and how.
    pub peer: Peer,
}

/// A connection on its way: the request to open it, and the handles that
/// left the registry when the new one went in.
#[derive(Debug)]
pub struct Launch {
    pub request: ConnectRequest,
    pub outcome: InsertOutcome,
}

/// What became of the registry when a connection stood.
#[derive(Debug)]
pub enum Reconciled {
    /// The node that answered is the one expected.
    Confirmed,
    /// Another node answered: its handle moved to its true identity.
    Moved(InsertOutcome),
    /// Another node answered, and its handle had left the registry.
    Lost,
}

/// What became of the state on a connection's action.
#[derive(Debug)]
pub enum Applied {
    Nothing,
    /// The attempt failed; the handle, if it was still there, is handed
    /// back.
    Failed(Option<PeerHandle>),
    Established(Reconciled),
    /// The connection ended; the handle, if it was still there, is handed
    /// back.
    Closed(Option<PeerHandle>),
}

/// The identity that belongs to a secret seed: the Ed25519 public key of
/// the seed, read as two big-endian halves.
pub uninterp spec fn identity_of(seed: Seq<u8>) -> NodeIdentity;

/// The identity that other nodes know the owner of `private_id` by.
///
/// Trusted: this is `poldercast::PrivateId::id`, which derives the Ed25519
/// key pair of the seed and returns its public key. The key depends on the
/// seed alone; the contract gives it a name and says nothing else of it.
#[verifier::external_body]
fn node_identity(private_id: &PrivateId) -> (id: NodeIdentity)
    ensures
        id == identity_of(private_id.seed@),
{
    let key = poldercast::PrivateId::from(private_id.seed).id();
    let bytes: &[u8] = key.as_ref();
    let mut hi = [0u8; 16];
    let mut lo = [0u8; 16];
    hi.copy_from_slice(&bytes[..16]);
    lo.copy_from_slice(&bytes[16..]);
    NodeIdentity { hi: u128::from_be_bytes(hi), lo: u128::from_be_bytes(lo) }
}

/// The request to dial `addr` for `node_id`.
pub open spec fn request_for(node_id: NodeIdentity, addr: SocketAddress) -> ConnectRequest {
    ConnectRequest {
        node_id,
        peer: Peer {
            connection: addr,
            protocol: Protocol::Grpc,
            timeout: DEFAULT_TIMEOUT_MICROSECONDS,
        },
    }
}

/// The handle of a connection that was opened to deliver `m`: open, with
/// `m` queued once and nothing else.
pub open spec fn carrier(m: MessageView) -> HandleView {
    HandleView { closed: false, outbox: seq![m] }
}

/// The topology a node starts with: its own record with the subscriptions
/// of the settings, and the operator's peers.
pub open spec fn initial_topology(node_id: NodeIdentity, config: Configuration) -> TopologyState {
    (TopologyState {
        local: NodeRecord {
            id: node_id,
            address: config.public_address,
            blocks: None,
            messages: None,
            last_seen: 0,
        },
        nodes: Seq::empty(),
        quarantine: Seq::empty(),
        round: 0,
        decay: EVICTION_DECAY_ROUNDS,
    }).with_subscriptions(config.subscriptions@).with_all_trusted(config.trusted_peers@)
}

/// The registry after a connection to `node` is opened to deliver `m`:
/// nothing happens where the node has no address to dial.
pub open spec fn engaged(peers: PeersView, node: NodeRecord, m: MessageView) -> PeersView {
    match node.socket() {
        Some(_) => peers.inserted(node.id, carrier(m)),
        None => peers,
    }
}

/// The registry after the connection opened for `expected` was answered by
/// `actual`: the handle moves to the node that answered.
pub open spec fn reconciled(peers: PeersView, expected: NodeIdentity, actual: NodeIdentity)
    -> PeersView {
    if expected == actual {
        peers
    } else {
        match peers.handle_of(expected) {
            Some(h) => peers.removed(expected).inserted(actual, h),
            None => peers,
        }
    }
}

/// A handle opened to deliver a message holds that message once: the
/// message is neither lost nor queued twice.
pub proof fn lemma_carrier(m: MessageView)
    ensures
        HandleView::fresh().offered(m) == carrier(m),
        carrier(m).outbox.len() == 1,
        carrier(m).outbox[0] == m,
{
    assert(HandleView::fresh().offered(m).outbox =~= seq![m]);
}

/// Opening a connection for delivery registers, for a node that can be
/// dialed, a handle that holds the message exactly once, whatever was
/// registered before; the registry stays well formed.
pub proof fn lemma_engaged(peers: PeersView, node: NodeRecord, m: MessageView)
    requires
        peers.wf(),
    ensures
        engaged(peers, node, m).wf(),
        node.socket() is Some && peers.max_connections > 0 ==> engaged(peers, node, m).handle_of(
            node.id,
        ) == Some(carrier(m)),
        node.socket() is None ==> engaged(peers, node, m) == peers,
{
    crate::peers::lemma_insert_supersedes(peers, node.id, carrier(m));
}

/// Reconciliation: where another node answered than the one expected, the
/// stale identity has no handle afterwards, and the handle, with what it
/// has queued, is the one of the node that answered. The registry stays
/// well formed.
pub proof fn lemma_reconciled(peers: PeersView, expected: NodeIdentity, actual: NodeIdentity)
    requires
        peers.wf(),
    ensures
        reconciled(peers, expected, actual).wf(),
        expected == actual ==> reconciled(peers, expected, actual) == peers,
        expected != actual && peers.has(expected) ==> !reconciled(peers, expected, actual).has(
            expected,
        ),
        expected != actual && peers.has(expected) && peers.max_connections > 0 ==> reconciled(
            peers,
            expected,
            actual,
        ).handle_of(actual) == peers.handle_of(expected),
{
    if expected != actual && peers.has(expected) {
        let h = peers.handle_of(expected).unwrap();
        crate::peers::lemma_removed(peers, expected);
        let rest = peers.removed(expected);
        crate::peers::lemma_insert_supersedes(rest, actual, h);
        let n = rest.inserted(actual, h);
        if n.has(expected) {
            let s = n.slot(expected);
            crate::peers::lemma_removed(rest, actual);
            let rest2 = rest.removed(actual);
            assert(!rest2.has(expected)) by {
                assert(rest2.has(expected) == rest.has(expected));
            }
            if rest.max_connections == 0 {
                assert(n.entries == rest2.entries);
            } else {
                let kept = if rest2.entries.len() >= rest.max_connections {
                    rest2.entries.drop_first()
                } else {
                    rest2.entries
                };
                assert(n.entries =~= kept.push((actual, h)));
                if s < kept.len() {
                    assert(n.entries[s] == kept[s]);
                    if rest2.entries.len() >= rest.max_connections {
                        assert(kept[s] == rest2.entries[s + 1]);
                    }
                } else {
                    assert(n.entries[s] == (actual, h));
                }
            }
        }
    }
}

impl GlobalState {
    /// Whether the topology and the registry hold what they promise.
    pub open spec fn wf(&self) -> bool {
        self.topology.wf() && self.peers.wf()
    }

    /// The state a node starts with: its identity is the one that belongs
    /// to the secret of the settings.
    pub fn new(block0_hash: HeaderHash, config: Configuration) -> (state: GlobalState)
        ensures
            state.wf(),
            state.block0_hash == block0_hash,
            state.config == config,
            state.topology.state() == initial_topology(
                identity_of(config.private_id.seed@),
                config,
            ),
            state.peers@ == (PeersView {
                max_connections: config.max_connections as nat,
                entries: Seq::empty(),
            }),
    {
        let node_id = node_identity(&config.private_id);
        GlobalState::with_identity(block0_hash, config, node_id)
    }

    /// The state a node starts with, where `node_id` is the identity that
    /// other nodes know it by.
    pub fn with_identity(block0_hash: HeaderHash, config: Configuration, node_id: NodeIdentity)
        -> (state: GlobalState)
        ensures
            state.wf(),
            state.block0_hash == block0_hash,
            state.config == config,
            state.topology.state() == initial_topology(node_id, config),
            state.peers@ == (PeersView {
                max_connections: config.max_connections as nat,
                entries: Seq::empty(),
            }),
    {
        let node = NodeRecord::new(node_id, config.public_address);
        let mut topology = Topology::new(node, EVICTION_DECAY_ROUNDS);
        topology.add_subscriptions(&config.subscriptions);
        topology.add_trusted_peers(&config.trusted_peers);
        let peers = Peers::new(config.max_connections);
        GlobalState { block0_hash, config, topology, peers }
    }

    /// Opens a connection to `node` in order to deliver `msg`: the new
    /// handle holds the message and is registered at once, before the
    /// connection stands. A node without an address to dial is passed over.
    pub fn connect_and_propagate_with(&mut self, node: NodeRecord, msg: PeerMessage) -> (r: Option<
        Launch,
    >)
        requires
            old(self).wf(),
        ensures
            final(self).wf(),
            final(self).topology == old(self).topology,
            final(self).config == old(self).config,
            final(self).block0_hash == old(self).block0_hash,
            final(self).peers@ == engaged(old(self).peers@, node, msg@),
            match node.socket() {
                Some(addr) => r is Some && r.unwrap().request == request_for(node.id, addr)
                    && r.unwrap().outcome.records(old(self).peers@, node.id, carrier(msg@)),
                None => r is None,
            },
    {
        match node.address() {
            None => None,
            Some(addr) => {
                let peer = Peer::new(addr, Protocol::Grpc);
                let mut comms = PeerHandle::new();
                proof {
                    lemma_carrier(msg@);
                }
                let _ = comms.try_send(msg);
                let outcome = self.peers.insert_peer(node.id, comms);
                Some(Launch { request: ConnectRequest { node_id: node.id, peer }, outcome })
            },
        }
    }

    /// The connection opened for `node_id` came to nothing: its handle
    /// leaves the registry and the node is evicted from the topology.
    pub fn connect_failed(&mut self, node_id: NodeIdentity) -> (handle: Option<PeerHandle>)
        requires
            old(self).wf(),
        ensures
            final(self).wf(),
            final(self).config == old(self).config,
            final(self).block0_hash == old(self).block0_hash,
            final(self).peers@ == old(self).peers@.removed(node_id),
            final(self).topology.state() == old(self).topology.state().evicted(node_id),
            match handle {
                Some(h) => old(self).peers@.handle_of(node_id) == Some(h@),
                None => old(self).peers@.handle_of(node_id) is None,
            },
    {
        let handle = self.peers.remove_peer(node_id);
        let _ = self.topology.evict_node(node_id);
        handle
    }

    /// The connection opened for `node_id` stands, and `connected_node_id`
    /// answered. Where that is another node, the stale record is evicted
    /// and the handle moves to the node that answered.
    pub fn connect_succeeded(&mut self, node_id: NodeIdentity, connected_node_id: NodeIdentity)
        -> (r: Reconciled)
        requires
            old(self).wf(),
        ensures
            final(self).wf(),
            final(self).config == old(self).config,
            final(self).block0_hash == old(self).block0_hash,
            final(self).peers@ == reconciled(old(self).peers@, node_id, connected_node_id),
            final(self).topology.state() == if node_id == connected_node_id {
                old(self).topology.state()
            } else {
                old(self).topology.state().evicted(node_id)
            },
            node_id == connected_node_id ==> r is Confirmed,
            node_id != connected_node_id ==> match old(self).peers@.handle_of(node_id) {
                Some(h) => r is Moved && r->Moved_0.records(
                    old(self).peers@.removed(node_id),
                    connected_node_id,
                    h,
                ),
                None => r is Lost,
            },
    {
        if connected_node_id == node_id {
            return Reconciled::Confirmed;
        }
        let _ = self.topology.evict_node(node_id);
        match self.peers.remove_peer(node_id) {
            Some(comms) => Reconciled::Moved(self.peers.insert_peer(connected_node_id, comms)),
            None => Reconciled::Lost,
        }
    }

    /// The connection of `node_id` ended: its handle leaves the registry.
    pub fn connection_closed(&mut self, node_id: NodeIdentity) -> (handle: Option<PeerHandle>)
        requires
            old(self).wf(),
        ensures
            final(self).wf(),
            final(self).topology == old(self).topology,
            final(self).config == old(self).config,
            final(self).block0_hash == old(self).block0_hash,
            final(self).peers@ == old(self).peers@.removed(node_id),
            match handle {
                Some(h) => old(self).peers@.handle_of(node_id) == Some(h@),
                None => old(self).peers@.handle_of(node_id) is None,
            },
    {
        self.peers.remove_peer(node_id)
    }

    /// Does what a connection asks for.
    pub fn apply(&mut self, action: ConnectionAction) -> (r: Applied)
        requires
            old(self).wf(),
        ensures
            final(self).wf(),
            final(self).config == old(self).config,
            final(self).block0_hash == old(self).block0_hash,
            match action {
                ConnectionAction::Wait => r is Nothing && final(self).peers@ == old(self).peers@
                    && final(self).topology == old(self).topology,
                ConnectionAction::Evict(id) => r is Failed && final(self).peers@ == old(self).peers@.removed(id) && final(self).topology.state() == old(self).topology.state().evicted(id),
                ConnectionAction::Publish { expected, actual } => r is Established && final(self).peers@ == reconciled(old(self).peers@, expected, actual) && final(self).topology.state() == if expected == actual {
                    old(self).topology.state()
                } else {
                    old(self).topology.state().evicted(expected)
                },
                ConnectionAction::Remove(id) => r is Closed && final(self).peers@ == old(self).peers@.removed(id) && final(self).topology == old(self).topology,
            },
    {
        match action {
            ConnectionAction::Wait => Applied::Nothing,
            ConnectionAction::Evict(id) => Applied::Failed(self.connect_failed(id)),
            ConnectionAction::Publish { expected, actual } => Applied::Established(
                self.connect_succeeded(expected, actual),
            ),
            ConnectionAction::Remove(id) => Applied::Closed(self.connection_closed(id)),
        }
    }

    /// A connection to one of the nodes known at the start stands, and
    /// `node_id` answered: the node is told of this one, and its handle is
    /// registered. Where the handle takes no message the connection is
    /// given up and nothing is registered.
    pub fn initial_peer_connected(&mut self, node_id: NodeIdentity, comms: PeerHandle) -> (r:
        Result<InsertOutcome, SendError>)
        requires
            old(self).wf(),
        ensures
            final(self).wf(),
            final(self).topology == old(self).topology,
            final(self).config == old(self).config,
            final(self).block0_hash == old(self).block0_hash,
            match comms@.answer() {
                Ok(()) => r is Ok && final(self).peers@ == old(self).peers@.inserted(
                    node_id,
                    comms@.offered(MessageView::Gossip(seq![old(self).topology.state().local])),
                ) && r.unwrap().records(
                    old(self).peers@,
                    node_id,
                    comms@.offered(MessageView::Gossip(seq![old(self).topology.state().local])),
                ),
                Err(e) => r == Err::<InsertOutcome, SendError>(e) && final(self).peers@ == old(self).peers@,
            },
    {
        let mut comms = comms;
        let mut nodes: Vec<NodeRecord> = Vec::new();
        nodes.push(self.topology.node());
        assert(nodes@ =~= seq![self.topology.state().local]);
        let gossip = Gossip::from_nodes(nodes);
        match comms.try_send_gossip(gossip) {
            Err(e) => Err(e),
            Ok(()) => Ok(self.peers.insert_peer(node_id, comms)),
        }
    }
}

} // verus!
