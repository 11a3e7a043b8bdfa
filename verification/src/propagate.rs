//! Propagation: an item goes to every node of the view through the handle
//! the node has, and a node that has none is dialed with the item already
//! queued for it. Gossip goes the same way, one payload per node.
use crate::message::{Gossip, MessageView, PeerMessage, PropagateMsg};
use crate::peers::{lemma_delivered, lemma_insert_supersedes, PeersView};
use crate::state::{carrier, engaged, lemma_engaged, request_for, GlobalState, Launch};
use crate::topology::{identities, SelectionPolicy, TopologyState};
use crate::types::NodeRecord;
use vstd::prelude::*;

verus! {

/// What was done for one node that had no handle.
#[derive(Debug)]
pub struct Attempt {
    pub node: NodeRecord,
    /// The connection on its way, or `None` where the node has no address
    /// to dial.
    pub launch: Option<Launch>,
}

impl Attempt {
    /// Whether this is the one attempt owed to its node, made to deliver
    /// `m` when the registry was `before`.
    pub open spec fn answers(&self, before: PeersView, m: MessageView) -> bool {
        match self.node.socket() {
            Some(addr) => self.launch is Some && self.launch.unwrap().request == request_for(
                self.node.id,
                addr,
            ) && self.launch.unwrap().outcome.records(before, self.node.id, carrier(m)),
            None => self.launch is None,
        }
    }
}

/// The registry after a connection is opened to each of `nodes` in turn to
/// deliver `m`.
pub open spec fn engaged_all(peers: PeersView, nodes: Seq<NodeRecord>, m: MessageView)
    -> PeersView
    decreases nodes.len(),
{
    if nodes.len() == 0 {
        peers
    } else {
        engaged(engaged_all(peers, nodes.drop_last(), m), nodes.last(), m)
    }
}

/// A gossip round as it unfolds.
pub struct GossipRound {
    /// The registry so far.
    pub peers: PeersView,
    /// The nodes that had no handle at their turn, in their order.
    pub dialed: Seq<NodeRecord>,
    /// The registry as it was at the turn of each of them.
    pub before: Seq<PeersView>,
}

/// The payload that tells `node` of others.
pub open spec fn payload_for<P: SelectionPolicy>(topology: TopologyState, node: NodeRecord, policy: &P)
    -> MessageView {
    MessageView::Gossip(topology.targets(node.id, policy.chosen(topology.view(), node.id)))
}

/// The round over `nodes`: each node in turn gets its payload through its
/// handle, or is dialed with the payload queued.
pub open spec fn gossip_round<P: SelectionPolicy>(
    peers: PeersView,
    topology: TopologyState,
    nodes: Seq<NodeRecord>,
    policy: &P,
) -> GossipRound
    decreases nodes.len(),
{
    if nodes.len() == 0 {
        GossipRound { peers, dialed: Seq::empty(), before: Seq::empty() }
    } else {
        let r = gossip_round(peers, topology, nodes.drop_last(), policy);
        let node = nodes.last();
        let m = payload_for(topology, node, policy);
        if r.peers.has(node.id) {
            GossipRound { peers: r.peers.delivered(node.id, m), dialed: r.dialed, before: r.before }
        } else {
            GossipRound {
                peers: engaged(r.peers, node, m),
                dialed: r.dialed.push(node),
                before: r.before.push(r.peers),
            }
        }
    }
}

/// Opening connections keeps the registry well formed.
pub proof fn lemma_engaged_all(peers: PeersView, nodes: Seq<NodeRecord>, m: MessageView)
    requires
        peers.wf(),
    ensures
        engaged_all(peers, nodes, m).wf(),
        engaged_all(peers, nodes, m).max_connections == peers.max_connections,
    decreases nodes.len(),
{
    if nodes.len() > 0 {
        lemma_engaged_all(peers, nodes.drop_last(), m);
        lemma_engaged(engaged_all(peers, nodes.drop_last(), m), nodes.last(), m);
    }
}

/// Registering a handle for a node that has none, where there is room,
/// appends it and touches no one else.
pub proof fn lemma_inserted_with_room(v: PeersView, node: NodeRecord, m: MessageView)
    requires
        v.wf(),
        !v.has(node.id),
        v.entries.len() < v.max_connections,
        node.socket() is Some,
    ensures
        engaged(v, node, m).entries == v.entries.push((node.id, carrier(m))),
        engaged(v, node, m).handle_of(node.id) == Some(carrier(m)),
        forall|other: crate::types::NodeIdentity|
            other != node.id ==> engaged(v, node, m).has(other) == v.has(other) && engaged(
                v,
                node,
                m,
            ).handle_of(other) == v.handle_of(other),
{
    let n = engaged(v, node, m);
    lemma_insert_supersedes(v, node.id, carrier(m));
    assert(n.entries =~= v.entries.push((node.id, carrier(m))));
    let last = v.entries.len() as int;
    assert forall|other: crate::types::NodeIdentity| other != node.id implies n.has(other)
        == v.has(other) && n.handle_of(other) == v.handle_of(other) by {
        if v.has(other) {
            let s = v.slot(other);
            assert(n.entries[s] == v.entries[s]);
            assert(n.has(other));
            let t = n.slot(other);
            assert(t != last);
            assert(n.entries[t] == v.entries[t]);
            if t < s {
                assert(v.entries[t].0 != v.entries[s].0);
            }
            if s < t {
                assert(v.entries[s].0 != v.entries[t].0);
            }
        }
        if n.has(other) {
            let t = n.slot(other);
            assert(t != last);
            assert(n.entries[t] == v.entries[t]);
            assert(v.has(other));
        }
    }
}

/// No silent drop: where the registry has room for every node that had no
/// handle, each of those nodes that can be dialed ends up with a handle
/// that holds the item exactly once, and every handle that was registered
/// before is still there, untouched.
pub proof fn lemma_engaged_all_with_room(peers: PeersView, nodes: Seq<NodeRecord>, m: MessageView)
    requires
        peers.wf(),
        identities(nodes).no_duplicates(),
        forall|i: int| 0 <= i < nodes.len() ==> !peers.has(#[trigger] nodes[i].id),
        peers.entries.len() + nodes.len() <= peers.max_connections,
    ensures
        engaged_all(peers, nodes, m).wf(),
        engaged_all(peers, nodes, m).entries.len() <= peers.entries.len() + nodes.len(),
        forall|i: int|
            0 <= i < nodes.len() && (#[trigger] nodes[i]).socket() is Some ==> engaged_all(
                peers,
                nodes,
                m,
            ).handle_of(nodes[i].id) == Some(carrier(m)),
        forall|i: int|
            0 <= i < nodes.len() && (#[trigger] nodes[i]).socket() is None ==> !engaged_all(
                peers,
                nodes,
                m,
            ).has(nodes[i].id),
        forall|id: crate::types::NodeIdentity|
            !identities(nodes).contains(id) ==> engaged_all(peers, nodes, m).has(id) == peers.has(
                id,
            ) && engaged_all(peers, nodes, m).handle_of(id) == peers.handle_of(id),
    decreases nodes.len(),
{
    if nodes.len() > 0 {
        let head = nodes.drop_last();
        let node = nodes.last();
        let mid = engaged_all(peers, head, m);
        let ids = identities(nodes);
        assert(identities(head) =~= ids.drop_last());
        assert forall|i: int, j: int| 0 <= i < j < head.len() implies identities(head)[i]
            != identities(head)[j] by {
            assert(ids[i] != ids[j]);
        }
        assert forall|i: int| 0 <= i < head.len() implies !peers.has(#[trigger] head[i].id) by {
            assert(head[i] == nodes[i]);
        }
        lemma_engaged_all_with_room(peers, head, m);
        lemma_engaged_all(peers, head, m);
        let last = nodes.len() - 1;
        assert(ids[last] == node.id);
        assert(!identities(head).contains(node.id)) by {
            if identities(head).contains(node.id) {
                let k = choose|k: int| 0 <= k < head.len() && identities(head)[k] == node.id;
                assert(ids[k] == node.id);
                assert(ids[k] != ids[last]);
            }
        }
        assert(!peers.has(nodes[last].id));
        assert(!mid.has(node.id));
        let fin = engaged_all(peers, nodes, m);
        assert(fin == engaged(mid, node, m));
        if node.socket() is Some {
            lemma_inserted_with_room(mid, node, m);
        }
        assert forall|i: int| 0 <= i < nodes.len() && (#[trigger] nodes[i]).socket()
            is Some implies fin.handle_of(nodes[i].id) == Some(carrier(m)) by {
            if i < last {
                assert(head[i] == nodes[i]);
                assert(ids[i] != ids[last]);
                assert(mid.handle_of(head[i].id) == Some(carrier(m)));
            }
        }
        assert forall|i: int| 0 <= i < nodes.len() && (#[trigger] nodes[i]).socket()
            is None implies !fin.has(nodes[i].id) by {
            if i < last {
                assert(head[i] == nodes[i]);
                assert(ids[i] != ids[last]);
                assert(!mid.has(head[i].id));
            }
        }
        assert forall|id: crate::types::NodeIdentity| !ids.contains(id) implies fin.has(id)
            == peers.has(id) && fin.handle_of(id) == peers.handle_of(id) by {
            assert(id != node.id);
            if identities(head).contains(id) {
                let k = choose|k: int| 0 <= k < head.len() && identities(head)[k] == id;
                assert(ids[k] == id);
            }
        }
    }
}

/// A gossip round keeps the registry well formed, and dials a node once at
/// most for each time it stands in the list.
pub proof fn lemma_gossip_round<P: SelectionPolicy>(
    peers: PeersView,
    topology: TopologyState,
    nodes: Seq<NodeRecord>,
    policy: &P,
)
    requires
        peers.wf(),
    ensures
        gossip_round(peers, topology, nodes, policy).peers.wf(),
        gossip_round(peers, topology, nodes, policy).dialed.len() <= nodes.len(),
        gossip_round(peers, topology, nodes, policy).before.len() == gossip_round(
            peers,
            topology,
            nodes,
            policy,
        ).dialed.len(),
    decreases nodes.len(),
{
    if nodes.len() > 0 {
        lemma_gossip_round(peers, topology, nodes.drop_last(), policy);
        let r = gossip_round(peers, topology, nodes.drop_last(), policy);
        let m = payload_for(topology, nodes.last(), policy);
        lemma_delivered(r.peers, nodes.last().id, m);
        lemma_engaged(r.peers, nodes.last(), m);
    }
}

/// Hands `msg` to every node of the current view: through its handle where
/// it has one, and else by a connection opened for the purpose, with the
/// item queued before the connection stands. Returns one attempt for each
/// node that had no handle, in the order of the view.
pub fn handle_propagation_msg(msg: PropagateMsg, state: &mut GlobalState) -> (attempts: Vec<
    Attempt,
>)
    requires
        old(state).wf(),
    ensures
        final(state).wf(),
        final(state).topology == old(state).topology,
        final(state).config == old(state).config,
        final(state).block0_hash == old(state).block0_hash,
        final(state).peers@ == engaged_all(
            old(state).peers@.propagated(old(state).topology.state().view(), msg@),
            old(state).peers@.missing(old(state).topology.state().view()),
            msg@,
        ),
        attempts@.len() == old(state).peers@.missing(old(state).topology.state().view()).len(),
        forall|i: int|
            0 <= i < attempts@.len() ==> (#[trigger] attempts@[i]).node == old(
                state,
            ).peers@.missing(old(state).topology.state().view())[i] && attempts@[i].answers(
                engaged_all(
                    old(state).peers@.propagated(old(state).topology.state().view(), msg@),
                    old(state).peers@.missing(old(state).topology.state().view()).take(i),
                    msg@,
                ),
                msg@,
            ),
{
    let nodes = state.topology.view();
    let item = msg.to_peer_message();
    let ghost m = msg@;
    let ghost missing = old(state).peers@.missing(nodes@);
    let res = match msg {
        PropagateMsg::Block(header) => state.peers.propagate_block(nodes, header),
        PropagateMsg::Fragment(fragment) => state.peers.propagate_fragment(nodes, fragment),
    };
    let ghost reached = state.peers@;
    let mut attempts: Vec<Attempt> = Vec::new();
    match res {
        Ok(()) => {
            assert(missing =~= Seq::empty());
        },
        Err(unreached_nodes) => {
            let mut i: usize = 0;
            assert(missing.take(0) =~= Seq::empty());
            while i < unreached_nodes.len()
                invariant
                    i <= unreached_nodes.len(),
                    unreached_nodes@ == missing,
                    item@ == m,
                    state.wf(),
                    state.topology == old(state).topology,
                    state.config == old(state).config,
                    state.block0_hash == old(state).block0_hash,
                    state.peers@ == engaged_all(reached, missing.take(i as int), m),
                    attempts@.len() == i,
                    forall|j: int|
                        0 <= j < i ==> (#[trigger] attempts@[j]).node == missing[j]
                            && attempts@[j].answers(engaged_all(reached, missing.take(j), m), m),
                decreases unreached_nodes.len() - i,
            {
                let node = unreached_nodes[i];
                assert(missing.take(i + 1).drop_last() =~= missing.take(i as int));
                let launch = state.connect_and_propagate_with(node, item.duplicate());
                attempts.push(Attempt { node, launch });
                i = i + 1;
            }
            assert(missing.take(i as int) =~= missing);
        },
    }
    attempts
}

/// One gossip round: the round is counted, and every node of the view is
/// told of the nodes chosen for it, through its handle where it has one and
/// else by a connection opened for the purpose. Returns one attempt for
/// each node that had no handle at its turn.
pub fn send_gossip<P: SelectionPolicy>(state: &mut GlobalState, policy: &P) -> (attempts: Vec<
    Attempt,
>)
    requires
        old(state).wf(),
    ensures
        final(state).wf(),
        final(state).config == old(state).config,
        final(state).block0_hash == old(state).block0_hash,
        final(state).topology.state() == old(state).topology.state().ticked(),
        final(state).peers@ == gossip_round(
            old(state).peers@,
            old(state).topology.state().ticked(),
            old(state).topology.state().ticked().view(),
            policy,
        ).peers,
        attempts@.len() == gossip_round(
            old(state).peers@,
            old(state).topology.state().ticked(),
            old(state).topology.state().ticked().view(),
            policy,
        ).dialed.len(),
        forall|i: int|
            0 <= i < attempts@.len() ==> (#[trigger] attempts@[i]).node == gossip_round(
                old(state).peers@,
                old(state).topology.state().ticked(),
                old(state).topology.state().ticked().view(),
                policy,
            ).dialed[i] && attempts@[i].answers(
                gossip_round(
                    old(state).peers@,
                    old(state).topology.state().ticked(),
                    old(state).topology.state().ticked().view(),
                    policy,
                ).before[i],
                payload_for(old(state).topology.state().ticked(), attempts@[i].node, policy),
            ),
{
    state.topology.tick();
    let nodes = state.topology.view();
    let ghost topology = state.topology.state();
    let ghost start = old(state).peers@;
    let mut attempts: Vec<Attempt> = Vec::new();
    let mut i: usize = 0;
    assert(nodes@.take(0) =~= Seq::empty());
    while i < nodes.len()
        invariant
            i <= nodes.len(),
            state.wf(),
            state.config == old(state).config,
            state.block0_hash == old(state).block0_hash,
            state.topology.state() == topology,
            nodes@ == topology.view(),
            state.peers@ == gossip_round(start, topology, nodes@.take(i as int), policy).peers,
            attempts@.len() == gossip_round(
                start,
                topology,
                nodes@.take(i as int),
                policy,
            ).dialed.len(),
            gossip_round(start, topology, nodes@.take(i as int), policy).before.len()
                == attempts@.len(),
            forall|j: int|
                0 <= j < attempts@.len() ==> (#[trigger] attempts@[j]).node == gossip_round(
                    start,
                    topology,
                    nodes@.take(i as int),
                    policy,
                ).dialed[j] && attempts@[j].answers(
                    gossip_round(start, topology, nodes@.take(i as int), policy).before[j],
                    payload_for(topology, attempts@[j].node, policy),
                ),
        decreases nodes.len() - i,
    {
        let node = nodes[i];
        let ghost so_far = gossip_round(start, topology, nodes@.take(i as int), policy);
        let ghost next = gossip_round(start, topology, nodes@.take(i + 1), policy);
        proof {
            assert(nodes@.take(i + 1).drop_last() =~= nodes@.take(i as int));
            assert(nodes@.take(i + 1).last() == node);
        }
        let targets = state.topology.select_gossip_targets(node.id, policy);
        let gossip = Gossip::from_nodes(targets);
        assert(MessageView::Gossip(gossip@) == payload_for(topology, node, policy));
        match state.peers.propagate_gossip_to(node.id, gossip) {
            Ok(()) => {
                assert(next.dialed == so_far.dialed);
                assert(next.before == so_far.before);
            },
            Err(gossip) => {
                let launch = state.connect_and_propagate_with(node, PeerMessage::Gossip(gossip));
                attempts.push(Attempt { node, launch });
                assert(next.dialed == so_far.dialed.push(node));
                assert(next.before == so_far.before.push(so_far.peers));
            },
        }
        i = i + 1;
    }
    assert(nodes@.take(i as int) =~= nodes@);
    attempts
}

} // verus!
