//! The network service: what to open at the start, and the dispatcher that
//! takes the commands of the other parts of the node one by one, in the
//! order in which they were queued.
use crate::message::{MessageView, PropagateMsg};
use crate::peers::{PeerStats, PeersView, RequestOutcome};
use crate::propagate::{engaged_all, handle_propagation_msg, Attempt};
use crate::state::GlobalState;
use crate::topology::TopologyState;
use crate::types::{BlockId, Listen, NodeIdentity, NodeRecord, Peer, Protocol};
use vstd::prelude::*;

verus! {

/// Seconds between two gossip rounds.
pub const GOSSIP_INTERVAL_SECS: u64 = 10;

/// What the service opens when it starts.
#[derive(Debug)]
pub struct StartPlan {
    /// The endpoint to accept connections on, if any.
    pub listen: Option<Listen>,
    /// The peers to dial at once.
    pub connect: Vec<Peer>,
    /// Seconds between two gossip rounds.
    pub gossip_interval: u64,
}

/// A command to the network service.
#[derive(Debug)]
pub enum NetworkMsg {
    /// Hand an item to every node of the view.
    Propagate(PropagateMsg),
    /// Ask some peer for these blocks.
    GetBlocks(Vec<BlockId>),
    /// Ask this node for this block.
    GetNextBlock(NodeIdentity, BlockId),
    /// Ask this node for the headers between the checkpoints and the block.
    PullHeaders { node_id: NodeIdentity, from: Vec<BlockId>, to: BlockId },
    /// Report on the registered peers.
    PeerStats,
}

/// What a command came to.
#[derive(Debug)]
pub enum Dispatched {
    /// The item went out; these nodes had no handle.
    Propagated(Vec<Attempt>),
    /// The request was handed to a peer, or was not.
    Requested(RequestOutcome),
    /// The report to send back.
    Stats(Vec<PeerStats>),
}

/// The peers to dial for the nodes `nodes`: one for each node that has an
/// address to dial, in their order.
pub open spec fn dialable(nodes: Seq<NodeRecord>) -> Seq<Peer> {
    nodes.filter(|n: NodeRecord| n.socket() is Some).map_values(
        |n: NodeRecord| Peer::grpc(n.socket().unwrap()),
    )
}

/// The registry after the command `msg`.
pub open spec fn peers_after(peers: PeersView, topology: TopologyState, msg: NetworkMsg)
    -> PeersView {
    match msg {
        NetworkMsg::Propagate(item) => engaged_all(
            peers.propagated(topology.view(), item@),
            peers.missing(topology.view()),
            item@,
        ),
        NetworkMsg::GetBlocks(ids) => if peers.entries.len() == 0 {
            peers
        } else {
            peers.delivered(peers.entries[0].0, MessageView::SolicitBlocks(ids@))
        },
        NetworkMsg::GetNextBlock(node_id, block_id) => peers.delivered(
            node_id,
            MessageView::SolicitBlocks(seq![block_id]),
        ),
        NetworkMsg::PullHeaders { node_id, from, to } => peers.delivered(
            node_id,
            MessageView::PullHeaders { from: from@, to },
        ),
        NetworkMsg::PeerStats => peers,
    }
}

/// Whether `d` is what the command `msg` comes to when the registry is
/// `peers`.
pub open spec fn answers(d: Dispatched, peers: PeersView, topology: TopologyState, msg: NetworkMsg)
    -> bool {
    match msg {
        NetworkMsg::Propagate(item) => d is Propagated && d->Propagated_0@.len() == peers.missing(
            topology.view(),
        ).len() && forall|i: int|
            0 <= i < d->Propagated_0@.len() ==> (#[trigger] d->Propagated_0@[i]).node
                == peers.missing(topology.view())[i] && d->Propagated_0@[i].answers(
                engaged_all(
                    peers.propagated(topology.view(), item@),
                    peers.missing(topology.view()).take(i),
                    item@,
                ),
                item@,
            ),
        NetworkMsg::GetBlocks(ids) => d is Requested && d->Requested_0 == if peers.entries.len()
            == 0 {
            RequestOutcome::PeerUnknown
        } else {
            peers.outcome(peers.entries[0].0)
        },
        NetworkMsg::GetNextBlock(node_id, _) => d is Requested && d->Requested_0 == peers.outcome(
            node_id,
        ),
        NetworkMsg::PullHeaders { node_id, .. } => d is Requested && d->Requested_0
            == peers.outcome(node_id),
        NetworkMsg::PeerStats => d is Stats && d->Stats_0@ == peers.stats(),
    }
}

/// The registry after the commands `msgs`, taken in their order.
pub open spec fn peers_after_all(peers: PeersView, topology: TopologyState, msgs: Seq<NetworkMsg>)
    -> PeersView
    decreases msgs.len(),
{
    if msgs.len() == 0 {
        peers
    } else {
        peers_after(peers_after_all(peers, topology, msgs.drop_last()), topology, msgs.last())
    }
}

/// Commands keep the registry well formed.
pub proof fn lemma_peers_after(peers: PeersView, topology: TopologyState, msg: NetworkMsg)
    requires
        peers.wf(),
    ensures
        peers_after(peers, topology, msg).wf(),
{
    match msg {
        NetworkMsg::Propagate(item) => {
            crate::peers::lemma_propagated(peers, topology.view(), item@);
            crate::propagate::lemma_engaged_all(
                peers.propagated(topology.view(), item@),
                peers.missing(topology.view()),
                item@,
            );
        },
        NetworkMsg::GetBlocks(ids) => {
            if peers.entries.len() > 0 {
                crate::peers::lemma_delivered(
                    peers,
                    peers.entries[0].0,
                    MessageView::SolicitBlocks(ids@),
                );
            }
        },
        NetworkMsg::GetNextBlock(node_id, block_id) => {
            crate::peers::lemma_delivered(
                peers,
                node_id,
                MessageView::SolicitBlocks(seq![block_id]),
            );
        },
        NetworkMsg::PullHeaders { node_id, from, to } => {
            crate::peers::lemma_delivered(
                peers,
                node_id,
                MessageView::PullHeaders { from: from@, to },
            );
        },
        NetworkMsg::PeerStats => {},
    }
}

/// Order of dispatch: the registry after a queue of commands is the
/// registry after its first commands, followed by the last one; no command
/// overtakes another.
pub proof fn lemma_dispatch_in_order(
    peers: PeersView,
    topology: TopologyState,
    first: Seq<NetworkMsg>,
    then: NetworkMsg,
)
    requires
        peers.wf(),
    ensures
        peers_after_all(peers, topology, first.push(then)) == peers_after(
            peers_after_all(peers, topology, first),
            topology,
            then,
        ),
        peers_after_all(peers, topology, first).wf(),
    decreases first.len(),
{
    assert(first.push(then).drop_last() =~= first);
    if first.len() > 0 {
        lemma_dispatch_in_order(peers, topology, first.drop_last(), first.last());
        assert(first.drop_last().push(first.last()) =~= first);
        lemma_peers_after(
            peers_after_all(peers, topology, first.drop_last()),
            topology,
            first.last(),
        );
    }
}

/// What to open at the start: the listening endpoint of the settings, and
/// a connection to every node of the view that has an address to dial.
pub fn start(state: &GlobalState) -> (plan: StartPlan)
    requires
        state.wf(),
        state.config.listen_spec() is Some ==> state.config.listen_spec().unwrap().protocol
            == Protocol::Grpc,
    ensures
        plan.listen == state.config.listen_spec(),
        plan.connect@ == dialable(state.topology.state().view()),
        plan.gossip_interval == GOSSIP_INTERVAL_SECS,
{
    let listen = state.config.listen();
    let nodes = state.topology.view();
    let mut connect: Vec<Peer> = Vec::new();
    let mut i: usize = 0;
    let ghost keep = |n: NodeRecord| n.socket() is Some;
    let ghost dial = |n: NodeRecord| Peer::grpc(n.socket().unwrap());
    proof {
        reveal(Seq::filter);
        assert(nodes@.take(0) =~= Seq::empty());
        assert(nodes@.take(0).filter(keep).map_values(dial) =~= Seq::empty());
    }
    while i < nodes.len()
        invariant
            i <= nodes.len(),
            keep == (|n: NodeRecord| n.socket() is Some),
            dial == (|n: NodeRecord| Peer::grpc(n.socket().unwrap())),
            connect@ == nodes@.take(i as int).filter(keep).map_values(dial),
        decreases nodes.len() - i,
    {
        proof {
            reveal(Seq::filter);
            assert(nodes@.take(i + 1).drop_last() =~= nodes@.take(i as int));
        }
        match nodes[i].address() {
            Some(addr) => {
                connect.push(Peer::new(addr, Protocol::Grpc));
                assert(connect@ =~= nodes@.take(i + 1).filter(keep).map_values(dial));
            },
            None => {},
        }
        i = i + 1;
    }
    assert(nodes@.take(i as int) =~= nodes@);
    StartPlan { listen, connect, gossip_interval: GOSSIP_INTERVAL_SECS }
}

/// Carries out one command. Nothing here waits for the network: requests
/// go into the queues of the handles, and connections to open are handed
/// back to the caller.
pub fn handle_network_input(msg: NetworkMsg, state: &mut GlobalState) -> (d: Dispatched)
    requires
        old(state).wf(),
    ensures
        final(state).wf(),
        final(state).topology == old(state).topology,
        final(state).config == old(state).config,
        final(state).block0_hash == old(state).block0_hash,
        final(state).peers@ == peers_after(old(state).peers@, old(state).topology.state(), msg),
        answers(d, old(state).peers@, old(state).topology.state(), msg),
{
    match msg {
        NetworkMsg::Propagate(item) => Dispatched::Propagated(handle_propagation_msg(item, state)),
        NetworkMsg::GetBlocks(block_ids) => Dispatched::Requested(
            state.peers.fetch_blocks(block_ids),
        ),
        NetworkMsg::GetNextBlock(node_id, block_id) => {
            let mut ids: Vec<BlockId> = Vec::new();
            ids.push(block_id);
            assert(ids@ =~= seq![block_id]);
            Dispatched::Requested(state.peers.solicit_blocks(node_id, ids))
        },
        NetworkMsg::PullHeaders { node_id, from, to } => Dispatched::Requested(
            state.peers.pull_headers(node_id, from, to),
        ),
        NetworkMsg::PeerStats => Dispatched::Stats(state.peers.stats()),
    }
}

/// Carries out the commands of `input` in the order in which they were
/// queued, each on the state that the one before it left.
pub fn drain(input: Vec<NetworkMsg>, state: &mut GlobalState) -> (done: Vec<Dispatched>)
    requires
        old(state).wf(),
    ensures
        final(state).wf(),
        final(state).topology == old(state).topology,
        final(state).config == old(state).config,
        final(state).block0_hash == old(state).block0_hash,
        final(state).peers@ == peers_after_all(
            old(state).peers@,
            old(state).topology.state(),
            input@,
        ),
        done@.len() == input@.len(),
        forall|i: int|
            0 <= i < input@.len() ==> answers(
                #[trigger] done@[i],
                peers_after_all(old(state).peers@, old(state).topology.state(), input@.take(i)),
                old(state).topology.state(),
                input@[i],
            ),
{
    let mut input = input;
    let ghost all = input@;
    let ghost start = old(state).peers@;
    let ghost topology = old(state).topology.state();
    let mut done: Vec<Dispatched> = Vec::new();
    assert(all.take(0) =~= Seq::empty());
    assert(all.skip(0) =~= all);
    while input.len() > 0
        invariant
            done@.len() <= all.len(),
            input@ == all.skip(done@.len() as int),
            state.wf(),
            state.topology == old(state).topology,
            state.config == old(state).config,
            state.block0_hash == old(state).block0_hash,
            topology == old(state).topology.state(),
            state.peers@ == peers_after_all(start, topology, all.take(done@.len() as int)),
            forall|i: int|
                0 <= i < done@.len() ==> answers(
                    #[trigger] done@[i],
                    peers_after_all(start, topology, all.take(i)),
                    topology,
                    all[i],
                ),
        decreases input.len(),
    {
        let ghost k = done@.len() as int;
        let msg = input.remove(0);
        assert(msg == all[k]);
        assert(input@ =~= all.skip(k + 1));
        assert(all.take(k + 1).drop_last() =~= all.take(k));
        let d = handle_network_input(msg, state);
        done.push(d);
    }
    assert(all.take(all.len() as int) =~= all);
    done
}

} // verus!
