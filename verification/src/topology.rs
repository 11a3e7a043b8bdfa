//! The membership view: which nodes are known, which of them the operator
//! trusts, which were evicted a short while ago, and whom to tell of whom.
use crate::types::{
    InterestLevel, NodeIdentity, NodeRecord, Topic, TrustedPeer, NEW_BLOCKS_TOPIC,
    NEW_MESSAGES_TOPIC,
};
use vstd::prelude::*;

verus! {

/// For how many gossip rounds an evicted node stays out of the view.
pub const EVICTION_DECAY_ROUNDS: u64 = 6;

/// A node of the view.
#[derive(Clone, Copy, PartialEq, Eq, Debug)]
pub struct Known {
    pub record: NodeRecord,
    /// Named in the configuration: always eligible, never evicted.
    pub trusted: bool,
}

/// An evicted node, and the gossip round from which it may come back.
#[derive(Clone, Copy, PartialEq, Eq, Debug)]
pub struct Barred {
    pub id: NodeIdentity,
    pub until: u64,
}

/// The topology as contracts see it.
pub struct TopologyState {
    /// The record this node advertises of itself.
    pub local: NodeRecord,
    /// The known nodes, in the order in which they were learned.
    pub nodes: Seq<Known>,
    /// The nodes evicted and not yet forgotten.
    pub quarantine: Seq<Barred>,
    /// The number of gossip rounds that have passed.
    pub round: u64,
    /// The number of rounds an eviction lasts.
    pub decay: u64,
}

/// A snapshot of the known nodes, owned by whoever asked for it.
pub type TopologyView = Vec<NodeRecord>;

/// The membership view of one node.
#[derive(Debug)]
pub struct Topology {
    local: NodeRecord,
    nodes: Vec<Known>,
    quarantine: Vec<Barred>,
    round: u64,
    decay: u64,
}

impl TopologyState {
    /// No identity twice among the known nodes, and none of them is this
    /// node itself.
    pub open spec fn wf(self) -> bool {
        &&& forall|i: int, j: int|
            0 <= i < j < self.nodes.len() ==> (#[trigger] self.nodes[i]).record.id != (
            #[trigger] self.nodes[j]).record.id
        &&& forall|i: int|
            0 <= i < self.nodes.len() ==> (#[trigger] self.nodes[i]).record.id != self.local.id
    }

    /// Whether `id` is known.
    pub open spec fn knows(self, id: NodeIdentity) -> bool {
        exists|i: int| 0 <= i < self.nodes.len() && (#[trigger] self.nodes[i]).record.id == id
    }

    /// Where `id` stands among the known nodes.
    pub open spec fn slot(self, id: NodeIdentity) -> int {
        choose|i: int| 0 <= i < self.nodes.len() && (#[trigger] self.nodes[i]).record.id == id
    }

    /// Whether `id` was evicted and its time is not over.
    pub open spec fn barred(self, id: NodeIdentity) -> bool {
        exists|i: int|
            0 <= i < self.quarantine.len() && (#[trigger] self.quarantine[i]).id == id
                && self.quarantine[i].until > self.round
    }

    /// The snapshot handed to consumers: the records of the known nodes.
    pub open spec fn view(self) -> Seq<NodeRecord> {
        self.nodes.map_values(|k: Known| k.record)
    }

    /// Whether a gossip entry is left aside: it tells of this node itself,
    /// it gives no address, or it tells of a node whose eviction lasts.
    pub open spec fn drops(self, r: NodeRecord) -> bool {
        r.id == self.local.id || r.address is None || self.barred(r.id)
    }

    /// Whether merging `r` would teach nothing: it is left aside, or the
    /// node is known by a record at least as fresh.
    pub open spec fn settled(self, r: NodeRecord) -> bool {
        self.drops(r) || exists|i: int|
            0 <= i < self.nodes.len() && (#[trigger] self.nodes[i]).record.id == r.id
                && self.nodes[i].record.last_seen >= r.last_seen
    }

    /// The topology after one gossip entry: a new node is appended, a known
    /// node takes the record if it is fresher than the one held, and nothing
    /// else changes.
    pub open spec fn merge_one(self, r: NodeRecord) -> TopologyState {
        if self.drops(r) {
            self
        } else if self.knows(r.id) {
            let i = self.slot(r.id);
            if r.last_seen > self.nodes[i].record.last_seen {
                TopologyState {
                    nodes: self.nodes.update(
                        i,
                        Known { record: r, trusted: self.nodes[i].trusted },
                    ),
                    ..self
                }
            } else {
                self
            }
        } else {
            TopologyState { nodes: self.nodes.push(Known { record: r, trusted: false }), ..self }
        }
    }

    /// The topology after a gossip payload, entry by entry.
    pub open spec fn merged(self, gossip: Seq<NodeRecord>) -> TopologyState
        decreases gossip.len(),
    {
        if gossip.len() == 0 {
            self
        } else {
            self.merged(gossip.drop_last()).merge_one(gossip.last())
        }
    }

    /// The topology after the operator's peer `p` is taken in: a known node
    /// becomes trusted, an unknown one is appended as trusted, and this node
    /// itself is never its own peer.
    pub open spec fn with_trusted(self, p: TrustedPeer) -> TopologyState {
        if p.id == self.local.id {
            self
        } else if self.knows(p.id) {
            let i = self.slot(p.id);
            TopologyState {
                nodes: self.nodes.update(
                    i,
                    Known { record: self.nodes[i].record, trusted: true },
                ),
                ..self
            }
        } else {
            TopologyState {
                nodes: self.nodes.push(
                    Known {
                        record: NodeRecord {
                            id: p.id,
                            address: Some(p.address),
                            blocks: None,
                            messages: None,
                            last_seen: 0,
                        },
                        trusted: true,
                    },
                ),
                ..self
            }
        }
    }

    /// The topology after each of `peers` is taken in, in their order.
    pub open spec fn with_all_trusted(self, peers: Seq<TrustedPeer>) -> TopologyState
        decreases peers.len(),
    {
        if peers.len() == 0 {
            self
        } else {
            self.with_all_trusted(peers.drop_last()).with_trusted(peers.last())
        }
    }

    /// Whether an eviction of `id` takes effect: the node is known and the
    /// operator does not vouch for it.
    pub open spec fn evictable(self, id: NodeIdentity) -> bool {
        self.knows(id) && !self.nodes[self.slot(id)].trusted
    }

    /// The round from which a node evicted now may come back.
    pub open spec fn release_round(self) -> u64 {
        if self.round + self.decay <= u64::MAX {
            (self.round + self.decay) as u64
        } else {
            u64::MAX
        }
    }

    /// The topology after `id` is evicted.
    pub open spec fn evicted(self, id: NodeIdentity) -> TopologyState {
        if self.evictable(id) {
            TopologyState {
                nodes: self.nodes.remove(self.slot(id)),
                quarantine: self.quarantine.push(Barred { id, until: self.release_round() }),
                ..self
            }
        } else {
            self
        }
    }

    /// The topology one gossip round later: evictions whose time is over are
    /// forgotten.
    pub open spec fn ticked(self) -> TopologyState {
        let round = if self.round < u64::MAX {
            (self.round + 1) as u64
        } else {
            self.round
        };
        TopologyState {
            round,
            quarantine: self.quarantine.filter(|b: Barred| b.until > round),
            ..self
        }
    }

    /// The topology `n` gossip rounds later.
    pub open spec fn ticked_by(self, n: nat) -> TopologyState
        decreases n,
    {
        if n == 0 {
            self
        } else {
            self.ticked_by((n - 1) as nat).ticked()
        }
    }

    /// The topology after the local node subscribes to `topic`. Only the
    /// topics of blocks and of fragments are advertised.
    pub open spec fn subscribed(self, topic: Topic, level: InterestLevel) -> TopologyState {
        if topic.0 == NEW_BLOCKS_TOPIC {
            TopologyState { local: NodeRecord { blocks: Some(level), ..self.local }, ..self }
        } else if topic.0 == NEW_MESSAGES_TOPIC {
            TopologyState { local: NodeRecord { messages: Some(level), ..self.local }, ..self }
        } else {
            self
        }
    }

    /// The topology after the local node subscribes to each of `subs` in
    /// turn.
    pub open spec fn with_subscriptions(self, subs: Seq<(Topic, InterestLevel)>) -> TopologyState
        decreases subs.len(),
    {
        if subs.len() == 0 {
            self
        } else {
            self.with_subscriptions(subs.drop_last()).subscribed(subs.last().0, subs.last().1)
        }
    }

    /// The nodes to tell `excluding` of, where the policy chose `chosen`:
    /// every trusted node and every chosen known node, but never the
    /// recipient itself, in the order of the view.
    pub open spec fn targets(self, excluding: NodeIdentity, chosen: Seq<NodeIdentity>) -> Seq<
        NodeRecord,
    > {
        self.nodes.filter(
            |k: Known| k.record.id != excluding && (k.trusted || chosen.contains(k.record.id)),
        ).map_values(|k: Known| k.record)
    }
}

/// The identities of a run of records.
pub open spec fn identities(records: Seq<NodeRecord>) -> Seq<NodeIdentity> {
    records.map_values(|r: NodeRecord| r.id)
}

/// A snapshot of a well-formed topology names no identity twice, and never
/// this node itself.
pub proof fn lemma_view_distinct(v: TopologyState)
    requires
        v.wf(),
    ensures
        identities(v.view()).no_duplicates(),
        !identities(v.view()).contains(v.local.id),
        v.view().len() == v.nodes.len(),
{
    let ids = identities(v.view());
    assert forall|i: int, j: int| 0 <= i < ids.len() && 0 <= j < ids.len() && i != j implies ids[i]
        != ids[j] by {
        assert(ids[i] == v.nodes[i].record.id);
        assert(ids[j] == v.nodes[j].record.id);
        if i < j {
            assert(v.nodes[i].record.id != v.nodes[j].record.id);
        } else {
            assert(v.nodes[j].record.id != v.nodes[i].record.id);
        }
    }
    if ids.contains(v.local.id) {
        let i = choose|i: int| 0 <= i < ids.len() && ids[i] == v.local.id;
        assert(ids[i] == v.nodes[i].record.id);
    }
}

/// Where a known identity stands is where it is found.
proof fn lemma_slot(v: TopologyState, i: int)
    requires
        v.wf(),
        0 <= i < v.nodes.len(),
    ensures
        v.knows(v.nodes[i].record.id),
        v.slot(v.nodes[i].record.id) == i,
{
    let id = v.nodes[i].record.id;
    assert(v.knows(id));
    let s = v.slot(id);
    if s < i {
        assert(v.nodes[s].record.id != v.nodes[i].record.id);
    }
    if i < s {
        assert(v.nodes[i].record.id != v.nodes[s].record.id);
    }
}

/// One gossip entry keeps the topology well formed, settles the entry, keeps
/// settled whatever was settled, drops no node, and lets no record grow
/// staler.
pub proof fn lemma_merge_one(v: TopologyState, r: NodeRecord)
    requires
        v.wf(),
    ensures
        v.merge_one(r).wf(),
        v.merge_one(r).settled(r),
        v.merge_one(r).local == v.local,
        v.merge_one(r).quarantine == v.quarantine,
        v.merge_one(r).round == v.round,
        v.merge_one(r).decay == v.decay,
        v.merge_one(r).nodes.len() >= v.nodes.len(),
        forall|i: int|
            0 <= i < v.nodes.len() ==> (#[trigger] v.merge_one(r).nodes[i]).record.id
                == v.nodes[i].record.id && v.merge_one(r).nodes[i].record.last_seen
                >= v.nodes[i].record.last_seen && v.merge_one(r).nodes[i].trusted
                == v.nodes[i].trusted,
        forall|x: NodeRecord| v.settled(x) ==> v.merge_one(r).settled(x),
        v.settled(r) ==> v.merge_one(r) == v,
{
    let w = v.merge_one(r);
    if v.drops(r) {
    } else if v.knows(r.id) {
        let k = v.slot(r.id);
        if r.last_seen > v.nodes[k].record.last_seen {
            assert(w.nodes[k].record == r);
            assert forall|i: int| 0 <= i < w.nodes.len() implies (
            #[trigger] w.nodes[i]).record.id == v.nodes[i].record.id by {}
            assert forall|i: int, j: int| 0 <= i < j < w.nodes.len() implies (
            #[trigger] w.nodes[i]).record.id != (#[trigger] w.nodes[j]).record.id by {
                assert(v.nodes[i].record.id != v.nodes[j].record.id);
            }
            assert forall|i: int| 0 <= i < w.nodes.len() implies (
            #[trigger] w.nodes[i]).record.id != w.local.id by {
                assert(v.nodes[i].record.id != v.local.id);
            }
            assert forall|x: NodeRecord| v.settled(x) implies w.settled(x) by {
                if !v.drops(x) {
                    let i = choose|i: int|
                        0 <= i < v.nodes.len() && (#[trigger] v.nodes[i]).record.id == x.id
                            && v.nodes[i].record.last_seen >= x.last_seen;
                    assert(w.nodes[i].record.id == x.id && w.nodes[i].record.last_seen
                        >= x.last_seen);
                } else {
                    assert(w.quarantine == v.quarantine && w.round == v.round && w.local == v.local);
                    if v.barred(x.id) {
                        let q = choose|q: int|
                            0 <= q < v.quarantine.len() && (#[trigger] v.quarantine[q]).id == x.id
                                && v.quarantine[q].until > v.round;
                        assert(w.quarantine[q].id == x.id && w.quarantine[q].until > w.round);
                    }
                }
            }
            if v.settled(r) {
                let i = choose|i: int|
                    0 <= i < v.nodes.len() && (#[trigger] v.nodes[i]).record.id == r.id
                        && v.nodes[i].record.last_seen >= r.last_seen;
                lemma_slot(v, i);
            }
        } else {
            assert(v.nodes[k].record.id == r.id);
        }
    } else {
        let n = v.nodes.len() as int;
        assert(w.nodes[n].record == r);
        assert forall|i: int| 0 <= i < n implies (#[trigger] w.nodes[i]) == v.nodes[i] by {}
        assert forall|i: int, j: int| 0 <= i < j < w.nodes.len() implies (
        #[trigger] w.nodes[i]).record.id != (#[trigger] w.nodes[j]).record.id by {
            assert(w.nodes[i] == v.nodes[i]);
            if j < n {
                assert(w.nodes[j] == v.nodes[j]);
            }
        }
        assert forall|i: int| 0 <= i < w.nodes.len() implies (#[trigger] w.nodes[i]).record.id
            != w.local.id by {
            if i < n {
                assert(w.nodes[i] == v.nodes[i]);
            }
        }
        assert forall|x: NodeRecord| v.settled(x) implies w.settled(x) by {
            if !v.drops(x) {
                let i = choose|i: int|
                    0 <= i < v.nodes.len() && (#[trigger] v.nodes[i]).record.id == x.id
                        && v.nodes[i].record.last_seen >= x.last_seen;
                assert(w.nodes[i] == v.nodes[i]);
            } else {
                assert(w.quarantine == v.quarantine && w.round == v.round && w.local == v.local);
                    if v.barred(x.id) {
                        let q = choose|q: int|
                            0 <= q < v.quarantine.len() && (#[trigger] v.quarantine[q]).id == x.id
                                && v.quarantine[q].until > v.round;
                        assert(w.quarantine[q].id == x.id && w.quarantine[q].until > w.round);
                    }
            }
        }
    }
}

/// A gossip payload keeps the topology well formed, settles each of its
/// entries, and lets no record of a known node grow staler.
pub proof fn lemma_merged(v: TopologyState, gossip: Seq<NodeRecord>)
    requires
        v.wf(),
    ensures
        v.merged(gossip).wf(),
        v.merged(gossip).local == v.local,
        v.merged(gossip).quarantine == v.quarantine,
        v.merged(gossip).round == v.round,
        v.merged(gossip).decay == v.decay,
        v.merged(gossip).nodes.len() >= v.nodes.len(),
        forall|i: int|
            0 <= i < v.nodes.len() ==> (#[trigger] v.merged(gossip).nodes[i]).record.id
                == v.nodes[i].record.id && v.merged(gossip).nodes[i].record.last_seen
                >= v.nodes[i].record.last_seen && v.merged(gossip).nodes[i].trusted
                == v.nodes[i].trusted,
        forall|x: NodeRecord| v.settled(x) ==> v.merged(gossip).settled(x),
        forall|i: int| 0 <= i < gossip.len() ==> v.merged(gossip).settled(#[trigger] gossip[i]),
    decreases gossip.len(),
{
    if gossip.len() > 0 {
        let head = gossip.drop_last();
        let mid = v.merged(head);
        lemma_merged(v, head);
        lemma_merge_one(mid, gossip.last());
        let w = v.merged(gossip);
        assert forall|i: int| 0 <= i < v.nodes.len() implies (#[trigger] w.nodes[i]).record.id
            == v.nodes[i].record.id && w.nodes[i].record.last_seen >= v.nodes[i].record.last_seen
            && w.nodes[i].trusted == v.nodes[i].trusted by {
            assert(mid.nodes[i].record.id == v.nodes[i].record.id);
        }
        assert forall|i: int| 0 <= i < gossip.len() implies w.settled(#[trigger] gossip[i]) by {
            if i < head.len() {
                assert(head[i] == gossip[i]);
                assert(mid.settled(head[i]));
            }
        }
    }
}

/// Merging a payload whose entries are all settled changes nothing.
pub proof fn lemma_merged_settled(v: TopologyState, gossip: Seq<NodeRecord>)
    requires
        v.wf(),
        forall|i: int| 0 <= i < gossip.len() ==> v.settled(#[trigger] gossip[i]),
    ensures
        v.merged(gossip) == v,
    decreases gossip.len(),
{
    if gossip.len() > 0 {
        let head = gossip.drop_last();
        assert forall|i: int| 0 <= i < head.len() implies v.settled(#[trigger] head[i]) by {
            assert(head[i] == gossip[i]);
        }
        lemma_merged_settled(v, head);
        assert(v.settled(gossip[gossip.len() - 1]));
        lemma_merge_one(v, gossip.last());
    }
}

/// Idempotent merge: merging a payload a second time changes nothing, so the
/// snapshot after two merges is the snapshot after one.
pub proof fn lemma_merge_idempotent(v: TopologyState, gossip: Seq<NodeRecord>)
    requires
        v.wf(),
    ensures
        v.merged(gossip).merged(gossip) == v.merged(gossip),
        v.merged(gossip).merged(gossip).view() == v.merged(gossip).view(),
{
    lemma_merged(v, gossip);
    lemma_merged_settled(v.merged(gossip), gossip);
}

/// Freshness is never downgraded: a payload that tells of a known node by a
/// record no fresher than the one held leaves that record as it is, and
/// whatever the payload holds, a record held is never replaced by a staler
/// one.
pub proof fn lemma_merge_keeps_fresher(v: TopologyState, gossip: Seq<NodeRecord>, i: int)
    requires
        v.wf(),
        0 <= i < v.nodes.len(),
    ensures
        v.merged(gossip).nodes[i].record.id == v.nodes[i].record.id,
        v.merged(gossip).nodes[i].record.last_seen >= v.nodes[i].record.last_seen,
        (forall|j: int|
            0 <= j < gossip.len() && (#[trigger] gossip[j]).id == v.nodes[i].record.id
                ==> gossip[j].last_seen <= v.nodes[i].record.last_seen) ==> v.merged(
            gossip,
        ).nodes[i] == v.nodes[i],
    decreases gossip.len(),
{
    lemma_merged(v, gossip);
    if gossip.len() > 0 {
        let head = gossip.drop_last();
        let mid = v.merged(head);
        let r = gossip.last();
        lemma_merged(v, head);
        lemma_merge_keeps_fresher(v, head, i);
        lemma_merge_one(mid, r);
        if forall|j: int|
            0 <= j < gossip.len() && (#[trigger] gossip[j]).id == v.nodes[i].record.id
                ==> gossip[j].last_seen <= v.nodes[i].record.last_seen {
            assert forall|j: int|
                0 <= j < head.len() && (#[trigger] head[j]).id
                    == v.nodes[i].record.id implies head[j].last_seen
                <= v.nodes[i].record.last_seen by {
                assert(head[j] == gossip[j]);
            }
            assert(mid.nodes[i] == v.nodes[i]);
            lemma_slot(mid, i);
            if r.id == v.nodes[i].record.id {
                assert(gossip[gossip.len() - 1] == r);
                assert(r.last_seen <= mid.nodes[i].record.last_seen);
                assert(mid.merge_one(r) == mid);
            } else if !mid.drops(r) && mid.knows(r.id) {
                assert(mid.slot(r.id) != i);
            }
        }
    }
}

/// Taking in a trusted peer keeps the topology well formed.
pub proof fn lemma_with_trusted(v: TopologyState, p: TrustedPeer)
    requires
        v.wf(),
    ensures
        v.with_trusted(p).wf(),
        v.with_trusted(p).local == v.local,
        p.id != v.local.id ==> v.with_trusted(p).knows(p.id) && v.with_trusted(p).nodes[v.with_trusted(
            p,
        ).slot(p.id)].trusted,
{
    let w = v.with_trusted(p);
    if p.id == v.local.id {
    } else if v.knows(p.id) {
        let k = v.slot(p.id);
        assert forall|i: int, j: int| 0 <= i < j < w.nodes.len() implies (
        #[trigger] w.nodes[i]).record.id != (#[trigger] w.nodes[j]).record.id by {
            assert(v.nodes[i].record.id != v.nodes[j].record.id);
        }
        assert forall|i: int| 0 <= i < w.nodes.len() implies (#[trigger] w.nodes[i]).record.id
            != w.local.id by {
            assert(v.nodes[i].record.id != v.local.id);
        }
        assert(w.nodes[k].record.id == p.id);
        lemma_slot(w, k);
    } else {
        let n = v.nodes.len() as int;
        assert forall|i: int, j: int| 0 <= i < j < w.nodes.len() implies (
        #[trigger] w.nodes[i]).record.id != (#[trigger] w.nodes[j]).record.id by {
            assert(w.nodes[i] == v.nodes[i]);
            if j < n {
                assert(w.nodes[j] == v.nodes[j]);
            }
        }
        assert forall|i: int| 0 <= i < w.nodes.len() implies (#[trigger] w.nodes[i]).record.id
            != w.local.id by {
            if i < n {
                assert(w.nodes[i] == v.nodes[i]);
            }
        }
        assert(w.nodes[n].record.id == p.id);
        lemma_slot(w, n);
    }
}

/// Taking in a list of trusted peers keeps the topology well formed.
pub proof fn lemma_with_all_trusted(v: TopologyState, peers: Seq<TrustedPeer>)
    requires
        v.wf(),
    ensures
        v.with_all_trusted(peers).wf(),
        v.with_all_trusted(peers).local == v.local,
    decreases peers.len(),
{
    if peers.len() > 0 {
        lemma_with_all_trusted(v, peers.drop_last());
        lemma_with_trusted(v.with_all_trusted(peers.drop_last()), peers.last());
    }
}

/// An eviction keeps the topology well formed; where it takes effect the
/// node is known no more and is barred for as long as the decay lasts.
/// A trusted node stays.
pub proof fn lemma_evicted(v: TopologyState, id: NodeIdentity)
    requires
        v.wf(),
    ensures
        v.evicted(id).wf(),
        v.evictable(id) ==> !v.evicted(id).knows(id),
        v.evictable(id) && v.decay > 0 && v.round < u64::MAX ==> v.evicted(id).barred(id),
        !v.evictable(id) ==> v.evicted(id) == v,
{
    let w = v.evicted(id);
    if v.evictable(id) {
        let k = v.slot(id);
        assert forall|i: int| 0 <= i < w.nodes.len() implies (#[trigger] w.nodes[i]).record.id
            != id && w.nodes[i].record.id != w.local.id by {
            if i < k {
                assert(w.nodes[i] == v.nodes[i]);
                assert(v.nodes[i].record.id != v.nodes[k].record.id);
            } else {
                assert(w.nodes[i] == v.nodes[i + 1]);
                assert(v.nodes[k].record.id != v.nodes[i + 1].record.id);
            }
        }
        assert forall|i: int, j: int| 0 <= i < j < w.nodes.len() implies (
        #[trigger] w.nodes[i]).record.id != (#[trigger] w.nodes[j]).record.id by {
            let i2 = if i < k {
                i
            } else {
                i + 1
            };
            let j2 = if j < k {
                j
            } else {
                j + 1
            };
            assert(w.nodes[i] == v.nodes[i2]);
            assert(w.nodes[j] == v.nodes[j2]);
        }
        if v.decay > 0 && v.round < u64::MAX {
            let last = w.quarantine.len() - 1;
            assert(w.quarantine[last].id == id);
            assert(w.quarantine[last].until > w.round);
        }
    }
}

/// A gossip round touches no node of the view. After it, a node is barred
/// exactly if one of its evictions reaches beyond the new round.
pub proof fn lemma_ticked(v: TopologyState, id: NodeIdentity)
    ensures
        v.ticked().nodes == v.nodes,
        v.ticked().local == v.local,
        v.ticked().decay == v.decay,
        v.wf() ==> v.ticked().wf(),
        forall|b: Barred| v.ticked().quarantine.contains(b) ==> v.quarantine.contains(b),
        forall|b: Barred|
            v.quarantine.contains(b) && b.until > v.ticked().round ==> v.ticked().quarantine.contains(
                b,
            ),
        v.ticked().barred(id) <==> exists|i: int|
            0 <= i < v.quarantine.len() && (#[trigger] v.quarantine[i]).id == id
                && v.quarantine[i].until > v.ticked().round,
{
    let w = v.ticked();
    let round = w.round;
    let keep = |b: Barred| b.until > round;
    assert(w.quarantine == v.quarantine.filter(keep));
    v.quarantine.filter_lemma(keep);
    assert forall|b: Barred| w.quarantine.contains(b) implies v.quarantine.contains(b) by {
        v.quarantine.lemma_filter_contains_rev(keep, b);
    }
    assert forall|b: Barred| v.quarantine.contains(b) && b.until > round implies w.quarantine.contains(
        b,
    ) by {
        let k = choose|k: int| 0 <= k < v.quarantine.len() && v.quarantine[k] == b;
        assert(keep(v.quarantine[k]));
        v.quarantine.lemma_filter_contains(keep, k);
    }
    if w.barred(id) {
        let j = choose|j: int|
            0 <= j < w.quarantine.len() && (#[trigger] w.quarantine[j]).id == id
                && w.quarantine[j].until > w.round;
        let b = w.quarantine[j];
        assert(w.quarantine.contains(b));
        let i = choose|i: int| 0 <= i < v.quarantine.len() && v.quarantine[i] == b;
        assert(v.quarantine[i].id == id && v.quarantine[i].until > round);
    }
    if exists|i: int|
        0 <= i < v.quarantine.len() && (#[trigger] v.quarantine[i]).id == id
            && v.quarantine[i].until > round {
        let i = choose|i: int|
            0 <= i < v.quarantine.len() && (#[trigger] v.quarantine[i]).id == id
                && v.quarantine[i].until > round;
        let b = v.quarantine[i];
        assert(v.quarantine.contains(b));
        let j = choose|j: int| 0 <= j < w.quarantine.len() && w.quarantine[j] == b;
        assert(w.quarantine[j].id == id && w.quarantine[j].until > w.round);
    }
}

/// After `n` gossip rounds the view is as it was, and a node is barred
/// exactly if one of its evictions reaches beyond the round then current.
pub proof fn lemma_ticked_by(v: TopologyState, id: NodeIdentity, n: nat)
    requires
        v.round + n <= u64::MAX,
    ensures
        v.ticked_by(n).round == v.round + n,
        v.ticked_by(n).nodes == v.nodes,
        v.ticked_by(n).local == v.local,
        v.ticked_by(n).decay == v.decay,
        v.wf() ==> v.ticked_by(n).wf(),
        forall|b: Barred| v.ticked_by(n).quarantine.contains(b) ==> v.quarantine.contains(b),
        forall|b: Barred|
            v.quarantine.contains(b) && b.until > v.round + n ==> v.ticked_by(
                n,
            ).quarantine.contains(b),
        v.ticked_by(n).barred(id) <==> exists|i: int|
            0 <= i < v.quarantine.len() && (#[trigger] v.quarantine[i]).id == id
                && v.quarantine[i].until > v.round + n,
    decreases n,
{
    if n > 0 {
        let w = v.ticked_by((n - 1) as nat);
        lemma_ticked_by(v, id, (n - 1) as nat);
        lemma_ticked(w, id);
        let z = w.ticked();
        assert(z.round == v.round + n);
        assert forall|b: Barred| v.quarantine.contains(b) && b.until > v.round
            + n implies z.quarantine.contains(b) by {
            assert(w.quarantine.contains(b));
        }
        if z.barred(id) {
            let j = choose|j: int|
                0 <= j < w.quarantine.len() && (#[trigger] w.quarantine[j]).id == id
                    && w.quarantine[j].until > z.round;
            let b = w.quarantine[j];
            assert(w.quarantine.contains(b));
            assert(v.quarantine.contains(b));
            let i = choose|i: int| 0 <= i < v.quarantine.len() && v.quarantine[i] == b;
            assert(v.quarantine[i].id == id && v.quarantine[i].until > v.round + n);
        }
        if exists|i: int|
            0 <= i < v.quarantine.len() && (#[trigger] v.quarantine[i]).id == id
                && v.quarantine[i].until > v.round + n {
            let i = choose|i: int|
                0 <= i < v.quarantine.len() && (#[trigger] v.quarantine[i]).id == id
                    && v.quarantine[i].until > v.round + n;
            let b = v.quarantine[i];
            assert(v.quarantine.contains(b));
            assert(w.quarantine.contains(b));
            let j = choose|j: int| 0 <= j < w.quarantine.len() && w.quarantine[j] == b;
            assert(w.quarantine[j].id == id && w.quarantine[j].until > z.round);
        }
    }
}

/// The decay period: a node that is evicted stays out of the view and is
/// barred during the `decay` gossip rounds that follow, and is barred no
/// longer once they have passed.
pub proof fn lemma_eviction_lasts(v: TopologyState, id: NodeIdentity, n: nat)
    requires
        v.wf(),
        v.evictable(id),
        !v.barred(id),
        v.round + v.decay <= u64::MAX,
        v.round + n <= u64::MAX,
    ensures
        v.evicted(id).ticked_by(n).barred(id) <==> n < v.decay,
        !v.evicted(id).ticked_by(n).knows(id),
        v.evicted(id).ticked_by(n).view() == v.evicted(id).view(),
{
    let e = v.evicted(id);
    lemma_evicted(v, id);
    lemma_ticked_by(e, id, n);
    let last = e.quarantine.len() - 1;
    assert(e.quarantine[last] == (Barred { id, until: (v.round + v.decay) as u64 }));
    if n < v.decay {
        assert(e.quarantine[last].id == id && e.quarantine[last].until > e.round + n);
    } else {
        assert forall|i: int| 0 <= i < e.quarantine.len() && (#[trigger] e.quarantine[i]).id
            == id implies e.quarantine[i].until <= e.round + n by {
            if i < last {
                assert(e.quarantine[i] == v.quarantine[i]);
                assert(!(v.quarantine[i].id == id && v.quarantine[i].until > v.round));
            }
        }
    }
    assert(e.ticked_by(n).nodes == e.nodes);
}

impl Topology {
    /// The topology as contracts see it.
    pub closed spec fn state(&self) -> TopologyState {
        TopologyState {
            local: self.local,
            nodes: self.nodes@,
            quarantine: self.quarantine@,
            round: self.round,
            decay: self.decay,
        }
    }
}

/// The rule by which a node chooses, among the nodes it knows, those it
/// tells a recipient of. Trusted peers are told of whatever the rule says.
pub trait SelectionPolicy {
    /// The identities chosen among `known` for `recipient`.
    spec fn chosen(&self, known: Seq<NodeRecord>, recipient: NodeIdentity) -> Seq<NodeIdentity>;

    fn select(&self, known: &Vec<NodeRecord>, recipient: NodeIdentity) -> (picked: Vec<
        NodeIdentity,
    >)
        ensures
            picked@ == self.chosen(known@, recipient),
    ;
}

/// The rule that chooses every known node.
#[derive(Clone, Copy, Debug)]
pub struct Everyone;

impl SelectionPolicy for Everyone {
    open spec fn chosen(&self, known: Seq<NodeRecord>, recipient: NodeIdentity) -> Seq<
        NodeIdentity,
    > {
        identities(known)
    }

    fn select(&self, known: &Vec<NodeRecord>, recipient: NodeIdentity) -> (picked: Vec<
        NodeIdentity,
    >) {
        let mut picked: Vec<NodeIdentity> = Vec::new();
        let mut i: usize = 0;
        while i < known.len()
            invariant
                i <= known.len(),
                picked@ == identities(known@).take(i as int),
            decreases known.len() - i,
        {
            picked.push(known[i].id);
            assert(picked@ =~= identities(known@).take(i + 1));
            i = i + 1;
        }
        assert(identities(known@).take(i as int) =~= identities(known@));
        picked
    }
}

/// The rule that chooses the first `limit` known nodes.
#[derive(Clone, Copy, Debug)]
pub struct Fanout {
    pub limit: usize,
}

impl SelectionPolicy for Fanout {
    open spec fn chosen(&self, known: Seq<NodeRecord>, recipient: NodeIdentity) -> Seq<
        NodeIdentity,
    > {
        if known.len() <= self.limit {
            identities(known)
        } else {
            identities(known).take(self.limit as int)
        }
    }

    fn select(&self, known: &Vec<NodeRecord>, recipient: NodeIdentity) -> (picked: Vec<
        NodeIdentity,
    >) {
        let n: usize = if known.len() <= self.limit {
            known.len()
        } else {
            self.limit
        };
        let mut picked: Vec<NodeIdentity> = Vec::new();
        let mut i: usize = 0;
        while i < n
            invariant
                i <= n <= known.len(),
                picked@ == identities(known@).take(i as int),
            decreases n - i,
        {
            picked.push(known[i].id);
            assert(picked@ =~= identities(known@).take(i + 1));
            i = i + 1;
        }
        assert(identities(known@).take(known@.len() as int) =~= identities(known@));
        picked
    }
}

/// What was decided elsewhere for one recipient.
#[derive(Debug)]
pub struct Choice {
    pub recipient: NodeIdentity,
    pub ids: Vec<NodeIdentity>,
}

/// The rule that chooses, for each recipient, what was decided elsewhere
/// for it, and nothing for a recipient of which nothing was decided.
#[derive(Debug)]
pub struct PerRecipient {
    pub choices: Vec<Choice>,
}

/// The identities of the first of `choices` that is meant for `recipient`.
pub open spec fn choice_for(choices: Seq<Choice>, recipient: NodeIdentity) -> Seq<NodeIdentity>
    decreases choices.len(),
{
    if choices.len() == 0 {
        Seq::empty()
    } else if choices[0].recipient == recipient {
        choices[0].ids@
    } else {
        choice_for(choices.drop_first(), recipient)
    }
}

impl SelectionPolicy for PerRecipient {
    open spec fn chosen(&self, known: Seq<NodeRecord>, recipient: NodeIdentity) -> Seq<
        NodeIdentity,
    > {
        choice_for(self.choices@, recipient)
    }

    fn select(&self, known: &Vec<NodeRecord>, recipient: NodeIdentity) -> (picked: Vec<
        NodeIdentity,
    >) {
        let mut i: usize = 0;
        assert(self.choices@.skip(0) =~= self.choices@);
        while i < self.choices.len()
            invariant
                i <= self.choices.len(),
                choice_for(self.choices@, recipient) == choice_for(
                    self.choices@.skip(i as int),
                    recipient,
                ),
            decreases self.choices.len() - i,
        {
            assert(self.choices@.skip(i as int)[0] == self.choices@[i as int]);
            assert(self.choices@.skip(i as int).drop_first() =~= self.choices@.skip(i + 1));
            if self.choices[i].recipient == recipient {
                let ids = &self.choices[i].ids;
                let mut picked: Vec<NodeIdentity> = Vec::new();
                let mut j: usize = 0;
                while j < ids.len()
                    invariant
                        j <= ids.len(),
                        picked@ == ids@.take(j as int),
                    decreases ids.len() - j,
                {
                    picked.push(ids[j]);
                    j = j + 1;
                }
                assert(ids@.take(j as int) =~= ids@);
                return picked;
            }
            i = i + 1;
        }
        Vec::new()
    }
}

/// Whether `id` is one of `ids`.
fn listed(ids: &Vec<NodeIdentity>, id: NodeIdentity) -> (r: bool)
    ensures
        r == ids@.contains(id),
{
    let mut i: usize = 0;
    while i < ids.len()
        invariant
            i <= ids.len(),
            forall|j: int| 0 <= j < i ==> ids@[j] != id,
        decreases ids.len() - i,
    {
        if ids[i] == id {
            return true;
        }
        i = i + 1;
    }
    false
}

impl Topology {
    /// Whether the topology holds what it promises.
    pub open spec fn wf(&self) -> bool {
        self.state().wf()
    }

    /// The topology of a node that knows no one yet.
    pub fn new(local: NodeRecord, decay: u64) -> (topology: Topology)
        ensures
            topology.wf(),
            topology.state() == (TopologyState {
                local,
                nodes: Seq::empty(),
                quarantine: Seq::empty(),
                round: 0,
                decay,
            }),
    {
        Topology { local, nodes: Vec::new(), quarantine: Vec::new(), round: 0, decay }
    }

    /// The record this node advertises of itself.
    pub fn node(&self) -> (local: NodeRecord)
        ensures
            local == self.state().local,
    {
        self.local
    }

    fn find(&self, id: NodeIdentity) -> (r: Option<usize>)
        requires
            self.wf(),
        ensures
            match r {
                Some(i) => self.state().knows(id) && i == self.state().slot(id) && i < self.state().nodes.len(),
                None => !self.state().knows(id),
            },
    {
        let mut i: usize = 0;
        while i < self.nodes.len()
            invariant
                i <= self.nodes@.len(),
                self.wf(),
                forall|j: int| 0 <= j < i ==> (#[trigger] self.state().nodes[j]).record.id != id,
            decreases self.nodes@.len() - i,
        {
            if self.nodes[i].record.id == id {
                proof {
                    lemma_slot(self.state(), i as int);
                }
                return Some(i);
            }
            i = i + 1;
        }
        None
    }

    /// Whether `id` is known.
    pub fn knows(&self, id: NodeIdentity) -> (r: bool)
        requires
            self.wf(),
        ensures
            r == self.state().knows(id),
    {
        self.find(id).is_some()
    }

    /// Whether `id` was evicted and its time is not over.
    pub fn is_barred(&self, id: NodeIdentity) -> (r: bool)
        ensures
            r == self.state().barred(id),
    {
        let mut i: usize = 0;
        while i < self.quarantine.len()
            invariant
                i <= self.quarantine@.len(),
                forall|j: int|
                    0 <= j < i ==> !((#[trigger] self.state().quarantine[j]).id == id
                        && self.state().quarantine[j].until > self.state().round),
            decreases self.quarantine@.len() - i,
        {
            if self.quarantine[i].id == id && self.quarantine[i].until > self.round {
                assert(self.state().quarantine[i as int].id == id);
                return true;
            }
            i = i + 1;
        }
        false
    }

    /// Takes in a peer that the operator named.
    pub fn add_trusted_peer(&mut self, peer: TrustedPeer)
        requires
            old(self).wf(),
        ensures
            final(self).wf(),
            final(self).state() == old(self).state().with_trusted(peer),
    {
        proof {
            lemma_with_trusted(old(self).state(), peer);
        }
        if peer.id == self.local.id {
            return ;
        }
        match self.find(peer.id) {
            Some(i) => {
                let record = self.nodes[i].record;
                self.nodes.set(i, Known { record, trusted: true });
            },
            None => {
                self.nodes.push(
                    Known { record: NodeRecord::new(peer.id, Some(peer.address)), trusted: true },
                );
            },
        }
    }

    /// Makes the local node's record advertise a subscription.
    pub fn add_subscription(&mut self, topic: Topic, level: InterestLevel)
        ensures
            final(self).state() == old(self).state().subscribed(topic, level),
            old(self).wf() ==> final(self).wf(),
    {
        if topic.0 == NEW_BLOCKS_TOPIC {
            self.local.add_block_subscription(level);
        } else if topic.0 == NEW_MESSAGES_TOPIC {
            self.local.add_message_subscription(level);
        }
    }

    /// Makes the local node's record advertise each of `subs`, in their
    /// order, so that of two entries for one topic the later one counts.
    pub fn add_subscriptions(&mut self, subs: &Vec<(Topic, InterestLevel)>)
        ensures
            final(self).state() == old(self).state().with_subscriptions(subs@),
            old(self).wf() ==> final(self).wf(),
    {
        let mut i: usize = 0;
        assert(subs@.take(0) =~= Seq::empty());
        while i < subs.len()
            invariant
                i <= subs.len(),
                self.state() == old(self).state().with_subscriptions(subs@.take(i as int)),
                old(self).wf() ==> self.wf(),
            decreases subs.len() - i,
        {
            assert(subs@.take(i + 1).drop_last() =~= subs@.take(i as int));
            let (topic, level) = subs[i];
            self.add_subscription(topic, level);
            i = i + 1;
        }
        assert(subs@.take(i as int) =~= subs@);
    }

    /// Takes in the peers that the operator named, in their order.
    pub fn add_trusted_peers(&mut self, peers: &Vec<TrustedPeer>)
        requires
            old(self).wf(),
        ensures
            final(self).wf(),
            final(self).state() == old(self).state().with_all_trusted(peers@),
    {
        let mut i: usize = 0;
        assert(peers@.take(0) =~= Seq::empty());
        while i < peers.len()
            invariant
                i <= peers.len(),
                self.wf(),
                self.state() == old(self).state().with_all_trusted(peers@.take(i as int)),
            decreases peers.len() - i,
        {
            assert(peers@.take(i + 1).drop_last() =~= peers@.take(i as int));
            self.add_trusted_peer(peers[i]);
            i = i + 1;
        }
        assert(peers@.take(i as int) =~= peers@);
    }

    /// An owned snapshot of the known nodes. No identity occurs twice in it.
    pub fn view(&self) -> (snapshot: TopologyView)
        requires
            self.wf(),
        ensures
            snapshot@ == self.state().view(),
            identities(snapshot@).no_duplicates(),
            !identities(snapshot@).contains(self.state().local.id),
    {
        let mut snapshot: Vec<NodeRecord> = Vec::new();
        let mut i: usize = 0;
        while i < self.nodes.len()
            invariant
                i <= self.nodes@.len(),
                snapshot@ == self.state().view().take(i as int),
            decreases self.nodes@.len() - i,
        {
            snapshot.push(self.nodes[i].record);
            assert(snapshot@ =~= self.state().view().take(i + 1));
            i = i + 1;
        }
        proof {
            assert(self.state().view().take(i as int) =~= self.state().view());
            lemma_view_distinct(self.state());
        }
        snapshot
    }

    /// Takes in one gossip entry.
    pub fn merge_record(&mut self, record: NodeRecord)
        requires
            old(self).wf(),
        ensures
            final(self).wf(),
            final(self).state() == old(self).state().merge_one(record),
    {
        proof {
            lemma_merge_one(old(self).state(), record);
        }
        if record.id == self.local.id || record.address.is_none() || self.is_barred(record.id) {
            return ;
        }
        match self.find(record.id) {
            Some(i) => {
                if record.last_seen > self.nodes[i].record.last_seen {
                    let trusted = self.nodes[i].trusted;
                    self.nodes.set(i, Known { record, trusted });
                }
            },
            None => {
                self.nodes.push(Known { record, trusted: false });
            },
        }
    }

    /// Takes in a gossip payload: unknown nodes are learned, known nodes
    /// take the fresher record, and entries that tell of this node itself,
    /// give no address or tell of an evicted node are left aside.
    pub fn merge_gossip(&mut self, nodes: &Vec<NodeRecord>)
        requires
            old(self).wf(),
        ensures
            final(self).wf(),
            final(self).state() == old(self).state().merged(nodes@),
    {
        let mut i: usize = 0;
        assert(nodes@.take(0) =~= Seq::empty());
        while i < nodes.len()
            invariant
                i <= nodes.len(),
                self.wf(),
                self.state() == old(self).state().merged(nodes@.take(i as int)),
            decreases nodes.len() - i,
        {
            assert(nodes@.take(i + 1).drop_last() =~= nodes@.take(i as int));
            self.merge_record(nodes[i]);
            i = i + 1;
        }
        assert(nodes@.take(i as int) =~= nodes@);
    }

    /// Evicts `id`: the node leaves the view and stays out of it for the
    /// decay period. A trusted node is not evicted. Returns the record that
    /// left.
    pub fn evict_node(&mut self, id: NodeIdentity) -> (gone: Option<NodeRecord>)
        requires
            old(self).wf(),
        ensures
            final(self).wf(),
            final(self).state() == old(self).state().evicted(id),
            gone == if old(self).state().evictable(id) {
                Some(old(self).state().nodes[old(self).state().slot(id)].record)
            } else {
                None
            },
    {
        proof {
            lemma_evicted(old(self).state(), id);
        }
        match self.find(id) {
            Some(i) => {
                if self.nodes[i].trusted {
                    None
                } else {
                    let known = self.nodes.remove(i);
                    let until: u64 = if self.decay <= u64::MAX - self.round {
                        self.round + self.decay
                    } else {
                        u64::MAX
                    };
                    self.quarantine.push(Barred { id, until });
                    Some(known.record)
                }
            },
            None => None,
        }
    }

    /// Counts one gossip round and forgets the evictions whose time is over.
    pub fn tick(&mut self)
        ensures
            final(self).state() == old(self).state().ticked(),
            old(self).wf() ==> final(self).wf(),
    {
        if self.round < u64::MAX {
            self.round = self.round + 1;
        }
        let round = self.round;
        let mut kept: Vec<Barred> = Vec::new();
        let mut i: usize = 0;
        let ghost keep = |b: Barred| b.until > round;
        proof {
            reveal(Seq::filter);
            assert(self.quarantine@.take(0) =~= Seq::empty());
        }
        while i < self.quarantine.len()
            invariant
                i <= self.quarantine@.len(),
                keep == (|b: Barred| b.until > round),
                kept@ == self.quarantine@.take(i as int).filter(keep),
            decreases self.quarantine@.len() - i,
        {
            proof {
                reveal(Seq::filter);
                assert(self.quarantine@.take(i + 1).drop_last() =~= self.quarantine@.take(
                    i as int,
                ));
            }
            if self.quarantine[i].until > round {
                kept.push(self.quarantine[i]);
            }
            i = i + 1;
        }
        assert(self.quarantine@.take(i as int) =~= self.quarantine@);
        self.quarantine = kept;
    }

    /// The nodes to tell `excluding` of, where the rule chose `picked`.
    pub fn gossip_targets(&self, excluding: NodeIdentity, picked: &Vec<NodeIdentity>) -> (targets:
        Vec<NodeRecord>)
        ensures
            targets@ == self.state().targets(excluding, picked@),
    {
        let mut targets: Vec<NodeRecord> = Vec::new();
        let mut i: usize = 0;
        let ghost chosen = picked@;
        let ghost keep = |k: Known|
            k.record.id != excluding && (k.trusted || chosen.contains(k.record.id));
        let ghost record = |k: Known| k.record;
        proof {
            reveal(Seq::filter);
            assert(self.nodes@.take(0) =~= Seq::empty());
            assert(self.nodes@.take(0).filter(keep).map_values(record) =~= Seq::empty());
        }
        while i < self.nodes.len()
            invariant
                i <= self.nodes@.len(),
                chosen == picked@,
                keep == (|k: Known|
                    k.record.id != excluding && (k.trusted || chosen.contains(k.record.id))),
                record == (|k: Known| k.record),
                targets@ == self.nodes@.take(i as int).filter(keep).map_values(record),
            decreases self.nodes@.len() - i,
        {
            let known = self.nodes[i];
            proof {
                reveal(Seq::filter);
                assert(self.nodes@.take(i + 1).drop_last() =~= self.nodes@.take(i as int));
            }
            let wanted = known.record.id != excluding && (known.trusted || listed(
                picked,
                known.record.id,
            ));
            if wanted {
                targets.push(known.record);
                assert(targets@ =~= self.nodes@.take(i + 1).filter(keep).map_values(record));
            }
            i = i + 1;
        }
        assert(self.nodes@.take(i as int) =~= self.nodes@);
        targets
    }

    /// The nodes to exchange gossip about with `excluding`: the trusted
    /// peers, always, and what `policy` chooses among the known nodes.
    pub fn select_gossip_targets<P: SelectionPolicy>(
        &self,
        excluding: NodeIdentity,
        policy: &P,
    ) -> (targets: Vec<NodeRecord>)
        requires
            self.wf(),
        ensures
            targets@ == self.state().targets(excluding, policy.chosen(self.state().view(), excluding)),
    {
        let known = self.view();
        let picked = policy.select(&known, excluding);
        self.gossip_targets(excluding, &picked)
    }
}

} // verus!
