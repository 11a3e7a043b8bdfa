//! The registry of live peer handles: at most one handle per identity, at
//! most `max_connections` handles, the least recently used one leaving first.
use crate::message::{Fragment, Gossip, Header, MessageView, PeerMessage};
use crate::types::{BlockId, NodeIdentity, NodeRecord};
use vstd::prelude::*;

verus! {

/// How many messages a handle queues for its connection.
pub const OUTBOUND_QUEUE_LEN: usize = 8;

/// Why a handle took no message.
#[derive(Clone, Copy, PartialEq, Eq, Structural, Debug)]
pub enum SendError {
    /// The queue holds `OUTBOUND_QUEUE_LEN` messages already.
    Full,
    /// The connection behind the handle is gone.
    Closed,
}

/// What became of a request addressed to one peer.
#[derive(Clone, Copy, PartialEq, Eq, Structural, Debug)]
pub enum RequestOutcome {
    /// The request is in the peer's queue.
    Forwarded,
    /// No handle is registered for the peer; the caller may connect first.
    PeerUnknown,
    /// The peer's handle took no message.
    Rejected(SendError),
}

/// The sending side of one connection: a bounded queue of messages that the
/// connection's task takes out and writes to the wire.
#[derive(Debug)]
pub struct PeerHandle {
    closed: bool,
    outbox: Vec<PeerMessage>,
}

/// A handle as contracts see it.
pub struct HandleView {
    pub closed: bool,
    pub outbox: Seq<MessageView>,
}

/// The contents of a run of messages.
pub open spec fn contents(msgs: Seq<PeerMessage>) -> Seq<MessageView> {
    Seq::new(msgs.len(), |i: int| msgs[i]@)
}

impl HandleView {
    /// A handle that was just made.
    pub open spec fn fresh() -> HandleView {
        HandleView { closed: false, outbox: Seq::empty() }
    }

    /// Whether the handle takes one more message.
    pub open spec fn accepts(self) -> bool {
        !self.closed && self.outbox.len() < OUTBOUND_QUEUE_LEN
    }

    /// What a send answers.
    pub open spec fn answer(self) -> Result<(), SendError> {
        if self.closed {
            Err(SendError::Closed)
        } else if self.outbox.len() >= OUTBOUND_QUEUE_LEN {
            Err(SendError::Full)
        } else {
            Ok(())
        }
    }

    /// The handle after a send of `m`: the message is queued where the
    /// handle takes it, and lost where it does not.
    pub open spec fn offered(self, m: MessageView) -> HandleView {
        if self.accepts() {
            HandleView { closed: self.closed, outbox: self.outbox.push(m) }
        } else {
            self
        }
    }
}

impl View for PeerHandle {
    type V = HandleView;

    closed spec fn view(&self) -> HandleView {
        HandleView { closed: self.closed, outbox: contents(self.outbox@) }
    }
}

impl PeerHandle {
    /// An open handle with an empty queue.
    pub fn new() -> (handle: PeerHandle)
        ensures
            handle@ == HandleView::fresh(),
    {
        let handle = PeerHandle { closed: false, outbox: Vec::new() };
        assert(contents(handle.outbox@) =~= Seq::empty());
        handle
    }

    /// Queues `msg` unless the handle is closed or its queue is full.
    pub fn try_send(&mut self, msg: PeerMessage) -> (r: Result<(), SendError>)
        ensures
            r == old(self)@.answer(),
            final(self)@ == old(self)@.offered(msg@),
    {
        if self.closed {
            Err(SendError::Closed)
        } else if self.outbox.len() >= OUTBOUND_QUEUE_LEN {
            Err(SendError::Full)
        } else {
            self.outbox.push(msg);
            assert(contents(self.outbox@) =~= contents(old(self).outbox@).push(msg@));
            Ok(())
        }
    }

    pub fn try_send_block_announcement(&mut self, header: Header) -> (r: Result<(), SendError>)
        ensures
            r == old(self)@.answer(),
            final(self)@ == old(self)@.offered(MessageView::BlockAnnouncement(header@)),
    {
        self.try_send(PeerMessage::BlockAnnouncement(header))
    }

    pub fn try_send_fragment(&mut self, fragment: Fragment) -> (r: Result<(), SendError>)
        ensures
            r == old(self)@.answer(),
            final(self)@ == old(self)@.offered(MessageView::Fragment(fragment@)),
    {
        self.try_send(PeerMessage::Fragment(fragment))
    }

    pub fn try_send_gossip(&mut self, gossip: Gossip) -> (r: Result<(), SendError>)
        ensures
            r == old(self)@.answer(),
            final(self)@ == old(self)@.offered(MessageView::Gossip(gossip@)),
    {
        self.try_send(PeerMessage::Gossip(gossip))
    }

    /// Marks the connection as gone: what is queued stays, nothing more is
    /// taken.
    pub fn close(&mut self)
        ensures
            final(self)@ == (HandleView { closed: true, outbox: old(self)@.outbox }),
    {
        self.closed = true;
    }

    pub fn is_closed(&self) -> (r: bool)
        ensures
            r == self@.closed,
    {
        self.closed
    }

    /// The number of messages queued.
    pub fn pending(&self) -> (n: usize)
        ensures
            n == self@.outbox.len(),
    {
        self.outbox.len()
    }

    /// Takes the queued messages out, oldest first.
    pub fn take_outbound(&mut self) -> (msgs: Vec<PeerMessage>)
        ensures
            contents(msgs@) == old(self)@.outbox,
            final(self)@ == (HandleView { closed: old(self)@.closed, outbox: Seq::empty() }),
    {
        let mut msgs: Vec<PeerMessage> = Vec::new();
        core::mem::swap(&mut msgs, &mut self.outbox);
        assert(contents(self.outbox@) =~= Seq::empty());
        msgs
    }
}

/// One registered peer.
#[derive(Debug)]
struct PeerEntry {
    id: NodeIdentity,
    handle: PeerHandle,
}

/// The identity and the state of one registered peer.
pub type EntryView = (NodeIdentity, HandleView);

/// The registry: handles by identity, least recently used first.
#[derive(Debug)]
pub struct Peers {
    max_connections: usize,
    entries: Vec<PeerEntry>,
}

/// The registry as contracts see it.
pub struct PeersView {
    pub max_connections: nat,
    /// The registered peers, least recently used first.
    pub entries: Seq<EntryView>,
}

/// Handles that left the registry on an insertion.
#[derive(Debug)]
pub struct InsertOutcome {
    /// The handle that was registered under the same identity before.
    pub superseded: Option<PeerHandle>,
    /// The entry that made room, or the new handle itself where the
    /// registry keeps none.
    pub evicted: Option<(NodeIdentity, PeerHandle)>,
}

impl InsertOutcome {
    /// Whether this is what left the registry `v` when `h` was registered
    /// under `id`.
    pub open spec fn records(&self, v: PeersView, id: NodeIdentity, h: HandleView) -> bool {
        &&& match self.superseded {
            Some(s) => v.handle_of(id) == Some(s@),
            None => v.handle_of(id) is None,
        }
        &&& match self.evicted {
            Some((e, g)) => v.evicted_by(id, h) == Some((e, g@)),
            None => v.evicted_by(id, h) is None,
        }
    }
}

/// One line of the registry's statistics.
#[derive(Clone, Copy, PartialEq, Eq, Debug)]
pub struct PeerStats {
    pub id: NodeIdentity,
    /// Messages queued and not yet taken out.
    pub pending: usize,
    pub closed: bool,
}

impl PeersView {
    /// No identity twice, and no more entries than the bound.
    pub open spec fn wf(self) -> bool {
        &&& self.entries.len() <= self.max_connections
        &&& forall|i: int, j: int|
            0 <= i < j < self.entries.len() ==> (#[trigger] self.entries[i]).0 != (
            #[trigger] self.entries[j]).0
    }

    /// Whether a handle is registered for `id`.
    pub open spec fn has(self, id: NodeIdentity) -> bool {
        exists|i: int| 0 <= i < self.entries.len() && (#[trigger] self.entries[i]).0 == id
    }

    /// Where the handle of `id` stands.
    pub open spec fn slot(self, id: NodeIdentity) -> int {
        choose|i: int| 0 <= i < self.entries.len() && (#[trigger] self.entries[i]).0 == id
    }

    /// The handle registered for `id`.
    pub open spec fn handle_of(self, id: NodeIdentity) -> Option<HandleView> {
        if self.has(id) {
            Some(self.entries[self.slot(id)].1)
        } else {
            None
        }
    }

    /// The entries but that of `id`.
    pub open spec fn without(self, id: NodeIdentity) -> Seq<EntryView> {
        if self.has(id) {
            self.entries.remove(self.slot(id))
        } else {
            self.entries
        }
    }

    /// The registry after `id` is taken out.
    pub open spec fn removed(self, id: NodeIdentity) -> PeersView {
        PeersView { max_connections: self.max_connections, entries: self.without(id) }
    }

    /// The entry that an insertion under `id` pushes out.
    pub open spec fn evicted_by(self, id: NodeIdentity, h: HandleView) -> Option<EntryView> {
        let rest = self.without(id);
        if self.max_connections == 0 {
            Some((id, h))
        } else if rest.len() >= self.max_connections {
            Some(rest[0])
        } else {
            None
        }
    }

    /// The registry after `h` is registered under `id`: an earlier handle of
    /// `id` is gone, the least recently used entry has left if there was no
    /// room, and `id` is the most recently used.
    pub open spec fn inserted(self, id: NodeIdentity, h: HandleView) -> PeersView {
        let rest = self.without(id);
        if self.max_connections == 0 {
            PeersView { max_connections: self.max_connections, entries: rest }
        } else if rest.len() >= self.max_connections {
            PeersView {
                max_connections: self.max_connections,
                entries: rest.drop_first().push((id, h)),
            }
        } else {
            PeersView { max_connections: self.max_connections, entries: rest.push((id, h)) }
        }
    }

    /// The registry after `m` is sent to `id`: the peer's handle was offered
    /// the message and is the most recently used. Nothing changes where the
    /// peer is not registered.
    pub open spec fn delivered(self, id: NodeIdentity, m: MessageView) -> PeersView {
        if self.has(id) {
            let i = self.slot(id);
            PeersView {
                max_connections: self.max_connections,
                entries: self.entries.remove(i).push((id, self.entries[i].1.offered(m))),
            }
        } else {
            self
        }
    }

    /// The registry after the queue of `id` is taken out: the handle stays
    /// where it is, with nothing queued.
    pub open spec fn drained(self, id: NodeIdentity) -> PeersView {
        if self.has(id) {
            let i = self.slot(id);
            PeersView {
                max_connections: self.max_connections,
                entries: self.entries.update(
                    i,
                    (id, HandleView { closed: self.entries[i].1.closed, outbox: Seq::empty() }),
                ),
            }
        } else {
            self
        }
    }

    /// What is queued for `id`, oldest first.
    pub open spec fn queued(self, id: NodeIdentity) -> Seq<MessageView> {
        match self.handle_of(id) {
            Some(h) => h.outbox,
            None => Seq::empty(),
        }
    }

    /// What a request to `id` answers.
    pub open spec fn outcome(self, id: NodeIdentity) -> RequestOutcome {
        match self.handle_of(id) {
            None => RequestOutcome::PeerUnknown,
            Some(h) => match h.answer() {
                Ok(()) => RequestOutcome::Forwarded,
                Err(e) => RequestOutcome::Rejected(e),
            },
        }
    }

    /// The registry after `m` is sent to each of `nodes` in turn.
    pub open spec fn propagated(self, nodes: Seq<NodeRecord>, m: MessageView) -> PeersView
        decreases nodes.len(),
    {
        if nodes.len() == 0 {
            self
        } else {
            self.propagated(nodes.drop_last(), m).delivered(nodes.last().id, m)
        }
    }

    /// Those of `nodes` for which no handle is registered, in their order.
    pub open spec fn missing(self, nodes: Seq<NodeRecord>) -> Seq<NodeRecord> {
        nodes.filter(|n: NodeRecord| !self.has(n.id))
    }

    /// The statistics of the registry, one line per entry.
    pub open spec fn stats(self) -> Seq<PeerStats> {
        Seq::new(
            self.entries.len(),
            |i: int|
                PeerStats {
                    id: self.entries[i].0,
                    pending: self.entries[i].1.outbox.len() as usize,
                    closed: self.entries[i].1.closed,
                },
        )
    }
}

/// Taking an entry out keeps the registry well formed, and `id` is no longer
/// registered.
pub proof fn lemma_removed(v: PeersView, id: NodeIdentity)
    requires
        v.wf(),
    ensures
        v.removed(id).wf(),
        !v.removed(id).has(id),
        forall|other: NodeIdentity|
            other != id ==> v.removed(id).has(other) == v.has(other) && v.removed(id).handle_of(
                other,
            ) == v.handle_of(other),
        v.has(id) ==> v.removed(id).entries.len() == v.entries.len() - 1,
        !v.has(id) ==> v.removed(id) == v,
{
    let r = v.removed(id);
    if v.has(id) {
        let k = v.slot(id);
        assert(r.entries =~= v.entries.remove(k));
        assert forall|i: int| 0 <= i < r.entries.len() implies (#[trigger] r.entries[i]).0
            != id by {
            if i < k {
                assert(r.entries[i] == v.entries[i]);
            } else {
                assert(r.entries[i] == v.entries[i + 1]);
            }
        }
        assert forall|other: NodeIdentity| other != id implies r.has(other) == v.has(other)
            && r.handle_of(other) == v.handle_of(other) by {
            if v.has(other) {
                let j = v.slot(other);
                let j2 = if j < k {
                    j
                } else {
                    j - 1
                };
                assert(r.entries[j2] == v.entries[j]);
                assert(r.has(other));
                let s = r.slot(other);
                let s2 = if s < k {
                    s
                } else {
                    s + 1
                };
                assert(v.entries[s2] == r.entries[s]);
                assert(s2 == j);
            }
            if r.has(other) {
                let s = r.slot(other);
                let s2 = if s < k {
                    s
                } else {
                    s + 1
                };
                assert(v.entries[s2] == r.entries[s]);
                assert(v.has(other));
            }
        }
        assert forall|i: int, j: int| 0 <= i < j < r.entries.len() implies (
        #[trigger] r.entries[i]).0 != (#[trigger] r.entries[j]).0 by {
            let i2 = if i < k {
                i
            } else {
                i + 1
            };
            let j2 = if j < k {
                j
            } else {
                j + 1
            };
            assert(r.entries[i] == v.entries[i2]);
            assert(r.entries[j] == v.entries[j2]);
        }
    } else {
        assert(r.entries =~= v.entries);
    }
}

/// Supersede on insert: however a handle is inserted, the registry stays
/// within its bound and never holds two handles for one identity. Where the
/// bound is not zero the new handle is the one registered for its identity,
/// as the most recently used entry.
pub proof fn lemma_insert_supersedes(v: PeersView, id: NodeIdentity, h: HandleView)
    requires
        v.wf(),
    ensures
        v.inserted(id, h).wf(),
        v.max_connections > 0 ==> v.inserted(id, h).handle_of(id) == Some(h),
        v.max_connections > 0 ==> v.inserted(id, h).entries.last() == (id, h),
        forall|i: int, j: int|
            0 <= i < v.inserted(id, h).entries.len() && 0 <= j < v.inserted(id, h).entries.len()
                && (#[trigger] v.inserted(id, h).entries[i]).0 == (#[trigger] v.inserted(
                id,
                h,
            ).entries[j]).0 ==> i == j,
{
    lemma_removed(v, id);
    let rest = v.removed(id);
    let n = v.inserted(id, h);
    if v.max_connections > 0 {
        let kept = if rest.entries.len() >= v.max_connections {
            rest.entries.drop_first()
        } else {
            rest.entries
        };
        assert(n.entries =~= kept.push((id, h)));
        assert forall|i: int| 0 <= i < kept.len() implies (#[trigger] kept[i]).0 != id by {
            if rest.entries.len() >= v.max_connections {
                assert(kept[i] == rest.entries[i + 1]);
            }
        }
        assert forall|i: int, j: int| 0 <= i < j < kept.len() implies (#[trigger] kept[i]).0 != (
        #[trigger] kept[j]).0 by {
            if rest.entries.len() >= v.max_connections {
                assert(kept[i] == rest.entries[i + 1]);
                assert(kept[j] == rest.entries[j + 1]);
            }
        }
        assert forall|i: int, j: int| 0 <= i < j < n.entries.len() implies (
        #[trigger] n.entries[i]).0 != (#[trigger] n.entries[j]).0 by {
            assert(n.entries[i] == kept[i]);
            if j < kept.len() {
                assert(n.entries[j] == kept[j]);
            }
        }
        let last = n.entries.len() - 1;
        assert(n.entries[last] == (id, h));
        assert(n.has(id));
        assert(n.slot(id) == last) by {
            let s = n.slot(id);
            if s < last {
                assert(n.entries[s].0 != n.entries[last].0);
            }
        }
    }
    assert forall|i: int, j: int|
        0 <= i < n.entries.len() && 0 <= j < n.entries.len() && (#[trigger] n.entries[i]).0 == (
        #[trigger] n.entries[j]).0 implies i == j by {
        if i < j {
            assert(n.entries[i].0 != n.entries[j].0);
        }
        if j < i {
            assert(n.entries[j].0 != n.entries[i].0);
        }
    }
}

/// Eviction at capacity: where the registry is full and `id` is not yet
/// registered, inserting it pushes out exactly the least recently used
/// entry; every other entry stays, in its order, and the registry is full
/// again.
pub proof fn lemma_insert_at_capacity(v: PeersView, id: NodeIdentity, h: HandleView)
    requires
        v.wf(),
        v.max_connections > 0,
        v.entries.len() == v.max_connections,
        !v.has(id),
    ensures
        v.inserted(id, h).entries.len() == v.max_connections,
        v.evicted_by(id, h) == Some(v.entries[0]),
        v.inserted(id, h).entries == v.entries.drop_first().push((id, h)),
        !v.inserted(id, h).has(v.entries[0].0),
        forall|i: int|
            1 <= i < v.entries.len() ==> v.inserted(id, h).entries[i - 1] == #[trigger] v.entries[i],
{
    lemma_insert_supersedes(v, id, h);
    let n = v.inserted(id, h);
    assert(n.entries =~= v.entries.drop_first().push((id, h)));
    if n.has(v.entries[0].0) {
        let s = n.slot(v.entries[0].0);
        if s < n.entries.len() - 1 {
            assert(n.entries[s] == v.entries[s + 1]);
            assert(v.entries[0].0 != v.entries[s + 1].0);
        } else {
            assert(n.entries[s] == (id, h));
            assert(v.entries[0].0 == id);
        }
    }
}

/// Below capacity nothing is pushed out by an insertion.
pub proof fn lemma_insert_below_capacity(v: PeersView, id: NodeIdentity, h: HandleView)
    requires
        v.wf(),
        v.without(id).len() < v.max_connections,
    ensures
        v.evicted_by(id, h) is None,
        v.inserted(id, h).entries == v.without(id).push((id, h)),
{
}

/// A delivery changes no one's registration: the same identities are
/// registered before and after, within the same bound.
pub proof fn lemma_delivered(v: PeersView, id: NodeIdentity, m: MessageView)
    requires
        v.wf(),
    ensures
        v.delivered(id, m).wf(),
        v.delivered(id, m).entries.len() == v.entries.len(),
        forall|other: NodeIdentity| v.delivered(id, m).has(other) == v.has(other),
        v.has(id) ==> v.delivered(id, m).handle_of(id) == Some(v.handle_of(id).unwrap().offered(m)),
        forall|other: NodeIdentity|
            other != id ==> v.delivered(id, m).handle_of(other) == v.handle_of(other),
{
    let d = v.delivered(id, m);
    if v.has(id) {
        let k = v.slot(id);
        let h2 = v.entries[k].1.offered(m);
        lemma_removed(v, id);
        let rest = v.removed(id);
        assert(rest.entries == v.entries.remove(k));
        assert(d.entries =~= rest.entries.push((id, h2)));
        let last = d.entries.len() - 1;
        assert(d.entries[last] == (id, h2));
        assert forall|i: int, j: int| 0 <= i < j < d.entries.len() implies (
        #[trigger] d.entries[i]).0 != (#[trigger] d.entries[j]).0 by {
            assert(d.entries[i] == rest.entries[i]);
            if j < last {
                assert(d.entries[j] == rest.entries[j]);
            }
        }
        assert(d.has(id));
        assert(d.slot(id) == last) by {
            let s = d.slot(id);
            if s < last {
                assert(d.entries[s].0 != d.entries[last].0);
            }
        }
        assert forall|other: NodeIdentity| other != id implies d.has(other) == v.has(other)
            && d.handle_of(other) == v.handle_of(other) by {
            if rest.has(other) {
                let s = rest.slot(other);
                assert(d.entries[s] == rest.entries[s]);
                assert(d.has(other));
                let t = d.slot(other);
                assert(t < last);
                assert(d.entries[t] == rest.entries[t]);
                if t < s {
                    assert(rest.entries[t].0 != rest.entries[s].0);
                }
                if s < t {
                    assert(rest.entries[s].0 != rest.entries[t].0);
                }
            }
            if d.has(other) {
                let t = d.slot(other);
                assert(t < last);
                assert(d.entries[t] == rest.entries[t]);
                assert(rest.has(other));
            }
        }
    }
}

/// Propagation changes no one's registration either.
pub proof fn lemma_propagated(v: PeersView, nodes: Seq<NodeRecord>, m: MessageView)
    requires
        v.wf(),
    ensures
        v.propagated(nodes, m).wf(),
        v.propagated(nodes, m).entries.len() == v.entries.len(),
        forall|other: NodeIdentity| v.propagated(nodes, m).has(other) == v.has(other),
    decreases nodes.len(),
{
    if nodes.len() > 0 {
        lemma_propagated(v, nodes.drop_last(), m);
        lemma_delivered(v.propagated(nodes.drop_last(), m), nodes.last().id, m);
    }
}

impl View for Peers {
    type V = PeersView;

    closed spec fn view(&self) -> PeersView {
        PeersView {
            max_connections: self.max_connections as nat,
            entries: Seq::new(
                self.entries@.len(),
                |i: int| (self.entries@[i].id, self.entries@[i].handle@),
            ),
        }
    }
}

impl Peers {
    /// Whether the registry holds what it promises.
    pub open spec fn wf(&self) -> bool {
        self@.wf()
    }

    /// An empty registry that keeps at most `max_connections` handles.
    pub fn new(max_connections: usize) -> (peers: Peers)
        ensures
            peers.wf(),
            peers@ == (PeersView {
                max_connections: max_connections as nat,
                entries: Seq::empty(),
            }),
    {
        let peers = Peers { max_connections, entries: Vec::new() };
        assert(peers@.entries =~= Seq::empty());
        peers
    }

    pub fn max_connections(&self) -> (n: usize)
        ensures
            n == self@.max_connections,
    {
        self.max_connections
    }

    /// The number of registered peers.
    pub fn len(&self) -> (n: usize)
        ensures
            n == self@.entries.len(),
    {
        self.entries.len()
    }

    fn find(&self, id: NodeIdentity) -> (r: Option<usize>)
        requires
            self.wf(),
        ensures
            match r {
                Some(i) => self@.has(id) && i == self@.slot(id) && i < self.entries@.len(),
                None => !self@.has(id),
            },
    {
        let mut i: usize = 0;
        while i < self.entries.len()
            invariant
                i <= self.entries@.len(),
                self.wf(),
                forall|j: int| 0 <= j < i ==> (#[trigger] self@.entries[j]).0 != id,
            decreases self.entries@.len() - i,
        {
            if self.entries[i].id == id {
                assert(self@.entries[i as int].0 == id);
                assert(self@.has(id));
                let ghost s = self@.slot(id);
                assert(s == i) by {
                    if s < i {
                        assert(self@.entries[s].0 != self@.entries[i as int].0);
                    }
                    if i < s {
                        assert(self@.entries[i as int].0 != self@.entries[s].0);
                    }
                }
                return Some(i);
            }
            assert(self@.entries[i as int].0 != id);
            i = i + 1;
        }
        None
    }

    /// Whether a handle is registered for `id`.
    pub fn contains(&self, id: NodeIdentity) -> (r: bool)
        requires
            self.wf(),
        ensures
            r == self@.has(id),
    {
        self.find(id).is_some()
    }

    /// The handle registered for `id`, to look at.
    pub fn get(&self, id: NodeIdentity) -> (r: Option<&PeerHandle>)
        requires
            self.wf(),
        ensures
            match r {
                Some(h) => self@.handle_of(id) == Some(h@),
                None => self@.handle_of(id) is None,
            },
    {
        match self.find(id) {
            Some(i) => Some(&self.entries[i].handle),
            None => None,
        }
    }

    /// Registers `handle` under `id`. A handle registered under `id` before
    /// is superseded; if there is no room left, the least recently used
    /// entry leaves first. Both are handed back.
    pub fn insert_peer(&mut self, id: NodeIdentity, handle: PeerHandle) -> (out: InsertOutcome)
        requires
            old(self).wf(),
        ensures
            final(self).wf(),
            final(self)@ == old(self)@.inserted(id, handle@),
            out.records(old(self)@, id, handle@),
    {
        proof {
            lemma_insert_supersedes(old(self)@, id, handle@);
        }
        let mut superseded: Option<PeerHandle> = None;
        match self.find(id) {
            Some(i) => {
                let entry = self.entries.remove(i);
                superseded = Some(entry.handle);
            },
            None => {},
        }
        assert(self@.entries =~= old(self)@.without(id));
        if self.max_connections == 0 {
            return InsertOutcome { superseded, evicted: Some((id, handle)) };
        }
        let mut evicted: Option<(NodeIdentity, PeerHandle)> = None;
        if self.entries.len() >= self.max_connections {
            let entry = self.entries.remove(0);
            evicted = Some((entry.id, entry.handle));
        }
        let ghost before = self@.entries;
        let ghost hv = handle@;
        self.entries.push(PeerEntry { id, handle });
        assert(self@.entries =~= before.push((id, hv)));
        assert(self@.entries =~= old(self)@.inserted(id, hv).entries);
        InsertOutcome { superseded, evicted }
    }

    /// Takes the handle of `id` out of the registry.
    pub fn remove_peer(&mut self, id: NodeIdentity) -> (r: Option<PeerHandle>)
        requires
            old(self).wf(),
        ensures
            final(self).wf(),
            final(self)@ == old(self)@.removed(id),
            match r {
                Some(h) => old(self)@.handle_of(id) == Some(h@),
                None => old(self)@.handle_of(id) is None,
            },
    {
        proof {
            lemma_removed(old(self)@, id);
        }
        match self.find(id) {
            Some(i) => {
                let entry = self.entries.remove(i);
                assert(self@.entries =~= old(self)@.without(id));
                Some(entry.handle)
            },
            None => {
                assert(self@.entries =~= old(self)@.without(id));
                None
            },
        }
    }

    /// Takes out what is queued for `id`, oldest first, for the connection
    /// to write. The peer keeps its handle and its place.
    pub fn take_outbound(&mut self, id: NodeIdentity) -> (msgs: Vec<PeerMessage>)
        requires
            old(self).wf(),
        ensures
            final(self).wf(),
            final(self)@ == old(self)@.drained(id),
            contents(msgs@) == old(self)@.queued(id),
    {
        match self.find(id) {
            Some(i) => {
                let mut entry = self.entries.remove(i);
                let msgs = entry.handle.take_outbound();
                let ghost after = entry.handle@;
                self.entries.insert(i, entry);
                assert(self@.entries =~= old(self)@.entries.update(i as int, (id, after)));
                assert forall|a: int, b: int| 0 <= a < b < self@.entries.len() implies (
                #[trigger] self@.entries[a]).0 != (#[trigger] self@.entries[b]).0 by {
                    assert(self@.entries[a].0 == old(self)@.entries[a].0);
                    assert(self@.entries[b].0 == old(self)@.entries[b].0);
                }
                msgs
            },
            None => {
                let msgs: Vec<PeerMessage> = Vec::new();
                assert(contents(msgs@) =~= Seq::empty());
                msgs
            },
        }
    }

    /// Sends `msg` to `id` if a handle is registered for it, and hands the
    /// message back if none is.
    pub fn send_to(&mut self, id: NodeIdentity, msg: PeerMessage) -> (r: Result<
        Result<(), SendError>,
        PeerMessage,
    >)
        requires
            old(self).wf(),
        ensures
            final(self).wf(),
            final(self)@ == old(self)@.delivered(id, msg@),
            match r {
                Ok(answer) => old(self)@.handle_of(id) is Some && answer == old(self)@.handle_of(
                    id,
                ).unwrap().answer(),
                Err(back) => old(self)@.handle_of(id) is None && back == msg,
            },
    {
        proof {
            lemma_delivered(old(self)@, id, msg@);
        }
        match self.find(id) {
            Some(i) => {
                let mut entry = self.entries.remove(i);
                let ghost rest = self@.entries;
                assert(rest =~= old(self)@.entries.remove(i as int));
                let ghost before = entry.handle@;
                assert(before == old(self)@.entries[i as int].1);
                let answer = entry.handle.try_send(msg);
                let ghost after = entry.handle@;
                self.entries.push(entry);
                assert(self@.entries =~= rest.push((id, after)));
                Ok(answer)
            },
            None => Err(msg),
        }
    }

    /// Sends `msg` to every one of `nodes` that has a handle, and returns
    /// those that have none, in their order.
    pub fn propagate(&mut self, nodes: &Vec<NodeRecord>, msg: &PeerMessage) -> (unreached: Vec<
        NodeRecord,
    >)
        requires
            old(self).wf(),
        ensures
            final(self).wf(),
            final(self)@ == old(self)@.propagated(nodes@, msg@),
            unreached@ == old(self)@.missing(nodes@),
    {
        let mut unreached: Vec<NodeRecord> = Vec::new();
        let mut i: usize = 0;
        proof {
            reveal(Seq::filter);
            assert(nodes@.take(0) =~= Seq::empty());
        }
        while i < nodes.len()
            invariant
                i <= nodes.len(),
                old(self).wf(),
                self.wf(),
                self@ == old(self)@.propagated(nodes@.take(i as int), msg@),
                unreached@ == old(self)@.missing(nodes@.take(i as int)),
            decreases nodes.len() - i,
        {
            let node = nodes[i];
            proof {
                reveal(Seq::filter);
                lemma_propagated(old(self)@, nodes@.take(i as int), msg@);
                assert(nodes@.take(i + 1).drop_last() =~= nodes@.take(i as int));
                assert(nodes@.take(i + 1).last() == node);
            }
            if self.contains(node.id) {
                let _ = self.send_to(node.id, msg.duplicate());
            } else {
                unreached.push(node);
            }
            i = i + 1;
        }
        assert(nodes@.take(i as int) =~= nodes@);
        unreached
    }

    /// Announces `header` to every one of `nodes` that has a handle.
    /// `Err` holds those that have none.
    pub fn propagate_block(&mut self, nodes: Vec<NodeRecord>, header: Header) -> (r: Result<
        (),
        Vec<NodeRecord>,
    >)
        requires
            old(self).wf(),
        ensures
            final(self).wf(),
            final(self)@ == old(self)@.propagated(
                nodes@,
                MessageView::BlockAnnouncement(header@),
            ),
            match r {
                Ok(()) => old(self)@.missing(nodes@).len() == 0,
                Err(unreached) => unreached@.len() > 0 && unreached@ == old(self)@.missing(
                    nodes@,
                ),
            },
    {
        let msg = PeerMessage::BlockAnnouncement(header);
        let unreached = self.propagate(&nodes, &msg);
        if unreached.len() == 0 {
            Ok(())
        } else {
            Err(unreached)
        }
    }

    /// Hands `fragment` to every one of `nodes` that has a handle. `Err`
    /// holds those that have none.
    pub fn propagate_fragment(&mut self, nodes: Vec<NodeRecord>, fragment: Fragment) -> (r:
        Result<(), Vec<NodeRecord>>)
        requires
            old(self).wf(),
        ensures
            final(self).wf(),
            final(self)@ == old(self)@.propagated(nodes@, MessageView::Fragment(fragment@)),
            match r {
                Ok(()) => old(self)@.missing(nodes@).len() == 0,
                Err(unreached) => unreached@.len() > 0 && unreached@ == old(self)@.missing(
                    nodes@,
                ),
            },
    {
        let msg = PeerMessage::Fragment(fragment);
        let unreached = self.propagate(&nodes, &msg);
        if unreached.len() == 0 {
            Ok(())
        } else {
            Err(unreached)
        }
    }

    /// Sends `gossip` to `id`. `Err` hands the gossip back where no handle
    /// is registered for `id`.
    pub fn propagate_gossip_to(&mut self, id: NodeIdentity, gossip: Gossip) -> (r: Result<
        (),
        Gossip,
    >)
        requires
            old(self).wf(),
        ensures
            final(self).wf(),
            final(self)@ == old(self)@.delivered(id, MessageView::Gossip(gossip@)),
            match r {
                Ok(()) => old(self)@.has(id),
                Err(back) => !old(self)@.has(id) && back == gossip,
            },
    {
        if self.contains(id) {
            let _ = self.send_to(id, PeerMessage::Gossip(gossip));
            Ok(())
        } else {
            Err(gossip)
        }
    }

    /// Asks `id` for the blocks `ids`.
    pub fn solicit_blocks(&mut self, id: NodeIdentity, ids: Vec<BlockId>) -> (r: RequestOutcome)
        requires
            old(self).wf(),
        ensures
            final(self).wf(),
            final(self)@ == old(self)@.delivered(id, MessageView::SolicitBlocks(ids@)),
            r == old(self)@.outcome(id),
    {
        match self.send_to(id, PeerMessage::SolicitBlocks(ids)) {
            Ok(Ok(())) => RequestOutcome::Forwarded,
            Ok(Err(e)) => RequestOutcome::Rejected(e),
            Err(_) => RequestOutcome::PeerUnknown,
        }
    }

    /// Asks `id` for the headers between the checkpoints `from` and the
    /// block `to`.
    pub fn pull_headers(&mut self, id: NodeIdentity, from: Vec<BlockId>, to: BlockId) -> (r:
        RequestOutcome)
        requires
            old(self).wf(),
        ensures
            final(self).wf(),
            final(self)@ == old(self)@.delivered(id, MessageView::PullHeaders { from: from@, to }),
            r == old(self)@.outcome(id),
    {
        match self.send_to(id, PeerMessage::PullHeaders { from, to }) {
            Ok(Ok(())) => RequestOutcome::Forwarded,
            Ok(Err(e)) => RequestOutcome::Rejected(e),
            Err(_) => RequestOutcome::PeerUnknown,
        }
    }

    /// Asks the least recently used peer for the blocks `ids`, so that
    /// requests go round the registered peers.
    pub fn fetch_blocks(&mut self, ids: Vec<BlockId>) -> (r: RequestOutcome)
        requires
            old(self).wf(),
        ensures
            final(self).wf(),
            old(self)@.entries.len() == 0 ==> r == RequestOutcome::PeerUnknown && final(self)@
                == old(self)@,
            old(self)@.entries.len() > 0 ==> r == old(self)@.outcome(old(self)@.entries[0].0)
                && final(self)@ == old(self)@.delivered(
                old(self)@.entries[0].0,
                MessageView::SolicitBlocks(ids@),
            ),
    {
        if self.entries.len() == 0 {
            RequestOutcome::PeerUnknown
        } else {
            let id = self.entries[0].id;
            assert(self@.entries[0].0 == id);
            self.solicit_blocks(id, ids)
        }
    }

    /// One line per registered peer, least recently used first.
    pub fn stats(&self) -> (lines: Vec<PeerStats>)
        ensures
            lines@ == self@.stats(),
    {
        let mut lines: Vec<PeerStats> = Vec::new();
        let mut i: usize = 0;
        while i < self.entries.len()
            invariant
                i <= self.entries@.len(),
                lines@ == self@.stats().take(i as int),
            decreases self.entries@.len() - i,
        {
            let entry = &self.entries[i];
            lines.push(
                PeerStats {
                    id: entry.id,
                    pending: entry.handle.pending(),
                    closed: entry.handle.is_closed(),
                },
            );
            assert(lines@ =~= self@.stats().take(i + 1));
            i = i + 1;
        }
        assert(self@.stats().take(i as int) =~= self@.stats());
        lines
    }
}

} // verus!
