//! The life of one connection attempt: dial, learn who answered, serve,
//! close. Each attempt runs by itself; what it asks of the registry and of
//! the topology it says in the action that each step returns.
use crate::types::{NodeIdentity, Peer, SocketAddress};
use vstd::prelude::*;

verus! {

/// What one connection attempt works with.
#[derive(Clone, Copy, PartialEq, Eq, Structural, Debug)]
pub struct ConnectionState {
    /// How long to wait for the peer, in microseconds.
    pub timeout: u64,
    /// The endpoint to dial.
    pub connection: SocketAddress,
}

impl ConnectionState {
    pub fn new(peer: &Peer) -> (state: ConnectionState)
        ensures
            state == (ConnectionState { timeout: peer.timeout, connection: peer.connection }),
    {
        ConnectionState { timeout: peer.timeout, connection: peer.connection }
    }
}

/// Where a connection attempt stands.
#[derive(Clone, Copy, PartialEq, Eq, Structural, Debug)]
pub enum Phase {
    /// The transport is being set up.
    Connecting,
    /// The transport is up; the remote node has not said who it is.
    Identifying,
    /// The handle is published; the connection serves.
    Established,
    /// The connection served and is over.
    Closed,
    /// The attempt came to nothing.
    Failed,
}

/// What happened to a connection attempt.
#[derive(Clone, Copy, PartialEq, Eq, Structural, Debug)]
pub enum ConnectionEvent {
    /// So many microseconds went by.
    Waited(u64),
    /// The transport is up.
    TransportReady,
    /// The transport failed.
    TransportError,
    /// The remote node said who it is.
    Identified(NodeIdentity),
    /// The remote node hung up.
    Closed,
}

/// What the owner of the registry and the topology has to do.
#[derive(Clone, Copy, PartialEq, Eq, Structural, Debug)]
pub enum ConnectionAction {
    /// Nothing.
    Wait,
    /// The node did not answer: drop its handle and evict it.
    Evict(NodeIdentity),
    /// The connection stands: the handle registered under `expected`
    /// belongs to `actual`.
    Publish { expected: NodeIdentity, actual: NodeIdentity },
    /// The connection is over: drop the node's handle.
    Remove(NodeIdentity),
}

/// One connection attempt.
#[derive(Clone, Copy, PartialEq, Eq, Structural, Debug)]
pub struct Connection {
    pub state: ConnectionState,
    /// The node that the dialed address is believed to belong to.
    pub expected: NodeIdentity,
    pub phase: Phase,
    /// Microseconds spent waiting so far.
    pub waited: u64,
    /// The node that answered, once it has said so.
    pub remote: Option<NodeIdentity>,
}

impl Phase {
    /// How far a phase is along the way; the two ends rank alike.
    pub open spec fn rank(self) -> int {
        match self {
            Phase::Connecting => 0,
            Phase::Identifying => 1,
            Phase::Established => 2,
            Phase::Closed => 3,
            Phase::Failed => 3,
        }
    }

    /// Whether nothing can follow.
    pub open spec fn is_final(self) -> bool {
        self == Phase::Closed || self == Phase::Failed
    }
}

impl Connection {
    /// The time waited after `more` microseconds more, which stops at the
    /// largest number.
    pub open spec fn waited_after(self, more: u64) -> u64 {
        if self.waited + more <= u64::MAX {
            (self.waited + more) as u64
        } else {
            u64::MAX
        }
    }

    /// The node to name when the connection goes away.
    pub open spec fn peer(self) -> NodeIdentity {
        match self.remote {
            Some(actual) => actual,
            None => self.expected,
        }
    }

    /// The attempt after it gave up.
    pub open spec fn given_up(self) -> (Connection, ConnectionAction) {
        (Connection { phase: Phase::Failed, ..self }, ConnectionAction::Evict(self.expected))
    }

    /// The attempt after `event`, and what it asks for.
    pub open spec fn next(self, event: ConnectionEvent) -> (Connection, ConnectionAction) {
        match self.phase {
            Phase::Connecting => match event {
                ConnectionEvent::Waited(more) => if self.waited_after(more) >= self.state.timeout {
                    (
                        Connection { phase: Phase::Failed, waited: self.waited_after(more), ..self },
                        ConnectionAction::Evict(self.expected),
                    )
                } else {
                    (
                        Connection { waited: self.waited_after(more), ..self },
                        ConnectionAction::Wait,
                    )
                },
                ConnectionEvent::TransportReady => (
                    Connection { phase: Phase::Identifying, ..self },
                    ConnectionAction::Wait,
                ),
                ConnectionEvent::TransportError => self.given_up(),
                ConnectionEvent::Identified(_) => (self, ConnectionAction::Wait),
                ConnectionEvent::Closed => self.given_up(),
            },
            Phase::Identifying => match event {
                ConnectionEvent::Waited(more) => if self.waited_after(more) >= self.state.timeout {
                    (
                        Connection { phase: Phase::Failed, waited: self.waited_after(more), ..self },
                        ConnectionAction::Evict(self.expected),
                    )
                } else {
                    (
                        Connection { waited: self.waited_after(more), ..self },
                        ConnectionAction::Wait,
                    )
                },
                ConnectionEvent::TransportReady => (self, ConnectionAction::Wait),
                ConnectionEvent::TransportError => self.given_up(),
                ConnectionEvent::Identified(actual) => (
                    Connection { phase: Phase::Established, remote: Some(actual), ..self },
                    ConnectionAction::Publish { expected: self.expected, actual },
                ),
                ConnectionEvent::Closed => self.given_up(),
            },
            Phase::Established => match event {
                ConnectionEvent::TransportError => (
                    Connection { phase: Phase::Closed, ..self },
                    ConnectionAction::Remove(self.peer()),
                ),
                ConnectionEvent::Closed => (
                    Connection { phase: Phase::Closed, ..self },
                    ConnectionAction::Remove(self.peer()),
                ),
                _ => (self, ConnectionAction::Wait),
            },
            Phase::Closed => (self, ConnectionAction::Wait),
            Phase::Failed => (self, ConnectionAction::Wait),
        }
    }

    /// An attempt to reach `expected` at the peer's endpoint.
    pub fn new(peer: &Peer, expected: NodeIdentity) -> (connection: Connection)
        ensures
            connection == (Connection {
                state: ConnectionState { timeout: peer.timeout, connection: peer.connection },
                expected,
                phase: Phase::Connecting,
                waited: 0,
                remote: None,
            }),
    {
        Connection {
            state: ConnectionState::new(peer),
            expected,
            phase: Phase::Connecting,
            waited: 0,
            remote: None,
        }
    }

    fn waited_plus(&self, more: u64) -> (total: u64)
        ensures
            total == self.waited_after(more),
    {
        if more <= u64::MAX - self.waited {
            self.waited + more
        } else {
            u64::MAX
        }
    }

    fn named_peer(&self) -> (id: NodeIdentity)
        ensures
            id == self.peer(),
    {
        match self.remote {
            Some(actual) => actual,
            None => self.expected,
        }
    }

    /// Takes `event` in and says what has to be done.
    pub fn step(&mut self, event: ConnectionEvent) -> (action: ConnectionAction)
        ensures
            (*final(self), action) == old(self).next(event),
    {
        match self.phase {
            Phase::Connecting | Phase::Identifying => match event {
                ConnectionEvent::Waited(more) => {
                    self.waited = self.waited_plus(more);
                    if self.waited >= self.state.timeout {
                        self.phase = Phase::Failed;
                        ConnectionAction::Evict(self.expected)
                    } else {
                        ConnectionAction::Wait
                    }
                },
                ConnectionEvent::TransportReady => {
                    self.phase = Phase::Identifying;
                    ConnectionAction::Wait
                },
                ConnectionEvent::TransportError | ConnectionEvent::Closed => {
                    self.phase = Phase::Failed;
                    ConnectionAction::Evict(self.expected)
                },
                ConnectionEvent::Identified(actual) => match self.phase {
                    Phase::Identifying => {
                        self.phase = Phase::Established;
                        self.remote = Some(actual);
                        ConnectionAction::Publish { expected: self.expected, actual }
                    },
                    _ => ConnectionAction::Wait,
                },
            },
            Phase::Established => match event {
                ConnectionEvent::TransportError | ConnectionEvent::Closed => {
                    self.phase = Phase::Closed;
                    ConnectionAction::Remove(self.named_peer())
                },
                _ => ConnectionAction::Wait,
            },
            Phase::Closed | Phase::Failed => ConnectionAction::Wait,
        }
    }

    /// Whether nothing can follow.
    pub fn is_over(&self) -> (r: bool)
        ensures
            r == self.phase.is_final(),
    {
        match self.phase {
            Phase::Closed | Phase::Failed => true,
            _ => false,
        }
    }
}

/// A connection only moves forward, and an attempt that is over stays as it
/// is and asks for nothing.
pub proof fn lemma_connection_moves_forward(c: Connection, event: ConnectionEvent)
    ensures
        c.next(event).0.phase.rank() >= c.phase.rank(),
        c.next(event).0.expected == c.expected,
        c.next(event).0.state == c.state,
        c.phase.is_final() ==> c.next(event) == (c, ConnectionAction::Wait),
{
}

/// An attempt fails only before it is established, and then asks for the
/// eviction of the node it was meant for; it is established only by the
/// remote node's saying who it is, whoever that is, and then asks for
/// publication; it asks for removal only when an established connection
/// ends.
pub proof fn lemma_connection_actions(c: Connection, event: ConnectionEvent)
    ensures
        c.next(event).1 is Evict <==> c.phase.rank() < 2 && c.next(event).0.phase == Phase::Failed,
        c.next(event).1 is Evict ==> c.next(event).1 == ConnectionAction::Evict(c.expected),
        c.next(event).1 is Publish <==> c.phase == Phase::Identifying && event is Identified,
        c.next(event).1 is Publish ==> c.next(event).0.phase == Phase::Established && c.next(
            event,
        ).1 == (ConnectionAction::Publish { expected: c.expected, actual: event->Identified_0 })
            && c.next(event).0.remote == Some(event->Identified_0),
        c.next(event).1 is Remove <==> c.phase == Phase::Established && c.next(event).0.phase
            == Phase::Closed,
{
}

} // verus!
