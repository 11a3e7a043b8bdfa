use jormungandr_network::connection::{
    Connection, ConnectionAction, ConnectionEvent, ConnectionState, Phase,
};
use jormungandr_network::types::{
    NodeIdentity, Peer, Protocol, SocketAddress, DEFAULT_TIMEOUT_MICROSECONDS,
};

fn id(n: u128) -> NodeIdentity {
    NodeIdentity { hi: 1, lo: n }
}

fn peer() -> Peer {
    Peer::new(SocketAddress::V4 { ip: 0x0a000001, port: 3000 }, Protocol::Grpc)
}

#[test]
fn a_peer_without_timeout_waits_half_a_second() {
    assert_eq!(DEFAULT_TIMEOUT_MICROSECONDS, 500_000);
    assert_eq!(peer().timeout, 500_000);
    let slow =
        Peer::with_timeout(SocketAddress::V6 { ip: 1, port: 2 }, Protocol::Ntt, 7);
    assert_eq!(slow.timeout, 7);
    assert_eq!(slow.protocol, Protocol::Ntt);
    assert_eq!(slow.connection, SocketAddress::V6 { ip: 1, port: 2 });
}

#[test]
fn the_connection_state_is_taken_from_the_peer() {
    let s = ConnectionState::new(&peer());
    assert_eq!(s.timeout, 500_000);
    assert_eq!(s.connection, SocketAddress::V4 { ip: 0x0a000001, port: 3000 });
}

#[test]
fn a_connection_starts_connecting() {
    let c = Connection::new(&peer(), id(1));
    assert_eq!(c.phase, Phase::Connecting);
    assert_eq!(c.expected, id(1));
    assert_eq!(c.waited, 0);
    assert_eq!(c.remote, None);
    assert!(!c.is_over());
}

#[test]
fn the_expected_node_answers() {
    let mut c = Connection::new(&peer(), id(1));
    assert_eq!(c.step(ConnectionEvent::TransportReady), ConnectionAction::Wait);
    assert_eq!(c.phase, Phase::Identifying);
    assert_eq!(
        c.step(ConnectionEvent::Identified(id(1))),
        ConnectionAction::Publish { expected: id(1), actual: id(1) }
    );
    assert_eq!(c.phase, Phase::Established);
    assert_eq!(c.remote, Some(id(1)));
    assert_eq!(c.step(ConnectionEvent::Waited(10_000_000)), ConnectionAction::Wait);
    assert_eq!(c.phase, Phase::Established);
    assert_eq!(c.step(ConnectionEvent::Closed), ConnectionAction::Remove(id(1)));
    assert_eq!(c.phase, Phase::Closed);
    assert!(c.is_over());
}

#[test]
fn another_node_answers_and_the_connection_stands() {
    let mut c = Connection::new(&peer(), id(1));
    c.step(ConnectionEvent::TransportReady);
    assert_eq!(
        c.step(ConnectionEvent::Identified(id(2))),
        ConnectionAction::Publish { expected: id(1), actual: id(2) }
    );
    assert_eq!(c.phase, Phase::Established);
    assert_eq!(c.step(ConnectionEvent::TransportError), ConnectionAction::Remove(id(2)));
    assert_eq!(c.phase, Phase::Closed);
}

#[test]
fn a_timeout_while_connecting_fails_the_attempt() {
    let mut c = Connection::new(&peer(), id(1));
    assert_eq!(c.step(ConnectionEvent::Waited(499_999)), ConnectionAction::Wait);
    assert_eq!(c.phase, Phase::Connecting);
    assert_eq!(c.waited, 499_999);
    assert_eq!(c.step(ConnectionEvent::Waited(1)), ConnectionAction::Evict(id(1)));
    assert_eq!(c.phase, Phase::Failed);
    assert_eq!(c.waited, 500_000);
}

#[test]
fn a_timeout_while_identifying_fails_the_attempt() {
    let mut c = Connection::new(&peer(), id(1));
    c.step(ConnectionEvent::Waited(200_000));
    c.step(ConnectionEvent::TransportReady);
    assert_eq!(c.step(ConnectionEvent::Waited(200_000)), ConnectionAction::Wait);
    assert_eq!(c.step(ConnectionEvent::Waited(200_000)), ConnectionAction::Evict(id(1)));
    assert_eq!(c.phase, Phase::Failed);
}

#[test]
fn the_time_waited_stops_at_the_largest_number() {
    let long = Peer::with_timeout(SocketAddress::V4 { ip: 1, port: 1 }, Protocol::Grpc, u64::MAX);
    let mut c = Connection::new(&long, id(1));
    assert_eq!(c.step(ConnectionEvent::Waited(u64::MAX - 1)), ConnectionAction::Wait);
    assert_eq!(c.step(ConnectionEvent::Waited(5)), ConnectionAction::Evict(id(1)));
    assert_eq!(c.waited, u64::MAX);
}

#[test]
fn a_transport_error_fails_the_attempt() {
    let mut c = Connection::new(&peer(), id(1));
    assert_eq!(c.step(ConnectionEvent::TransportError), ConnectionAction::Evict(id(1)));
    assert_eq!(c.phase, Phase::Failed);
    let mut d = Connection::new(&peer(), id(3));
    d.step(ConnectionEvent::TransportReady);
    assert_eq!(d.step(ConnectionEvent::Closed), ConnectionAction::Evict(id(3)));
    assert_eq!(d.phase, Phase::Failed);
}

#[test]
fn an_identity_before_the_transport_is_up_is_passed_over() {
    let mut c = Connection::new(&peer(), id(1));
    assert_eq!(c.step(ConnectionEvent::Identified(id(2))), ConnectionAction::Wait);
    assert_eq!(c.phase, Phase::Connecting);
    assert_eq!(c.remote, None);
}

#[test]
fn an_attempt_that_is_over_takes_nothing_in() {
    for last in [ConnectionEvent::TransportError, ConnectionEvent::Closed] {
        let mut c = Connection::new(&peer(), id(1));
        c.step(last);
        let end = c;
        for e in [
            ConnectionEvent::Waited(1),
            ConnectionEvent::TransportReady,
            ConnectionEvent::TransportError,
            ConnectionEvent::Identified(id(4)),
            ConnectionEvent::Closed,
        ] {
            assert_eq!(c.step(e), ConnectionAction::Wait);
            assert_eq!(c, end);
        }
    }
}
