use jormungandr_network::message::{Fragment, Gossip, Header, PeerMessage};
use jormungandr_network::peers::{
    PeerHandle, PeerStats, Peers, RequestOutcome, SendError, OUTBOUND_QUEUE_LEN,
};
use jormungandr_network::types::{Address, HeaderHash, NodeIdentity, NodeRecord};

fn id(n: u128) -> NodeIdentity {
    NodeIdentity { hi: 0, lo: n }
}

fn hash(n: u128) -> HeaderHash {
    HeaderHash { hi: n, lo: !n }
}

fn header(tag: u8) -> Header {
    Header { bytes: vec![tag, 1, 2, 3] }
}

fn node(n: u128) -> NodeRecord {
    NodeRecord::new(id(n), Some(Address::Tcp4 { ip: 0x0a00_0000 + n as u32, port: 3000 }))
}

fn handle_with(tag: u8) -> PeerHandle {
    let mut h = PeerHandle::new();
    h.try_send_block_announcement(header(tag)).unwrap();
    h
}

fn ids_of(peers: &Peers) -> Vec<NodeIdentity> {
    peers.stats().iter().map(|s| s.id).collect()
}

#[test]
fn fresh_handle_is_open_and_empty() {
    let mut h = PeerHandle::new();
    assert!(!h.is_closed());
    assert_eq!(h.pending(), 0);
    assert!(h.take_outbound().is_empty());
}

#[test]
fn handle_queues_messages_in_order() {
    let mut h = PeerHandle::new();
    assert_eq!(h.try_send_block_announcement(header(1)), Ok(()));
    assert_eq!(h.try_send_fragment(Fragment { bytes: vec![9] }), Ok(()));
    assert_eq!(h.try_send_gossip(Gossip::from_nodes(vec![node(4)])), Ok(()));
    assert_eq!(h.pending(), 3);
    let out = h.take_outbound();
    assert_eq!(
        out,
        vec![
            PeerMessage::BlockAnnouncement(header(1)),
            PeerMessage::Fragment(Fragment { bytes: vec![9] }),
            PeerMessage::Gossip(Gossip { nodes: vec![node(4)] }),
        ]
    );
    assert_eq!(h.pending(), 0);
}

#[test]
fn handle_refuses_when_full() {
    let mut h = PeerHandle::new();
    for i in 0..OUTBOUND_QUEUE_LEN {
        assert_eq!(h.try_send_block_announcement(header(i as u8)), Ok(()));
    }
    assert_eq!(OUTBOUND_QUEUE_LEN, 8);
    assert_eq!(h.try_send_block_announcement(header(99)), Err(SendError::Full));
    assert_eq!(h.pending(), 8);
    let out = h.take_outbound();
    assert_eq!(out.len(), 8);
    assert_eq!(out[7], PeerMessage::BlockAnnouncement(header(7)));
    assert_eq!(h.try_send_block_announcement(header(100)), Ok(()));
}

#[test]
fn handle_refuses_when_closed() {
    let mut h = handle_with(1);
    h.close();
    assert!(h.is_closed());
    assert_eq!(h.try_send_fragment(Fragment { bytes: vec![] }), Err(SendError::Closed));
    assert_eq!(h.pending(), 1);
}

#[test]
fn closed_wins_over_full() {
    let mut h = PeerHandle::new();
    for i in 0..8 {
        h.try_send_block_announcement(header(i)).unwrap();
    }
    h.close();
    assert_eq!(h.try_send_block_announcement(header(9)), Err(SendError::Closed));
}

#[test]
fn duplicate_has_the_same_content() {
    let m = PeerMessage::PullHeaders { from: vec![hash(1), hash(2)], to: hash(3) };
    assert_eq!(m.duplicate(), m);
    let g = PeerMessage::Gossip(Gossip { nodes: vec![node(1), node(2)] });
    assert_eq!(g.duplicate(), g);
    let s = PeerMessage::SolicitBlocks(vec![hash(7)]);
    assert_eq!(s.duplicate(), s);
}

#[test]
fn new_registry_is_empty() {
    let peers = Peers::new(3);
    assert_eq!(peers.len(), 0);
    assert_eq!(peers.max_connections(), 3);
    assert!(!peers.contains(id(1)));
    assert!(peers.get(id(1)).is_none());
    assert!(peers.stats().is_empty());
}

#[test]
fn insert_registers_the_handle() {
    let mut peers = Peers::new(3);
    let out = peers.insert_peer(id(1), handle_with(5));
    assert!(out.superseded.is_none());
    assert!(out.evicted.is_none());
    assert_eq!(peers.len(), 1);
    assert!(peers.contains(id(1)));
    assert_eq!(peers.get(id(1)).unwrap().pending(), 1);
}

#[test]
fn insert_supersedes_the_handle_of_the_same_identity() {
    let mut peers = Peers::new(3);
    peers.insert_peer(id(1), handle_with(5));
    peers.insert_peer(id(2), handle_with(6));
    let out = peers.insert_peer(id(1), handle_with(7));
    assert!(out.evicted.is_none());
    let mut old = out.superseded.expect("the earlier handle is handed back");
    assert_eq!(old.take_outbound(), vec![PeerMessage::BlockAnnouncement(header(5))]);
    assert_eq!(peers.len(), 2);
    assert_eq!(ids_of(&peers), vec![id(2), id(1)]);
    let mut now = peers.remove_peer(id(1)).unwrap();
    assert_eq!(now.take_outbound(), vec![PeerMessage::BlockAnnouncement(header(7))]);
    assert!(!peers.contains(id(1)));
}

#[test]
fn no_identity_is_registered_twice_whatever_is_inserted() {
    let mut peers = Peers::new(4);
    for round in 0..5u8 {
        for n in [1u128, 2, 1, 3, 2, 1] {
            peers.insert_peer(id(n), handle_with(round));
            let mut seen = ids_of(&peers);
            let before = seen.len();
            seen.sort_by_key(|i| i.lo);
            seen.dedup();
            assert_eq!(seen.len(), before);
            assert!(peers.len() <= 4);
        }
    }
}

#[test]
fn insert_at_capacity_evicts_the_least_recently_used() {
    let mut peers = Peers::new(3);
    peers.insert_peer(id(1), handle_with(1));
    peers.insert_peer(id(2), handle_with(2));
    peers.insert_peer(id(3), handle_with(3));
    let out = peers.insert_peer(id(4), handle_with(4));
    assert!(out.superseded.is_none());
    let (gone, mut handle) = out.evicted.expect("one entry leaves");
    assert_eq!(gone, id(1));
    assert_eq!(handle.take_outbound(), vec![PeerMessage::BlockAnnouncement(header(1))]);
    assert_eq!(peers.len(), 3);
    assert_eq!(ids_of(&peers), vec![id(2), id(3), id(4)]);
}

#[test]
fn a_delivery_makes_the_peer_most_recently_used() {
    let mut peers = Peers::new(3);
    peers.insert_peer(id(1), PeerHandle::new());
    peers.insert_peer(id(2), PeerHandle::new());
    peers.insert_peer(id(3), PeerHandle::new());
    assert_eq!(peers.send_to(id(1), PeerMessage::Fragment(Fragment { bytes: vec![1] })), Ok(Ok(())));
    assert_eq!(ids_of(&peers), vec![id(2), id(3), id(1)]);
    let out = peers.insert_peer(id(4), PeerHandle::new());
    assert_eq!(out.evicted.unwrap().0, id(2));
    assert_eq!(ids_of(&peers), vec![id(3), id(1), id(4)]);
}

#[test]
fn superseding_at_capacity_evicts_no_one() {
    let mut peers = Peers::new(2);
    peers.insert_peer(id(1), handle_with(1));
    peers.insert_peer(id(2), handle_with(2));
    let out = peers.insert_peer(id(1), handle_with(3));
    assert!(out.superseded.is_some());
    assert!(out.evicted.is_none());
    assert_eq!(ids_of(&peers), vec![id(2), id(1)]);
}

#[test]
fn a_registry_without_room_keeps_nothing() {
    let mut peers = Peers::new(0);
    let out = peers.insert_peer(id(1), handle_with(1));
    assert!(out.superseded.is_none());
    let (gone, _) = out.evicted.unwrap();
    assert_eq!(gone, id(1));
    assert_eq!(peers.len(), 0);
}

#[test]
fn remove_hands_the_handle_back() {
    let mut peers = Peers::new(3);
    peers.insert_peer(id(1), handle_with(1));
    peers.insert_peer(id(2), handle_with(2));
    assert!(peers.remove_peer(id(9)).is_none());
    let mut h = peers.remove_peer(id(1)).unwrap();
    assert_eq!(h.take_outbound(), vec![PeerMessage::BlockAnnouncement(header(1))]);
    assert_eq!(ids_of(&peers), vec![id(2)]);
    assert!(peers.remove_peer(id(1)).is_none());
}

#[test]
fn send_to_an_unknown_peer_hands_the_message_back() {
    let mut peers = Peers::new(3);
    peers.insert_peer(id(1), PeerHandle::new());
    let m = PeerMessage::SolicitBlocks(vec![hash(1)]);
    assert_eq!(peers.send_to(id(2), m.duplicate()), Err(m));
    assert_eq!(peers.get(id(1)).unwrap().pending(), 0);
}

#[test]
fn propagate_block_returns_the_unreached() {
    let mut peers = Peers::new(4);
    peers.insert_peer(id(1), PeerHandle::new());
    peers.insert_peer(id(3), PeerHandle::new());
    let nodes = vec![node(1), node(2), node(3), node(4)];
    let r = peers.propagate_block(nodes, header(7));
    assert_eq!(r, Err(vec![node(2), node(4)]));
    for n in [1u128, 3] {
        let mut h = peers.remove_peer(id(n)).unwrap();
        assert_eq!(h.take_outbound(), vec![PeerMessage::BlockAnnouncement(header(7))]);
    }
}

#[test]
fn propagate_fragment_reaches_everyone() {
    let mut peers = Peers::new(4);
    peers.insert_peer(id(1), PeerHandle::new());
    peers.insert_peer(id(2), PeerHandle::new());
    let r = peers.propagate_fragment(vec![node(2), node(1)], Fragment { bytes: vec![4, 2] });
    assert_eq!(r, Ok(()));
    assert_eq!(ids_of(&peers), vec![id(2), id(1)]);
    let mut h = peers.remove_peer(id(2)).unwrap();
    assert_eq!(h.take_outbound(), vec![PeerMessage::Fragment(Fragment { bytes: vec![4, 2] })]);
}

#[test]
fn propagate_to_no_one_is_ok() {
    let mut peers = Peers::new(4);
    assert_eq!(peers.propagate_block(vec![], header(1)), Ok(()));
}

#[test]
fn propagate_goes_on_past_a_full_handle() {
    let mut peers = Peers::new(4);
    let mut full = PeerHandle::new();
    for i in 0..8 {
        full.try_send_block_announcement(header(i)).unwrap();
    }
    peers.insert_peer(id(1), full);
    peers.insert_peer(id(2), PeerHandle::new());
    let r = peers.propagate_block(vec![node(1), node(2)], header(50));
    assert_eq!(r, Ok(()));
    assert_eq!(peers.get(id(1)).unwrap().pending(), 8);
    assert_eq!(peers.get(id(2)).unwrap().pending(), 1);
}

#[test]
fn gossip_to_an_unknown_peer_comes_back() {
    let mut peers = Peers::new(4);
    let g = Gossip::from_nodes(vec![node(5), node(6)]);
    let r = peers.propagate_gossip_to(id(1), g);
    assert_eq!(r, Err(Gossip { nodes: vec![node(5), node(6)] }));
    peers.insert_peer(id(1), PeerHandle::new());
    assert_eq!(peers.propagate_gossip_to(id(1), Gossip::from_nodes(vec![node(5)])), Ok(()));
    let mut h = peers.remove_peer(id(1)).unwrap();
    assert_eq!(h.take_outbound(), vec![PeerMessage::Gossip(Gossip { nodes: vec![node(5)] })]);
}

#[test]
fn solicit_blocks_and_pull_headers_go_to_the_peer_named() {
    let mut peers = Peers::new(4);
    peers.insert_peer(id(1), PeerHandle::new());
    peers.insert_peer(id(2), PeerHandle::new());
    assert_eq!(peers.solicit_blocks(id(1), vec![hash(1), hash(2)]), RequestOutcome::Forwarded);
    assert_eq!(peers.pull_headers(id(1), vec![hash(3)], hash(4)), RequestOutcome::Forwarded);
    assert_eq!(peers.solicit_blocks(id(9), vec![hash(1)]), RequestOutcome::PeerUnknown);
    assert_eq!(peers.pull_headers(id(9), vec![], hash(4)), RequestOutcome::PeerUnknown);
    let mut h = peers.remove_peer(id(1)).unwrap();
    assert_eq!(
        h.take_outbound(),
        vec![
            PeerMessage::SolicitBlocks(vec![hash(1), hash(2)]),
            PeerMessage::PullHeaders { from: vec![hash(3)], to: hash(4) },
        ]
    );
    assert_eq!(peers.get(id(2)).unwrap().pending(), 0);
}

#[test]
fn a_request_to_a_closed_or_full_handle_is_rejected() {
    let mut peers = Peers::new(4);
    let mut closed = PeerHandle::new();
    closed.close();
    peers.insert_peer(id(1), closed);
    let mut full = PeerHandle::new();
    for i in 0..8 {
        full.try_send_block_announcement(header(i)).unwrap();
    }
    peers.insert_peer(id(2), full);
    assert_eq!(
        peers.solicit_blocks(id(1), vec![hash(1)]),
        RequestOutcome::Rejected(SendError::Closed)
    );
    assert_eq!(
        peers.pull_headers(id(2), vec![], hash(1)),
        RequestOutcome::Rejected(SendError::Full)
    );
    assert_eq!(peers.len(), 2);
}

#[test]
fn fetch_blocks_goes_round_the_peers() {
    let mut peers = Peers::new(4);
    assert_eq!(peers.fetch_blocks(vec![hash(1)]), RequestOutcome::PeerUnknown);
    peers.insert_peer(id(1), PeerHandle::new());
    peers.insert_peer(id(2), PeerHandle::new());
    assert_eq!(peers.fetch_blocks(vec![hash(1)]), RequestOutcome::Forwarded);
    assert_eq!(peers.fetch_blocks(vec![hash(2)]), RequestOutcome::Forwarded);
    assert_eq!(peers.fetch_blocks(vec![hash(3)]), RequestOutcome::Forwarded);
    let mut one = peers.remove_peer(id(1)).unwrap();
    let mut two = peers.remove_peer(id(2)).unwrap();
    assert_eq!(
        one.take_outbound(),
        vec![PeerMessage::SolicitBlocks(vec![hash(1)]), PeerMessage::SolicitBlocks(vec![hash(3)])]
    );
    assert_eq!(two.take_outbound(), vec![PeerMessage::SolicitBlocks(vec![hash(2)])]);
}

#[test]
fn stats_list_the_peers_least_recently_used_first() {
    let mut peers = Peers::new(4);
    peers.insert_peer(id(1), handle_with(1));
    let mut closed = PeerHandle::new();
    closed.close();
    peers.insert_peer(id(2), closed);
    assert_eq!(
        peers.stats(),
        vec![
            PeerStats { id: id(1), pending: 1, closed: false },
            PeerStats { id: id(2), pending: 0, closed: true },
        ]
    );
}

#[test]
fn taking_the_queue_out_leaves_the_handle_in_place() {
    let mut peers = Peers::new(3);
    peers.insert_peer(id(1), handle_with(1));
    peers.insert_peer(id(2), handle_with(2));
    assert_eq!(peers.take_outbound(id(1)), vec![PeerMessage::BlockAnnouncement(header(1))]);
    assert_eq!(ids_of(&peers), vec![id(1), id(2)]);
    assert_eq!(peers.get(id(1)).unwrap().pending(), 0);
    assert_eq!(peers.get(id(2)).unwrap().pending(), 1);
    assert!(peers.take_outbound(id(1)).is_empty());
    assert!(peers.take_outbound(id(9)).is_empty());
    assert_eq!(peers.len(), 2);
}
