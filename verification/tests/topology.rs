use jormungandr_network::topology::{
    Choice, Everyone, Fanout, PerRecipient, Topology, EVICTION_DECAY_ROUNDS,
};
use jormungandr_network::types::{
    Address, InterestLevel, NodeIdentity, NodeRecord, SocketAddress, Topic, TrustedPeer,
    NEW_BLOCKS_TOPIC, NEW_MESSAGES_TOPIC,
};

fn id(n: u128) -> NodeIdentity {
    NodeIdentity { hi: 7, lo: n }
}

fn addr(n: u128) -> Address {
    Address::Tcp4 { ip: 0x7f00_0000 + n as u32, port: 8000 + n as u16 }
}

fn seen(n: u128, at: u64) -> NodeRecord {
    NodeRecord { id: id(n), address: Some(addr(n)), blocks: None, messages: None, last_seen: at }
}

fn local() -> NodeRecord {
    NodeRecord::new(id(0), Some(addr(0)))
}

fn ids(view: &[NodeRecord]) -> Vec<u128> {
    view.iter().map(|n| n.id.lo).collect()
}

#[test]
fn an_address_names_a_socket_or_none() {
    assert_eq!(
        Address::Tcp4 { ip: 1, port: 2 }.to_socketaddr(),
        Some(SocketAddress::V4 { ip: 1, port: 2 })
    );
    assert_eq!(
        Address::Tcp6 { ip: 3, port: 4 }.to_socketaddr(),
        Some(SocketAddress::V6 { ip: 3, port: 4 })
    );
    assert_eq!(Address::Other { key: 5 }.to_socketaddr(), None);
    assert_eq!(NodeRecord::new(id(1), None).address(), None);
    assert_eq!(NodeRecord::new(id(1), Some(Address::Other { key: 1 })).address(), None);
    assert_eq!(
        NodeRecord::new(id(1), Some(Address::Tcp4 { ip: 9, port: 1 })).address(),
        Some(SocketAddress::V4 { ip: 9, port: 1 })
    );
}

#[test]
fn a_new_topology_knows_no_one() {
    let t = Topology::new(local(), 3);
    assert!(t.view().is_empty());
    assert_eq!(t.node(), local());
    assert!(!t.knows(id(1)));
    assert!(!t.is_barred(id(1)));
}

#[test]
fn subscriptions_show_on_the_local_record() {
    let mut t = Topology::new(local(), 3);
    t.add_subscription(Topic(NEW_BLOCKS_TOPIC), InterestLevel::High);
    t.add_subscription(Topic(NEW_MESSAGES_TOPIC), InterestLevel::Low);
    t.add_subscription(Topic(77), InterestLevel::Normal);
    assert_eq!(t.node().blocks, Some(InterestLevel::High));
    assert_eq!(t.node().messages, Some(InterestLevel::Low));
    t.add_subscriptions(&vec![
        (Topic(NEW_BLOCKS_TOPIC), InterestLevel::Low),
        (Topic(NEW_BLOCKS_TOPIC), InterestLevel::Normal),
    ]);
    assert_eq!(t.node().blocks, Some(InterestLevel::Normal));
    assert_eq!(t.node().messages, Some(InterestLevel::Low));
    assert_eq!(NEW_MESSAGES_TOPIC, 0);
    assert_eq!(NEW_BLOCKS_TOPIC, 1);
}

#[test]
fn merge_learns_new_nodes_in_order() {
    let mut t = Topology::new(local(), 3);
    t.merge_gossip(&vec![seen(2, 10), seen(1, 10), seen(3, 5)]);
    assert_eq!(t.view(), vec![seen(2, 10), seen(1, 10), seen(3, 5)]);
    assert!(t.knows(id(3)));
}

#[test]
fn merge_drops_self_and_records_without_address() {
    let mut t = Topology::new(local(), 3);
    let own = NodeRecord { last_seen: 99, ..local() };
    let nowhere = NodeRecord { address: None, ..seen(5, 10) };
    t.merge_gossip(&vec![own, nowhere, seen(1, 1)]);
    assert_eq!(t.view(), vec![seen(1, 1)]);
    assert!(!t.knows(id(0)));
    assert!(!t.knows(id(5)));
}

#[test]
fn merge_takes_the_fresher_record_and_keeps_the_place() {
    let mut t = Topology::new(local(), 3);
    t.merge_gossip(&vec![seen(1, 10), seen(2, 10)]);
    let moved = NodeRecord { address: Some(addr(40)), ..seen(1, 11) };
    t.merge_gossip(&vec![moved]);
    assert_eq!(t.view(), vec![moved, seen(2, 10)]);
}

#[test]
fn merge_does_not_downgrade_to_a_staler_record() {
    let mut t = Topology::new(local(), 3);
    t.merge_gossip(&vec![seen(1, 10)]);
    let stale = NodeRecord { address: Some(addr(40)), ..seen(1, 9) };
    let same_age = NodeRecord { address: Some(addr(41)), ..seen(1, 10) };
    t.merge_gossip(&vec![stale, same_age]);
    assert_eq!(t.view(), vec![seen(1, 10)]);
}

#[test]
fn merge_dedups_within_one_payload() {
    let mut t = Topology::new(local(), 3);
    let later = NodeRecord { blocks: Some(InterestLevel::High), ..seen(1, 12) };
    t.merge_gossip(&vec![seen(1, 10), later, seen(1, 11)]);
    assert_eq!(t.view(), vec![later]);
}

#[test]
fn merging_twice_is_merging_once() {
    let payload = vec![seen(1, 10), seen(2, 3), seen(1, 12), seen(3, 1), seen(2, 3), seen(1, 11)];
    let mut once = Topology::new(local(), 3);
    once.merge_gossip(&vec![seen(2, 1), seen(4, 4)]);
    let mut twice = Topology::new(local(), 3);
    twice.merge_gossip(&vec![seen(2, 1), seen(4, 4)]);
    once.merge_gossip(&payload);
    twice.merge_gossip(&payload);
    twice.merge_gossip(&payload);
    assert_eq!(once.view(), twice.view());
    assert_eq!(once.view(), vec![seen(2, 3), seen(4, 4), seen(1, 12), seen(3, 1)]);
}

#[test]
fn the_view_never_names_a_node_twice() {
    let mut t = Topology::new(local(), 3);
    t.add_trusted_peer(TrustedPeer { id: id(1), address: addr(1) });
    t.add_trusted_peer(TrustedPeer { id: id(1), address: addr(2) });
    t.merge_gossip(&vec![seen(1, 3), seen(2, 3), seen(2, 4), seen(1, 1)]);
    t.add_trusted_peer(TrustedPeer { id: id(2), address: addr(9) });
    let mut seen_ids = ids(&t.view());
    assert_eq!(seen_ids, vec![1, 2]);
    seen_ids.dedup();
    assert_eq!(seen_ids.len(), 2);
}

#[test]
fn trusted_peers_enter_the_view_with_their_address() {
    let mut t = Topology::new(local(), 3);
    t.add_trusted_peers(&vec![
        TrustedPeer { id: id(1), address: addr(1) },
        TrustedPeer { id: id(0), address: addr(0) },
        TrustedPeer { id: id(2), address: Address::Other { key: 4 } },
    ]);
    assert_eq!(
        t.view(),
        vec![
            NodeRecord::new(id(1), Some(addr(1))),
            NodeRecord::new(id(2), Some(Address::Other { key: 4 })),
        ]
    );
}

#[test]
fn evict_removes_the_node_and_bars_it() {
    let mut t = Topology::new(local(), 2);
    t.merge_gossip(&vec![seen(1, 10), seen(2, 10)]);
    assert_eq!(t.evict_node(id(1)), Some(seen(1, 10)));
    assert_eq!(t.view(), vec![seen(2, 10)]);
    assert!(t.is_barred(id(1)));
    assert_eq!(t.evict_node(id(1)), None);
    assert_eq!(t.evict_node(id(9)), None);
    assert!(!t.is_barred(id(9)));
}

#[test]
fn an_evicted_node_comes_back_after_the_decay() {
    let mut t = Topology::new(local(), 2);
    t.merge_gossip(&vec![seen(1, 10)]);
    t.evict_node(id(1));
    t.merge_gossip(&vec![seen(1, 20)]);
    assert!(t.view().is_empty());
    t.tick();
    assert!(t.is_barred(id(1)));
    t.merge_gossip(&vec![seen(1, 21)]);
    assert!(t.view().is_empty());
    t.tick();
    assert!(!t.is_barred(id(1)));
    t.merge_gossip(&vec![seen(1, 22)]);
    assert_eq!(t.view(), vec![seen(1, 22)]);
}

#[test]
fn without_decay_an_eviction_bars_no_one() {
    let mut t = Topology::new(local(), 0);
    t.merge_gossip(&vec![seen(1, 10)]);
    assert_eq!(t.evict_node(id(1)), Some(seen(1, 10)));
    assert!(!t.is_barred(id(1)));
    t.merge_gossip(&vec![seen(1, 10)]);
    assert_eq!(t.view(), vec![seen(1, 10)]);
}

#[test]
fn a_trusted_peer_is_never_evicted() {
    let mut t = Topology::new(local(), 2);
    t.add_trusted_peer(TrustedPeer { id: id(1), address: addr(1) });
    t.merge_gossip(&vec![seen(2, 1)]);
    assert_eq!(t.evict_node(id(1)), None);
    assert_eq!(ids(&t.view()), vec![1, 2]);
    assert!(!t.is_barred(id(1)));
}

#[test]
fn gossip_refreshes_a_trusted_peer_and_leaves_it_trusted() {
    let mut t = Topology::new(local(), 2);
    t.add_trusted_peer(TrustedPeer { id: id(1), address: addr(1) });
    t.merge_gossip(&vec![seen(1, 5)]);
    assert_eq!(t.view(), vec![seen(1, 5)]);
    assert_eq!(t.evict_node(id(1)), None);
}

#[test]
fn a_known_node_can_become_trusted() {
    let mut t = Topology::new(local(), 2);
    t.merge_gossip(&vec![seen(1, 5)]);
    t.add_trusted_peer(TrustedPeer { id: id(1), address: addr(30) });
    assert_eq!(t.view(), vec![seen(1, 5)]);
    assert_eq!(t.evict_node(id(1)), None);
}

#[test]
fn the_default_decay_is_six_rounds() {
    assert_eq!(EVICTION_DECAY_ROUNDS, 6);
}

#[test]
fn targets_are_the_trusted_and_the_chosen_without_the_recipient() {
    let mut t = Topology::new(local(), 2);
    t.add_trusted_peer(TrustedPeer { id: id(1), address: addr(1) });
    t.merge_gossip(&vec![seen(2, 1), seen(3, 1), seen(4, 1)]);
    let everyone = t.select_gossip_targets(id(3), &Everyone);
    assert_eq!(ids(&everyone), vec![1, 2, 4]);
    let none = t.select_gossip_targets(id(3), &PerRecipient { choices: vec![] });
    assert_eq!(ids(&none), vec![1]);
    let some = t.select_gossip_targets(
        id(1),
        &PerRecipient {
            choices: vec![Choice { recipient: id(1), ids: vec![id(4), id(9), id(1)] }],
        },
    );
    assert_eq!(ids(&some), vec![4]);
    let two = t.select_gossip_targets(id(9), &Fanout { limit: 2 });
    assert_eq!(ids(&two), vec![1, 2]);
    let zero = t.select_gossip_targets(id(9), &Fanout { limit: 0 });
    assert_eq!(ids(&zero), vec![1]);
    let wide = t.select_gossip_targets(id(2), &Fanout { limit: 100 });
    assert_eq!(ids(&wide), vec![1, 3, 4]);
}

#[test]
fn gossip_targets_take_what_was_picked() {
    let mut t = Topology::new(local(), 2);
    t.merge_gossip(&vec![seen(2, 1), seen(3, 1)]);
    assert_eq!(t.gossip_targets(id(2), &vec![id(2), id(3)]), vec![seen(3, 1)]);
    assert_eq!(t.gossip_targets(id(7), &vec![id(3), id(2)]), vec![seen(2, 1), seen(3, 1)]);
}

#[test]
fn each_recipient_is_told_of_what_was_chosen_for_it() {
    let mut t = Topology::new(local(), 2);
    t.merge_gossip(&vec![seen(1, 1), seen(2, 1), seen(3, 1)]);
    let rule = PerRecipient {
        choices: vec![
            Choice { recipient: id(1), ids: vec![id(3)] },
            Choice { recipient: id(2), ids: vec![id(1), id(2), id(3)] },
            Choice { recipient: id(1), ids: vec![id(2)] },
        ],
    };
    assert_eq!(ids(&t.select_gossip_targets(id(1), &rule)), vec![3]);
    assert_eq!(ids(&t.select_gossip_targets(id(2), &rule)), vec![1, 3]);
    assert!(t.select_gossip_targets(id(3), &rule).is_empty());
}
