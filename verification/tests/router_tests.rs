use p2p_handshake_server::Addr;
use p2p_handshake_server::peer::PeerManager;
use p2p_handshake_server::peer::PeerStatus;
use p2p_handshake_server::protocol::Message;
use p2p_handshake_server::protocol::MessageType;
use p2p_handshake_server::protocol::NodeInfo;
use p2p_handshake_server::protocol::fresh_uuid;
use p2p_handshake_server::router::ForwardOutcome;
use p2p_handshake_server::router::MessageRouter;
use p2p_handshake_server::router::RoutedMessage;
use p2p_handshake_server::router::RoutingTable;

fn registry_with_authenticated(peers: &[(u128, Addr)]) -> PeerManager {
    let local = NodeInfo::new(
        "local_test".to_string(),
        Addr { ip: 0x7f000001, port: 1 },
        "testnet".to_string(),
    );
    let mut manager = PeerManager::new(local, 10);
    for (id, addr) in peers {
        manager.add_peer(*addr, 0).expect("registry below capacity");
        let last = manager.peers.len() - 1;
        manager.peers[last].id = *id;
        manager.peers[last].status = PeerStatus::Authenticated;
    }
    manager
}

#[test]
fn test_routing_table() {
    let mut table = RoutingTable::new();
    let dest = fresh_uuid();
    let next_hop = fresh_uuid();

    table.add_route(dest, next_hop, 1);

    assert_eq!(table.get_next_hop(dest), Some(next_hop));
    assert_eq!(table.get_distance(dest), Some(1));

    table.remove_route(dest);
    assert_eq!(table.get_next_hop(dest), None);
}

#[test]
fn test_routed_message() {
    let message = Message::ping();
    let source = fresh_uuid();
    let dest = fresh_uuid();

    let mut routed = RoutedMessage::new(message, source, dest, 5);

    assert_eq!(routed.hop_count, 0);
    assert!(routed.increment_hop());
    assert_eq!(routed.hop_count, 1);
}

#[test]
fn test_routing_table_keeps_shorter_route() {
    let mut table = RoutingTable::new();
    table.add_route(1, 10, 3);
    table.add_route(1, 20, 5);
    assert_eq!(table.get_next_hop(1), Some(10));
    assert_eq!(table.get_distance(1), Some(3));
    table.add_route(1, 30, 2);
    assert_eq!(table.get_next_hop(1), Some(30));
    assert_eq!(table.get_distance(1), Some(2));
}

#[test]
fn test_remove_routes_via() {
    let mut table = RoutingTable::new();
    table.add_route(1, 10, 1);
    table.add_route(2, 10, 2);
    table.add_route(3, 11, 2);
    table.remove_routes_via(10);
    assert_eq!(table.get_next_hop(1), None);
    assert_eq!(table.get_next_hop(2), None);
    assert_eq!(table.get_next_hop(3), Some(11));
}

#[test]
fn test_routed_message_codec_round_trip() {
    let inner = Message::ping();
    let env = RoutedMessage::new(inner, 0xaa, 0xbb, 8);
    let wire = env.to_message();
    assert_eq!(wire.message_type, MessageType::Data);
    let back = RoutedMessage::from_message(&wire).expect("decoding an encoded envelope");
    assert_eq!(back.source_node, 0xaa);
    assert_eq!(back.destination_node, 0xbb);
    assert_eq!(back.hop_count, 0);
    assert_eq!(back.max_hops, 8);
    assert_eq!(back.route_id, env.route_id);
    assert_eq!(back.original_message.message_type, MessageType::Ping);
}

#[test]
fn test_from_message_rejects_other_tags() {
    let msg = Message::ping();
    assert!(RoutedMessage::from_message(&msg).is_err());
    let data = Message::data(p2p_handshake_server::value::AppValue::Null);
    assert!(RoutedMessage::from_message(&data).is_err());
}

#[test]
fn test_forward_to_known_next_hop() {
    let b_addr = Addr { ip: 0x7f000001, port: 42 };
    let registry = registry_with_authenticated(&[(0xb, b_addr)]);
    let mut router = MessageRouter::new(0x1);
    router.update_routing_table(0xdd, 0xb, 1);

    let env = RoutedMessage::new(Message::ping(), 0xa, 0xdd, 8);
    let (outcome, sends) = router.forward_message(&registry, env, 100);
    assert_eq!(outcome, ForwardOutcome::Forwarded);
    assert_eq!(sends.len(), 1);
    assert_eq!(sends[0].dest, b_addr);
    let relayed = RoutedMessage::from_message(&sends[0].msg).unwrap();
    assert_eq!(relayed.hop_count, 1);
    assert_eq!(relayed.destination_node, 0xdd);
}

#[test]
fn test_duplicate_route_id_sends_nothing() {
    let b_addr = Addr { ip: 0x7f000001, port: 43 };
    let registry = registry_with_authenticated(&[(0xb, b_addr)]);
    let mut router = MessageRouter::new(0x1);
    router.update_routing_table(0xdd, 0xb, 1);

    let env = RoutedMessage::new(Message::ping(), 0xa, 0xdd, 8);
    let again = RoutedMessage {
        original_message: Message::ping(),
        source_node: env.source_node,
        destination_node: env.destination_node,
        hop_count: 0,
        max_hops: 8,
        route_id: env.route_id,
    };
    let (first, first_sends) = router.forward_message(&registry, env, 100);
    assert_eq!(first, ForwardOutcome::Forwarded);
    assert_eq!(first_sends.len(), 1);
    let (second, second_sends) = router.forward_message(&registry, again, 101);
    assert_eq!(second, ForwardOutcome::AlreadyProcessed);
    assert_eq!(second_sends.len(), 0);
}

#[test]
fn test_hop_limit_boundary() {
    let b_addr = Addr { ip: 0x7f000001, port: 44 };
    let registry = registry_with_authenticated(&[(0xb, b_addr)]);
    let mut router = MessageRouter::new(0x1);
    router.update_routing_table(0xdd, 0xb, 1);

    // One hop left: still travels.
    let mut env = RoutedMessage::new(Message::ping(), 0xa, 0xdd, 3);
    env.hop_count = 2;
    let (outcome, sends) = router.forward_message(&registry, env, 100);
    assert_eq!(outcome, ForwardOutcome::Forwarded);
    assert_eq!(sends.len(), 1);

    // No hop left: the envelope stops.
    let mut spent = RoutedMessage::new(Message::ping(), 0xa, 0xdd, 3);
    spent.hop_count = 3;
    let (outcome2, sends2) = router.forward_message(&registry, spent, 100);
    assert_eq!(outcome2, ForwardOutcome::MaxHopsExceeded);
    assert_eq!(sends2.len(), 0);
}

#[test]
fn test_unknown_destination_broadcasts() {
    let b_addr = Addr { ip: 0x7f000001, port: 45 };
    let c_addr = Addr { ip: 0x7f000001, port: 46 };
    let registry = registry_with_authenticated(&[(0xb, b_addr), (0xc, c_addr)]);
    let mut router = MessageRouter::new(0x1);

    let env = RoutedMessage::new(Message::ping(), 0xb, 0xdd, 8);
    let (outcome, sends) = router.forward_message(&registry, env, 100);
    assert_eq!(outcome, ForwardOutcome::Broadcast);
    // The source itself is skipped.
    assert_eq!(sends.len(), 1);
    assert_eq!(sends[0].dest, c_addr);
}

#[test]
fn test_missing_next_hop_removes_routes_and_broadcasts() {
    let b_addr = Addr { ip: 0x7f000001, port: 47 };
    let registry = registry_with_authenticated(&[(0xb, b_addr)]);
    let mut router = MessageRouter::new(0x1);
    // A route through a node the registry does not hold.
    router.update_routing_table(0xdd, 0xee, 1);

    let env = RoutedMessage::new(Message::ping(), 0xa, 0xdd, 8);
    let (outcome, sends) = router.forward_message(&registry, env, 100);
    assert_eq!(outcome, ForwardOutcome::Broadcast);
    assert_eq!(sends.len(), 1);
    assert_eq!(sends[0].dest, b_addr);
    let snapshot = router.get_routing_table_snapshot();
    assert!(!snapshot.iter().any(|(d, _, _)| *d == 0xdd));
}

#[test]
fn test_local_destination_is_delivered_locally() {
    let registry = registry_with_authenticated(&[]);
    let mut router = MessageRouter::new(0x1);
    let (outcome, sends) = router.route_message(&registry, Message::ping(), 0x1, 8, 100);
    assert_eq!(outcome, ForwardOutcome::DeliveredLocally);
    assert_eq!(sends.len(), 0);
}

#[test]
fn test_cache_cleanup_drops_old_entries() {
    let registry = registry_with_authenticated(&[]);
    let mut router = MessageRouter::new(0x1);
    let env = RoutedMessage::new(Message::ping(), 0xa, 0xdd, 8);
    let route_id = env.route_id;
    router.forward_message(&registry, env, 100);
    assert_eq!(router.message_cache.len(), 1);
    // Within the window the entry stays.
    router.cleanup_message_cache(399);
    assert_eq!(router.message_cache.len(), 1);
    // After the window it is swept.
    router.cleanup_message_cache(401);
    assert_eq!(router.message_cache.len(), 0);
    let again = RoutedMessage {
        original_message: Message::ping(),
        source_node: 0xa,
        destination_node: 0xdd,
        hop_count: 0,
        max_hops: 8,
        route_id,
    };
    let (outcome, _) = router.forward_message(&registry, again, 402);
    assert!(outcome != ForwardOutcome::AlreadyProcessed);
}
