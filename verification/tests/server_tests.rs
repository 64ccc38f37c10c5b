use p2p_handshake_server::Addr;
use p2p_handshake_server::codec::get_addr_field;
use p2p_handshake_server::codec::get_uuid_field;
use p2p_handshake_server::config::Config;
use p2p_handshake_server::protocol::Message;
use p2p_handshake_server::protocol::MessageType;
use p2p_handshake_server::protocol::NodeInfo;
use p2p_handshake_server::router::RoutedMessage;
use p2p_handshake_server::server::DispatchError;
use p2p_handshake_server::server::P2PServer;
use p2p_handshake_server::value::AppValue;

fn test_config() -> Config {
    let mut config = Config::default();
    config.network_id = "test".to_string();
    config.listen_address = Addr { ip: 0x7f000001, port: 18080 };
    config
}

fn test_server() -> P2PServer {
    let listen = Addr { ip: 0x7f000001, port: 18080 };
    P2PServer::new(test_config(), listen)
}

fn client_info(id: u128, name: &str, addr: Addr, network_id: &str) -> NodeInfo {
    let mut info = NodeInfo::new(name.to_string(), addr, network_id.to_string());
    info.id = id;
    info
}

fn handshake(server: &mut P2PServer, id: u128, name: &str, addr: Addr, now: u64) -> Vec<Message> {
    let request = Message::handshake_request(client_info(id, name, addr, "test"));
    let result = server.handle_message(addr, &request, now);
    result.sends.into_iter().map(|o| o.msg).collect()
}

fn error_text(msg: &Message) -> String {
    match &msg.payload {
        AppValue::Object(fields) => {
            for (k, v) in fields {
                if k == "error" {
                    if let AppValue::Text(t) = v {
                        return t.clone();
                    }
                }
            }
            panic!("no error field");
        },
        _ => panic!("error payload must be an object"),
    }
}

#[test]
fn test_two_clients_join_and_lists_exclude_receiver() {
    let mut server = test_server();
    let a_addr = Addr { ip: 0x7f000001, port: 40001 };
    let b_addr = Addr { ip: 0x7f000001, port: 40002 };

    let a_replies = handshake(&mut server, 0xa, "client1", a_addr, 10);
    assert_eq!(a_replies.len(), 1);
    assert_eq!(a_replies[0].message_type, MessageType::HandshakeResponse);

    let b_replies = handshake(&mut server, 0xb, "client2", b_addr, 11);
    assert_eq!(b_replies.len(), 1);
    assert_eq!(b_replies[0].message_type, MessageType::HandshakeResponse);

    // The debounce window closes: the most recent joiner is excluded,
    // every other peer gets a list without itself in it.
    let fanout = server.fire_peerlist_broadcast(12);
    assert_eq!(fanout.len(), 1);
    assert_eq!(fanout[0].dest, a_addr);
    let list = p2p_handshake_server::codec::decode_peer_info_list(&fanout[0].msg.payload)
        .expect("a discovery response carries a peer list");
    assert_eq!(list.len(), 1);
    assert_eq!(list[0].id, 0xb);

    // A later membership change with no excluded peer reaches everyone,
    // and no peer ever appears in its own list.
    assert!(server.schedule_peerlist_broadcast(None));
    let fanout2 = server.fire_peerlist_broadcast(13);
    assert_eq!(fanout2.len(), 2);
    for out in &fanout2 {
        let list = p2p_handshake_server::codec::decode_peer_info_list(&out.msg.payload).unwrap();
        assert_eq!(list.len(), 1);
        if out.dest == a_addr {
            assert_eq!(list[0].id, 0xb);
        } else {
            assert_eq!(out.dest, b_addr);
            assert_eq!(list[0].id, 0xa);
        }
    }
}

#[test]
fn test_duplicate_node_id_is_rejected() {
    let mut server = test_server();
    let a_addr = Addr { ip: 0x7f000001, port: 40011 };
    let b_addr = Addr { ip: 0x7f000001, port: 40012 };

    let first = handshake(&mut server, 0x11, "one", a_addr, 10);
    assert_eq!(first[0].message_type, MessageType::HandshakeResponse);

    let second = handshake(&mut server, 0x11, "two", b_addr, 11);
    assert_eq!(second.len(), 1);
    assert_eq!(second[0].message_type, MessageType::Error);
    let text = error_text(&second[0]);
    assert!(text.contains(" \u{5df2}\u{5b58}\u{5728}"));
}

#[test]
fn test_network_id_mismatch_is_rejected() {
    let mut server = test_server();
    let a_addr = Addr { ip: 0x7f000001, port: 40021 };
    let request = Message::handshake_request(client_info(0x21, "one", a_addr, "other"));
    let result = server.handle_message(a_addr, &request, 10);
    assert_eq!(result.sends.len(), 1);
    assert_eq!(result.sends[0].msg.message_type, MessageType::Error);
    let text = error_text(&result.sends[0].msg);
    assert!(text.contains("\u{7f51}\u{7edc}ID\u{4e0d}\u{5339}\u{914d}"));
}

#[test]
fn test_missing_network_id_is_rejected() {
    let mut server = test_server();
    let a_addr = Addr { ip: 0x7f000001, port: 40022 };
    let request = Message::handshake_request(client_info(0x22, "one", a_addr, ""));
    let result = server.handle_message(a_addr, &request, 10);
    assert_eq!(result.sends.len(), 1);
    let text = error_text(&result.sends[0].msg);
    assert!(text.contains("network_id"));
}

#[test]
fn test_invalid_handshake_payload_is_rejected() {
    let mut server = test_server();
    let a_addr = Addr { ip: 0x7f000001, port: 40023 };
    let request = Message::new(MessageType::HandshakeRequest, AppValue::Null);
    let result = server.handle_message(a_addr, &request, 10);
    assert_eq!(result.sends.len(), 1);
    assert_eq!(result.sends[0].msg.message_type, MessageType::Error);
    assert!(result.error.is_some());
}

#[test]
fn test_capacity_refusal_and_retry_after_disconnect() {
    let mut config = test_config();
    config.max_connections = 1;
    let mut server = P2PServer::new(config, Addr { ip: 0x7f000001, port: 18080 });
    let a_addr = Addr { ip: 0x7f000001, port: 40031 };
    let b_addr = Addr { ip: 0x7f000001, port: 40032 };

    let first = handshake(&mut server, 0x31, "one", a_addr, 10);
    assert_eq!(first[0].message_type, MessageType::HandshakeResponse);

    let refused = server.handle_message(
        b_addr,
        &Message::handshake_request(client_info(0x32, "two", b_addr, "test")),
        11,
    );
    assert_eq!(refused.sends.len(), 1);
    assert_eq!(refused.sends[0].msg.message_type, MessageType::Error);
    let text = error_text(&refused.sends[0].msg);
    assert!(text.contains("\u{5df2}\u{8fbe}\u{5230}\u{6700}\u{5927}\u{8fde}\u{63a5}\u{6570}\u{9650}\u{5236}: 1"));

    // The first peer leaves; a retry then succeeds.
    let bye = Message::disconnect("done".to_string());
    server.handle_message(a_addr, &bye, 12);
    let retry = handshake(&mut server, 0x32, "two", b_addr, 13);
    assert_eq!(retry[0].message_type, MessageType::HandshakeResponse);
}

#[test]
fn test_disconnect_is_idempotent() {
    let mut server = test_server();
    let a_addr = Addr { ip: 0x7f000001, port: 40041 };
    handshake(&mut server, 0x41, "one", a_addr, 10);
    assert_eq!(server.peer_manager.peers.len(), 1);

    let bye = Message::disconnect("done".to_string());
    let first = server.handle_message(a_addr, &bye, 11);
    assert_eq!(server.peer_manager.peers.len(), 0);
    assert_eq!(first.sends.len(), 0);
    let routes_after_first = server.message_router.get_routing_table_snapshot();

    let second = server.handle_message(a_addr, &bye, 12);
    assert_eq!(server.peer_manager.peers.len(), 0);
    assert_eq!(second.sends.len(), 0);
    assert!(second.error.is_none());
    // The repeated disconnect also leaves the routing table untouched.
    assert_eq!(server.message_router.get_routing_table_snapshot(), routes_after_first);
}

#[test]
fn test_ping_gets_exactly_one_pong_and_advances_last_ping() {
    let mut server = test_server();
    let a_addr = Addr { ip: 0x7f000001, port: 40051 };
    handshake(&mut server, 0x51, "one", a_addr, 10);

    let result = server.handle_message(a_addr, &Message::ping(), 77);
    assert_eq!(result.sends.len(), 1);
    assert_eq!(result.sends[0].dest, a_addr);
    assert_eq!(result.sends[0].msg.message_type, MessageType::Pong);
    let record = server.peer_manager.get_peer_by_addr(a_addr).unwrap();
    assert_eq!(record.last_ping, Some(77));
}

#[test]
fn test_requires_ack_gets_an_ack_first() {
    let mut server = test_server();
    let a_addr = Addr { ip: 0x7f000001, port: 40061 };
    let mut ping = Message::ping();
    ping.requires_ack = true;
    ping.sequence_number = Some(1);
    let result = server.handle_message(a_addr, &ping, 10);
    assert_eq!(result.sends.len(), 2);
    assert_eq!(result.sends[0].msg.message_type, MessageType::Ack);
    assert_eq!(result.sends[0].msg.ack_for, Some(ping.id));
    assert_eq!(result.sends[1].msg.message_type, MessageType::Pong);
}

#[test]
fn test_routed_delivery_to_known_peer() {
    let mut server = test_server();
    let a_addr = Addr { ip: 0x7f000001, port: 40071 };
    let b_addr = Addr { ip: 0x7f000001, port: 40072 };
    handshake(&mut server, 0xa1, "a", a_addr, 10);
    handshake(&mut server, 0xb1, "b", b_addr, 11);

    let env = RoutedMessage::new(Message::ping(), 0xa1, 0xb1, 8);
    let wire = env.to_message();
    let result = server.handle_message(a_addr, &wire, 12);
    assert!(result.error.is_none());
    assert_eq!(result.sends.len(), 1);
    assert_eq!(result.sends[0].dest, b_addr);
    let relayed = RoutedMessage::from_message(&result.sends[0].msg).unwrap();
    assert_eq!(relayed.hop_count, 1);
    assert_eq!(relayed.destination_node, 0xb1);
}

#[test]
fn test_hop_limit_failure_is_reported() {
    let mut server = test_server();
    let a_addr = Addr { ip: 0x7f000001, port: 40081 };
    let b_addr = Addr { ip: 0x7f000001, port: 40082 };
    handshake(&mut server, 0xa2, "a", a_addr, 10);
    handshake(&mut server, 0xb2, "b", b_addr, 11);

    let mut env = RoutedMessage::new(Message::ping(), 0xa2, 0xb2, 2);
    env.hop_count = 2;
    let wire = env.to_message();
    let result = server.handle_message(a_addr, &wire, 12);
    assert_eq!(result.error, Some(DispatchError::HopLimit));
    assert_eq!(result.sends.len(), 0);
}

#[test]
fn test_rendezvous_exchanges_observed_addresses() {
    let mut server = test_server();
    let a_addr = Addr { ip: 0x7f000001, port: 40091 };
    let b_addr = Addr { ip: 0x7f000001, port: 40092 };
    handshake(&mut server, 0xa3, "a", a_addr, 10);
    handshake(&mut server, 0xb3, "b", b_addr, 11);

    let connect = Message::initiate_p2p(0xb3);
    let result = server.handle_message(a_addr, &connect, 12);
    assert_eq!(result.sends.len(), 2);
    assert_eq!(result.sends[0].dest, a_addr);
    assert_eq!(result.sends[1].dest, b_addr);
    assert_eq!(get_uuid_field(&result.sends[0].msg.payload, "peer_id"), Some(0xb3));
    assert_eq!(get_addr_field(&result.sends[0].msg.payload, "peer_addr"), Some(b_addr));
    assert_eq!(get_uuid_field(&result.sends[1].msg.payload, "peer_id"), Some(0xa3));
    assert_eq!(get_addr_field(&result.sends[1].msg.payload, "peer_addr"), Some(a_addr));
}

#[test]
fn test_rendezvous_with_self_is_refused() {
    let mut server = test_server();
    let a_addr = Addr { ip: 0x7f000001, port: 40093 };
    handshake(&mut server, 0xa4, "a", a_addr, 10);
    let connect = Message::initiate_p2p(0xa4);
    let result = server.handle_message(a_addr, &connect, 11);
    assert_eq!(result.sends.len(), 1);
    assert_eq!(result.sends[0].msg.message_type, MessageType::Error);
    assert!(error_text(&result.sends[0].msg).contains("\u{81ea}\u{8eab}"));
}

#[test]
fn test_rendezvous_with_unknown_peer_is_refused() {
    let mut server = test_server();
    let a_addr = Addr { ip: 0x7f000001, port: 40094 };
    handshake(&mut server, 0xa5, "a", a_addr, 10);
    let connect = Message::initiate_p2p(0xdead);
    let result = server.handle_message(a_addr, &connect, 11);
    assert_eq!(result.sends.len(), 1);
    assert_eq!(result.sends[0].msg.message_type, MessageType::Error);
}

#[test]
fn test_route_snapshot_command() {
    let mut server = test_server();
    let a_addr = Addr { ip: 0x7f000001, port: 40101 };
    let b_addr = Addr { ip: 0x7f000001, port: 40102 };
    handshake(&mut server, 0xa6, "a", a_addr, 10);
    handshake(&mut server, 0xb6, "b", b_addr, 11);

    let cmd = Message::data(AppValue::Object(vec![(
        "cmd".to_string(),
        AppValue::Text("get_routes".to_string()),
    )]));
    let result = server.handle_message(a_addr, &cmd, 12);
    assert_eq!(result.sends.len(), 1);
    let reply = &result.sends[0].msg;
    assert_eq!(reply.message_type, MessageType::Data);
    let routes = match &reply.payload {
        AppValue::Object(fields) => match &fields[0].1 {
            AppValue::List(items) => items.clone(),
            _ => panic!("routes must be a list"),
        },
        _ => panic!("snapshot payload must be an object"),
    };
    let mut found = false;
    for entry in &routes {
        if get_uuid_field(entry, "destination") == Some(0xb6) {
            assert_eq!(get_uuid_field(entry, "next_hop"), Some(0xb6));
            found = true;
        }
    }
    assert!(found);
}

#[test]
fn test_unrecognized_data_is_echoed() {
    let mut server = test_server();
    let a_addr = Addr { ip: 0x7f000001, port: 40111 };
    let payload = AppValue::Object(vec![("x".to_string(), AppValue::UInt(1))]);
    let data = Message::data(payload.clone());
    let result = server.handle_message(a_addr, &data, 55);
    assert_eq!(result.sends.len(), 1);
    match &result.sends[0].msg.payload {
        AppValue::Object(fields) => {
            assert_eq!(fields[0].0, "echo");
            assert_eq!(fields[0].1, payload);
            assert_eq!(fields[1].0, "timestamp");
            assert_eq!(fields[1].1, AppValue::UInt(55));
        },
        _ => panic!("echo payload must be an object"),
    }
}

#[test]
fn test_heartbeat_and_shutdown_messages() {
    let mut server = test_server();
    let a_addr = Addr { ip: 0x7f000001, port: 40121 };
    let b_addr = Addr { ip: 0x7f000001, port: 40122 };
    handshake(&mut server, 0xa7, "a", a_addr, 10);
    handshake(&mut server, 0xb7, "b", b_addr, 11);

    let pings = server.heartbeat_pings();
    assert_eq!(pings.len(), 2);
    for p in &pings {
        assert_eq!(p.msg.message_type, MessageType::Ping);
    }

    let byes = server.shutdown_messages();
    assert_eq!(byes.len(), 2);
    for b in &byes {
        assert_eq!(b.msg.message_type, MessageType::Disconnect);
    }
}

#[test]
fn test_list_nodes_reports_observed_addresses() {
    let mut server = test_server();
    let a_addr = Addr { ip: 0x7f000001, port: 40131 };
    let claimed = Addr { ip: 0x0a000001, port: 9 };
    let request = Message::handshake_request(client_info(0xa8, "a", claimed, "test"));
    server.handle_message(a_addr, &request, 10);

    let result = server.handle_message(a_addr, &Message::list_nodes_request(), 11);
    assert_eq!(result.sends.len(), 1);
    match &result.sends[0].msg.payload {
        AppValue::Object(fields) => match &fields[0].1 {
            AppValue::List(items) => {
                assert_eq!(items.len(), 1);
                assert_eq!(get_addr_field(&items[0], "listen_addr"), Some(a_addr));
            },
            _ => panic!("nodes must be a list"),
        },
        _ => panic!("node list payload must be an object"),
    }
}

#[test]
fn test_stats_counts() {
    let mut server = test_server();
    let a_addr = Addr { ip: 0x7f000001, port: 40141 };
    handshake(&mut server, 0xa9, "a", a_addr, 10);
    // A datagram from a fresh endpoint leaves a connecting record behind.
    server.handle_message(Addr { ip: 0x7f000001, port: 40142 }, &Message::pong(), 11);
    let stats = server.peer_manager.get_stats();
    assert_eq!(stats.total_peers, 2);
    assert_eq!(stats.authenticated_peers, 1);
    assert_eq!(stats.connecting_peers, 1);
    server.peer_manager.cleanup_disconnected_peers();
    assert_eq!(server.peer_manager.peers.len(), 1);
}

#[test]
fn test_config_defaults() {
    let config = Config::default();
    assert_eq!(config.listen_address, Addr { ip: 0x7f000001, port: 8080 });
    assert_eq!(config.max_connections, 100);
    assert_eq!(config.heartbeat_interval, 30);
    assert_eq!(config.connection_timeout, 60);
    assert_eq!(config.network_id, "p2p_default");
    assert_eq!(config.peerlist_broadcast_debounce_ms, 300);
    assert!(config.enable_discovery);
    assert!(!config.stun_server.enable);
    assert_eq!(config.stun_server.port, 3478);
}
