use p2p_handshake_server::Addr;
use p2p_handshake_server::peer::PeerManager;
use p2p_handshake_server::peer::PeerStatus;
use p2p_handshake_server::peer::RegistryError;
use p2p_handshake_server::protocol::Message;
use p2p_handshake_server::protocol::MessageType;
use p2p_handshake_server::protocol::NodeInfo;

fn manager(max: usize) -> PeerManager {
    let local = NodeInfo::new(
        "local".to_string(),
        Addr { ip: 0x7f000001, port: 1 },
        "test".to_string(),
    );
    PeerManager::new(local, max)
}

#[test]
fn test_add_get_remove_peer() {
    let mut m = manager(4);
    let addr = Addr { ip: 9, port: 10 };
    let p = m.add_peer(addr, 100).expect("below capacity");
    assert_eq!(p.addr, addr);
    assert_eq!(p.created_at, 100);
    assert!(matches!(p.status, PeerStatus::Connecting));

    let looked = m.get_peer(p.id).expect("the record is indexed by identifier");
    assert_eq!(looked.addr, addr);
    let by_addr = m.get_peer_by_addr(addr).expect("the record is indexed by endpoint");
    assert_eq!(by_addr.id, p.id);

    let removed = m.remove_peer(p.id).expect("removal finds the record");
    assert_eq!(removed.id, p.id);
    assert!(m.remove_peer(p.id).is_none());
    assert!(m.get_peer(p.id).is_none());
}

#[test]
fn test_capacity_is_refused_then_relieved() {
    let mut m = manager(1);
    let a = Addr { ip: 1, port: 1 };
    let b = Addr { ip: 2, port: 2 };
    let first = m.add_peer(a, 0).expect("below capacity");
    assert_eq!(m.add_peer(b, 0).unwrap_err(), RegistryError::Capacity);
    m.remove_peer(first.id);
    assert!(m.add_peer(b, 0).is_ok());
}

#[test]
fn test_existing_endpoint_is_refused_but_resolved() {
    let mut m = manager(4);
    let a = Addr { ip: 1, port: 1 };
    let first = m.add_peer(a, 0).expect("below capacity");
    assert_eq!(m.add_peer(a, 0).unwrap_err(), RegistryError::AddressExists);
    let resolved = m.get_or_create_peer_by_addr(a, 5).expect("the endpoint resolves");
    assert_eq!(resolved.id, first.id);
    assert_eq!(m.peers.len(), 1);
}

#[test]
fn test_handshake_request_authenticates_peer() {
    let mut m = manager(4);
    let a = Addr { ip: 1, port: 7 };
    m.get_or_create_peer_by_addr(a, 0).unwrap();
    let mut info = NodeInfo::new("c".to_string(), a, "test".to_string());
    info.id = 0x77;
    let request = Message::handshake_request(info);
    let (res, sends) = m.handle_handshake_request(a, &request, 1);
    assert!(res.is_ok());
    assert_eq!(sends.len(), 1);
    assert_eq!(sends[0].dest, a);
    assert_eq!(sends[0].msg.message_type, MessageType::HandshakeResponse);

    let record = m.get_peer(0x77).expect("the claimed identifier is installed");
    assert!(matches!(record.status, PeerStatus::Authenticated));
    assert_eq!(m.get_peer_by_addr(a).unwrap().id, 0x77);
}

#[test]
fn test_handshake_response_promotes_peer() {
    let mut m = manager(4);
    let a = Addr { ip: 1, port: 8 };
    m.get_or_create_peer_by_addr(a, 0).unwrap();
    let mut info = NodeInfo::new("remote".to_string(), a, "test".to_string());
    info.id = 0x88;
    let response = Message::handshake_response(info, true);
    let res = m.handle_handshake_response(a, &response);
    assert!(res.is_ok());
    let record = m.get_peer(0x88).expect("the responder is installed");
    assert!(matches!(record.status, PeerStatus::Authenticated));
}

#[test]
fn test_handshake_response_failure_marks_error() {
    let mut m = manager(4);
    let a = Addr { ip: 1, port: 9 };
    m.get_or_create_peer_by_addr(a, 0).unwrap();
    let info = NodeInfo::new("remote".to_string(), a, "test".to_string());
    let response = Message::handshake_response(info, false);
    let res = m.handle_handshake_response(a, &response);
    assert!(res.is_err());
    let record = m.get_peer_by_addr(a).unwrap();
    assert!(matches!(record.status, PeerStatus::Error(_)));
}

#[test]
fn test_peer_info_list_excludes_requested_peer() {
    let mut m = manager(4);
    for (port, id) in [(21u16, 0xa1u128), (22, 0xa2), (23, 0xa3)] {
        let addr = Addr { ip: 3, port };
        m.get_or_create_peer_by_addr(addr, 0).unwrap();
        let mut info = NodeInfo::new("n".to_string(), addr, "test".to_string());
        info.id = id;
        let request = Message::handshake_request(info);
        let (res, _) = m.handle_handshake_request(addr, &request, 1);
        assert!(res.is_ok());
    }
    let all = m.get_peer_info_list(50);
    assert_eq!(all.len(), 3);
    let without = m.get_peer_info_list_excluding(Some(0xa2), 50);
    assert_eq!(without.len(), 2);
    assert!(without.iter().all(|p| p.id != 0xa2));
    assert!(without.iter().all(|p| p.last_seen == 50));
}

#[test]
fn test_cleanup_keeps_connected_records() {
    let mut m = manager(8);
    let a = m.add_peer(Addr { ip: 4, port: 1 }, 0).unwrap();
    let b = m.add_peer(Addr { ip: 4, port: 2 }, 0).unwrap();
    let c = m.add_peer(Addr { ip: 4, port: 3 }, 0).unwrap();
    m.set_peer_status(a.id, PeerStatus::Authenticated);
    m.set_peer_status(b.id, PeerStatus::Disconnected);
    m.set_peer_status(c.id, PeerStatus::Connected);
    m.cleanup_disconnected_peers();
    assert_eq!(m.peers.len(), 2);
    assert!(m.get_peer(a.id).is_some());
    assert!(m.get_peer(b.id).is_none());
    assert!(m.get_peer(c.id).is_some());
}

#[test]
fn test_get_authenticated_peers() {
    let mut m = manager(8);
    let a = m.add_peer(Addr { ip: 5, port: 1 }, 0).unwrap();
    let _b = m.add_peer(Addr { ip: 5, port: 2 }, 0).unwrap();
    m.set_peer_status(a.id, PeerStatus::Authenticated);
    let auth = m.get_authenticated_peers();
    assert_eq!(auth.len(), 1);
    assert_eq!(auth[0].id, a.id);
    assert_eq!(m.get_all_peers().len(), 2);
}
