use p2p_handshake_server::Addr;
use p2p_handshake_server::codec::decode_handshake_response;
use p2p_handshake_server::codec::decode_message;
use p2p_handshake_server::codec::decode_node_info;
use p2p_handshake_server::codec::decode_peer_info_list;
use p2p_handshake_server::codec::encode_message;
use p2p_handshake_server::codec::encode_node_info;
use p2p_handshake_server::codec::get_uuid_field;
use p2p_handshake_server::protocol::HandshakeProtocol;
use p2p_handshake_server::protocol::Message;
use p2p_handshake_server::protocol::MessageType;
use p2p_handshake_server::protocol::NodeInfo;
use p2p_handshake_server::protocol::PeerInfo;
use p2p_handshake_server::protocol::message_type_of_tag;
use p2p_handshake_server::protocol::message_type_tag;
use p2p_handshake_server::value::AppValue;

fn test_addr() -> Addr {
    Addr { ip: 0x7f000001, port: 8080 }
}

#[test]
fn test_message_creation() {
    let node_info = NodeInfo::new(
        "test_node".to_string(),
        test_addr(),
        "testnet".to_string(),
    );
    let message = Message::handshake_request(node_info);

    assert_eq!(message.message_type, MessageType::HandshakeRequest);
    assert!(message.id != 0);
}

#[test]
fn test_handshake_validation() {
    let node_info = NodeInfo::new(
        "test_node".to_string(),
        test_addr(),
        "testnet".to_string(),
    );
    let message = Message::handshake_request(node_info.clone());

    let result = HandshakeProtocol::validate_handshake_request(&message);
    assert!(result.is_ok());

    let validated_info = result.unwrap();
    assert_eq!(validated_info.name, node_info.name);
}

#[test]
fn test_handshake_validation_rejects_wrong_tag() {
    let message = Message::ping();
    let result = HandshakeProtocol::validate_handshake_request(&message);
    assert!(result.is_err());
}

#[test]
fn test_handshake_validation_rejects_empty_name() {
    let mut node_info = NodeInfo::new(
        String::new(),
        test_addr(),
        "testnet".to_string(),
    );
    node_info.name = String::new();
    let message = Message::handshake_request(node_info);
    let result = HandshakeProtocol::validate_handshake_request(&message);
    assert!(result.is_err());
}

#[test]
fn test_tag_round_trip_all_variants() {
    let tags = [
        MessageType::HandshakeRequest,
        MessageType::HandshakeResponse,
        MessageType::Ping,
        MessageType::Pong,
        MessageType::DiscoveryRequest,
        MessageType::DiscoveryResponse,
        MessageType::ListNodesRequest,
        MessageType::ListNodesResponse,
        MessageType::Data,
        MessageType::Error,
        MessageType::Disconnect,
        MessageType::Ack,
        MessageType::Retransmit,
        MessageType::P2PConnect,
        MessageType::RelayRequest,
        MessageType::RelayResponse,
        MessageType::RelayData,
    ];
    for t in tags {
        let text = message_type_tag(&t);
        assert_eq!(message_type_of_tag(text), Some(t));
    }
    assert_eq!(message_type_of_tag("NoSuchTag"), None);
}

#[test]
fn test_node_info_codec_round_trip() {
    let mut info = NodeInfo::new(
        "alpha".to_string(),
        Addr { ip: 0x0a000001, port: 9000 },
        "test".to_string(),
    );
    info.id = 0xfeed_face_dead_beef_0123_4567_89ab_cdefu128;
    info.add_metadata("k".to_string(), "v".to_string());
    let value = encode_node_info(&info);
    let back = decode_node_info(&value).expect("decoding an encoded description");
    assert_eq!(back.id, info.id);
    assert_eq!(back.name, info.name);
    assert_eq!(back.version, info.version);
    assert_eq!(back.listen_addr, info.listen_addr);
    assert_eq!(back.capabilities, info.capabilities);
    assert_eq!(back.metadata, info.metadata);
    assert_eq!(back.network_id, info.network_id);
}

#[test]
fn test_message_codec_round_trip() {
    let mut message = Message::new_with_ack(
        MessageType::Data,
        AppValue::UInt(7),
        Addr { ip: 1, port: 2 },
        9,
    );
    message.ack_for = Some(0xabc);
    let value = encode_message(&message);
    let back = decode_message(&value).expect("decoding an encoded message");
    assert_eq!(back.id, message.id);
    assert_eq!(back.message_type, message.message_type);
    assert_eq!(back.timestamp, message.timestamp);
    assert_eq!(back.payload, message.payload);
    assert_eq!(back.sender_addr, message.sender_addr);
    assert_eq!(back.sequence_number, message.sequence_number);
    assert_eq!(back.requires_ack, message.requires_ack);
    assert_eq!(back.ack_for, message.ack_for);
}

#[test]
fn test_handshake_response_codec_round_trip() {
    let info = NodeInfo::new("s".to_string(), test_addr(), "test".to_string());
    let msg = Message::handshake_response_with_public_addr(
        info.clone(),
        true,
        Addr { ip: 0x7f000001, port: 5000 },
    );
    let back = decode_handshake_response(&msg.payload).expect("decoding a handshake response");
    assert!(back.success);
    assert_eq!(back.error_message, None);
    assert_eq!(back.public_addr, Some(Addr { ip: 0x7f000001, port: 5000 }));
    assert_eq!(back.node_info.id, info.id);
}

#[test]
fn test_peer_info_list_codec_round_trip() {
    let a = PeerInfo::new(11, Addr { ip: 5, port: 6 }, vec!["x".to_string()]);
    let b = PeerInfo::new(22, Addr { ip: 7, port: 8 }, Vec::new());
    let msg = Message::discovery_response(vec![a, b]);
    let back = decode_peer_info_list(&msg.payload).expect("decoding an encoded peer list");
    assert_eq!(back.len(), 2);
    assert_eq!(back[0].id, 11);
    assert_eq!(back[1].id, 22);
    assert_eq!(back[1].addr, Addr { ip: 7, port: 8 });
}

#[test]
fn test_identifier_text_survives_p2p_payload() {
    let id = 0x0102_0304_0506_0708_090a_0b0c_0d0e_0f10u128;
    let msg = Message::initiate_p2p(id);
    assert_eq!(msg.message_type, MessageType::P2PConnect);
    assert_eq!(get_uuid_field(&msg.payload, "peer_id"), Some(id));
}

#[test]
fn test_error_message_payload() {
    let msg = Message::error("boom".to_string());
    assert_eq!(msg.message_type, MessageType::Error);
    match &msg.payload {
        AppValue::Object(fields) => {
            assert_eq!(fields.len(), 1);
            assert_eq!(fields[0].0, "error");
            assert_eq!(fields[0].1, AppValue::Text("boom".to_string()));
        },
        _ => panic!("error payload must be an object"),
    }
}

#[test]
fn test_add_capability_is_idempotent() {
    let mut info = NodeInfo::new("n".to_string(), test_addr(), "test".to_string());
    let before = info.capabilities.len();
    info.add_capability("handshake".to_string());
    assert_eq!(info.capabilities.len(), before);
    info.add_capability("relay".to_string());
    assert_eq!(info.capabilities.len(), before + 1);
}

#[test]
fn test_handshake_validation_rejects_empty_version() {
    let mut node_info = NodeInfo::new("n".to_string(), test_addr(), "testnet".to_string());
    node_info.version = String::new();
    let message = Message::handshake_request(node_info);
    let result = HandshakeProtocol::validate_handshake_request(&message);
    assert!(result.is_err());
}

#[test]
fn test_handshake_response_validation() {
    let info = NodeInfo::new("s".to_string(), test_addr(), "test".to_string());
    let ok = Message::handshake_response(info, true);
    assert!(HandshakeProtocol::validate_handshake_response(&ok).is_ok());
    // The wrong tag is refused.
    assert!(HandshakeProtocol::validate_handshake_response(&Message::ping()).is_err());
    // A response whose payload is not a handshake response is refused.
    let bad = Message::new(MessageType::HandshakeResponse, AppValue::Null);
    assert!(HandshakeProtocol::validate_handshake_response(&bad).is_err());
}

#[test]
fn test_initiate_p2p_with_prediction_payload() {
    let id = 0x1234u128;
    let msg = Message::initiate_p2p_with_prediction(
        id,
        Some("symmetric".to_string()),
        Some(vec![4000u16, 4001]),
        Some(Addr { ip: 0x7f000001, port: 9999 }),
    );
    assert_eq!(msg.message_type, MessageType::P2PConnect);
    assert_eq!(get_uuid_field(&msg.payload, "peer_id"), Some(id));
    match &msg.payload {
        AppValue::Object(fields) => {
            assert_eq!(fields.len(), 4);
            assert_eq!(fields[1].0, "nat_type");
            assert_eq!(fields[1].1, AppValue::Text("symmetric".to_string()));
            assert_eq!(fields[2].0, "predicted_ports");
            assert_eq!(
                fields[2].1,
                AppValue::List(vec![AppValue::UInt(4000), AppValue::UInt(4001)])
            );
            assert_eq!(fields[3].0, "public_addr");
        },
        _ => panic!("the hinting payload must be an object"),
    }
    // Without hints only the target identifier is carried.
    let bare = Message::initiate_p2p_with_prediction(id, None, None, None);
    match &bare.payload {
        AppValue::Object(fields) => assert_eq!(fields.len(), 1),
        _ => panic!("the bare payload must be an object"),
    }
}
