use p2p_handshake_server::Addr;
use p2p_handshake_server::stun_protocol::STUN_ATTR_ERROR_CODE;
use p2p_handshake_server::stun_protocol::STUN_ATTR_SOFTWARE;
use p2p_handshake_server::stun_protocol::STUN_BINDING_ERROR_RESPONSE;
use p2p_handshake_server::stun_protocol::STUN_BINDING_REQUEST;
use p2p_handshake_server::stun_protocol::STUN_BINDING_RESPONSE;
use p2p_handshake_server::stun_protocol::STUN_MAGIC_COOKIE;
use p2p_handshake_server::stun_protocol::StunMessage;
use p2p_handshake_server::stun_protocol::create_software_attribute;
use p2p_handshake_server::stun_protocol::extract_transaction_id;
use p2p_handshake_server::stun_protocol::is_stun_packet;
use p2p_handshake_server::stun_server::stun_reply;
use p2p_handshake_server::text::addr_to_string;
use p2p_handshake_server::text::parse_addr;

#[test]
fn test_stun_bytes_round_trip() {
    let mut msg = StunMessage::new_binding_response([1, 2, 3, 4, 5, 6, 7, 8, 9, 10, 11, 12]);
    msg.add_attribute(create_software_attribute("unit"));
    let bytes = msg.to_bytes();
    assert!(is_stun_packet(&bytes));
    let back = StunMessage::from_bytes(&bytes).expect("decoding an encoded message");
    assert_eq!(back.message_type, STUN_BINDING_RESPONSE);
    assert_eq!(back.magic_cookie, STUN_MAGIC_COOKIE);
    assert_eq!(back.transaction_id, msg.transaction_id);
    assert_eq!(back.attributes.len(), 1);
    assert_eq!(back.attributes[0].attr_type, STUN_ATTR_SOFTWARE);
    assert_eq!(back.attributes[0].value, b"unit".to_vec());
}

#[test]
fn test_stun_rejects_short_and_bad_cookie() {
    assert!(StunMessage::from_bytes(&[0u8; 10]).is_err());
    assert!(!is_stun_packet(&[0u8; 10]));
    let mut bytes = StunMessage::new_binding_request().to_bytes();
    bytes[4] = 0;
    assert!(StunMessage::from_bytes(&bytes).is_err());
    assert!(!is_stun_packet(&bytes));
}

#[test]
fn test_extract_transaction_id() {
    let msg = StunMessage::new_binding_request();
    let bytes = msg.to_bytes();
    assert_eq!(extract_transaction_id(&bytes), Some(msg.transaction_id));
    assert_eq!(extract_transaction_id(&[0u8; 5]), None);
}

#[test]
fn test_binding_request_gets_mapped_address_back() {
    let request = StunMessage::new_binding_request();
    let bytes = request.to_bytes();
    let client = Addr { ip: 0xc0a80101, port: 54321 };
    let reply = stun_reply(&bytes, client, "unit-test");
    assert_eq!(reply.message_type, STUN_BINDING_RESPONSE);
    assert_eq!(reply.transaction_id, request.transaction_id);
    // Both the masked and the plain encodings decode to the client.
    assert_eq!(reply.extract_mapped_address(), Some(client));
    assert_eq!(reply.attributes.len(), 3);
    assert_eq!(reply.attributes[2].attr_type, STUN_ATTR_SOFTWARE);
    // The reply survives its own wire trip.
    let wire = reply.to_bytes();
    let back = StunMessage::from_bytes(&wire).unwrap();
    assert_eq!(back.extract_mapped_address(), Some(client));
}

#[test]
fn test_garbage_gets_error_response() {
    let client = Addr { ip: 0xc0a80101, port: 1 };
    let reply = stun_reply(&[1, 2, 3], client, "unit-test");
    assert_eq!(reply.message_type, STUN_BINDING_ERROR_RESPONSE);
    assert_eq!(reply.attributes[0].attr_type, STUN_ATTR_ERROR_CODE);
    assert_eq!(reply.attributes[0].value[2], 4);
    assert_eq!(reply.attributes[0].value[3], 0);
}

#[test]
fn test_unsupported_type_gets_error_response() {
    let mut msg = StunMessage::new_binding_request();
    msg.message_type = STUN_BINDING_RESPONSE;
    assert!(msg.message_type != STUN_BINDING_REQUEST);
    let bytes = msg.to_bytes();
    let reply = stun_reply(&bytes, Addr { ip: 1, port: 2 }, "unit-test");
    assert_eq!(reply.message_type, STUN_BINDING_ERROR_RESPONSE);
    assert_eq!(reply.transaction_id, msg.transaction_id);
}

#[test]
fn test_addr_text_round_trip() {
    let a = Addr { ip: 0x7f000001, port: 18080 };
    let text = addr_to_string(&a);
    assert_eq!(text, "127.0.0.1:18080");
    assert_eq!(parse_addr(&text), Some(a));
    let b = Addr { ip: 0xffffffff, port: 65535 };
    assert_eq!(parse_addr(&addr_to_string(&b)), Some(b));
    let c = Addr { ip: 0, port: 0 };
    assert_eq!(addr_to_string(&c), "0.0.0.0:0");
    assert_eq!(parse_addr(&addr_to_string(&c)), Some(c));
}

#[test]
fn test_addr_text_rejects_malformed_endpoints() {
    assert_eq!(parse_addr("1.2.3:4"), None);
    assert_eq!(parse_addr("256.1.1.1:1"), None);
    assert_eq!(parse_addr("1.2.3.4:70000"), None);
    assert_eq!(parse_addr("01.2.3.4:5"), None);
    assert_eq!(parse_addr("1.2.3.4"), None);
    assert_eq!(parse_addr(""), None);
    assert_eq!(parse_addr("a.b.c.d:e"), None);
}
