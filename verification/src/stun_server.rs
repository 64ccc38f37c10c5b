//! The stand-alone binding-discovery responder's decision logic: what
//! to answer a datagram with, given the sender's observed endpoint.
//! The socket work around it belongs to the caller.

use vstd::prelude::*;
use vstd::string::StringSliceAdditionalSpecFns;

use crate::Addr;
use crate::stun_protocol::STUN_ATTR_ERROR_CODE;
use crate::stun_protocol::STUN_ATTR_MAPPED_ADDRESS;
use crate::stun_protocol::STUN_ATTR_SOFTWARE;
use crate::stun_protocol::STUN_ATTR_XOR_MAPPED_ADDRESS;
use crate::stun_protocol::STUN_BINDING_ERROR_RESPONSE;
use crate::stun_protocol::STUN_BINDING_REQUEST;
use crate::stun_protocol::STUN_BINDING_RESPONSE;
use crate::stun_protocol::STUN_MAGIC_COOKIE;
use crate::stun_protocol::StunAttributeV;
use crate::stun_protocol::StunMessage;
use crate::stun_protocol::StunMessageV;
use crate::stun_protocol::attrs_wire_len;
use crate::stun_protocol::create_mapped_address_attribute;
use crate::stun_protocol::create_software_attribute;
use crate::stun_protocol::mapped_address_value;
use crate::stun_protocol::stun_parse;

verus! {

/// The binding-response shape: the request's transaction identifier,
/// both address encodings of the client's endpoint, and the software
/// name.
pub open spec fn is_binding_response_for(
    r: StunMessageV,
    tid: Seq<u8>,
    client: Addr,
    software: Seq<u8>,
) -> bool {
    &&& r.message_type == STUN_BINDING_RESPONSE
    &&& r.magic_cookie == STUN_MAGIC_COOKIE
    &&& r.transaction_id == tid
    &&& r.attributes == seq![
        (StunAttributeV {
            attr_type: STUN_ATTR_XOR_MAPPED_ADDRESS,
            length: 8,
            value: mapped_address_value(client, true),
        }),
        (StunAttributeV {
            attr_type: STUN_ATTR_MAPPED_ADDRESS,
            length: 8,
            value: mapped_address_value(client, false),
        }),
        (StunAttributeV {
            attr_type: STUN_ATTR_SOFTWARE,
            length: software.len() as u16,
            value: software,
        }),
    ]
    &&& r.length == attrs_wire_len(r.attributes)
}

/// The error-response shape: the given transaction identifier, the
/// error code and reason, and the software name.
pub open spec fn is_error_response_for(
    r: StunMessageV,
    tid: Seq<u8>,
    code: u16,
    reason: Seq<u8>,
    software: Seq<u8>,
) -> bool {
    &&& r.message_type == STUN_BINDING_ERROR_RESPONSE
    &&& r.magic_cookie == STUN_MAGIC_COOKIE
    &&& r.transaction_id == tid
    &&& r.attributes == seq![
        (StunAttributeV {
            attr_type: STUN_ATTR_ERROR_CODE,
            length: (4 + reason.len()) as u16,
            value: seq![0u8, 0u8, (code / 100) as u8, (code % 100) as u8] + reason,
        }),
        (StunAttributeV {
            attr_type: STUN_ATTR_SOFTWARE,
            length: software.len() as u16,
            value: software,
        }),
    ]
    &&& r.length == attrs_wire_len(r.attributes)
}

/// The wire length of one attribute.
proof fn lemma_one_attr_wire_len(attrs: Seq<StunAttributeV>, a: StunAttributeV)
    ensures
        attrs_wire_len(attrs.push(a)) == attrs_wire_len(attrs) + 4 + a.value.len()
            + crate::stun_protocol::pad_len(a.value.len()),
        crate::stun_protocol::pad_len(a.value.len()) <= 3,
{
    assert(attrs.push(a).drop_last() =~= attrs);
    assert(attrs.push(a).last() == a);
}

/// A binding response telling the client its observed endpoint.
pub fn create_binding_response(request: &StunMessage, client_addr: Addr, software: &str) -> (r:
    StunMessage)
    requires
        software.spec_bytes().len() + 40 <= 65535,
    ensures
        is_binding_response_for(r@, request@.transaction_id, client_addr, software.spec_bytes()),
{
    let mut response = StunMessage::new_binding_response(request.transaction_id);
    let xor_mapped_attr = create_mapped_address_attribute(client_addr, true);
    proof {
        lemma_one_attr_wire_len(response@.attributes, xor_mapped_attr@);
        assert(attrs_wire_len(response@.attributes) == 0);
    }
    response.add_attribute(xor_mapped_attr);
    let mapped_attr = create_mapped_address_attribute(client_addr, false);
    proof {
        lemma_one_attr_wire_len(response@.attributes, mapped_attr@);
    }
    response.add_attribute(mapped_attr);
    let software_attr = create_software_attribute(software);
    proof {
        lemma_one_attr_wire_len(response@.attributes, software_attr@);
    }
    response.add_attribute(software_attr);
    proof {
        assert(r_attrs_shape(response@.attributes, client_addr, software.spec_bytes()));
    }
    response
}

/// The three attributes of a binding response, in order.
spec fn r_attrs_shape(attrs: Seq<StunAttributeV>, client: Addr, software: Seq<u8>) -> bool {
    attrs =~= seq![
        (StunAttributeV {
            attr_type: STUN_ATTR_XOR_MAPPED_ADDRESS,
            length: 8,
            value: mapped_address_value(client, true),
        }),
        (StunAttributeV {
            attr_type: STUN_ATTR_MAPPED_ADDRESS,
            length: 8,
            value: mapped_address_value(client, false),
        }),
        (StunAttributeV {
            attr_type: STUN_ATTR_SOFTWARE,
            length: software.len() as u16,
            value: software,
        }),
    ]
}

/// An error response naming the software.
fn error_response_with_software(
    transaction_id: [u8; 12],
    code: u16,
    reason: &str,
    software: &str,
) -> (r: StunMessage)
    requires
        reason.spec_bytes().len() + 11 <= 65535,
        software.spec_bytes().len() + 40 <= 65535,
        reason.spec_bytes().len() + software.spec_bytes().len() + 40 <= 65535,
    ensures
        is_error_response_for(
            r@,
            transaction_id@,
            code,
            reason.spec_bytes(),
            software.spec_bytes(),
        ),
{
    let mut response = StunMessage::new_error_response(transaction_id, code, reason);
    let software_attr = create_software_attribute(software);
    proof {
        lemma_one_attr_wire_len(response@.attributes, software_attr@);
        assert(attrs_wire_len(response@.attributes) == 4 + response@.attributes[0].value.len()
            + crate::stun_protocol::pad_len(response@.attributes[0].value.len())) by {
            lemma_one_attr_wire_len(Seq::<StunAttributeV>::empty(), response@.attributes[0]);
            assert(Seq::<StunAttributeV>::empty().push(response@.attributes[0])
                =~= response@.attributes);
            assert(attrs_wire_len(Seq::<StunAttributeV>::empty()) == 0);
        }
    }
    response.add_attribute(software_attr);
    proof {
        assert(response@.attributes =~= seq![
            (StunAttributeV {
                attr_type: STUN_ATTR_ERROR_CODE,
                length: (4 + reason.spec_bytes().len()) as u16,
                value: seq![0u8, 0u8, (code / 100) as u8, (code % 100) as u8]
                    + reason.spec_bytes(),
            }),
            (StunAttributeV {
                attr_type: STUN_ATTR_SOFTWARE,
                length: software.spec_bytes().len() as u16,
                value: software.spec_bytes(),
            }),
        ]);
    }
    response
}

/// What the responder answers: a binding response for a binding
/// request, and a bad-request error for anything else.
pub fn stun_reply(data: &[u8], client_addr: Addr, software: &str) -> (r: StunMessage)
    requires
        data@.len() <= 65536,
        software.spec_bytes().len() + 64 <= 65535,
    ensures
        (match stun_parse(data@) {
            Ok(req) => {
                if req.message_type == STUN_BINDING_REQUEST {
                    is_binding_response_for(
                        r@,
                        req.transaction_id,
                        client_addr,
                        software.spec_bytes(),
                    )
                } else {
                    is_error_response_for(
                        r@,
                        req.transaction_id,
                        400,
                        "Unsupported Message Type".spec_bytes(),
                        software.spec_bytes(),
                    )
                }
            },
            Err(_) => is_error_response_for(
                r@,
                seq![0u8, 0u8, 0u8, 0u8, 0u8, 0u8, 0u8, 0u8, 0u8, 0u8, 0u8, 0u8],
                400,
                "Bad Request".spec_bytes(),
                software.spec_bytes(),
            ),
        }),
{
    proof {
        lemma_reason_lens();
    }
    let request = match StunMessage::from_bytes(data) {
        Ok(msg) => msg,
        Err(_) => {
            let zero_tid: [u8; 12] = [0, 0, 0, 0, 0, 0, 0, 0, 0, 0, 0, 0];
            let r = error_response_with_software(zero_tid, 400, "Bad Request", software);
            proof {
                assert(zero_tid@ =~= seq![
                    0u8,
                    0u8,
                    0u8,
                    0u8,
                    0u8,
                    0u8,
                    0u8,
                    0u8,
                    0u8,
                    0u8,
                    0u8,
                    0u8,
                ]);
            }
            return r;
        },
    };
    if request.message_type == STUN_BINDING_REQUEST {
        create_binding_response(&request, client_addr, software)
    } else {
        error_response_with_software(
            request.transaction_id,
            400,
            "Unsupported Message Type",
            software,
        )
    }
}

/// The two reason phrases are short ASCII texts.
proof fn lemma_reason_lens()
    ensures
        "Bad Request".spec_bytes().len() == 11,
        "Unsupported Message Type".spec_bytes().len() == 24,
{
    reveal_strlit("Bad Request");
    reveal_strlit("Unsupported Message Type");
    assert(vstd::utf8::is_ascii_chars("Bad Request"@));
    assert(vstd::utf8::is_ascii_chars("Unsupported Message Type"@));
    vstd::utf8::is_ascii_chars_encode_utf8("Bad Request"@);
    vstd::utf8::is_ascii_chars_encode_utf8("Unsupported Message Type"@);
}

/// Binding-discovery responder settings.
#[derive(Debug)]
pub struct StunServerConfig {
    pub enable: bool,
    pub port: u16,
    pub software: String,
    pub verbose_logging: bool,
    pub max_concurrent_requests: usize,
}

impl Default for StunServerConfig {
    /// The documented defaults: disabled, on the customary port.
    fn default() -> (r: StunServerConfig)
        ensures
            !r.enable,
            r.port == 3478,
            r.software@ == "P2P-Handshake-Server/1.0"@,
            !r.verbose_logging,
            r.max_concurrent_requests == 1000,
    {
        StunServerConfig {
            enable: false,
            port: 3478,
            software: "P2P-Handshake-Server/1.0".to_owned(),
            verbose_logging: false,
            max_concurrent_requests: 1000,
        }
    }
}

} // verus!
