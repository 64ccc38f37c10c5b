//! The shared on-wire message protocol: the tagged message union, node
//! and peer descriptions, and the handshake payloads.
//!
//! Identifiers are 128-bit values carried on the wire as canonical
//! hyphenated text; the text forms are named spec functions tied to the
//! `uuid` crate through trusted wrappers.

use vstd::prelude::*;
use vstd::string::StringExecFns;

use crate::Addr;
use crate::value::AppValue;
use crate::value::SpecValue;
use crate::value::str_eq;

verus! {

/// The tag of every message on the wire.
#[derive(Clone, Copy, Debug, PartialEq, Eq, Structural, Hash)]
pub enum MessageType {
    HandshakeRequest,
    HandshakeResponse,
    Ping,
    Pong,
    DiscoveryRequest,
    DiscoveryResponse,
    ListNodesRequest,
    ListNodesResponse,
    Data,
    Error,
    Disconnect,
    Ack,
    Retransmit,
    P2PConnect,
    RelayRequest,
    RelayResponse,
    RelayData,
}

/// The canonical hyphenated text of a 128-bit identifier.
pub uninterp spec fn uuid_text(id: u128) -> Seq<char>;

/// The identifier a text denotes, if the text is a valid identifier form.
pub uninterp spec fn uuid_of_text(s: Seq<char>) -> Option<u128>;

/// Relies on uuid::Uuid::new_v4: a freshly generated random version-4
/// identifier, never the nil identifier because the version bits are set.
#[verifier::external_body]
pub fn fresh_uuid() -> (r: u128)
    ensures
        r != 0,
{
    uuid::Uuid::new_v4().as_u128()
}

/// Relies on uuid::fmt::Hyphenated via uuid::Uuid::from_u128: the
/// hyphenated text depends on the identifier alone, and
/// uuid::Uuid::parse_str reads it back.
#[verifier::external_body]
pub fn format_uuid(id: u128) -> (r: String)
    ensures
        r@ == uuid_text(id),
        uuid_of_text(r@) == Some(id),
{
    uuid::Uuid::from_u128(id).hyphenated().to_string()
}

/// Relies on uuid::Uuid::parse_str: the result depends on the text alone.
#[verifier::external_body]
pub fn parse_uuid(s: &str) -> (r: Option<u128>)
    ensures
        r == uuid_of_text(s@),
{
    match uuid::Uuid::parse_str(s) {
        Ok(u) => Some(u.as_u128()),
        Err(_) => None,
    }
}

/// Relies on std::time::SystemTime::now: seconds since the Unix epoch.
#[verifier::external_body]
pub fn unix_time_seconds() -> (r: u64) {
    match std::time::SystemTime::now().duration_since(std::time::UNIX_EPOCH) {
        Ok(d) => d.as_secs(),
        Err(_) => 0,
    }
}

/// The wire text of a message tag.
pub open spec fn tag_text(t: MessageType) -> Seq<char> {
    match t {
        MessageType::HandshakeRequest => "HandshakeRequest"@,
        MessageType::HandshakeResponse => "HandshakeResponse"@,
        MessageType::Ping => "Ping"@,
        MessageType::Pong => "Pong"@,
        MessageType::DiscoveryRequest => "DiscoveryRequest"@,
        MessageType::DiscoveryResponse => "DiscoveryResponse"@,
        MessageType::ListNodesRequest => "ListNodesRequest"@,
        MessageType::ListNodesResponse => "ListNodesResponse"@,
        MessageType::Data => "Data"@,
        MessageType::Error => "Error"@,
        MessageType::Disconnect => "Disconnect"@,
        MessageType::Ack => "Ack"@,
        MessageType::Retransmit => "Retransmit"@,
        MessageType::P2PConnect => "P2PConnect"@,
        MessageType::RelayRequest => "RelayRequest"@,
        MessageType::RelayResponse => "RelayResponse"@,
        MessageType::RelayData => "RelayData"@,
    }
}

/// The tag a wire text denotes, if any.
pub open spec fn tag_of_text(s: Seq<char>) -> Option<MessageType> {
    if s == "HandshakeRequest"@ {
        Some(MessageType::HandshakeRequest)
    } else if s == "HandshakeResponse"@ {
        Some(MessageType::HandshakeResponse)
    } else if s == "Ping"@ {
        Some(MessageType::Ping)
    } else if s == "Pong"@ {
        Some(MessageType::Pong)
    } else if s == "DiscoveryRequest"@ {
        Some(MessageType::DiscoveryRequest)
    } else if s == "DiscoveryResponse"@ {
        Some(MessageType::DiscoveryResponse)
    } else if s == "ListNodesRequest"@ {
        Some(MessageType::ListNodesRequest)
    } else if s == "ListNodesResponse"@ {
        Some(MessageType::ListNodesResponse)
    } else if s == "Data"@ {
        Some(MessageType::Data)
    } else if s == "Error"@ {
        Some(MessageType::Error)
    } else if s == "Disconnect"@ {
        Some(MessageType::Disconnect)
    } else if s == "Ack"@ {
        Some(MessageType::Ack)
    } else if s == "Retransmit"@ {
        Some(MessageType::Retransmit)
    } else if s == "P2PConnect"@ {
        Some(MessageType::P2PConnect)
    } else if s == "RelayRequest"@ {
        Some(MessageType::RelayRequest)
    } else if s == "RelayResponse"@ {
        Some(MessageType::RelayResponse)
    } else if s == "RelayData"@ {
        Some(MessageType::RelayData)
    } else {
        None
    }
}

/// The wire text of a message tag.
pub fn message_type_tag(t: &MessageType) -> (r: &'static str)
    ensures
        r@ == tag_text(*t),
{
    match t {
        MessageType::HandshakeRequest => "HandshakeRequest",
        MessageType::HandshakeResponse => "HandshakeResponse",
        MessageType::Ping => "Ping",
        MessageType::Pong => "Pong",
        MessageType::DiscoveryRequest => "DiscoveryRequest",
        MessageType::DiscoveryResponse => "DiscoveryResponse",
        MessageType::ListNodesRequest => "ListNodesRequest",
        MessageType::ListNodesResponse => "ListNodesResponse",
        MessageType::Data => "Data",
        MessageType::Error => "Error",
        MessageType::Disconnect => "Disconnect",
        MessageType::Ack => "Ack",
        MessageType::Retransmit => "Retransmit",
        MessageType::P2PConnect => "P2PConnect",
        MessageType::RelayRequest => "RelayRequest",
        MessageType::RelayResponse => "RelayResponse",
        MessageType::RelayData => "RelayData",
    }
}

/// The tag a wire text denotes, if any.
pub fn message_type_of_tag(s: &str) -> (r: Option<MessageType>)
    ensures
        r == tag_of_text(s@),
{
    if str_eq(s, "HandshakeRequest") {
        Some(MessageType::HandshakeRequest)
    } else if str_eq(s, "HandshakeResponse") {
        Some(MessageType::HandshakeResponse)
    } else if str_eq(s, "Ping") {
        Some(MessageType::Ping)
    } else if str_eq(s, "Pong") {
        Some(MessageType::Pong)
    } else if str_eq(s, "DiscoveryRequest") {
        Some(MessageType::DiscoveryRequest)
    } else if str_eq(s, "DiscoveryResponse") {
        Some(MessageType::DiscoveryResponse)
    } else if str_eq(s, "ListNodesRequest") {
        Some(MessageType::ListNodesRequest)
    } else if str_eq(s, "ListNodesResponse") {
        Some(MessageType::ListNodesResponse)
    } else if str_eq(s, "Data") {
        Some(MessageType::Data)
    } else if str_eq(s, "Error") {
        Some(MessageType::Error)
    } else if str_eq(s, "Disconnect") {
        Some(MessageType::Disconnect)
    } else if str_eq(s, "Ack") {
        Some(MessageType::Ack)
    } else if str_eq(s, "Retransmit") {
        Some(MessageType::Retransmit)
    } else if str_eq(s, "P2PConnect") {
        Some(MessageType::P2PConnect)
    } else if str_eq(s, "RelayRequest") {
        Some(MessageType::RelayRequest)
    } else if str_eq(s, "RelayResponse") {
        Some(MessageType::RelayResponse)
    } else if str_eq(s, "RelayData") {
        Some(MessageType::RelayData)
    } else {
        None
    }
}

/// Reading a tag's text gives the tag back.
pub proof fn lemma_tag_round_trip(t: MessageType)
    ensures
        tag_of_text(tag_text(t)) == Some(t),
{
    reveal_strlit("HandshakeRequest");
    reveal_strlit("HandshakeResponse");
    reveal_strlit("Ping");
    reveal_strlit("Pong");
    reveal_strlit("DiscoveryRequest");
    reveal_strlit("DiscoveryResponse");
    reveal_strlit("ListNodesRequest");
    reveal_strlit("ListNodesResponse");
    reveal_strlit("Data");
    reveal_strlit("Error");
    reveal_strlit("Disconnect");
    reveal_strlit("Ack");
    reveal_strlit("Retransmit");
    reveal_strlit("P2PConnect");
    reveal_strlit("RelayRequest");
    reveal_strlit("RelayResponse");
    reveal_strlit("RelayData");
    assert("Pong"@ != "Ping"@) by {
        assert("Pong"@[1] == 'o' && "Ping"@[1] == 'i');
    }
    assert("Data"@ != "Ping"@) by {
        assert("Data"@[0] == 'D' && "Ping"@[0] == 'P');
    }
    assert("Data"@ != "Pong"@) by {
        assert("Data"@[0] == 'D' && "Pong"@[0] == 'P');
    }
    assert("DiscoveryRequest"@ != "HandshakeRequest"@) by {
        assert("DiscoveryRequest"@[0] == 'D' && "HandshakeRequest"@[0] == 'H');
    }
    assert("ListNodesRequest"@ != "HandshakeRequest"@ && "ListNodesRequest"@
        != "DiscoveryRequest"@) by {
        assert("ListNodesRequest"@[0] == 'L' && "HandshakeRequest"@[0] == 'H'
            && "DiscoveryRequest"@[0] == 'D');
    }
    assert("DiscoveryResponse"@ != "HandshakeResponse"@) by {
        assert("DiscoveryResponse"@[0] == 'D' && "HandshakeResponse"@[0] == 'H');
    }
    assert("ListNodesResponse"@ != "HandshakeResponse"@ && "ListNodesResponse"@
        != "DiscoveryResponse"@) by {
        assert("ListNodesResponse"@[0] == 'L' && "HandshakeResponse"@[0] == 'H'
            && "DiscoveryResponse"@[0] == 'D');
    }
    assert("Retransmit"@ != "Disconnect"@) by {
        assert("Retransmit"@[0] == 'R' && "Disconnect"@[0] == 'D');
    }
    assert("P2PConnect"@ != "Disconnect"@ && "P2PConnect"@ != "Retransmit"@) by {
        assert("P2PConnect"@[0] == 'P' && "Disconnect"@[0] == 'D' && "Retransmit"@[0] == 'R');
    }
    match t {
        MessageType::HandshakeRequest => assert(tag_text(t) == "HandshakeRequest"@),
        MessageType::HandshakeResponse => assert(tag_text(t) == "HandshakeResponse"@),
        MessageType::Ping => assert(tag_text(t) == "Ping"@),
        MessageType::Pong => assert(tag_text(t) == "Pong"@),
        MessageType::DiscoveryRequest => assert(tag_text(t) == "DiscoveryRequest"@),
        MessageType::DiscoveryResponse => assert(tag_text(t) == "DiscoveryResponse"@),
        MessageType::ListNodesRequest => assert(tag_text(t) == "ListNodesRequest"@),
        MessageType::ListNodesResponse => assert(tag_text(t) == "ListNodesResponse"@),
        MessageType::Data => assert(tag_text(t) == "Data"@),
        MessageType::Error => assert(tag_text(t) == "Error"@),
        MessageType::Disconnect => assert(tag_text(t) == "Disconnect"@),
        MessageType::Ack => assert(tag_text(t) == "Ack"@),
        MessageType::Retransmit => assert(tag_text(t) == "Retransmit"@),
        MessageType::P2PConnect => assert(tag_text(t) == "P2PConnect"@),
        MessageType::RelayRequest => assert(tag_text(t) == "RelayRequest"@),
        MessageType::RelayResponse => assert(tag_text(t) == "RelayResponse"@),
        MessageType::RelayData => assert(tag_text(t) == "RelayData"@),
    }
}

/// What a node announces about itself at handshake time.
#[derive(Debug)]
pub struct NodeInfo {
    pub id: u128,
    pub name: String,
    pub version: String,
    pub listen_addr: Addr,
    pub capabilities: Vec<String>,
    pub metadata: Vec<(String, String)>,
    pub network_id: String,
}

/// The mathematical form of a node description.
#[verifier::ext_equal]
pub struct NodeInfoV {
    pub id: u128,
    pub name: Seq<char>,
    pub version: Seq<char>,
    pub listen_addr: Addr,
    pub capabilities: Seq<Seq<char>>,
    pub metadata: Seq<(Seq<char>, Seq<char>)>,
    pub network_id: Seq<char>,
}

impl View for NodeInfo {
    type V = NodeInfoV;

    open spec fn view(&self) -> NodeInfoV {
        NodeInfoV {
            id: self.id,
            name: self.name@,
            version: self.version@,
            listen_addr: self.listen_addr,
            capabilities: self.capabilities.deep_view(),
            metadata: self.metadata.deep_view(),
            network_id: self.network_id@,
        }
    }
}

impl DeepView for NodeInfo {
    type V = NodeInfoV;

    open spec fn deep_view(&self) -> NodeInfoV {
        self.view()
    }
}

/// A copy of a vector of strings, mirroring the original.
pub fn clone_strings(v: &Vec<String>) -> (r: Vec<String>)
    ensures
        r.deep_view() == v.deep_view(),
{
    let mut out: Vec<String> = Vec::new();
    let n = v.len();
    let mut i: usize = 0;
    while i < n
        invariant
            n == v@.len(),
            0 <= i <= n,
            out@.len() == i,
            forall|j: int| 0 <= j < i ==> #[trigger] out@[j]@ == v@[j]@,
        decreases n - i,
    {
        out.push(v[i].clone());
        i = i + 1;
    }
    proof {
        assert(out.deep_view() =~= v.deep_view());
    }
    out
}

/// A copy of a vector of string pairs, mirroring the original.
pub fn clone_string_pairs(v: &Vec<(String, String)>) -> (r: Vec<(String, String)>)
    ensures
        r.deep_view() == v.deep_view(),
{
    let mut out: Vec<(String, String)> = Vec::new();
    let n = v.len();
    let mut i: usize = 0;
    while i < n
        invariant
            n == v@.len(),
            0 <= i <= n,
            out@.len() == i,
            forall|j: int|
                0 <= j < i ==> (#[trigger] out@[j]).0@ == v@[j].0@ && out@[j].1@ == v@[j].1@,
        decreases n - i,
    {
        out.push((v[i].0.clone(), v[i].1.clone()));
        i = i + 1;
    }
    proof {
        assert(out.deep_view() =~= v.deep_view());
    }
    out
}

/// Whether a node description lists a capability.
pub open spec fn has_capability(v: NodeInfoV, c: Seq<char>) -> bool {
    exists|i: int| 0 <= i < v.capabilities.len() && v.capabilities[i] == c
}

/// The description with its capability list replaced.
pub open spec fn with_capabilities(v: NodeInfoV, caps: Seq<Seq<char>>) -> NodeInfoV {
    NodeInfoV { capabilities: caps, ..v }
}

/// The description with its network identifier replaced.
pub open spec fn with_network_id(v: NodeInfoV, nid: Seq<char>) -> NodeInfoV {
    NodeInfoV { network_id: nid, ..v }
}

/// The description with its metadata replaced.
pub open spec fn with_metadata(v: NodeInfoV, m: Seq<(Seq<char>, Seq<char>)>) -> NodeInfoV {
    NodeInfoV { metadata: m, ..v }
}

/// The value bound to `key` in a metadata list, if any.
pub open spec fn spec_metadata_get(m: Seq<(Seq<char>, Seq<char>)>, key: Seq<char>) -> Option<
    Seq<char>,
>
    decreases m.len(),
{
    if m.len() == 0 {
        None
    } else if m[0].0 == key {
        Some(m[0].1)
    } else {
        spec_metadata_get(m.drop_first(), key)
    }
}

/// Looks a key up in a metadata list.
pub fn metadata_get<'a>(m: &'a Vec<(String, String)>, key: &str) -> (r: Option<&'a String>)
    ensures
        match r {
            Some(s) => spec_metadata_get(m.deep_view(), key@) == Some(s@),
            None => spec_metadata_get(m.deep_view(), key@) is None,
        },
{
    let ghost reps = m.deep_view();
    let n = m.len();
    let mut i: usize = 0;
    proof {
        assert(reps.skip(0) =~= reps);
    }
    while i < n
        invariant
            n == m@.len(),
            reps == m.deep_view(),
            reps.len() == n,
            forall|j: int| 0 <= j < n ==> #[trigger] reps[j] == (m@[j].0@, m@[j].1@),
            0 <= i <= n,
            spec_metadata_get(reps, key@) == spec_metadata_get(reps.skip(i as int), key@),
        decreases n - i,
    {
        let found = str_eq(m[i].0.as_str(), key);
        proof {
            assert(reps.skip(i as int)[0] == reps[i as int]);
            assert(reps.skip(i as int).drop_first() =~= reps.skip(i + 1));
        }
        if found {
            return Some(&m[i].1);
        }
        i = i + 1;
    }
    proof {
        assert(reps.skip(n as int) =~= Seq::<(Seq<char>, Seq<char>)>::empty());
    }
    None
}

impl NodeInfo {
    /// A fresh node description with a random identifier, this crate's
    /// version string and the three standard capabilities.
    pub fn new(name: String, listen_addr: Addr, network_id: String) -> (r: NodeInfo)
        ensures
            r@.name == name@,
            r@.version == "0.1.0"@,
            r@.listen_addr == listen_addr,
            r@.capabilities == seq!["handshake"@, "discovery"@, "data_transfer"@],
            r@.metadata == Seq::<(Seq<char>, Seq<char>)>::empty(),
            r@.network_id == network_id@,
            r@.id != 0,
    {
        let mut capabilities: Vec<String> = Vec::new();
        capabilities.push("handshake".to_owned());
        capabilities.push("discovery".to_owned());
        capabilities.push("data_transfer".to_owned());
        let r = NodeInfo {
            id: fresh_uuid(),
            name,
            version: "0.1.0".to_owned(),
            listen_addr,
            capabilities,
            metadata: Vec::new(),
            network_id,
        };
        proof {
            assert(r@.capabilities =~= seq!["handshake"@, "discovery"@, "data_transfer"@]);
            assert(r@.metadata =~= Seq::<(Seq<char>, Seq<char>)>::empty());
        }
        r
    }

    /// Adds a capability unless an equal one is already present.
    pub fn add_capability(&mut self, capability: String)
        ensures
            has_capability(old(self)@, capability@) ==> final (self)@ == old(self)@,
            !has_capability(old(self)@, capability@) ==> final (self)@ == with_capabilities(
                old(self)@,
                old(self)@.capabilities.push(capability@),
            ),
    {
        let n = self.capabilities.len();
        let mut i: usize = 0;
        while i < n
            invariant
                n == self.capabilities@.len(),
                0 <= i <= n,
                forall|j: int| 0 <= j < i ==> #[trigger] self.capabilities@[j]@ != capability@,
        decreases n - i,
        {
            if str_eq(self.capabilities[i].as_str(), capability.as_str()) {
                proof {
                    assert(self@.capabilities[i as int] == self.capabilities@[i as int]@);
                    assert(has_capability(self@, capability@));
                }
                return ;
            }
            i = i + 1;
        }
        self.capabilities.push(capability);
        proof {
            assert(final (self)@.capabilities =~= old(self)@.capabilities.push(capability@));
            assert(final (self)@ =~= with_capabilities(
                old(self)@,
                old(self)@.capabilities.push(capability@),
            ));
        }
    }

    /// Binds a metadata key, keeping earlier bindings ahead of it.
    pub fn add_metadata(&mut self, key: String, value: String)
        ensures
            final (self)@ == with_metadata(old(self)@, old(self)@.metadata.push((key@, value@))),
    {
        self.metadata.push((key, value));
        proof {
            assert(final (self)@.metadata =~= old(self)@.metadata.push((key@, value@)));
            assert(final (self)@ =~= with_metadata(
                old(self)@,
                old(self)@.metadata.push((key@, value@)),
            ));
        }
    }
}

impl Clone for NodeInfo {
    /// A clone mirrors the original description.
    fn clone(&self) -> (r: NodeInfo)
        ensures
            r@ == self@,
    {
        let r = NodeInfo {
            id: self.id,
            name: self.name.clone(),
            version: self.version.clone(),
            listen_addr: self.listen_addr,
            capabilities: clone_strings(&self.capabilities),
            metadata: clone_string_pairs(&self.metadata),
            network_id: self.network_id.clone(),
        };
        proof {
            assert(r@ =~= self@);
        }
        r
    }
}

/// A peer as reported in discovery responses.
#[derive(Debug)]
pub struct PeerInfo {
    pub id: u128,
    pub addr: Addr,
    pub last_seen: u64,
    pub capabilities: Vec<String>,
}

/// The mathematical form of a discovery entry.
#[verifier::ext_equal]
pub struct PeerInfoV {
    pub id: u128,
    pub addr: Addr,
    pub last_seen: u64,
    pub capabilities: Seq<Seq<char>>,
}

impl View for PeerInfo {
    type V = PeerInfoV;

    open spec fn view(&self) -> PeerInfoV {
        PeerInfoV {
            id: self.id,
            addr: self.addr,
            last_seen: self.last_seen,
            capabilities: self.capabilities.deep_view(),
        }
    }
}

impl DeepView for PeerInfo {
    type V = PeerInfoV;

    open spec fn deep_view(&self) -> PeerInfoV {
        self.view()
    }
}

impl PeerInfo {
    /// A discovery entry stamped with the current time.
    pub fn new(id: u128, addr: Addr, capabilities: Vec<String>) -> (r: PeerInfo)
        ensures
            r@.id == id,
            r@.addr == addr,
            r@.capabilities == capabilities.deep_view(),
    {
        PeerInfo { id, addr, last_seen: unix_time_seconds(), capabilities }
    }

    /// Re-stamps the entry with the current time.
    pub fn update_last_seen(&mut self)
        ensures
            final (self).id == old(self).id,
            final (self).addr == old(self).addr,
            final (self)@.capabilities == old(self)@.capabilities,
    {
        self.last_seen = unix_time_seconds();
    }
}

impl Clone for PeerInfo {
    /// A clone mirrors the original entry.
    fn clone(&self) -> (r: PeerInfo)
        ensures
            r@ == self@,
    {
        let r = PeerInfo {
            id: self.id,
            addr: self.addr,
            last_seen: self.last_seen,
            capabilities: clone_strings(&self.capabilities),
        };
        proof {
            assert(r@ =~= self@);
        }
        r
    }
}

/// The payload of a handshake response.
#[derive(Debug)]
pub struct HandshakeResponse {
    pub node_info: NodeInfo,
    pub success: bool,
    pub error_message: Option<String>,
    pub public_addr: Option<Addr>,
}

/// The mathematical form of a handshake response payload.
#[verifier::ext_equal]
pub struct HandshakeResponseV {
    pub node_info: NodeInfoV,
    pub success: bool,
    pub error_message: Option<Seq<char>>,
    pub public_addr: Option<Addr>,
}

impl View for HandshakeResponse {
    type V = HandshakeResponseV;

    open spec fn view(&self) -> HandshakeResponseV {
        HandshakeResponseV {
            node_info: self.node_info@,
            success: self.success,
            error_message: match self.error_message {
                Some(ref s) => Some(s@),
                None => None,
            },
            public_addr: self.public_addr,
        }
    }
}

/// One message as carried by one datagram.
#[derive(Debug)]
pub struct Message {
    pub id: u128,
    pub message_type: MessageType,
    pub timestamp: u64,
    pub payload: AppValue,
    pub sender_addr: Option<Addr>,
    pub sequence_number: Option<u32>,
    pub requires_ack: bool,
    pub ack_for: Option<u128>,
}

/// The mathematical form of a message.
#[verifier::ext_equal]
pub struct MessageV {
    pub id: u128,
    pub message_type: MessageType,
    pub timestamp: u64,
    pub payload: SpecValue,
    pub sender_addr: Option<Addr>,
    pub sequence_number: Option<u32>,
    pub requires_ack: bool,
    pub ack_for: Option<u128>,
}

impl View for Message {
    type V = MessageV;

    open spec fn view(&self) -> MessageV {
        MessageV {
            id: self.id,
            message_type: self.message_type,
            timestamp: self.timestamp,
            payload: self.payload@,
            sender_addr: self.sender_addr,
            sequence_number: self.sequence_number,
            requires_ack: self.requires_ack,
            ack_for: self.ack_for,
        }
    }
}

/// A message built by `Message::new`: the given tag and payload, no
/// envelope extras, and a non-nil identifier.
pub open spec fn is_plain_message(m: MessageV, t: MessageType, p: SpecValue) -> bool {
    &&& m.message_type == t
    &&& m.payload == p
    &&& m.sender_addr is None
    &&& m.sequence_number is None
    &&& !m.requires_ack
    &&& m.ack_for is None
    &&& m.id != 0
}

impl Message {
    /// A fresh message of the given tag and payload, stamped with the
    /// current time.
    pub fn new(message_type: MessageType, payload: AppValue) -> (r: Message)
        ensures
            is_plain_message(r@, message_type, payload@),
    {
        Message {
            id: fresh_uuid(),
            message_type,
            timestamp: unix_time_seconds(),
            payload,
            sender_addr: None,
            sequence_number: None,
            requires_ack: false,
            ack_for: None,
        }
    }

    /// A fresh message that asks its receiver for an acknowledgement.
    pub fn new_with_ack(
        message_type: MessageType,
        payload: AppValue,
        sender_addr: Addr,
        sequence_number: u32,
    ) -> (r: Message)
        ensures
            r@.message_type == message_type,
            r@.payload == payload@,
            r@.sender_addr == Some(sender_addr),
            r@.sequence_number == Some(sequence_number),
            r@.requires_ack,
            r@.ack_for is None,
            r@.id != 0,
    {
        Message {
            id: fresh_uuid(),
            message_type,
            timestamp: unix_time_seconds(),
            payload,
            sender_addr: Some(sender_addr),
            sequence_number: Some(sequence_number),
            requires_ack: true,
            ack_for: None,
        }
    }

    /// The acknowledgement of a received message.
    pub fn ack(original_message_id: u128, sender_addr: Addr) -> (r: Message)
        ensures
            r@.message_type == MessageType::Ack,
            r@.payload == SpecValue::Null,
            r@.sender_addr == Some(sender_addr),
            r@.sequence_number is None,
            !r@.requires_ack,
            r@.ack_for == Some(original_message_id),
            r@.id != 0,
    {
        Message {
            id: fresh_uuid(),
            message_type: MessageType::Ack,
            timestamp: unix_time_seconds(),
            payload: AppValue::Null,
            sender_addr: Some(sender_addr),
            sequence_number: None,
            requires_ack: false,
            ack_for: Some(original_message_id),
        }
    }

    /// A liveness probe.
    pub fn ping() -> (r: Message)
        ensures
            is_plain_message(r@, MessageType::Ping, SpecValue::Null),
    {
        Message::new(MessageType::Ping, AppValue::Null)
    }

    /// The answer to a liveness probe.
    pub fn pong() -> (r: Message)
        ensures
            is_plain_message(r@, MessageType::Pong, SpecValue::Null),
    {
        Message::new(MessageType::Pong, AppValue::Null)
    }

    /// A request for the peer list.
    pub fn discovery_request() -> (r: Message)
        ensures
            is_plain_message(r@, MessageType::DiscoveryRequest, SpecValue::Null),
    {
        Message::new(MessageType::DiscoveryRequest, AppValue::Null)
    }

    /// A request for every known node.
    pub fn list_nodes_request() -> (r: Message)
        ensures
            is_plain_message(r@, MessageType::ListNodesRequest, SpecValue::Null),
    {
        Message::new(MessageType::ListNodesRequest, AppValue::Null)
    }

    /// A data message carrying an application value.
    pub fn data(data: AppValue) -> (r: Message)
        ensures
            is_plain_message(r@, MessageType::Data, data@),
    {
        Message::new(MessageType::Data, data)
    }
}

impl Clone for Message {
    /// A clone mirrors the original message.
    fn clone(&self) -> (r: Message)
        ensures
            r@ == self@,
    {
        let r = Message {
            id: self.id,
            message_type: self.message_type,
            timestamp: self.timestamp,
            payload: self.payload.clone(),
            sender_addr: self.sender_addr,
            sequence_number: self.sequence_number,
            requires_ack: self.requires_ack,
            ack_for: self.ack_for,
        };
        proof {
            assert(r@ =~= self@);
        }
        r
    }
}

/// A message the caller must send to an endpoint: handlers compute
/// sends as values and never touch a socket themselves.
#[derive(Debug)]
pub struct Outgoing {
    pub dest: Addr,
    pub msg: Message,
}

/// The mathematical form of a pending send.
#[verifier::ext_equal]
pub struct OutgoingV {
    pub dest: Addr,
    pub msg: MessageV,
}

impl View for Outgoing {
    type V = OutgoingV;

    open spec fn view(&self) -> OutgoingV {
        OutgoingV { dest: self.dest, msg: self.msg@ }
    }
}

impl DeepView for Outgoing {
    type V = OutgoingV;

    open spec fn deep_view(&self) -> OutgoingV {
        self.view()
    }
}

/// The handshake validation rules.
pub struct HandshakeProtocol;

/// Why a handshake payload was rejected.
#[derive(Clone, Copy, Debug, PartialEq, Eq, Structural)]
pub enum HandshakeError {
    NotHandshakeRequest,
    NotHandshakeResponse,
    InvalidPayload,
    InvalidResponsePayload,
    EmptyName,
    EmptyVersion,
}

/// The reported text of a handshake validation error.
pub open spec fn handshake_error_text(e: HandshakeError) -> Seq<char> {
    match e {
        HandshakeError::NotHandshakeRequest => "\u{4e0d}\u{662f}\u{63e1}\u{624b}\u{8bf7}\u{6c42}\u{6d88}\u{606f}"@,
        HandshakeError::NotHandshakeResponse => "\u{4e0d}\u{662f}\u{63e1}\u{624b}\u{54cd}\u{5e94}\u{6d88}\u{606f}"@,
        HandshakeError::InvalidPayload => "\u{89e3}\u{6790}\u{8282}\u{70b9}\u{4fe1}\u{606f}\u{5931}\u{8d25}"@,
        HandshakeError::InvalidResponsePayload => "\u{89e3}\u{6790}\u{63e1}\u{624b}\u{54cd}\u{5e94}\u{5931}\u{8d25}"@,
        HandshakeError::EmptyName => "\u{8282}\u{70b9}\u{540d}\u{79f0}\u{4e0d}\u{80fd}\u{4e3a}\u{7a7a}"@,
        HandshakeError::EmptyVersion => "\u{8282}\u{70b9}\u{7248}\u{672c}\u{4e0d}\u{80fd}\u{4e3a}\u{7a7a}"@,
    }
}

impl HandshakeError {
    /// The reported text of the error.
    pub fn message(&self) -> (r: String)
        ensures
            r@ == handshake_error_text(*self),
    {
        match self {
            HandshakeError::NotHandshakeRequest => "\u{4e0d}\u{662f}\u{63e1}\u{624b}\u{8bf7}\u{6c42}\u{6d88}\u{606f}".to_owned(),
            HandshakeError::NotHandshakeResponse => "\u{4e0d}\u{662f}\u{63e1}\u{624b}\u{54cd}\u{5e94}\u{6d88}\u{606f}".to_owned(),
            HandshakeError::InvalidPayload => "\u{89e3}\u{6790}\u{8282}\u{70b9}\u{4fe1}\u{606f}\u{5931}\u{8d25}".to_owned(),
            HandshakeError::InvalidResponsePayload => "\u{89e3}\u{6790}\u{63e1}\u{624b}\u{54cd}\u{5e94}\u{5931}\u{8d25}".to_owned(),
            HandshakeError::EmptyName => "\u{8282}\u{70b9}\u{540d}\u{79f0}\u{4e0d}\u{80fd}\u{4e3a}\u{7a7a}".to_owned(),
            HandshakeError::EmptyVersion => "\u{8282}\u{70b9}\u{7248}\u{672c}\u{4e0d}\u{80fd}\u{4e3a}\u{7a7a}".to_owned(),
        }
    }
}

/// The payload of a node-list response.
#[derive(Debug)]
pub struct ListNodesResponse {
    pub nodes: Vec<NodeInfo>,
}

/// A request to relay raw bytes to another peer.
#[derive(Debug)]
pub struct RelayRequest {
    pub target_peer_id: u128,
    pub data: Vec<u8>,
}

/// The answer to a relay request.
#[derive(Debug)]
pub struct RelayResponse {
    pub success: bool,
    pub error_message: Option<String>,
}

/// Raw bytes relayed from another peer.
#[derive(Debug)]
pub struct RelayData {
    pub from_peer_id: u128,
    pub data: Vec<u8>,
}

} // verus!
