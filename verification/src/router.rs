//! The overlay router: a next-hop table with strict-improvement
//! updates, a route-identifier de-duplication cache, and the
//! forward/broadcast/drop decision for routed data messages.
//!
//! Routing handlers return the datagrams to send; the caller performs
//! the sends and reports the outcome of its own socket work elsewhere.

use vstd::prelude::*;

use crate::codec::field_uint;
use crate::codec::message_of_value;
use crate::codec::message_to_value;
use crate::codec::encode_message;
use crate::codec::get_uint_field;
use crate::codec::get_uuid_field;
use crate::codec::field_uuid;
use crate::peer::PeerManager;
use crate::peer::PeerV;
use crate::peer::has_peer_id;
use crate::peer::peer_at_id;
use crate::peer::status_is_authenticated;
use crate::protocol::Message;
use crate::protocol::MessageType;
use crate::protocol::MessageV;
use crate::protocol::Outgoing;
use crate::protocol::format_uuid;
use crate::protocol::fresh_uuid;
use crate::protocol::is_plain_message;
use crate::protocol::uuid_of_text;
use crate::protocol::uuid_text;
use crate::value::AppValue;
use crate::value::SpecValue;
use crate::value::lookup_field;
use crate::value::spec_get_field;
use crate::value::lemma_rep_fields_props;
use crate::value::value_field;

verus! {

/// Dedup-cache entries older than this many seconds are swept out.
pub const CACHE_TTL_SECONDS: u64 = 300;

/// One next-hop table entry.
#[derive(Clone, Copy, Debug, PartialEq, Eq, Structural)]
pub struct Route {
    pub destination: u128,
    pub next_hop: u128,
    pub distance: u32,
}

/// No two entries share a destination.
pub open spec fn wf_routes(rs: Seq<Route>) -> bool {
    forall|i: int, j: int|
        0 <= i < j < rs.len() ==> (#[trigger] rs[i]).destination != (
        #[trigger] rs[j]).destination
}

/// Some entry routes to the destination.
pub open spec fn has_route(rs: Seq<Route>, destination: u128) -> bool {
    exists|i: int| 0 <= i < rs.len() && (#[trigger] rs[i]).destination == destination
}

/// The index of the entry for the destination.
pub open spec fn idx_of_route(rs: Seq<Route>, destination: u128) -> int {
    choose|i: int| 0 <= i < rs.len() && (#[trigger] rs[i]).destination == destination
}

/// The entry for the destination.
pub open spec fn route_at(rs: Seq<Route>, destination: u128) -> Route {
    rs[idx_of_route(rs, destination)]
}

/// The distance-vector next-hop table.
#[derive(Debug)]
pub struct RoutingTable {
    pub routes: Vec<Route>,
}

impl RoutingTable {
    /// One entry per destination.
    pub open spec fn wf(&self) -> bool {
        wf_routes(self.routes@)
    }

    /// An empty table.
    pub fn new() -> (r: RoutingTable)
        ensures
            r.wf(),
            r.routes@.len() == 0,
    {
        RoutingTable { routes: Vec::new() }
    }

    /// The index of the entry for the destination, if any.
    fn find_route(&self, destination: u128) -> (r: Option<usize>)
        ensures
            match r {
                Some(i) => 0 <= i < self.routes@.len() && self.routes@[i as int].destination
                    == destination,
                None => !has_route(self.routes@, destination),
            },
    {
        let n = self.routes.len();
        let mut i: usize = 0;
        while i < n
            invariant
                n == self.routes@.len(),
                0 <= i <= n,
                forall|j: int| 0 <= j < i ==> (#[trigger] self.routes@[j]).destination != destination,
            decreases n - i,
        {
            if self.routes[i].destination == destination {
                return Some(i);
            }
            i = i + 1;
        }
        None
    }

    /// Learns a route: a new entry for an unknown destination, and a
    /// replacement only when the new distance is strictly smaller.
    pub fn add_route(&mut self, destination: u128, next_hop: u128, distance: u32)
        requires
            old(self).wf(),
        ensures
            final (self).wf(),
            (if !has_route(old(self).routes@, destination) {
                final (self).routes@ == old(self).routes@.push(
                    (Route { destination, next_hop, distance }),
                )
            } else if distance < route_at(old(self).routes@, destination).distance {
                final (self).routes@ == old(self).routes@.update(
                    idx_of_route(old(self).routes@, destination),
                    (Route { destination, next_hop, distance }),
                )
            } else {
                final (self).routes@ == old(self).routes@
            }),
    {
        let idx = match self.find_route(destination) {
            Some(i) => i,
            None => {
                let ghost old_routes = self.routes@;
                self.routes.push(Route { destination, next_hop, distance });
                proof {
                    assert forall|i: int, j: int| 0 <= i < j < self.routes@.len() implies (
                    #[trigger] self.routes@[i]).destination != (
                    #[trigger] self.routes@[j]).destination by {
                        if j < old_routes.len() {
                        } else {
                            assert(self.routes@[i] == old_routes[i]);
                        }
                    }
                }
                return ;
            },
        };
        proof {
            let k = idx_of_route(self.routes@, destination);
            assert(0 <= k < self.routes@.len() && self.routes@[k].destination == destination);
            assert(k == idx as int);
        }
        if distance < self.routes[idx].distance {
            let ghost old_routes = self.routes@;
            let entry = &mut self.routes[idx];
            entry.next_hop = next_hop;
            entry.distance = distance;
            proof {
                assert(self.routes@ =~= old_routes.update(
                    idx as int,
                    (Route { destination, next_hop, distance }),
                ));
                assert forall|i: int, j: int| 0 <= i < j < self.routes@.len() implies (
                #[trigger] self.routes@[i]).destination != (
                #[trigger] self.routes@[j]).destination by {
                    assert(old_routes[i].destination != old_routes[j].destination);
                }
            }
        }
    }

    /// The next hop towards the destination, if one is known.
    pub fn get_next_hop(&self, destination: u128) -> (r: Option<u128>)
        requires
            self.wf(),
        ensures
            match r {
                Some(h) => has_route(self.routes@, destination) && h == route_at(
                    self.routes@,
                    destination,
                ).next_hop,
                None => !has_route(self.routes@, destination),
            },
    {
        match self.find_route(destination) {
            Some(i) => {
                proof {
                    let k = idx_of_route(self.routes@, destination);
                    assert(0 <= k < self.routes@.len() && self.routes@[k].destination
                        == destination);
                }
                Some(self.routes[i].next_hop)
            },
            None => None,
        }
    }

    /// The known distance to the destination, if any.
    pub fn get_distance(&self, destination: u128) -> (r: Option<u32>)
        requires
            self.wf(),
        ensures
            match r {
                Some(d) => has_route(self.routes@, destination) && d == route_at(
                    self.routes@,
                    destination,
                ).distance,
                None => !has_route(self.routes@, destination),
            },
    {
        match self.find_route(destination) {
            Some(i) => {
                proof {
                    let k = idx_of_route(self.routes@, destination);
                    assert(0 <= k < self.routes@.len() && self.routes@[k].destination
                        == destination);
                }
                Some(self.routes[i].distance)
            },
            None => None,
        }
    }

    /// Forgets the destination.
    pub fn remove_route(&mut self, destination: u128)
        requires
            old(self).wf(),
        ensures
            final (self).wf(),
            final (self).routes@ == old(self).routes@.filter(
                |r: Route| r.destination != destination,
            ),
    {
        let ghost pred = |r: Route| r.destination != destination;
        let mut kept: Vec<Route> = Vec::new();
        let n = self.routes.len();
        let mut i: usize = 0;
        proof {
            reveal(Seq::filter);
            assert(self.routes@.take(0) =~= Seq::<Route>::empty());
        }
        while i < n
            invariant
                n == self.routes@.len(),
                0 <= i <= n,
                kept@ == self.routes@.take(i as int).filter(
                    |r: Route| r.destination != destination,
                ),
            decreases n - i,
        {
            let ghost pre = self.routes@.take(i as int);
            let ghost cur = self.routes@.take(i + 1);
            proof {
                reveal(Seq::filter);
                assert(cur.drop_last() =~= pre);
                assert(cur.last() == self.routes@[i as int]);
            }
            if self.routes[i].destination != destination {
                kept.push(self.routes[i]);
            }
            i = i + 1;
        }
        proof {
            assert(self.routes@.take(n as int) =~= self.routes@);
        }
        let ghost old_routes = self.routes@;
        self.routes = kept;
        proof {
            lemma_route_filter_keeps_wf(old_routes, |r: Route| r.destination != destination);
        }
    }

    /// Forgets every destination reached through the given next hop.
    pub fn remove_routes_via(&mut self, next_hop: u128)
        requires
            old(self).wf(),
        ensures
            final (self).wf(),
            final (self).routes@ == old(self).routes@.filter(|r: Route| r.next_hop != next_hop),
            forall|k: int|
                0 <= k < final (self).routes@.len() ==> (#[trigger] final (self).routes@[k]).next_hop
                    != next_hop,
    {
        let mut kept: Vec<Route> = Vec::new();
        let n = self.routes.len();
        let mut i: usize = 0;
        proof {
            reveal(Seq::filter);
            assert(self.routes@.take(0) =~= Seq::<Route>::empty());
        }
        while i < n
            invariant
                n == self.routes@.len(),
                0 <= i <= n,
                kept@ == self.routes@.take(i as int).filter(|r: Route| r.next_hop != next_hop),
                forall|k: int| 0 <= k < kept@.len() ==> (#[trigger] kept@[k]).next_hop != next_hop,
            decreases n - i,
        {
            let ghost pre = self.routes@.take(i as int);
            let ghost cur = self.routes@.take(i + 1);
            proof {
                reveal(Seq::filter);
                assert(cur.drop_last() =~= pre);
                assert(cur.last() == self.routes@[i as int]);
            }
            if self.routes[i].next_hop != next_hop {
                kept.push(self.routes[i]);
            }
            i = i + 1;
        }
        proof {
            assert(self.routes@.take(n as int) =~= self.routes@);
        }
        let ghost old_routes = self.routes@;
        self.routes = kept;
        proof {
            lemma_route_filter_keeps_wf(old_routes, |r: Route| r.next_hop != next_hop);
        }
    }

    /// Every entry as a `(destination, next hop, distance)` triple.
    pub fn get_all_routes(&self) -> (r: Vec<(u128, u128, u32)>)
        ensures
            r@ == self.routes@.map_values(
                |rt: Route| (rt.destination, rt.next_hop, rt.distance),
            ),
    {
        let mut out: Vec<(u128, u128, u32)> = Vec::new();
        let n = self.routes.len();
        let mut i: usize = 0;
        while i < n
            invariant
                n == self.routes@.len(),
                0 <= i <= n,
                out@.len() == i,
                forall|j: int|
                    0 <= j < i ==> #[trigger] out@[j] == (
                        self.routes@[j].destination,
                        self.routes@[j].next_hop,
                        self.routes@[j].distance,
                    ),
            decreases n - i,
        {
            let rt = self.routes[i];
            out.push((rt.destination, rt.next_hop, rt.distance));
            i = i + 1;
        }
        proof {
            assert(out@ =~= self.routes@.map_values(
                |rt: Route| (rt.destination, rt.next_hop, rt.distance),
            ));
        }
        out
    }
}

/// Filtering keeps destinations unique.
proof fn lemma_route_filter_keeps_wf(rs: Seq<Route>, pred: spec_fn(Route) -> bool)
    requires
        wf_routes(rs),
    ensures
        wf_routes(rs.filter(pred)),
        forall|i: int|
            0 <= i < rs.filter(pred).len() ==> exists|k: int|
                0 <= k < rs.len() && rs[k] == #[trigger] rs.filter(pred)[i],
    decreases rs.len(),
{
    reveal(Seq::filter);
    if rs.len() > 0 {
        let front = rs.drop_last();
        assert(wf_routes(front)) by {
            assert forall|i: int, j: int| 0 <= i < j < front.len() implies (
            #[trigger] front[i]).destination != (#[trigger] front[j]).destination by {
                assert(front[i] == rs[i] && front[j] == rs[j]);
            }
        }
        lemma_route_filter_keeps_wf(front, pred);
        let ff = front.filter(pred);
        assert forall|i: int|
            0 <= i < rs.filter(pred).len() implies exists|k: int|
            0 <= k < rs.len() && rs[k] == #[trigger] rs.filter(pred)[i] by {
            if i < ff.len() {
                let k = choose|k: int| 0 <= k < front.len() && front[k] == ff[i];
                assert(rs[k] == rs.filter(pred)[i]);
            } else {
                assert(rs.filter(pred)[i] == rs.last());
                assert(rs[rs.len() - 1] == rs.filter(pred)[i]);
            }
        }
        if pred(rs.last()) {
            let out = ff.push(rs.last());
            assert forall|i: int, j: int| 0 <= i < j < out.len() implies (
            #[trigger] out[i]).destination != (#[trigger] out[j]).destination by {
                if j < ff.len() {
                } else {
                    assert(out[j] == rs.last());
                    let k = choose|k: int| 0 <= k < front.len() && front[k] == ff[i];
                    assert(out[i] == rs[k]);
                    assert(rs[k].destination != rs[rs.len() - 1].destination);
                }
            }
            assert(rs.filter(pred) == out);
        }
    }
}

/// A routed envelope around an inner message.
#[derive(Debug)]
pub struct RoutedMessage {
    pub original_message: Message,
    pub source_node: u128,
    pub destination_node: u128,
    pub hop_count: u32,
    pub max_hops: u32,
    pub route_id: u128,
}

/// The mathematical form of a routed envelope.
#[verifier::ext_equal]
pub struct RoutedMessageV {
    pub original_message: MessageV,
    pub source_node: u128,
    pub destination_node: u128,
    pub hop_count: u32,
    pub max_hops: u32,
    pub route_id: u128,
}

impl View for RoutedMessage {
    type V = RoutedMessageV;

    open spec fn view(&self) -> RoutedMessageV {
        RoutedMessageV {
            original_message: self.original_message@,
            source_node: self.source_node,
            destination_node: self.destination_node,
            hop_count: self.hop_count,
            max_hops: self.max_hops,
            route_id: self.route_id,
        }
    }
}

/// The wire form of a routed envelope.
pub open spec fn routed_to_value(rm: RoutedMessageV) -> SpecValue {
    SpecValue::Object(
        seq![
            ("original_message"@, message_to_value(rm.original_message)),
            ("source_node"@, SpecValue::Text(uuid_text(rm.source_node))),
            ("destination_node"@, SpecValue::Text(uuid_text(rm.destination_node))),
            ("hop_count"@, SpecValue::UInt(rm.hop_count as u64)),
            ("max_hops"@, SpecValue::UInt(rm.max_hops as u64)),
            ("route_id"@, SpecValue::Text(uuid_text(rm.route_id))),
        ],
    )
}

/// The routed envelope a wire value denotes, if it has every field.
pub open spec fn routed_of_value(v: SpecValue) -> Option<RoutedMessageV> {
    if (match spec_get_field(v, "original_message"@) {
        Some(mv) => message_of_value(mv) is Some,
        None => false,
    }) && field_uuid(v, "source_node"@) is Some && field_uuid(v, "destination_node"@) is Some && (
    match field_uint(v, "hop_count"@) {
        Some(n) => n <= u32::MAX as u64,
        None => false,
    }) && (match field_uint(v, "max_hops"@) {
        Some(n) => n <= u32::MAX as u64,
        None => false,
    }) && field_uuid(v, "route_id"@) is Some {
        Some(
            RoutedMessageV {
                original_message: message_of_value(
                    spec_get_field(v, "original_message"@)->Some_0,
                )->Some_0,
                source_node: field_uuid(v, "source_node"@)->Some_0,
                destination_node: field_uuid(v, "destination_node"@)->Some_0,
                hop_count: field_uint(v, "hop_count"@)->Some_0 as u32,
                max_hops: field_uint(v, "max_hops"@)->Some_0 as u32,
                route_id: field_uuid(v, "route_id"@)->Some_0,
            },
        )
    } else {
        None
    }
}

/// What reading a data message's payload as a routed envelope yields.
pub open spec fn spec_routed_from_message(m: MessageV) -> Option<RoutedMessageV> {
    if m.message_type != MessageType::Data {
        None
    } else {
        routed_of_value(m.payload)
    }
}

/// Why a message could not be treated as a routed envelope.
#[derive(Clone, Copy, Debug, PartialEq, Eq, Structural)]
pub enum RouterError {
    /// The message does not carry the data tag.
    NotDataMessage,
    /// The payload is not a routed envelope.
    MalformedEnvelope,
}

impl RoutedMessage {
    /// A fresh envelope starting its journey: zero hops taken and a
    /// fresh route identifier.
    pub fn new(message: Message, source: u128, destination: u128, max_hops: u32) -> (r:
        RoutedMessage)
        ensures
            r@.original_message == message@,
            r@.source_node == source,
            r@.destination_node == destination,
            r@.hop_count == 0,
            r@.max_hops == max_hops,
            r@.route_id != 0,
    {
        RoutedMessage {
            original_message: message,
            source_node: source,
            destination_node: destination,
            hop_count: 0,
            max_hops,
            route_id: fresh_uuid(),
        }
    }

    /// Takes one hop and reports whether the envelope may travel on.
    pub fn increment_hop(&mut self) -> (r: bool)
        requires
            old(self).hop_count < u32::MAX,
        ensures
            final (self)@ == (RoutedMessageV { hop_count: (old(self).hop_count + 1) as u32, ..old(self)@ }),
            r == (old(self).hop_count + 1 <= old(self).max_hops),
    {
        self.hop_count = self.hop_count + 1;
        self.hop_count <= self.max_hops
    }

    /// Wraps the envelope in a data message for the wire.
    pub fn to_message(&self) -> (r: Message)
        ensures
            is_plain_message(r@, MessageType::Data, routed_to_value(self@)),
            uuid_of_text(uuid_text(self@.source_node)) == Some(self@.source_node),
            uuid_of_text(uuid_text(self@.destination_node)) == Some(self@.destination_node),
            uuid_of_text(uuid_text(self@.route_id)) == Some(self@.route_id),
            uuid_of_text(uuid_text(self@.original_message.id)) == Some(self@.original_message.id),
            (match self@.original_message.ack_for {
                Some(u) => uuid_of_text(uuid_text(u)) == Some(u),
                None => true,
            }),
    {
        let mut fields: Vec<(String, AppValue)> = Vec::new();
        fields.push(("original_message".to_owned(), encode_message(&self.original_message)));
        fields.push(("source_node".to_owned(), AppValue::Text(format_uuid(self.source_node))));
        fields.push(
            ("destination_node".to_owned(), AppValue::Text(format_uuid(self.destination_node))),
        );
        fields.push(("hop_count".to_owned(), AppValue::UInt(self.hop_count as u64)));
        fields.push(("max_hops".to_owned(), AppValue::UInt(self.max_hops as u64)));
        fields.push(("route_id".to_owned(), AppValue::Text(format_uuid(self.route_id))));
        let payload = AppValue::Object(fields);
        proof {
            lemma_rep_fields_props(fields@);
            assert(payload@->Object_0 =~= routed_to_value(self@)->Object_0);
            assert(payload@ =~= routed_to_value(self@));
        }
        Message::new(MessageType::Data, payload)
    }

    /// Reads a routed envelope out of a data message.
    pub fn from_message(message: &Message) -> (r: Result<RoutedMessage, RouterError>)
        ensures
            (match r {
                Ok(rm) => spec_routed_from_message(message@) == Some(rm@),
                Err(RouterError::NotDataMessage) => message@.message_type != MessageType::Data,
                Err(RouterError::MalformedEnvelope) => message@.message_type == MessageType::Data
                    && routed_of_value(message@.payload) is None,
            }),
    {
        if !matches!(message.message_type, MessageType::Data) {
            return Err(RouterError::NotDataMessage);
        }
        let v = &message.payload;
        let original_message = match value_field(v, "original_message") {
            Some(mv) => match crate::codec::decode_message(mv) {
                Some(m) => m,
                None => {
                    return Err(RouterError::MalformedEnvelope);
                },
            },
            None => {
                return Err(RouterError::MalformedEnvelope);
            },
        };
        let source_node = match get_uuid_field(v, "source_node") {
            Some(u) => u,
            None => {
                return Err(RouterError::MalformedEnvelope);
            },
        };
        let destination_node = match get_uuid_field(v, "destination_node") {
            Some(u) => u,
            None => {
                return Err(RouterError::MalformedEnvelope);
            },
        };
        let hop_count = match get_uint_field(v, "hop_count") {
            Some(n) => {
                if n <= u32::MAX as u64 {
                    n as u32
                } else {
                    return Err(RouterError::MalformedEnvelope);
                }
            },
            None => {
                return Err(RouterError::MalformedEnvelope);
            },
        };
        let max_hops = match get_uint_field(v, "max_hops") {
            Some(n) => {
                if n <= u32::MAX as u64 {
                    n as u32
                } else {
                    return Err(RouterError::MalformedEnvelope);
                }
            },
            None => {
                return Err(RouterError::MalformedEnvelope);
            },
        };
        let route_id = match get_uuid_field(v, "route_id") {
            Some(u) => u,
            None => {
                return Err(RouterError::MalformedEnvelope);
            },
        };
        let rm = RoutedMessage {
            original_message,
            source_node,
            destination_node,
            hop_count,
            max_hops,
            route_id,
        };
        proof {
            assert(routed_of_value(message@.payload) == Some(rm@)) by {
                assert(rm@ =~= routed_of_value(message@.payload)->Some_0);
            }
        }
        Ok(rm)
    }
}

/// The six field names of a routed envelope are pairwise distinct.
proof fn lemma_routed_field_names(rm: RoutedMessageV)
    ensures
        spec_get_field(routed_to_value(rm), "original_message"@) == Some(
            message_to_value(rm.original_message),
        ),
        spec_get_field(routed_to_value(rm), "source_node"@) == Some(
            SpecValue::Text(uuid_text(rm.source_node)),
        ),
        spec_get_field(routed_to_value(rm), "destination_node"@) == Some(
            SpecValue::Text(uuid_text(rm.destination_node)),
        ),
        spec_get_field(routed_to_value(rm), "hop_count"@) == Some(
            SpecValue::UInt(rm.hop_count as u64),
        ),
        spec_get_field(routed_to_value(rm), "max_hops"@) == Some(
            SpecValue::UInt(rm.max_hops as u64),
        ),
        spec_get_field(routed_to_value(rm), "route_id"@) == Some(
            SpecValue::Text(uuid_text(rm.route_id)),
        ),
{
    reveal_strlit("original_message");
    reveal_strlit("source_node");
    reveal_strlit("destination_node");
    reveal_strlit("hop_count");
    reveal_strlit("max_hops");
    reveal_strlit("route_id");
    assert("original_message"@.len() == 16);
    assert("source_node"@.len() == 11);
    assert("destination_node"@.len() == 16);
    assert("hop_count"@.len() == 9);
    assert("max_hops"@.len() == 8);
    assert("route_id"@.len() == 8);
    assert("destination_node"@ != "original_message"@) by {
        assert("destination_node"@[0] == 'd' && "original_message"@[0] == 'o');
    }
    assert("route_id"@ != "max_hops"@) by {
        assert("route_id"@[0] == 'r' && "max_hops"@[0] == 'm');
    }
    reveal_with_fuel(lookup_field, 8);
}

/// One de-duplication cache entry: a seen route identifier and when it
/// was seen.
#[derive(Clone, Copy, Debug, PartialEq, Eq, Structural)]
pub struct CacheEntry {
    pub route_id: u128,
    pub inserted_at: u64,
}

/// Some entry holds the route identifier.
pub open spec fn cache_has(cache: Seq<CacheEntry>, route_id: u128) -> bool {
    exists|i: int| 0 <= i < cache.len() && (#[trigger] cache[i]).route_id == route_id
}

/// No two entries share a route identifier.
pub open spec fn wf_cache(cache: Seq<CacheEntry>) -> bool {
    forall|i: int, j: int|
        0 <= i < j < cache.len() ==> (#[trigger] cache[i]).route_id != (
        #[trigger] cache[j]).route_id
}

/// How a routed envelope was disposed of.
#[derive(Clone, Copy, Debug, PartialEq, Eq, Structural)]
pub enum ForwardOutcome {
    /// The route identifier was already seen; nothing was sent.
    AlreadyProcessed,
    /// The envelope ran out of hops; nothing was sent.
    MaxHopsExceeded,
    /// The envelope was addressed to the local node; nothing is re-forwarded.
    DeliveredLocally,
    /// The envelope goes to the known, authenticated next hop.
    Forwarded,
    /// The envelope goes to every authenticated peer but its source.
    Broadcast,
}

/// The router: the next-hop table, the local node identifier, and the
/// route-identifier de-duplication cache.
#[derive(Debug)]
pub struct MessageRouter {
    pub routing_table: RoutingTable,
    pub local_node_id: u128,
    pub message_cache: Vec<CacheEntry>,
}

/// The authenticated peers other than the envelope's source, in
/// registry order: where a broadcast goes.
pub open spec fn broadcast_targets(peers: Seq<PeerV>, source: u128) -> Seq<PeerV> {
    peers.filter(|p: PeerV| status_is_authenticated(p.status)).filter(|p: PeerV| p.id != source)
}

/// The sends are one data message carrying the envelope to each
/// broadcast target, in order.
pub open spec fn is_broadcast_sends(
    sends: Seq<crate::protocol::OutgoingV>,
    peers: Seq<PeerV>,
    env1: RoutedMessageV,
) -> bool {
    let targets = broadcast_targets(peers, env1.source_node);
    &&& sends.len() == targets.len()
    &&& forall|k: int|
        0 <= k < sends.len() ==> (#[trigger] sends[k]).dest == targets[k].addr
            && is_plain_message(sends[k].msg, MessageType::Data, routed_to_value(env1))
}

/// The registry holds an authenticated record for the identifier.
pub open spec fn authed_peer_present(peers: Seq<PeerV>, id: u128) -> bool {
    has_peer_id(peers, id) && status_is_authenticated(peer_at_id(peers, id).status)
}

/// What one `forward_message` call does, given the registry's records:
/// drop a duplicate, stop an exhausted envelope, deliver locally, relay
/// to the authenticated next hop, or fall back to a broadcast (dropping
/// the routes through a next hop that is gone or not authenticated).
pub open spec fn forward_post(
    pre: MessageRouter,
    post: MessageRouter,
    peers: Seq<PeerV>,
    env: RoutedMessageV,
    now: u64,
    outcome: ForwardOutcome,
    sends: Seq<crate::protocol::OutgoingV>,
) -> bool {
    let rt0 = pre.routing_table.routes@;
    let cache0 = pre.message_cache@;
    &&& post.local_node_id == pre.local_node_id
    &&& (if cache_has(cache0, env.route_id) {
        &&& outcome == ForwardOutcome::AlreadyProcessed
        &&& post.routing_table.routes@ == rt0
        &&& post.message_cache@ == cache0
        &&& sends.len() == 0
    } else {
        &&& post.message_cache@ == cache0.push(
            (CacheEntry { route_id: env.route_id, inserted_at: now }),
        )
        &&& (if env.hop_count >= env.max_hops {
            &&& outcome == ForwardOutcome::MaxHopsExceeded
            &&& post.routing_table.routes@ == rt0
            &&& sends.len() == 0
        } else {
            let env1 = RoutedMessageV { hop_count: (env.hop_count + 1) as u32, ..env };
            if env.destination_node == pre.local_node_id {
                &&& outcome == ForwardOutcome::DeliveredLocally
                &&& post.routing_table.routes@ == rt0
                &&& sends.len() == 0
            } else if has_route(rt0, env.destination_node) && authed_peer_present(
                peers,
                route_at(rt0, env.destination_node).next_hop,
            ) {
                let nh = route_at(rt0, env.destination_node).next_hop;
                &&& outcome == ForwardOutcome::Forwarded
                &&& post.routing_table.routes@ == rt0
                &&& sends.len() == 1
                &&& sends[0].dest == peer_at_id(peers, nh).addr
                &&& is_plain_message(sends[0].msg, MessageType::Data, routed_to_value(env1))
            } else if has_route(rt0, env.destination_node) {
                let nh = route_at(rt0, env.destination_node).next_hop;
                &&& outcome == ForwardOutcome::Broadcast
                &&& post.routing_table.routes@ == rt0.filter(|r: Route| r.next_hop != nh)
                &&& is_broadcast_sends(sends, peers, env1)
            } else {
                &&& outcome == ForwardOutcome::Broadcast
                &&& post.routing_table.routes@ == rt0
                &&& is_broadcast_sends(sends, peers, env1)
            }
        })
    })
}

impl MessageRouter {
    /// The table has one entry per destination and the cache one entry
    /// per route identifier.
    pub open spec fn wf(&self) -> bool {
        &&& self.routing_table.wf()
        &&& wf_cache(self.message_cache@)
    }

    /// A router with an empty table and cache.
    pub fn new(local_node_id: u128) -> (r: MessageRouter)
        ensures
            r.wf(),
            r.local_node_id == local_node_id,
            r.routing_table.routes@.len() == 0,
            r.message_cache@.len() == 0,
    {
        MessageRouter {
            routing_table: RoutingTable::new(),
            local_node_id,
            message_cache: Vec::new(),
        }
    }

    /// Whether the route identifier was already seen.
    fn is_message_cached(&self, route_id: u128) -> (r: bool)
        ensures
            r == cache_has(self.message_cache@, route_id),
    {
        let n = self.message_cache.len();
        let mut i: usize = 0;
        while i < n
            invariant
                n == self.message_cache@.len(),
                0 <= i <= n,
                forall|j: int| 0 <= j < i ==> (#[trigger] self.message_cache@[j]).route_id != route_id,
            decreases n - i,
        {
            if self.message_cache[i].route_id == route_id {
                return true;
            }
            i = i + 1;
        }
        false
    }

    /// Learns a route under the strict-improvement rule.
    pub fn update_routing_table(&mut self, node_id: u128, next_hop: u128, distance: u32)
        requires
            old(self).wf(),
        ensures
            final (self).wf(),
            final (self).local_node_id == old(self).local_node_id,
            final (self).message_cache@ == old(self).message_cache@,
            (if !has_route(old(self).routing_table.routes@, node_id) {
                final (self).routing_table.routes@ == old(self).routing_table.routes@.push(
                    (Route { destination: node_id, next_hop, distance }),
                )
            } else if distance < route_at(old(self).routing_table.routes@, node_id).distance {
                final (self).routing_table.routes@ == old(self).routing_table.routes@.update(
                    idx_of_route(old(self).routing_table.routes@, node_id),
                    (Route { destination: node_id, next_hop, distance }),
                )
            } else {
                final (self).routing_table.routes@ == old(self).routing_table.routes@
            }),
    {
        self.routing_table.add_route(node_id, next_hop, distance);
    }

    /// Forgets a node both as a destination and as a next hop.
    pub fn remove_node_routes(&mut self, node_id: u128)
        requires
            old(self).wf(),
        ensures
            final (self).wf(),
            final (self).local_node_id == old(self).local_node_id,
            final (self).message_cache@ == old(self).message_cache@,
            final (self).routing_table.routes@ == old(self).routing_table.routes@.filter(
                |r: Route| r.destination != node_id,
            ).filter(|r: Route| r.next_hop != node_id),
            forall|k: int|
                0 <= k < final (self).routing_table.routes@.len() ==> (#[trigger] final (self).routing_table.routes@[k]).destination
                    != node_id && (final (self).routing_table.routes@[k]).next_hop != node_id,
    {
        self.routing_table.remove_route(node_id);
        self.routing_table.remove_routes_via(node_id);
        proof {
            let pred_dest = |r: Route| r.destination != node_id;
            let pred_nh = |r: Route| r.next_hop != node_id;
            let orig = old(self).routing_table.routes@;
            let mid = orig.filter(pred_dest);
            let fin = self.routing_table.routes@;
            assert forall|k: int| 0 <= k < fin.len() implies (#[trigger] fin[k]).destination
                != node_id && (fin[k]).next_hop != node_id by {
                mid.lemma_filter_pred(pred_nh, k);
                lemma_filter_elements_from(mid, pred_nh, k);
                let j = choose|j: int| 0 <= j < mid.len() && mid[j] == fin[k];
                orig.lemma_filter_pred(pred_dest, j);
            }
        }
    }

    /// The whole table as `(destination, next hop, distance)` triples.
    pub fn get_routing_table_snapshot(&self) -> (r: Vec<(u128, u128, u32)>)
        ensures
            r@ == self.routing_table.routes@.map_values(
                |rt: Route| (rt.destination, rt.next_hop, rt.distance),
            ),
    {
        self.routing_table.get_all_routes()
    }

    /// One data message carrying the envelope to each authenticated
    /// peer except the envelope's source.
    fn broadcast_message(&self, registry: &PeerManager, env1: &RoutedMessage) -> (r: Vec<Outgoing>)
        ensures
            is_broadcast_sends(r.deep_view(), registry.peers_v(), env1@),
    {
        let auth = registry.get_authenticated_peers();
        let message = env1.to_message();
        let mut sends: Vec<Outgoing> = Vec::new();
        let n = auth.len();
        let mut i: usize = 0;
        let ghost targets0 = auth.deep_view();
        proof {
            reveal(Seq::filter);
            assert(targets0.take(0) =~= Seq::<PeerV>::empty());
        }
        while i < n
            invariant
                n == auth@.len(),
                0 <= i <= n,
                targets0 == auth.deep_view(),
                targets0.len() == n,
                forall|j: int| 0 <= j < n ==> #[trigger] targets0[j] == auth@[j]@,
                is_plain_message(message@, MessageType::Data, routed_to_value(env1@)),
                sends.deep_view().len() == targets0.take(i as int).filter(
                    |p: PeerV| p.id != env1.source_node,
                ).len(),
                forall|k: int|
                    0 <= k < sends.deep_view().len() ==> (#[trigger] sends.deep_view()[k]).dest
                        == targets0.take(i as int).filter(
                        |p: PeerV| p.id != env1.source_node,
                    )[k].addr && is_plain_message(
                        sends.deep_view()[k].msg,
                        MessageType::Data,
                        routed_to_value(env1@),
                    ),
            decreases n - i,
        {
            let ghost pre = targets0.take(i as int);
            let ghost cur = targets0.take(i + 1);
            proof {
                reveal(Seq::filter);
                assert(cur.drop_last() =~= pre);
                assert(cur.last() == targets0[i as int]);
            }
            if auth[i].id != env1.source_node {
                let dest = auth[i].addr();
                let msg = message.clone();
                let ghost prev = sends.deep_view();
                sends.push(Outgoing { dest, msg });
                proof {
                    let pred = |p: PeerV| p.id != env1.source_node;
                    assert(cur.filter(pred) =~= pre.filter(pred).push(targets0[i as int]));
                    assert(sends.deep_view() =~= prev.push(
                        crate::protocol::OutgoingV { dest, msg: msg@ },
                    ));
                }
            } else {
                proof {
                    let pred = |p: PeerV| p.id != env1.source_node;
                    assert(cur.filter(pred) =~= pre.filter(pred));
                }
            }
            i = i + 1;
        }
        proof {
            assert(targets0.take(n as int) =~= targets0);
        }
        sends
    }

    /// Disposes of a routed envelope: drops a duplicate, stops an
    /// exhausted one, delivers a local one, relays towards a known,
    /// authenticated next hop, and otherwise broadcasts, first dropping
    /// the routes through a next hop that is gone or not authenticated.
    pub fn forward_message(&mut self, registry: &PeerManager, env: RoutedMessage, now: u64) -> (r:
        (ForwardOutcome, Vec<Outgoing>))
        requires
            old(self).wf(),
            registry.wf(),
        ensures
            final (self).wf(),
            forward_post(
                *old(self),
                *final (self),
                registry.peers_v(),
                env@,
                now,
                r.0,
                r.1.deep_view(),
            ),
    {
        if self.is_message_cached(env.route_id) {
            let sends: Vec<Outgoing> = Vec::new();
            proof {
                assert(sends.deep_view() =~= Seq::<crate::protocol::OutgoingV>::empty());
            }
            return (ForwardOutcome::AlreadyProcessed, sends);
        }
        let ghost cache0 = self.message_cache@;
        self.message_cache.push(CacheEntry { route_id: env.route_id, inserted_at: now });
        proof {
            assert forall|i: int, j: int| 0 <= i < j < self.message_cache@.len() implies (
            #[trigger] self.message_cache@[i]).route_id != (
            #[trigger] self.message_cache@[j]).route_id by {
                if j < cache0.len() {
                } else {
                    assert(self.message_cache@[i] == cache0[i]);
                }
            }
        }
        if env.hop_count >= env.max_hops {
            let sends: Vec<Outgoing> = Vec::new();
            proof {
                assert(sends.deep_view() =~= Seq::<crate::protocol::OutgoingV>::empty());
            }
            return (ForwardOutcome::MaxHopsExceeded, sends);
        }
        let mut env1 = env;
        let _still_travelling = env1.increment_hop();
        if env1.destination_node == self.local_node_id {
            let sends: Vec<Outgoing> = Vec::new();
            proof {
                assert(sends.deep_view() =~= Seq::<crate::protocol::OutgoingV>::empty());
            }
            return (ForwardOutcome::DeliveredLocally, sends);
        }
        let next_hop = self.routing_table.get_next_hop(env1.destination_node);
        match next_hop {
            Some(nh) => {
                let usable = match registry.get_peer(nh) {
                    Some(p) => {
                        if p.is_authenticated() {
                            Some(p.addr())
                        } else {
                            None
                        }
                    },
                    None => None,
                };
                match usable {
                    Some(dest) => {
                        let msg = env1.to_message();
                        let mut sends: Vec<Outgoing> = Vec::new();
                        sends.push(Outgoing { dest, msg });
                        proof {
                            assert(sends.deep_view() =~= seq![sends@[0]@]);
                        }
                        (ForwardOutcome::Forwarded, sends)
                    },
                    None => {
                        self.routing_table.remove_routes_via(nh);
                        let sends = self.broadcast_message(registry, &env1);
                        (ForwardOutcome::Broadcast, sends)
                    },
                }
            },
            None => {
                let sends = self.broadcast_message(registry, &env1);
                (ForwardOutcome::Broadcast, sends)
            },
        }
    }

    /// Routes a message: a local destination is delivered at once, any
    /// other gets a fresh envelope handed to `forward_message`.
    pub fn route_message(
        &mut self,
        registry: &PeerManager,
        message: Message,
        destination: u128,
        max_hops: u32,
        now: u64,
    ) -> (r: (ForwardOutcome, Vec<Outgoing>))
        requires
            old(self).wf(),
            registry.wf(),
        ensures
            final (self).wf(),
            (if destination == old(self).local_node_id {
                &&& r.0 == ForwardOutcome::DeliveredLocally
                &&& *final (self) == *old(self)
                &&& r.1.deep_view().len() == 0
            } else {
                exists|rid: u128|
                    forward_post(
                        *old(self),
                        *final (self),
                        registry.peers_v(),
                        (RoutedMessageV {
                            original_message: message@,
                            source_node: old(self).local_node_id,
                            destination_node: destination,
                            hop_count: 0,
                            max_hops: max_hops,
                            route_id: rid,
                        }),
                        now,
                        r.0,
                        r.1.deep_view(),
                    )
            }),
    {
        if destination == self.local_node_id {
            let sends: Vec<Outgoing> = Vec::new();
            proof {
                assert(sends.deep_view() =~= Seq::<crate::protocol::OutgoingV>::empty());
            }
            return (ForwardOutcome::DeliveredLocally, sends);
        }
        let env = RoutedMessage::new(message, self.local_node_id, destination, max_hops);
        let ghost env_v = env@;
        let r = self.forward_message(registry, env, now);
        proof {
            assert(env_v =~= RoutedMessageV {
                original_message: env_v.original_message,
                source_node: old(self).local_node_id,
                destination_node: destination,
                hop_count: 0,
                max_hops: max_hops,
                route_id: env_v.route_id,
            });
        }
        r
    }

    /// Sweeps out cache entries older than the time-to-live.
    pub fn cleanup_message_cache(&mut self, now: u64)
        requires
            old(self).wf(),
        ensures
            final (self).wf(),
            final (self).local_node_id == old(self).local_node_id,
            final (self).routing_table.routes@ == old(self).routing_table.routes@,
            final (self).message_cache@ == old(self).message_cache@.filter(
                |e: CacheEntry| e.inserted_at as int + CACHE_TTL_SECONDS as int > now as int,
            ),
    {
        let mut kept: Vec<CacheEntry> = Vec::new();
        let n = self.message_cache.len();
        let mut i: usize = 0;
        proof {
            reveal(Seq::filter);
            assert(self.message_cache@.take(0) =~= Seq::<CacheEntry>::empty());
        }
        while i < n
            invariant
                n == self.message_cache@.len(),
                0 <= i <= n,
                kept@ == self.message_cache@.take(i as int).filter(
                    |e: CacheEntry| e.inserted_at as int + CACHE_TTL_SECONDS as int > now as int,
                ),
            decreases n - i,
        {
            let ghost pre = self.message_cache@.take(i as int);
            let ghost cur = self.message_cache@.take(i + 1);
            proof {
                reveal(Seq::filter);
                assert(cur.drop_last() =~= pre);
                assert(cur.last() == self.message_cache@[i as int]);
            }
            let e = self.message_cache[i];
            if (e.inserted_at as u128) + (CACHE_TTL_SECONDS as u128) > (now as u128) {
                kept.push(e);
            }
            i = i + 1;
        }
        proof {
            assert(self.message_cache@.take(n as int) =~= self.message_cache@);
        }
        let ghost old_cache = self.message_cache@;
        self.message_cache = kept;
        proof {
            lemma_cache_filter_keeps_wf(
                old_cache,
                |e: CacheEntry| e.inserted_at as int + CACHE_TTL_SECONDS as int > now as int,
            );
        }
    }
}

impl MessageRouter {
    /// Answers a route-discovery question: when the target is known,
    /// routes a data message carrying the target, its next hop and the
    /// distance through this node back to the asking node. An unknown
    /// target, or one whose distance cannot grow, is ignored.
    pub fn handle_route_discovery(
        &mut self,
        registry: &PeerManager,
        source: u128,
        target: u128,
        now: u64,
    ) -> (r: (Option<ForwardOutcome>, Vec<Outgoing>, Ghost<(u128, MessageV)>))
        requires
            old(self).wf(),
            registry.wf(),
        ensures
            final (self).wf(),
            ({
                let rt0 = old(self).routing_table.routes@;
                if !has_route(rt0, target) || route_at(rt0, target).distance == u32::MAX {
                    &&& *final (self) == *old(self)
                    &&& r.0 is None
                    &&& r.1.deep_view().len() == 0
                } else {
                    let info = route_info_payload(
                        target,
                        route_at(rt0, target).next_hop,
                        (route_at(rt0, target).distance + 1) as u32,
                    );
                    match r.0 {
                        Some(outcome) => {
                            if source == old(self).local_node_id {
                                &&& outcome == ForwardOutcome::DeliveredLocally
                                &&& *final (self) == *old(self)
                                &&& r.1.deep_view().len() == 0
                            } else {
                                &&& is_plain_message(r.2@.1, MessageType::Data, info)
                                &&& forward_post(
                                    *old(self),
                                    *final (self),
                                    registry.peers_v(),
                                    (RoutedMessageV {
                                        original_message: r.2@.1,
                                        source_node: old(self).local_node_id,
                                        destination_node: source,
                                        hop_count: 0,
                                        max_hops: 10,
                                        route_id: r.2@.0,
                                    }),
                                    now,
                                    outcome,
                                    r.1.deep_view(),
                                )
                            }
                        },
                        None => false,
                    }
                }
            }),
    {
        let next_hop = match self.routing_table.get_next_hop(target) {
            Some(h) => h,
            None => {
                let sends: Vec<Outgoing> = Vec::new();
                proof {
                    assert(sends.deep_view() =~= Seq::<crate::protocol::OutgoingV>::empty());
                }
                return (None, sends, Ghost((0u128, arbitrary())));
            },
        };
        let distance = match self.routing_table.get_distance(target) {
            Some(d) => d,
            None => {
                let sends: Vec<Outgoing> = Vec::new();
                proof {
                    assert(false);
                    assert(sends.deep_view() =~= Seq::<crate::protocol::OutgoingV>::empty());
                }
                return (None, sends, Ghost((0u128, arbitrary())));
            },
        };
        if distance == u32::MAX {
            let sends: Vec<Outgoing> = Vec::new();
            proof {
                assert(sends.deep_view() =~= Seq::<crate::protocol::OutgoingV>::empty());
            }
            return (None, sends, Ghost((0u128, arbitrary())));
        }
        let mut fields: Vec<(String, AppValue)> = Vec::new();
        fields.push(("target".to_owned(), AppValue::Text(format_uuid(target))));
        fields.push(("next_hop".to_owned(), AppValue::Text(format_uuid(next_hop))));
        fields.push(("distance".to_owned(), AppValue::UInt((distance + 1) as u64)));
        let payload = AppValue::Object(fields);
        proof {
            lemma_rep_fields_props(fields@);
            assert(payload@->Object_0 =~= route_info_payload(
                target,
                next_hop,
                (distance + 1) as u32,
            )->Object_0);
            assert(payload@ =~= route_info_payload(target, next_hop, (distance + 1) as u32));
        }
        let response = Message::new(MessageType::Data, payload);
        let ghost mv = response@;
        let ghost info = route_info_payload(target, next_hop, (distance + 1) as u32);
        let (outcome, sends) = self.route_message(registry, response, source, 10, now);
        let ghost mut rid_w: u128 = 0;
        proof {
            if source != old(self).local_node_id {
                rid_w = choose|rid: u128|
                    forward_post(
                        *old(self),
                        *self,
                        registry.peers_v(),
                        (RoutedMessageV {
                            original_message: mv,
                            source_node: old(self).local_node_id,
                            destination_node: source,
                            hop_count: 0,
                            max_hops: 10,
                            route_id: rid,
                        }),
                        now,
                        outcome,
                        sends.deep_view(),
                    );
                assert(forward_post(
                    *old(self),
                    *self,
                    registry.peers_v(),
                    (RoutedMessageV {
                        original_message: mv,
                        source_node: old(self).local_node_id,
                        destination_node: source,
                        hop_count: 0,
                        max_hops: 10,
                        route_id: rid_w,
                    }),
                    now,
                    outcome,
                    sends.deep_view(),
                ));
                assert(is_plain_message(mv, MessageType::Data, info));
            }
        }
        (Some(outcome), sends, Ghost((rid_w, mv)))
    }
}

/// The payload of a route-discovery answer.
pub open spec fn route_info_payload(target: u128, next_hop: u128, distance: u32) -> SpecValue {
    SpecValue::Object(
        seq![
            ("target"@, SpecValue::Text(uuid_text(target))),
            ("next_hop"@, SpecValue::Text(uuid_text(next_hop))),
            ("distance"@, SpecValue::UInt(distance as u64)),
        ],
    )
}

/// An element of a filtered sequence comes from the sequence.
proof fn lemma_filter_elements_from<A>(s: Seq<A>, pred: spec_fn(A) -> bool, k: int)
    requires
        0 <= k < s.filter(pred).len(),
    ensures
        s.contains(s.filter(pred)[k]),
    decreases s.len(),
{
    reveal(Seq::filter);
    if s.len() > 0 {
        let front = s.drop_last();
        let ff = front.filter(pred);
        if k < ff.len() {
            lemma_filter_elements_from(front, pred, k);
            let j = choose|j: int| 0 <= j < front.len() && front[j] == ff[k];
            assert(s[j] == s.filter(pred)[k]);
        } else {
            assert(s.filter(pred)[k] == s.last());
            assert(s[s.len() - 1] == s.filter(pred)[k]);
        }
    }
}

/// Filtering keeps route identifiers unique.
proof fn lemma_cache_filter_keeps_wf(cache: Seq<CacheEntry>, pred: spec_fn(CacheEntry) -> bool)
    requires
        wf_cache(cache),
    ensures
        wf_cache(cache.filter(pred)),
        forall|i: int|
            0 <= i < cache.filter(pred).len() ==> exists|k: int|
                0 <= k < cache.len() && cache[k] == #[trigger] cache.filter(pred)[i],
    decreases cache.len(),
{
    reveal(Seq::filter);
    if cache.len() > 0 {
        let front = cache.drop_last();
        assert(wf_cache(front)) by {
            assert forall|i: int, j: int| 0 <= i < j < front.len() implies (
            #[trigger] front[i]).route_id != (#[trigger] front[j]).route_id by {
                assert(front[i] == cache[i] && front[j] == cache[j]);
            }
        }
        lemma_cache_filter_keeps_wf(front, pred);
        let ff = front.filter(pred);
        assert forall|i: int|
            0 <= i < cache.filter(pred).len() implies exists|k: int|
            0 <= k < cache.len() && cache[k] == #[trigger] cache.filter(pred)[i] by {
            if i < ff.len() {
                let k = choose|k: int| 0 <= k < front.len() && front[k] == ff[i];
                assert(cache[k] == cache.filter(pred)[i]);
            } else {
                assert(cache.filter(pred)[i] == cache.last());
                assert(cache[cache.len() - 1] == cache.filter(pred)[i]);
            }
        }
        if pred(cache.last()) {
            let out = ff.push(cache.last());
            assert forall|i: int, j: int| 0 <= i < j < out.len() implies (
            #[trigger] out[i]).route_id != (#[trigger] out[j]).route_id by {
                if j < ff.len() {
                } else {
                    assert(out[j] == cache.last());
                    let k = choose|k: int| 0 <= k < front.len() && front[k] == ff[i];
                    assert(out[i] == cache[k]);
                    assert(cache[k].route_id != cache[cache.len() - 1].route_id);
                }
            }
            assert(cache.filter(pred) == out);
        }
    }
}

/// A route identifier seen a second time makes the forwarder do
/// nothing: no send leaves and no state changes.
pub proof fn lemma_duplicate_route_is_dropped(
    pre: MessageRouter,
    post: MessageRouter,
    peers: Seq<PeerV>,
    env: RoutedMessageV,
    now: u64,
    outcome: ForwardOutcome,
    sends: Seq<crate::protocol::OutgoingV>,
)
    requires
        forward_post(pre, post, peers, env, now, outcome, sends),
        cache_has(pre.message_cache@, env.route_id),
    ensures
        outcome == ForwardOutcome::AlreadyProcessed,
        sends.len() == 0,
        post.routing_table.routes@ == pre.routing_table.routes@,
        post.message_cache@ == pre.message_cache@,
{
}

/// A first forwarding of a route identifier records it, so the next
/// call within the cache window drops the envelope.
pub proof fn lemma_forward_records_route_id(
    pre: MessageRouter,
    post: MessageRouter,
    peers: Seq<PeerV>,
    env: RoutedMessageV,
    now: u64,
    outcome: ForwardOutcome,
    sends: Seq<crate::protocol::OutgoingV>,
)
    requires
        forward_post(pre, post, peers, env, now, outcome, sends),
        !cache_has(pre.message_cache@, env.route_id),
    ensures
        cache_has(post.message_cache@, env.route_id),
{
    let cache1 = pre.message_cache@.push(
        CacheEntry { route_id: env.route_id, inserted_at: now },
    );
    assert(cache1[cache1.len() - 1].route_id == env.route_id);
}

/// After a forwarding discovers that a next hop is gone, the table
/// holds no route through that next hop.
pub proof fn lemma_forward_drops_missing_next_hop(
    pre: MessageRouter,
    post: MessageRouter,
    peers: Seq<PeerV>,
    env: RoutedMessageV,
    now: u64,
    outcome: ForwardOutcome,
    sends: Seq<crate::protocol::OutgoingV>,
)
    requires
        forward_post(pre, post, peers, env, now, outcome, sends),
        !cache_has(pre.message_cache@, env.route_id),
        env.hop_count < env.max_hops,
        env.destination_node != pre.local_node_id,
        has_route(pre.routing_table.routes@, env.destination_node),
        !authed_peer_present(
            peers,
            route_at(pre.routing_table.routes@, env.destination_node).next_hop,
        ),
    ensures
        forall|k: int|
            0 <= k < post.routing_table.routes@.len() ==> (
            #[trigger] post.routing_table.routes@[k]).next_hop != route_at(
                pre.routing_table.routes@,
                env.destination_node,
            ).next_hop,
{
    let nh = route_at(pre.routing_table.routes@, env.destination_node).next_hop;
    let pred = |r: Route| r.next_hop != nh;
    assert forall|k: int| 0 <= k < post.routing_table.routes@.len() implies (
    #[trigger] post.routing_table.routes@[k]).next_hop != nh by {
        pre.routing_table.routes@.lemma_filter_pred(pred, k);
    }
}

/// Reading an envelope's wire form back gives the envelope, provided
/// its identifier texts read back as the identifiers.
pub proof fn lemma_routed_round_trip(rm: RoutedMessageV)
    requires
        uuid_of_text(uuid_text(rm.source_node)) == Some(rm.source_node),
        uuid_of_text(uuid_text(rm.destination_node)) == Some(rm.destination_node),
        uuid_of_text(uuid_text(rm.route_id)) == Some(rm.route_id),
        uuid_of_text(uuid_text(rm.original_message.id)) == Some(rm.original_message.id),
        (match rm.original_message.ack_for {
            Some(u) => uuid_of_text(uuid_text(u)) == Some(u),
            None => true,
        }),
    ensures
        routed_of_value(routed_to_value(rm)) == Some(rm),
{
    lemma_routed_field_names(rm);
    crate::codec::lemma_message_round_trip(rm.original_message);
    assert(routed_of_value(routed_to_value(rm))->Some_0 =~= rm);
}

} // verus!
