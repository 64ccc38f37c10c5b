//! The server core: the single dispatcher over decoded datagrams, the
//! rendezvous broker, the debounced membership-broadcast scheduler and
//! the periodic-task computations.
//!
//! Every handler is a function from the server state, the decoded
//! message, its source endpoint and the current time to the new state
//! and the datagrams to send; the caller owns the socket and the
//! timers, performs the sends, and re-arms the debounce timer when a
//! result asks for it.

use vstd::prelude::*;
use vstd::string::StringExecFns;

use crate::Addr;
use crate::codec::disconnect_payload;
use crate::codec::echo_payload;
use crate::codec::field_text;
use crate::codec::handshake_response_to_value;
use crate::codec::node_info_list_payload;
use crate::codec::p2p_connect_with_addr_payload;
use crate::codec::peer_info_list_to_value;
use crate::codec::spec_validate_handshake_request;
use crate::codec::spec_validate_handshake_response;
use crate::config::Config;
use crate::peer::HandshakeFailure;
use crate::peer::PeerManager;
use crate::peer::PeerStats;
use crate::peer::PeerStatus;
use crate::peer::PeerStatusV;
use crate::peer::PeerV;
use crate::peer::RegistryError;
use crate::peer::has_peer_addr;
use crate::peer::has_peer_id;
use crate::peer::idx_of_addr;
use crate::peer::mismatch_error_text;
use crate::peer::node_exists_text;
use crate::peer::one_error_send;
use crate::peer::peer_at_addr;
use crate::peer::peer_at_id;
use crate::peer::peer_info_list;
use crate::peer::status_is_authenticated;
use crate::protocol::Message;
use crate::protocol::MessageType;
use crate::protocol::MessageV;
use crate::protocol::NodeInfo;
use crate::protocol::NodeInfoV;
use crate::protocol::Outgoing;
use crate::protocol::OutgoingV;
use crate::protocol::PeerInfoV;
use crate::protocol::format_uuid;
use crate::protocol::handshake_error_text;
use crate::protocol::is_plain_message;
use crate::protocol::unix_time_seconds;
use crate::protocol::uuid_of_text;
use crate::protocol::uuid_text;
use crate::protocol::with_network_id;
use crate::router::ForwardOutcome;
use crate::router::MessageRouter;
use crate::router::Route;
use crate::router::RoutedMessage;
use crate::router::forward_post;
use crate::router::has_route;
use crate::router::idx_of_route;
use crate::router::route_at;
use crate::router::spec_routed_from_message;
use crate::text::dec_string;
use crate::text::dec_text;
use crate::value::AppValue;
use crate::value::SpecValue;
use crate::value::spec_get_field;
use crate::value::str_eq;
use crate::value::value_field;
use crate::value::value_as_text;

verus! {

/// The server: configuration, identity, registry, router and the
/// debounced-broadcast scheduler state.
pub struct P2PServer {
    pub config: Config,
    pub local_node_info: NodeInfo,
    pub peer_manager: PeerManager,
    pub message_router: MessageRouter,
    pub broadcast_exclude_id: Option<u128>,
    pub broadcast_pending: bool,
}

/// Why the dispatcher reported a failure to its caller.
#[derive(Clone, Copy, Debug, PartialEq, Eq, Structural)]
pub enum DispatchError {
    /// The registry refused to create a record for a new endpoint.
    Registry(RegistryError),
    /// A handshake was rejected; an error reply was sent.
    Handshake(HandshakeFailure),
    /// A routed envelope ran out of hops.
    HopLimit,
}

/// What one dispatched datagram asks the caller to do.
#[derive(Debug)]
pub struct DispatchResult {
    pub sends: Vec<Outgoing>,
    pub restart_broadcast_timer: bool,
    pub error: Option<DispatchError>,
}

/// The capacity-refusal error text.
pub open spec fn capacity_text(max: nat) -> Seq<char> {
    "\u{5df2}\u{8fbe}\u{5230}\u{6700}\u{5927}\u{8fde}\u{63a5}\u{6570}\u{9650}\u{5236}: "@
        + dec_text(max)
}

/// One routing-table entry as a wire object.
pub open spec fn route_entry_value(rt: Route) -> SpecValue {
    SpecValue::Object(
        seq![
            ("destination"@, SpecValue::Text(uuid_text(rt.destination))),
            ("next_hop"@, SpecValue::Text(uuid_text(rt.next_hop))),
            ("distance"@, SpecValue::UInt(rt.distance as u64)),
        ],
    )
}

/// The routing-table snapshot as a wire payload.
pub open spec fn routes_payload(routes: Seq<Route>) -> SpecValue {
    SpecValue::Object(
        seq![("routes"@, SpecValue::List(routes.map_values(|rt: Route| route_entry_value(rt))))],
    )
}

/// Whether a data payload is the route-snapshot command.
pub open spec fn is_get_routes_cmd(p: SpecValue) -> bool {
    match spec_get_field(p, "cmd"@) {
        Some(SpecValue::Text(t)) => t == "get_routes"@,
        _ => false,
    }
}

/// Every record's announcement with its listen endpoint replaced by the
/// endpoint the server observed.
pub open spec fn nodes_with_observed_addr(peers: Seq<PeerV>) -> Seq<NodeInfoV>
    decreases peers.len(),
{
    if peers.len() == 0 {
        Seq::empty()
    } else {
        let front = nodes_with_observed_addr(peers.drop_last());
        match peers.last().node_info {
            Some(info) => front.push(NodeInfoV { listen_addr: peers.last().addr, ..info }),
            None => front,
        }
    }
}

/// Applying the strict-improvement rule once.
pub open spec fn add_route_spec(rs: Seq<Route>, destination: u128, next_hop: u128, distance: u32) -> Seq<
    Route,
> {
    if !has_route(rs, destination) {
        rs.push(Route { destination, next_hop, distance })
    } else if distance < route_at(rs, destination).distance {
        rs.update(idx_of_route(rs, destination), Route { destination, next_hop, distance })
    } else {
        rs
    }
}

/// Learning the peers in a discovery response, in order, as routes of
/// distance two through the responding peer; the local node and the
/// responder itself are skipped.
pub open spec fn fold_discovery_routes(
    rs: Seq<Route>,
    ps: Seq<PeerInfoV>,
    via: u128,
    local: u128,
) -> Seq<Route>
    decreases ps.len(),
{
    if ps.len() == 0 {
        rs
    } else {
        let rs1 = if ps[0].id == local || ps[0].id == via {
            rs
        } else {
            add_route_spec(rs, ps[0].id, via, 2)
        };
        fold_discovery_routes(rs1, ps.drop_first(), via, local)
    }
}

/// How the registry looks after resolving a datagram's source: the
/// record already keyed by the endpoint, or a fresh connecting record
/// under some unused pending identifier.
pub open spec fn resolved_registry(
    peers0: Seq<PeerV>,
    source: Addr,
    now: u64,
    peers1: Seq<PeerV>,
) -> bool {
    if has_peer_addr(peers0, source) {
        peers1 == peers0
    } else {
        exists|pid: u128|
            !has_peer_id(peers0, pid) && peers1 == peers0.push(
                (PeerV {
                    id: pid,
                    node_info: None,
                    addr: source,
                    status: PeerStatusV::Connecting,
                    last_ping: None,
                    created_at: now,
                }),
            )
    }
}

/// How many acknowledgement sends precede the handler's own sends.
pub open spec fn ack_count(m: MessageV) -> int {
    if m.requires_ack {
        1
    } else {
        0
    }
}

/// The server's identity and configuration are untouched.
pub open spec fn same_identity(pre: P2PServer, post: P2PServer) -> bool {
    &&& post.local_node_info@ == pre.local_node_info@
    &&& post.message_router.local_node_id == pre.message_router.local_node_id
    &&& post.peer_manager.local_node_info@ == pre.peer_manager.local_node_info@
    &&& post.peer_manager.max_connections == pre.peer_manager.max_connections
    &&& post.config.network_id@ == pre.config.network_id@
    &&& post.config.enable_discovery == pre.config.enable_discovery
    &&& post.config.max_connections == pre.config.max_connections
}

/// The scheduler after a (possible) trigger: with discovery enabled the
/// trigger replaces the exclude identifier and re-arms the window;
/// disabled, nothing happens.
pub open spec fn sched_post(
    pre: P2PServer,
    post: P2PServer,
    exclude: Option<u128>,
    restart: bool,
) -> bool {
    if pre.config.enable_discovery {
        &&& post.broadcast_exclude_id == exclude
        &&& post.broadcast_pending
        &&& restart
    } else {
        &&& post.broadcast_exclude_id == pre.broadcast_exclude_id
        &&& post.broadcast_pending == pre.broadcast_pending
        &&& !restart
    }
}

/// The scheduler was not touched.
pub open spec fn sched_same(pre: P2PServer, post: P2PServer, restart: bool) -> bool {
    &&& post.broadcast_exclude_id == pre.broadcast_exclude_id
    &&& post.broadcast_pending == pre.broadcast_pending
    &&& !restart
}

/// The router was not touched.
pub open spec fn router_same(pre: P2PServer, post: P2PServer) -> bool {
    &&& post.message_router.routing_table.routes@ == pre.message_router.routing_table.routes@
    &&& post.message_router.message_cache@ == pre.message_router.message_cache@
}

/// What dispatching one decoded datagram from `source` does, per
/// message tag, after resolving the source to a registry record and
/// acknowledging the message when asked to.
pub open spec fn dispatch_post(
    pre: P2PServer,
    post: P2PServer,
    source: Addr,
    m: MessageV,
    now: u64,
    sends: Seq<OutgoingV>,
    restart: bool,
    err: Option<DispatchError>,
) -> bool {
    let peers0 = pre.peer_manager.peers_v();
    let local = pre.local_node_info@;
    let rt0 = pre.message_router.routing_table.routes@;
    if !has_peer_addr(peers0, source) && peers0.len() >= pre.peer_manager.max_connections {
        &&& same_identity(pre, post)
        &&& post.peer_manager.peers_v() == peers0
        &&& router_same(pre, post)
        &&& sched_same(pre, post, restart)
        &&& one_error_send(sends, source, capacity_text(pre.peer_manager.max_connections as nat))
        &&& err == Some(DispatchError::Registry(RegistryError::Capacity))
    } else if !has_peer_addr(peers0, source) && err == Some(
        DispatchError::Registry(RegistryError::IdCollision),
    ) {
        &&& same_identity(pre, post)
        &&& post.peer_manager.peers_v() == peers0
        &&& router_same(pre, post)
        &&& sched_same(pre, post, restart)
        &&& sends.len() == 0
    } else {
        exists|peers1: Seq<PeerV>|
            {
                &&& #[trigger] resolved_registry(peers0, source, now, peers1)
                &&& same_identity(pre, post)
                &&& (m.requires_ack ==> sends.len() >= 1 && sends[0].dest == source
                    && sends[0].msg.message_type == MessageType::Ack && sends[0].msg.payload
                    == SpecValue::Null && sends[0].msg.ack_for == Some(m.id)
                    && sends[0].msg.sender_addr == Some(local.listen_addr))
                &&& dispatch_arm(
                    pre,
                    post,
                    source,
                    m,
                    now,
                    peers1,
                    sends.skip(ack_count(m)),
                    restart,
                    err,
                )
            }
    }
}

/// The per-tag behavior, over the resolved registry `peers1` and the
/// handler's own sends.
pub open spec fn dispatch_arm(
    pre: P2PServer,
    post: P2PServer,
    source: Addr,
    m: MessageV,
    now: u64,
    peers1: Seq<PeerV>,
    rest: Seq<OutgoingV>,
    restart: bool,
    err: Option<DispatchError>,
) -> bool {
    let local = pre.local_node_info@;
    let rt0 = pre.message_router.routing_table.routes@;
    let idx = idx_of_addr(peers1, source);
    let rec = peer_at_addr(peers1, source);
    match m.message_type {
        MessageType::HandshakeRequest => match spec_validate_handshake_request(m) {
            Err(e) => {
                &&& post.peer_manager.peers_v() == peers1
                &&& one_error_send(rest, source, handshake_error_text(e))
                &&& router_same(pre, post)
                &&& sched_same(pre, post, restart)
                &&& err == Some(DispatchError::Handshake(HandshakeFailure::Invalid(e)))
            },
            Ok(info) => {
                if info.network_id.len() == 0 {
                    &&& post.peer_manager.peers_v() == peers1.update(
                        idx,
                        (PeerV {
                            status: PeerStatusV::Error("\u{7f3a}\u{5c11} network_id"@),
                            ..rec
                        }),
                    )
                    &&& one_error_send(
                        rest,
                        source,
                        "\u{63e1}\u{624b}\u{8bf7}\u{6c42}\u{7f3a}\u{5c11} network_id"@,
                    )
                    &&& router_same(pre, post)
                    &&& sched_same(pre, post, restart)
                    &&& err == Some(DispatchError::Handshake(HandshakeFailure::MissingNetworkId))
                } else if info.network_id != local.network_id {
                    &&& post.peer_manager.peers_v() == peers1
                    &&& one_error_send(
                        rest,
                        source,
                        mismatch_error_text(local.network_id, info.network_id),
                    )
                    &&& router_same(pre, post)
                    &&& sched_same(pre, post, restart)
                    &&& err == Some(DispatchError::Handshake(HandshakeFailure::NetworkIdMismatch))
                } else if has_peer_id(peers1, info.id) {
                    &&& post.peer_manager.peers_v() == peers1
                    &&& one_error_send(rest, source, node_exists_text(uuid_text(info.id)))
                    &&& router_same(pre, post)
                    &&& sched_same(pre, post, restart)
                    &&& err == Some(DispatchError::Handshake(HandshakeFailure::NodeIdExists))
                } else {
                    &&& post.peer_manager.peers_v() == peers1.update(
                        idx,
                        (PeerV {
                            id: info.id,
                            node_info: Some(info),
                            status: PeerStatusV::Authenticated,
                            ..rec
                        }),
                    )
                    &&& rest.len() == 1
                    &&& rest[0].dest == source
                    &&& is_plain_message(
                        rest[0].msg,
                        MessageType::HandshakeResponse,
                        handshake_response_to_value(
                            (crate::protocol::HandshakeResponseV {
                                node_info: with_network_id(local, info.network_id),
                                success: true,
                                error_message: None,
                                public_addr: None,
                            }),
                        ),
                    )
                    &&& post.message_router.routing_table.routes@ == add_route_spec(
                        rt0,
                        info.id,
                        info.id,
                        1,
                    )
                    &&& post.message_router.message_cache@
                        == pre.message_router.message_cache@
                    &&& sched_post(pre, post, Some(info.id), restart)
                    &&& err is None
                }
            },
        },
        MessageType::HandshakeResponse => match spec_validate_handshake_response(m) {
            Err(e) => {
                &&& post.peer_manager.peers_v() == peers1
                &&& rest.len() == 0
                &&& router_same(pre, post)
                &&& sched_same(pre, post, restart)
                &&& err == Some(DispatchError::Handshake(HandshakeFailure::Invalid(e)))
            },
            Ok(resp) => {
                if !resp.success {
                    &&& post.peer_manager.peers_v() == peers1.update(
                        idx,
                        (PeerV {
                            status: PeerStatusV::Error(
                                match resp.error_message {
                                    Some(t) => t,
                                    None => "\u{63e1}\u{624b}\u{5931}\u{8d25}"@,
                                },
                            ),
                            ..rec
                        }),
                    )
                    &&& rest.len() == 0
                    &&& router_same(pre, post)
                    &&& sched_same(pre, post, restart)
                    &&& err == Some(DispatchError::Handshake(HandshakeFailure::Refused))
                } else {
                    let expected = crate::protocol::spec_metadata_get(
                        local.metadata,
                        "network_id"@,
                    );
                    let remote = crate::protocol::spec_metadata_get(
                        resp.node_info.metadata,
                        "network_id"@,
                    );
                    if expected is Some && expected != remote {
                        &&& post.peer_manager.peers_v() == peers1.update(
                            idx,
                            (PeerV {
                                status: PeerStatusV::Error(
                                    "\u{7f51}\u{7edc}ID\u{4e0d}\u{5339}\u{914d}"@,
                                ),
                                ..rec
                            }),
                        )
                        &&& rest.len() == 0
                        &&& router_same(pre, post)
                        &&& sched_same(pre, post, restart)
                        &&& err == Some(
                            DispatchError::Handshake(HandshakeFailure::NetworkIdMismatch),
                        )
                    } else if exists|k: int|
                        0 <= k < peers1.len() && k != idx && (#[trigger] peers1[k]).id
                            == resp.node_info.id {
                        &&& post.peer_manager.peers_v() == peers1
                        &&& rest.len() == 0
                        &&& router_same(pre, post)
                        &&& sched_same(pre, post, restart)
                        &&& err == Some(DispatchError::Handshake(HandshakeFailure::NodeIdExists))
                    } else {
                        &&& post.peer_manager.peers_v() == peers1.update(
                            idx,
                            (PeerV {
                                id: resp.node_info.id,
                                node_info: Some(resp.node_info),
                                status: PeerStatusV::Authenticated,
                                ..rec
                            }),
                        )
                        &&& rest.len() == 0
                        &&& post.message_router.routing_table.routes@ == add_route_spec(
                            rt0,
                            resp.node_info.id,
                            resp.node_info.id,
                            1,
                        )
                        &&& post.message_router.message_cache@
                            == pre.message_router.message_cache@
                        &&& sched_same(pre, post, restart)
                        &&& err is None
                    }
                }
            },
        },
        MessageType::Ping => {
            &&& post.peer_manager.peers_v() == peers1.update(
                idx,
                (PeerV { last_ping: Some(now), ..rec }),
            )
            &&& rest.len() == 1
            &&& rest[0].dest == source
            &&& is_plain_message(rest[0].msg, MessageType::Pong, SpecValue::Null)
            &&& router_same(pre, post)
            &&& sched_same(pre, post, restart)
            &&& err is None
        },
        MessageType::Pong => {
            &&& post.peer_manager.peers_v() == peers1.update(
                idx,
                (PeerV { last_ping: Some(now), ..rec }),
            )
            &&& rest.len() == 0
            &&& router_same(pre, post)
            &&& sched_same(pre, post, restart)
            &&& err is None
        },
        MessageType::DiscoveryRequest => {
            &&& post.peer_manager.peers_v() == peers1
            &&& rest.len() == 1
            &&& rest[0].dest == source
            &&& is_plain_message(
                rest[0].msg,
                MessageType::DiscoveryResponse,
                peer_info_list_to_value(peer_info_list(peers1, Some(rec.id), now)),
            )
            &&& router_same(pre, post)
            &&& sched_same(pre, post, restart)
            &&& err is None
        },
        MessageType::DiscoveryResponse => {
            &&& post.peer_manager.peers_v() == peers1
            &&& rest.len() == 0
            &&& (match m.payload {
                SpecValue::List(items) => match crate::codec::peer_infos_of(items) {
                    Some(ps) => post.message_router.routing_table.routes@
                        == fold_discovery_routes(rt0, ps, rec.id, local.id),
                    None => post.message_router.routing_table.routes@ == rt0,
                },
                _ => post.message_router.routing_table.routes@ == rt0,
            })
            &&& post.message_router.message_cache@ == pre.message_router.message_cache@
            &&& sched_same(pre, post, restart)
            &&& err is None
        },
        MessageType::P2PConnect => {
            &&& post.peer_manager.peers_v() == peers1
            &&& router_same(pre, post)
            &&& sched_same(pre, post, restart)
            &&& err is None
            &&& (match field_text(m.payload, "peer_id"@) {
                Some(t) => match uuid_of_text(t) {
                    Some(target) => {
                        if target == rec.id {
                            one_error_send(
                                rest,
                                source,
                                "\u{4e0d}\u{80fd}\u{4e0e}\u{81ea}\u{8eab}\u{5efa}\u{7acb}\u{76f4}\u{8fde}"@,
                            )
                        } else if has_peer_id(peers1, target) && status_is_authenticated(
                            peer_at_id(peers1, target).status,
                        ) {
                            &&& rest.len() == 2
                            &&& rest[0].dest == source
                            &&& is_plain_message(
                                rest[0].msg,
                                MessageType::P2PConnect,
                                p2p_connect_with_addr_payload(
                                    target,
                                    peer_at_id(peers1, target).addr,
                                ),
                            )
                            &&& rest[1].dest == peer_at_id(peers1, target).addr
                            &&& is_plain_message(
                                rest[1].msg,
                                MessageType::P2PConnect,
                                p2p_connect_with_addr_payload(rec.id, source),
                            )
                        } else if has_peer_id(peers1, target) {
                            one_error_send(
                                rest,
                                source,
                                "\u{76ee}\u{6807}\u{8282}\u{70b9}\u{672a}\u{8ba4}\u{8bc1}: "@
                                    + uuid_text(target),
                            )
                        } else {
                            one_error_send(
                                rest,
                                source,
                                "\u{76ee}\u{6807}\u{8282}\u{70b9}\u{672a}\u{627e}\u{5230}\u{6216}\u{4e0d}\u{53ef}\u{8fbe}: "@
                                    + uuid_text(target),
                            )
                        }
                    },
                    None => one_error_send(
                        rest,
                        source,
                        "\u{7f3a}\u{5c11}\u{6216}\u{65e0}\u{6548}\u{7684} peer_id"@,
                    ),
                },
                None => one_error_send(
                    rest,
                    source,
                    "\u{7f3a}\u{5c11}\u{6216}\u{65e0}\u{6548}\u{7684} peer_id"@,
                ),
            })
        },
        MessageType::Data => {
            &&& post.peer_manager.peers_v() == peers1
            &&& sched_same(pre, post, restart)
            &&& (match spec_routed_from_message(m) {
                Some(env) => exists|outcome: ForwardOutcome|
                    {
                        &&& #[trigger] forward_post(
                            pre.message_router,
                            post.message_router,
                            peers1,
                            env,
                            now,
                            outcome,
                            rest,
                        )
                        &&& err == (if outcome == ForwardOutcome::MaxHopsExceeded {
                            Some(DispatchError::HopLimit)
                        } else {
                            None::<DispatchError>
                        })
                    },
                None => {
                    &&& router_same(pre, post)
                    &&& rest.len() == 1
                    &&& rest[0].dest == source
                    &&& (if is_get_routes_cmd(m.payload) {
                        is_plain_message(rest[0].msg, MessageType::Data, routes_payload(rt0))
                    } else {
                        is_plain_message(
                            rest[0].msg,
                            MessageType::Data,
                            echo_payload(m.payload, now),
                        )
                    })
                    &&& err is None
                },
            })
        },
        MessageType::Disconnect => {
            &&& post.peer_manager.peers_v() == peers1.remove(idx)
            &&& rest.len() == 0
            &&& (if has_peer_addr(pre.peer_manager.peers_v(), source) {
                post.message_router.routing_table.routes@ == rt0.filter(
                    |r: Route| r.destination != rec.id,
                ).filter(|r: Route| r.next_hop != rec.id)
            } else {
                post.message_router.routing_table.routes@ == rt0
            })
            &&& post.message_router.message_cache@ == pre.message_router.message_cache@
            &&& sched_post(pre, post, None, restart)
            &&& err is None
        },
        MessageType::ListNodesRequest => {
            &&& post.peer_manager.peers_v() == peers1
            &&& rest.len() == 1
            &&& rest[0].dest == source
            &&& is_plain_message(
                rest[0].msg,
                MessageType::ListNodesResponse,
                node_info_list_payload(nodes_with_observed_addr(peers1)),
            )
            &&& router_same(pre, post)
            &&& sched_same(pre, post, restart)
            &&& err is None
        },
        _ => {
            &&& post.peer_manager.peers_v() == peers1
            &&& rest.len() == 0
            &&& router_same(pre, post)
            &&& sched_same(pre, post, restart)
            &&& err is None
        },
    }
}

/// A disconnect from an endpoint the registry does not know is a
/// no-op on the registry: the record created to receive it is removed
/// again, so a repeated disconnect changes nothing.
pub proof fn lemma_disconnect_unknown_is_noop(
    pre: P2PServer,
    post: P2PServer,
    source: Addr,
    m: MessageV,
    now: u64,
    peers1: Seq<PeerV>,
    rest: Seq<OutgoingV>,
    restart: bool,
    err: Option<DispatchError>,
)
    requires
        resolved_registry(pre.peer_manager.peers_v(), source, now, peers1),
        dispatch_arm(pre, post, source, m, now, peers1, rest, restart, err),
        m.message_type == MessageType::Disconnect,
        !has_peer_addr(pre.peer_manager.peers_v(), source),
    ensures
        post.peer_manager.peers_v() == pre.peer_manager.peers_v(),
        post.message_router.routing_table.routes@ == pre.message_router.routing_table.routes@,
        post.message_router.message_cache@ == pre.message_router.message_cache@,
        rest.len() == 0,
{
    let peers0 = pre.peer_manager.peers_v();
    let pid = choose|pid: u128|
        !has_peer_id(peers0, pid) && peers1 == peers0.push(
            (PeerV {
                id: pid,
                node_info: None,
                addr: source,
                status: PeerStatusV::Connecting,
                last_ping: None,
                created_at: now,
            }),
        );
    assert(peers1[peers1.len() - 1].addr == source);
    assert(has_peer_addr(peers1, source));
    let idx = idx_of_addr(peers1, source);
    assert(0 <= idx < peers1.len() && peers1[idx].addr == source);
    if idx != peers1.len() - 1 {
        assert(peers1[idx] == peers0[idx]);
        assert(has_peer_addr(peers0, source));
    }
    assert(idx == peers1.len() - 1);
    assert(peers1.remove(idx) =~= peers0);
}

/// The server's fixed identity over one run.
#[derive(Clone, Copy, Debug, PartialEq, Eq, Structural)]
pub struct ServerStats {
    pub node_id: u128,
    pub listen_address: Addr,
    pub peer_stats: PeerStats,
    pub uptime: u64,
}

impl P2PServer {
    /// The registry and router are well-formed, and the registry speaks
    /// for the same local node as the server.
    pub open spec fn wf(&self) -> bool {
        &&& self.peer_manager.wf()
        &&& self.message_router.wf()
        &&& self.peer_manager.local_node_info@ == self.local_node_info@
    }

    /// A server bound to the observed local endpoint: an empty registry
    /// and routing table under a fresh local node identity named after
    /// the port.
    pub fn new(config: Config, local_addr: Addr) -> (r: P2PServer)
        ensures
            r.wf(),
            r.local_node_info@.name == "p2p_node_"@ + dec_text(local_addr.port as nat),
            r.local_node_info@.listen_addr == local_addr,
            r.local_node_info@.network_id == config.network_id@,
            r.peer_manager.peers_v().len() == 0,
            r.peer_manager.local_node_info@ == r.local_node_info@,
            r.peer_manager.max_connections == config.max_connections,
            r.message_router.local_node_id == r.local_node_info@.id,
            r.message_router.routing_table.routes@.len() == 0,
            r.message_router.message_cache@.len() == 0,
            r.broadcast_exclude_id is None,
            !r.broadcast_pending,
            r.config.network_id@ == config.network_id@,
            r.config.enable_discovery == config.enable_discovery,
            r.config.max_connections == config.max_connections,
            r.config.listen_address == config.listen_address,
            r.config.heartbeat_interval == config.heartbeat_interval,
            r.config.peerlist_broadcast_debounce_ms == config.peerlist_broadcast_debounce_ms,
    {
        let mut name = "p2p_node_".to_owned();
        let port_text = dec_string(local_addr.port as u64);
        name.append(port_text.as_str());
        let local_node_info = NodeInfo::new(name, local_addr, config.network_id.clone());
        let peer_manager = PeerManager::new(local_node_info.clone(), config.max_connections);
        let message_router = MessageRouter::new(local_node_info.id);
        P2PServer {
            config,
            local_node_info,
            peer_manager,
            message_router,
            broadcast_exclude_id: None,
            broadcast_pending: false,
        }
    }

    /// Remembers the trigger for the next debounced fan-out and asks
    /// the caller to re-arm the window, unless discovery is disabled.
    pub fn schedule_peerlist_broadcast(&mut self, exclude_id: Option<u128>) -> (r: bool)
        ensures
            final (self).peer_manager == old(self).peer_manager,
            final (self).message_router == old(self).message_router,
            final (self).local_node_info == old(self).local_node_info,
            final (self).config == old(self).config,
            sched_post(*old(self), *final (self), exclude_id, r),
    {
        if self.config.enable_discovery {
            self.broadcast_exclude_id = exclude_id;
            self.broadcast_pending = true;
            true
        } else {
            false
        }
    }

    /// The debounce window closed: clears the trigger and computes one
    /// discovery response per authenticated peer, each receiver's list
    /// leaving the receiver itself out, and none going to the peer the
    /// last trigger excluded.
    pub fn fire_peerlist_broadcast(&mut self, now: u64) -> (r: Vec<Outgoing>)
        ensures
            final (self).peer_manager == old(self).peer_manager,
            final (self).message_router == old(self).message_router,
            final (self).local_node_info == old(self).local_node_info,
            final (self).config == old(self).config,
            final (self).broadcast_exclude_id is None,
            !final (self).broadcast_pending,
            ({
                let peers = old(self).peer_manager.peers_v();
                let targets = peers.filter(|p: PeerV| status_is_authenticated(p.status)).filter(
                    |p: PeerV| old(self).broadcast_exclude_id != Some(p.id),
                );
                &&& r.deep_view().len() == targets.len()
                &&& forall|k: int|
                    0 <= k < targets.len() ==> (#[trigger] r.deep_view()[k]).dest
                        == targets[k].addr && is_plain_message(
                        r.deep_view()[k].msg,
                        MessageType::DiscoveryResponse,
                        peer_info_list_to_value(peer_info_list(peers, Some(targets[k].id), now)),
                    )
            }),
    {
        let exclude_id = self.broadcast_exclude_id;
        self.broadcast_exclude_id = None;
        self.broadcast_pending = false;
        let auth = self.peer_manager.get_authenticated_peers();
        let mut sends: Vec<Outgoing> = Vec::new();
        let n = auth.len();
        let mut i: usize = 0;
        let ghost targets0 = auth.deep_view();
        let ghost peers = self.peer_manager.peers_v();
        proof {
            reveal(Seq::filter);
            assert(targets0.take(0) =~= Seq::<PeerV>::empty());
        }
        while i < n
            invariant
                n == auth@.len(),
                0 <= i <= n,
                targets0 == auth.deep_view(),
                targets0.len() == n,
                forall|j: int| 0 <= j < n ==> #[trigger] targets0[j] == auth@[j]@,
                peers == self.peer_manager.peers_v(),
                self.peer_manager == old(self).peer_manager,
                sends.deep_view().len() == targets0.take(i as int).filter(
                    |p: PeerV| exclude_id != Some(p.id),
                ).len(),
                forall|k: int|
                    0 <= k < sends.deep_view().len() ==> (#[trigger] sends.deep_view()[k]).dest
                        == targets0.take(i as int).filter(
                        |p: PeerV| exclude_id != Some(p.id),
                    )[k].addr && is_plain_message(
                        sends.deep_view()[k].msg,
                        MessageType::DiscoveryResponse,
                        peer_info_list_to_value(
                            peer_info_list(
                                peers,
                                Some(
                                    targets0.take(i as int).filter(
                                        |p: PeerV| exclude_id != Some(p.id),
                                    )[k].id,
                                ),
                                now,
                            ),
                        ),
                    ),
            decreases n - i,
        {
            let ghost pre = targets0.take(i as int);
            let ghost cur = targets0.take(i + 1);
            proof {
                reveal(Seq::filter);
                assert(cur.drop_last() =~= pre);
                assert(cur.last() == targets0[i as int]);
            }
            let pid = auth[i].id;
            let skip_this = match exclude_id {
                Some(x) => pid == x,
                None => false,
            };
            if !skip_this {
                let infos = self.peer_manager.get_peer_info_list_excluding(Some(pid), now);
                let msg = Message::discovery_response(infos);
                let dest = auth[i].addr();
                let ghost prev = sends.deep_view();
                sends.push(Outgoing { dest, msg });
                proof {
                    let pred = |p: PeerV| exclude_id != Some(p.id);
                    assert(cur.filter(pred) =~= pre.filter(pred).push(targets0[i as int]));
                    assert(sends.deep_view() =~= prev.push(sends@[sends@.len() - 1]@));
                }
            } else {
                proof {
                    let pred = |p: PeerV| exclude_id != Some(p.id);
                    assert(cur.filter(pred) =~= pre.filter(pred));
                }
            }
            i = i + 1;
        }
        proof {
            assert(targets0.take(n as int) =~= targets0);
        }
        sends
    }

    /// One liveness probe per authenticated peer.
    pub fn heartbeat_pings(&self) -> (r: Vec<Outgoing>)
        ensures
            ({
                let targets = self.peer_manager.peers_v().filter(
                    |p: PeerV| status_is_authenticated(p.status),
                );
                &&& r.deep_view().len() == targets.len()
                &&& forall|k: int|
                    0 <= k < targets.len() ==> (#[trigger] r.deep_view()[k]).dest
                        == targets[k].addr && is_plain_message(
                        r.deep_view()[k].msg,
                        MessageType::Ping,
                        SpecValue::Null,
                    )
            }),
    {
        let auth = self.peer_manager.get_authenticated_peers();
        let mut sends: Vec<Outgoing> = Vec::new();
        let n = auth.len();
        let mut i: usize = 0;
        let ghost targets0 = auth.deep_view();
        while i < n
            invariant
                n == auth@.len(),
                0 <= i <= n,
                targets0 == auth.deep_view(),
                targets0.len() == n,
                forall|j: int| 0 <= j < n ==> #[trigger] targets0[j] == auth@[j]@,
                sends.deep_view().len() == i,
                forall|k: int|
                    0 <= k < i ==> (#[trigger] sends.deep_view()[k]).dest == targets0[k].addr
                        && is_plain_message(
                        sends.deep_view()[k].msg,
                        MessageType::Ping,
                        SpecValue::Null,
                    ),
            decreases n - i,
        {
            let dest = auth[i].addr();
            let msg = Message::ping();
            let ghost prev = sends.deep_view();
            sends.push(Outgoing { dest, msg });
            proof {
                assert(sends.deep_view() =~= prev.push(sends@[sends@.len() - 1]@));
            }
            i = i + 1;
        }
        sends
    }

    /// A best-effort disconnect notice for every known peer, sent at
    /// shutdown.
    pub fn shutdown_messages(&self) -> (r: Vec<Outgoing>)
        ensures
            r.deep_view().len() == self.peer_manager.peers_v().len(),
            forall|k: int|
                0 <= k < r.deep_view().len() ==> (#[trigger] r.deep_view()[k]).dest
                    == self.peer_manager.peers_v()[k].addr && is_plain_message(
                    r.deep_view()[k].msg,
                    MessageType::Disconnect,
                    disconnect_payload("\u{670d}\u{52a1}\u{5668}\u{5173}\u{95ed}"@),
                ),
    {
        let all = self.peer_manager.get_all_peers();
        let mut sends: Vec<Outgoing> = Vec::new();
        let n = all.len();
        let mut i: usize = 0;
        let ghost targets0 = all.deep_view();
        while i < n
            invariant
                n == all@.len(),
                0 <= i <= n,
                targets0 == all.deep_view(),
                targets0 == self.peer_manager.peers_v(),
                targets0.len() == n,
                forall|j: int| 0 <= j < n ==> #[trigger] targets0[j] == all@[j]@,
                sends.deep_view().len() == i,
                forall|k: int|
                    0 <= k < i ==> (#[trigger] sends.deep_view()[k]).dest == targets0[k].addr
                        && is_plain_message(
                        sends.deep_view()[k].msg,
                        MessageType::Disconnect,
                        disconnect_payload("\u{670d}\u{52a1}\u{5668}\u{5173}\u{95ed}"@),
                    ),
            decreases n - i,
        {
            let dest = all[i].addr();
            let msg = Message::disconnect("\u{670d}\u{52a1}\u{5668}\u{5173}\u{95ed}".to_owned());
            let ghost prev = sends.deep_view();
            sends.push(Outgoing { dest, msg });
            proof {
                assert(sends.deep_view() =~= prev.push(sends@[sends@.len() - 1]@));
            }
            i = i + 1;
        }
        sends
    }

    /// The handshake request this server sends when connecting out, as
    /// a pending send the caller performs.
    pub fn connect_to_peer(&self, addr: Addr) -> (r: Outgoing)
        ensures
            r@.dest == addr,
            r@.msg.message_type == MessageType::HandshakeRequest,
            r@.msg.payload == crate::codec::node_info_to_value(self.local_node_info@),
            r@.msg.requires_ack,
            r@.msg.sender_addr == Some(self.local_node_info@.listen_addr),
            r@.msg.sequence_number == Some(0u32),
    {
        let payload = crate::codec::encode_node_info(&self.local_node_info);
        let msg = Message::new_with_ack(
            MessageType::HandshakeRequest,
            payload,
            self.local_node_info.listen_addr,
            0,
        );
        Outgoing { dest: addr, msg }
    }

    /// Routes an application value to a destination node.
    pub fn send_routed_data(&mut self, destination: u128, data: AppValue, max_hops: u32, now: u64) -> (r:
        (ForwardOutcome, Vec<Outgoing>))
        requires
            old(self).wf(),
        ensures
            final (self).wf(),
            final (self).peer_manager == old(self).peer_manager,
            (if destination == old(self).message_router.local_node_id {
                r.0 == ForwardOutcome::DeliveredLocally && final (self).message_router == old(
                    self,
                ).message_router && r.1.deep_view().len() == 0
            } else {
                exists|rid: u128, mv: MessageV|
                    is_plain_message(mv, MessageType::Data, data@) && #[trigger] forward_post(
                        old(self).message_router,
                        final (self).message_router,
                        old(self).peer_manager.peers_v(),
                        (crate::router::RoutedMessageV {
                            original_message: mv,
                            source_node: old(self).message_router.local_node_id,
                            destination_node: destination,
                            hop_count: 0,
                            max_hops: max_hops,
                            route_id: rid,
                        }),
                        now,
                        r.0,
                        r.1.deep_view(),
                    )
            }),
    {
        let message = Message::data(data);
        let ghost mv = message@;
        if destination == self.message_router.local_node_id {
            let sends: Vec<Outgoing> = Vec::new();
            proof {
                assert(sends.deep_view() =~= Seq::<OutgoingV>::empty());
            }
            return (ForwardOutcome::DeliveredLocally, sends);
        }
        let env = RoutedMessage::new(message, self.message_router.local_node_id, destination, max_hops);
        let ghost env_v = env@;
        let r = self.message_router.forward_message(&self.peer_manager, env, now);
        proof {
            assert(env_v =~= crate::router::RoutedMessageV {
                original_message: mv,
                source_node: old(self).message_router.local_node_id,
                destination_node: destination,
                hop_count: 0,
                max_hops: max_hops,
                route_id: env_v.route_id,
            });
        }
        r
    }

    /// The payload of a brokered connect instruction.
    fn p2p_payload(peer_id: u128, peer_addr: Addr) -> (r: AppValue)
        ensures
            r@ == p2p_connect_with_addr_payload(peer_id, peer_addr),
    {
        let mut fields: Vec<(String, AppValue)> = Vec::new();
        fields.push(("peer_id".to_owned(), AppValue::Text(format_uuid(peer_id))));
        fields.push(
            ("peer_addr".to_owned(), AppValue::Text(crate::text::addr_to_string(&peer_addr))),
        );
        let r = AppValue::Object(fields);
        proof {
            crate::value::lemma_rep_fields_props(fields@);
            assert(r@->Object_0 =~= p2p_connect_with_addr_payload(peer_id, peer_addr)->Object_0);
            assert(r@ =~= p2p_connect_with_addr_payload(peer_id, peer_addr));
        }
        r
    }

    /// The routing-table snapshot as a payload value.
    fn build_routes_payload(&self) -> (r: AppValue)
        ensures
            r@ == routes_payload(self.message_router.routing_table.routes@),
    {
        let ghost routes = self.message_router.routing_table.routes@;
        let mut entries: Vec<AppValue> = Vec::new();
        let n = self.message_router.routing_table.routes.len();
        let mut i: usize = 0;
        while i < n
            invariant
                n == self.message_router.routing_table.routes@.len(),
                routes == self.message_router.routing_table.routes@,
                0 <= i <= n,
                entries@.len() == i,
                forall|j: int|
                    0 <= j < i ==> (#[trigger] entries@[j])@ == route_entry_value(routes[j]),
            decreases n - i,
        {
            let rt = self.message_router.routing_table.routes[i];
            let mut fields: Vec<(String, AppValue)> = Vec::new();
            fields.push(("destination".to_owned(), AppValue::Text(format_uuid(rt.destination))));
            fields.push(("next_hop".to_owned(), AppValue::Text(format_uuid(rt.next_hop))));
            fields.push(("distance".to_owned(), AppValue::UInt(rt.distance as u64)));
            let entry = AppValue::Object(fields);
            proof {
                crate::value::lemma_rep_fields_props(fields@);
                assert(entry@->Object_0 =~= route_entry_value(routes[i as int])->Object_0);
                assert(entry@ =~= route_entry_value(routes[i as int]));
            }
            entries.push(entry);
            i = i + 1;
        }
        let mut outer: Vec<(String, AppValue)> = Vec::new();
        outer.push(("routes".to_owned(), AppValue::List(entries)));
        let r = AppValue::Object(outer);
        proof {
            crate::value::lemma_rep_fields_props(outer@);
            crate::value::lemma_rep_list_props(outer@[0].1->List_0@);
            assert(crate::value::rep_list(outer@[0].1->List_0@) =~= routes.map_values(
                |rt: Route| route_entry_value(rt),
            ));
            assert(r@->Object_0 =~= routes_payload(routes)->Object_0);
            assert(r@ =~= routes_payload(routes));
        }
        r
    }

    /// Answers a plain data message: the route-snapshot command gets
    /// the routing table, anything else is echoed back with a stamp.
    fn handle_data_message(&self, source: Addr, message: &Message, now: u64) -> (r: Outgoing)
        ensures
            r@.dest == source,
            (if is_get_routes_cmd(message@.payload) {
                is_plain_message(
                    r@.msg,
                    MessageType::Data,
                    routes_payload(self.message_router.routing_table.routes@),
                )
            } else {
                is_plain_message(r@.msg, MessageType::Data, echo_payload(message@.payload, now))
            }),
    {
        let is_cmd = match value_field(&message.payload, "cmd") {
            Some(f) => match value_as_text(f) {
                Some(s) => str_eq(s.as_str(), "get_routes"),
                None => false,
            },
            None => false,
        };
        if is_cmd {
            let payload = self.build_routes_payload();
            Outgoing { dest: source, msg: Message::data(payload) }
        } else {
            let echoed = message.payload.clone();
            let mut fields: Vec<(String, AppValue)> = Vec::new();
            fields.push(("echo".to_owned(), echoed));
            fields.push(("timestamp".to_owned(), AppValue::UInt(now)));
            let payload = AppValue::Object(fields);
            proof {
                crate::value::lemma_rep_fields_props(fields@);
                assert(payload@->Object_0 =~= echo_payload(message@.payload, now)->Object_0);
                assert(payload@ =~= echo_payload(message@.payload, now));
            }
            Outgoing { dest: source, msg: Message::data(payload) }
        }
    }

    /// One dispatcher arm, checked against `dispatch_arm` on its own:
    /// the handshake request.
    fn arm_handshake_request(
        &mut self,
        source: Addr,
        message: &Message,
        now: u64,
        Ghost(pre): Ghost<P2PServer>,
        Ghost(peers1): Ghost<Seq<PeerV>>,
    ) -> (r: (Vec<Outgoing>, bool, Option<DispatchError>))
        requires
            old(self).wf(),
            old(self).peer_manager.peers_v() == peers1,
            has_peer_addr(peers1, source),
            message@.message_type == MessageType::HandshakeRequest,
            old(self).local_node_info@ == pre.local_node_info@,
            old(self).peer_manager.local_node_info@ == pre.local_node_info@,
            old(self).message_router.routing_table.routes@
                == pre.message_router.routing_table.routes@,
            old(self).message_router.message_cache@ == pre.message_router.message_cache@,
            old(self).message_router.local_node_id == pre.message_router.local_node_id,
            old(self).config.enable_discovery == pre.config.enable_discovery,
            old(self).broadcast_exclude_id == pre.broadcast_exclude_id,
            old(self).broadcast_pending == pre.broadcast_pending,
        ensures
            final (self).wf(),
            same_identity(*old(self), *final (self)),
            dispatch_arm(
                pre,
                *final (self),
                source,
                message@,
                now,
                peers1,
                r.0.deep_view(),
                r.1,
                r.2,
            ),
    {
        let (res, arm) = self.peer_manager.handle_handshake_request(source, message, now);
        match res {
            Ok(info) => {
                let ghost rt_before = self.message_router.routing_table.routes@;
                self.message_router.update_routing_table(info.id, info.id, 1);
                proof {
                    assert(self.message_router.routing_table.routes@ == add_route_spec(
                        rt_before,
                        info@.id,
                        info@.id,
                        1,
                    ));
                }
                let restart = self.schedule_peerlist_broadcast(Some(info.id));
                (arm, restart, None)
            },
            Err(f) => (arm, false, Some(DispatchError::Handshake(f))),
        }
    }

    /// One dispatcher arm: the handshake response.
    fn arm_handshake_response(
        &mut self,
        source: Addr,
        message: &Message,
        now: u64,
        Ghost(pre): Ghost<P2PServer>,
        Ghost(peers1): Ghost<Seq<PeerV>>,
    ) -> (r: Option<DispatchError>)
        requires
            old(self).wf(),
            old(self).peer_manager.peers_v() == peers1,
            has_peer_addr(peers1, source),
            message@.message_type == MessageType::HandshakeResponse,
            old(self).local_node_info@ == pre.local_node_info@,
            old(self).peer_manager.local_node_info@ == pre.local_node_info@,
            old(self).message_router.routing_table.routes@
                == pre.message_router.routing_table.routes@,
            old(self).message_router.message_cache@ == pre.message_router.message_cache@,
            old(self).message_router.local_node_id == pre.message_router.local_node_id,
            old(self).config.enable_discovery == pre.config.enable_discovery,
            old(self).broadcast_exclude_id == pre.broadcast_exclude_id,
            old(self).broadcast_pending == pre.broadcast_pending,
        ensures
            final (self).wf(),
            same_identity(*old(self), *final (self)),
            dispatch_arm(
                pre,
                *final (self),
                source,
                message@,
                now,
                peers1,
                Seq::<OutgoingV>::empty(),
                false,
                r,
            ),
    {
        let res = self.peer_manager.handle_handshake_response(source, message);
        match res {
            Ok(()) => {
                proof {
                    let fin = self.peer_manager.peers_v();
                    let idxa = idx_of_addr(peers1, source);
                    assert(peers1[idxa].addr == source);
                    assert(fin[idxa].addr == source);
                    assert(has_peer_addr(fin, source));
                    let k = idx_of_addr(fin, source);
                    assert(0 <= k < fin.len() && fin[k].addr == source);
                    if k != idxa {
                        assert(fin[k] == peers1[k]);
                        assert(false);
                    }
                }
                let remote_id = match self.peer_manager.get_peer_by_addr(source) {
                    Some(p) => p.id,
                    None => {
                        proof {
                            assert(false);
                        }
                        0
                    },
                };
                let ghost rt_before = self.message_router.routing_table.routes@;
                self.message_router.update_routing_table(remote_id, remote_id, 1);
                proof {
                    assert(self.message_router.routing_table.routes@ == add_route_spec(
                        rt_before,
                        remote_id as u128,
                        remote_id as u128,
                        1,
                    ));
                }
                None
            },
            Err(f) => Some(DispatchError::Handshake(f)),
        }
    }

    /// One dispatcher arm: the rendezvous broker.
    fn arm_p2p_connect(
        &mut self,
        source: Addr,
        message: &Message,
        now: u64,
        Ghost(pre): Ghost<P2PServer>,
        Ghost(peers1): Ghost<Seq<PeerV>>,
        requester_id: u128,
    ) -> (r: Vec<Outgoing>)
        requires
            old(self).wf(),
            old(self).peer_manager.peers_v() == peers1,
            has_peer_addr(peers1, source),
            message@.message_type == MessageType::P2PConnect,
            requester_id == peer_at_addr(peers1, source).id,
            old(self).local_node_info@ == pre.local_node_info@,
            old(self).peer_manager.local_node_info@ == pre.local_node_info@,
            old(self).message_router.routing_table.routes@
                == pre.message_router.routing_table.routes@,
            old(self).message_router.message_cache@ == pre.message_router.message_cache@,
            old(self).message_router.local_node_id == pre.message_router.local_node_id,
            old(self).config.enable_discovery == pre.config.enable_discovery,
            old(self).broadcast_exclude_id == pre.broadcast_exclude_id,
            old(self).broadcast_pending == pre.broadcast_pending,
        ensures
            final (self).wf(),
            same_identity(*old(self), *final (self)),
            dispatch_arm(
                pre,
                *final (self),
                source,
                message@,
                now,
                peers1,
                r.deep_view(),
                false,
                None,
            ),
    {
        let mut sends: Vec<Outgoing> = Vec::new();
        let target_opt = match value_field(&message.payload, "peer_id") {
            Some(f) => match value_as_text(f) {
                Some(s) => crate::protocol::parse_uuid(s.as_str()),
                None => None,
            },
            None => None,
        };
        match target_opt {
            None => {
                let err = Message::error(
                    "\u{7f3a}\u{5c11}\u{6216}\u{65e0}\u{6548}\u{7684} peer_id".to_owned(),
                );
                sends.push(Outgoing { dest: source, msg: err });
                proof {
                    assert(sends.deep_view() =~= seq![sends@[0]@]);
                }
            },
            Some(target) => {
                if target == requester_id {
                    let err = Message::error(
                        "\u{4e0d}\u{80fd}\u{4e0e}\u{81ea}\u{8eab}\u{5efa}\u{7acb}\u{76f4}\u{8fde}".to_owned(),
                    );
                    sends.push(Outgoing { dest: source, msg: err });
                    proof {
                        assert(sends.deep_view() =~= seq![sends@[0]@]);
                    }
                } else {
                    let target_state = match self.peer_manager.get_peer(target) {
                        Some(tp) => {
                            if tp.is_authenticated() {
                                Some(Some(tp.addr))
                            } else {
                                Some(None)
                            }
                        },
                        None => None,
                    };
                    match target_state {
                        Some(Some(target_addr)) => {
                            let msg_to_requester = Message::new(
                                MessageType::P2PConnect,
                                Self::p2p_payload(target, target_addr),
                            );
                            let msg_to_target = Message::new(
                                MessageType::P2PConnect,
                                Self::p2p_payload(requester_id, source),
                            );
                            sends.push(Outgoing { dest: source, msg: msg_to_requester });
                            sends.push(Outgoing { dest: target_addr, msg: msg_to_target });
                            proof {
                                assert(sends.deep_view() =~= seq![sends@[0]@, sends@[1]@]);
                            }
                        },
                        Some(None) => {
                            let mut text =
                                "\u{76ee}\u{6807}\u{8282}\u{70b9}\u{672a}\u{8ba4}\u{8bc1}: ".to_owned();
                            let idt = format_uuid(target);
                            text.append(idt.as_str());
                            sends.push(Outgoing { dest: source, msg: Message::error(text) });
                            proof {
                                assert(sends.deep_view() =~= seq![sends@[0]@]);
                            }
                        },
                        None => {
                            let mut text =
                                "\u{76ee}\u{6807}\u{8282}\u{70b9}\u{672a}\u{627e}\u{5230}\u{6216}\u{4e0d}\u{53ef}\u{8fbe}: ".to_owned();
                            let idt = format_uuid(target);
                            text.append(idt.as_str());
                            sends.push(Outgoing { dest: source, msg: Message::error(text) });
                            proof {
                                assert(sends.deep_view() =~= seq![sends@[0]@]);
                            }
                        },
                    }
                }
            },
        }
        sends
    }

    /// One dispatcher arm: learning routes from a discovery response.
    fn arm_discovery_response(
        &mut self,
        source: Addr,
        message: &Message,
        now: u64,
        Ghost(pre): Ghost<P2PServer>,
        Ghost(peers1): Ghost<Seq<PeerV>>,
        via_id: u128,
    ) -> (r: bool)
        requires
            old(self).wf(),
            old(self).peer_manager.peers_v() == peers1,
            has_peer_addr(peers1, source),
            message@.message_type == MessageType::DiscoveryResponse,
            via_id == peer_at_addr(peers1, source).id,
            old(self).local_node_info@ == pre.local_node_info@,
            old(self).peer_manager.local_node_info@ == pre.local_node_info@,
            old(self).message_router.routing_table.routes@
                == pre.message_router.routing_table.routes@,
            old(self).message_router.message_cache@ == pre.message_router.message_cache@,
            old(self).message_router.local_node_id == pre.message_router.local_node_id,
            old(self).config.enable_discovery == pre.config.enable_discovery,
            old(self).broadcast_exclude_id == pre.broadcast_exclude_id,
            old(self).broadcast_pending == pre.broadcast_pending,
        ensures
            final (self).wf(),
            same_identity(*old(self), *final (self)),
            dispatch_arm(
                pre,
                *final (self),
                source,
                message@,
                now,
                peers1,
                Seq::<OutgoingV>::empty(),
                false,
                None,
            ),
    {
        match crate::codec::decode_peer_info_list(&message.payload) {
            Some(ps) => {
                let local_id = self.local_node_info.id;
                let ghost ps_deep = ps.deep_view();
                let ghost rt0 = self.message_router.routing_table.routes@;
                let n = ps.len();
                let mut i: usize = 0;
                proof {
                    assert(ps_deep.skip(0) =~= ps_deep);
                }
                while i < n
                    invariant
                        n == ps@.len(),
                        0 <= i <= n,
                        ps_deep == ps.deep_view(),
                        ps_deep.len() == n,
                        forall|j: int| 0 <= j < n ==> #[trigger] ps_deep[j] == ps@[j]@,
                        self.message_router.wf(),
                        self.message_router.local_node_id == old(
                            self,
                        ).message_router.local_node_id,
                        self.message_router.message_cache@ == old(
                            self,
                        ).message_router.message_cache@,
                        self.peer_manager == old(self).peer_manager,
                        self.local_node_info == old(self).local_node_info,
                        self.config == old(self).config,
                        self.broadcast_exclude_id == old(self).broadcast_exclude_id,
                        self.broadcast_pending == old(self).broadcast_pending,
                        local_id == old(self).local_node_info.id,
                        fold_discovery_routes(rt0, ps_deep, via_id, local_id)
                            == fold_discovery_routes(
                            self.message_router.routing_table.routes@,
                            ps_deep.skip(i as int),
                            via_id,
                            local_id,
                        ),
                    decreases n - i,
                {
                    proof {
                        assert(ps_deep.skip(i as int)[0] == ps_deep[i as int]);
                        assert(ps_deep.skip(i as int).drop_first() =~= ps_deep.skip(i + 1));
                    }
                    let pid = ps[i].id;
                    if pid != local_id && pid != via_id {
                        let ghost rt_before = self.message_router.routing_table.routes@;
                        self.message_router.update_routing_table(pid, via_id, 2);
                        proof {
                            assert(self.message_router.routing_table.routes@ == add_route_spec(
                                rt_before,
                                pid as u128,
                                via_id,
                                2,
                            ));
                        }
                    }
                    i = i + 1;
                }
                proof {
                    assert(ps_deep.skip(n as int) =~= Seq::<PeerInfoV>::empty());
                }
                true
            },
            None => false,
        }
    }

    /// One dispatcher arm: disconnecting a peer.
    fn arm_disconnect(
        &mut self,
        source: Addr,
        now: u64,
        Ghost(pre): Ghost<P2PServer>,
        Ghost(peers1): Ghost<Seq<PeerV>>,
        pid: u128,
        existed: bool,
        Ghost(m): Ghost<MessageV>,
    ) -> (r: bool)
        requires
            old(self).wf(),
            old(self).peer_manager.peers_v() == peers1,
            has_peer_addr(peers1, source),
            m.message_type == MessageType::Disconnect,
            pid == peer_at_addr(peers1, source).id,
            existed == has_peer_addr(pre.peer_manager.peers_v(), source),
            old(self).local_node_info@ == pre.local_node_info@,
            old(self).peer_manager.local_node_info@ == pre.local_node_info@,
            old(self).message_router.routing_table.routes@
                == pre.message_router.routing_table.routes@,
            old(self).message_router.message_cache@ == pre.message_router.message_cache@,
            old(self).message_router.local_node_id == pre.message_router.local_node_id,
            old(self).config.enable_discovery == pre.config.enable_discovery,
            old(self).broadcast_exclude_id == pre.broadcast_exclude_id,
            old(self).broadcast_pending == pre.broadcast_pending,
        ensures
            final (self).wf(),
            same_identity(*old(self), *final (self)),
            dispatch_arm(
                pre,
                *final (self),
                source,
                m,
                now,
                peers1,
                Seq::<OutgoingV>::empty(),
                r,
                None,
            ),
    {
        proof {
            let idxa = idx_of_addr(peers1, source);
            assert(peers1[idxa].addr == source && peers1[idxa].id == pid);
            assert(has_peer_id(peers1, pid));
            let k = crate::peer::idx_of_id(peers1, pid);
            assert(0 <= k < peers1.len() && peers1[k].id == pid);
            if k != idxa {
                assert(false);
            }
        }
        self.peer_manager.set_peer_status(pid, PeerStatus::Disconnected);
        let ghost updated = self.peer_manager.peers_v();
        if existed {
            // A record created only to receive this datagram carries a
            // fresh pending identifier; it owns no routes to forget.
            self.message_router.remove_node_routes(pid);
        }
        proof {
            let idxa = idx_of_addr(peers1, source);
            assert(updated[idxa].id == pid);
            assert(has_peer_id(updated, pid));
            let k2 = crate::peer::idx_of_id(updated, pid);
            assert(0 <= k2 < updated.len() && updated[k2].id == pid);
            if k2 != idxa {
                assert(updated[k2] == peers1[k2]);
                assert(false);
            }
        }
        self.peer_manager.remove_peer(pid);
        let restart = self.schedule_peerlist_broadcast(None);
        proof {
            let idx = idx_of_addr(peers1, source);
            assert(self.peer_manager.peers_v() =~= peers1.remove(idx));
        }
        restart
    }

    /// One dispatcher arm: listing every known node.
    fn arm_list_nodes(
        &mut self,
        source: Addr,
        now: u64,
        Ghost(pre): Ghost<P2PServer>,
        Ghost(peers1): Ghost<Seq<PeerV>>,
        Ghost(m): Ghost<MessageV>,
    ) -> (r: Vec<Outgoing>)
        requires
            old(self).wf(),
            old(self).peer_manager.peers_v() == peers1,
            has_peer_addr(peers1, source),
            m.message_type == MessageType::ListNodesRequest,
            old(self).local_node_info@ == pre.local_node_info@,
            old(self).peer_manager.local_node_info@ == pre.local_node_info@,
            old(self).message_router.routing_table.routes@
                == pre.message_router.routing_table.routes@,
            old(self).message_router.message_cache@ == pre.message_router.message_cache@,
            old(self).message_router.local_node_id == pre.message_router.local_node_id,
            old(self).config.enable_discovery == pre.config.enable_discovery,
            old(self).broadcast_exclude_id == pre.broadcast_exclude_id,
            old(self).broadcast_pending == pre.broadcast_pending,
        ensures
            final (self).wf(),
            same_identity(*old(self), *final (self)),
            dispatch_arm(
                pre,
                *final (self),
                source,
                m,
                now,
                peers1,
                r.deep_view(),
                false,
                None,
            ),
    {
        let all = self.peer_manager.get_all_peers();
        let mut nodes: Vec<NodeInfo> = Vec::new();
        let ghost all_deep = all.deep_view();
        let n = all.len();
        let mut i: usize = 0;
        proof {
            assert(all_deep.take(0) =~= Seq::<PeerV>::empty());
        }
        while i < n
            invariant
                n == all@.len(),
                0 <= i <= n,
                all_deep == all.deep_view(),
                all_deep.len() == n,
                forall|j: int| 0 <= j < n ==> #[trigger] all_deep[j] == all@[j]@,
                nodes.deep_view() == nodes_with_observed_addr(all_deep.take(i as int)),
            decreases n - i,
        {
            let ghost prefix = all_deep.take(i as int);
            let ghost cur = all_deep.take(i + 1);
            proof {
                assert(cur.drop_last() =~= prefix);
                assert(cur.last() == all_deep[i as int]);
            }
            match &all[i].node_info {
                Some(info) => {
                    let mut node = info.clone();
                    node.listen_addr = all[i].addr;
                    nodes.push(node);
                    proof {
                        assert(nodes.deep_view() =~= nodes_with_observed_addr(cur));
                    }
                },
                None => {},
            }
            i = i + 1;
        }
        proof {
            assert(all_deep.take(n as int) =~= all_deep);
        }
        let msg = Message::list_nodes_response(nodes);
        let mut sends: Vec<Outgoing> = Vec::new();
        sends.push(Outgoing { dest: source, msg });
        proof {
            assert(sends.deep_view() =~= seq![sends@[0]@]);
        }
        sends
    }

    /// One dispatcher arm: a data message, either a routed envelope or
    /// a plain application value.
    fn arm_data(
        &mut self,
        source: Addr,
        message: &Message,
        now: u64,
        Ghost(pre): Ghost<P2PServer>,
        Ghost(peers1): Ghost<Seq<PeerV>>,
    ) -> (r: (Vec<Outgoing>, Option<DispatchError>))
        requires
            old(self).wf(),
            old(self).peer_manager.peers_v() == peers1,
            has_peer_addr(peers1, source),
            message@.message_type == MessageType::Data,
            old(self).local_node_info@ == pre.local_node_info@,
            old(self).peer_manager.local_node_info@ == pre.local_node_info@,
            old(self).message_router.routing_table.routes@
                == pre.message_router.routing_table.routes@,
            old(self).message_router.message_cache@ == pre.message_router.message_cache@,
            old(self).message_router.local_node_id == pre.message_router.local_node_id,
            old(self).config.enable_discovery == pre.config.enable_discovery,
            old(self).broadcast_exclude_id == pre.broadcast_exclude_id,
            old(self).broadcast_pending == pre.broadcast_pending,
        ensures
            final (self).wf(),
            same_identity(*old(self), *final (self)),
            dispatch_arm(
                pre,
                *final (self),
                source,
                message@,
                now,
                peers1,
                r.0.deep_view(),
                false,
                r.1,
            ),
    {
        match RoutedMessage::from_message(message) {
            Ok(env) => {
                let (outcome, arm) = self.message_router.forward_message(
                    &self.peer_manager,
                    env,
                    now,
                );
                let error = if matches!(outcome, ForwardOutcome::MaxHopsExceeded) {
                    Some(DispatchError::HopLimit)
                } else {
                    None
                };
                proof {
                    assert(forward_post(
                        pre.message_router,
                        self.message_router,
                        peers1,
                        env@,
                        now,
                        outcome,
                        arm.deep_view(),
                    ));
                }
                (arm, error)
            },
            Err(_) => {
                let reply = self.handle_data_message(source, message, now);
                let mut sends: Vec<Outgoing> = Vec::new();
                sends.push(reply);
                proof {
                    assert(sends.deep_view() =~= seq![sends@[0]@]);
                }
                (sends, None)
            },
        }
    }

    /// Dispatches one decoded datagram: resolves its source to a
    /// registry record (refusing new endpoints at capacity),
    /// acknowledges it when asked to, and acts on its tag.
    pub fn handle_message(&mut self, source: Addr, message: &Message, now: u64) -> (r:
        DispatchResult)
        requires
            old(self).wf(),
        ensures
            final (self).wf(),
            dispatch_post(
                *old(self),
                *final (self),
                source,
                message@,
                now,
                r.sends.deep_view(),
                r.restart_broadcast_timer,
                r.error,
            ),
    {
        let ghost pre = *old(self);
        let ghost peers0 = self.peer_manager.peers_v();
        let existed = match self.peer_manager.get_peer_by_addr(source) {
            Some(_) => true,
            None => false,
        };
        let peer = match self.peer_manager.get_or_create_peer_by_addr(source, now) {
            Ok(p) => p,
            Err(RegistryError::Capacity) => {
                let mut text =
                    "\u{5df2}\u{8fbe}\u{5230}\u{6700}\u{5927}\u{8fde}\u{63a5}\u{6570}\u{9650}\u{5236}: ".to_owned();
                let num = dec_string(self.peer_manager.max_connections as u64);
                text.append(num.as_str());
                let mut sends: Vec<Outgoing> = Vec::new();
                sends.push(Outgoing { dest: source, msg: Message::error(text) });
                proof {
                    assert(sends.deep_view() =~= seq![sends@[0]@]);
                }
                return DispatchResult {
                    sends,
                    restart_broadcast_timer: false,
                    error: Some(DispatchError::Registry(RegistryError::Capacity)),
                };
            },
            Err(e) => {
                let sends: Vec<Outgoing> = Vec::new();
                proof {
                    assert(sends.deep_view() =~= Seq::<OutgoingV>::empty());
                }
                return DispatchResult {
                    sends,
                    restart_broadcast_timer: false,
                    error: Some(DispatchError::Registry(RegistryError::IdCollision)),
                };
            },
        };
        let ghost peers1 = self.peer_manager.peers_v();
        proof {
            if !has_peer_addr(peers0, source) {
                assert(peer@ =~= PeerV {
                    id: peer@.id,
                    node_info: None,
                    addr: source,
                    status: PeerStatusV::Connecting,
                    last_ping: None,
                    created_at: now,
                });
                assert(!has_peer_id(peers0, peer@.id) && peers1 == peers0.push(
                    (PeerV {
                        id: peer@.id,
                        node_info: None,
                        addr: source,
                        status: PeerStatusV::Connecting,
                        last_ping: None,
                        created_at: now,
                    }),
                ));
            }
            assert(resolved_registry(peers0, source, now, peers1));
            assert(peer@ == peer_at_addr(peers1, source));
        }
        let mut sends: Vec<Outgoing> = Vec::new();
        if message.requires_ack {
            let ack = Message::ack(message.id, self.local_node_info.listen_addr);
            sends.push(Outgoing { dest: source, msg: ack });
        }
        let ghost ack_part = sends.deep_view();
        proof {
            assert(ack_part.len() == ack_count(message@));
        }
        match message.message_type {
            MessageType::HandshakeRequest => {
                let (mut arm, restart, error) = self.arm_handshake_request(
                    source,
                    message,
                    now,
                    Ghost(pre),
                    Ghost(peers1),
                );
                let ghost arm_deep = arm.deep_view();
                sends.append(&mut arm);
                proof {
                    assert(sends.deep_view() =~= ack_part + arm_deep);
                    assert(sends.deep_view().skip(ack_count(message@)) =~= arm_deep);
                }
                DispatchResult { sends, restart_broadcast_timer: restart, error }
            },
            MessageType::HandshakeResponse => {
                let error = self.arm_handshake_response(
                    source,
                    message,
                    now,
                    Ghost(pre),
                    Ghost(peers1),
                );
                proof {
                    assert(sends.deep_view().skip(ack_count(message@)) =~= Seq::<
                        OutgoingV,
                    >::empty());
                }
                DispatchResult { sends, restart_broadcast_timer: false, error }
            },
            MessageType::Ping => {
                let mut arm = self.peer_manager.handle_ping(source, now);
                let ghost arm_deep = arm.deep_view();
                sends.append(&mut arm);
                proof {
                    assert(sends.deep_view() =~= ack_part + arm_deep);
                    assert(sends.deep_view().skip(ack_count(message@)) =~= arm_deep);
                }
                DispatchResult { sends, restart_broadcast_timer: false, error: None }
            },
            MessageType::Pong => {
                self.peer_manager.handle_pong(source, now);
                proof {
                    assert(sends.deep_view().skip(ack_count(message@)) =~= Seq::<
                        OutgoingV,
                    >::empty());
                }
                DispatchResult { sends, restart_broadcast_timer: false, error: None }
            },
            MessageType::DiscoveryRequest => {
                let infos = self.peer_manager.get_peer_info_list_excluding(Some(peer.id), now);
                let msg = Message::discovery_response(infos);
                sends.push(Outgoing { dest: source, msg });
                proof {
                    assert(sends.deep_view() =~= ack_part.push(sends@[sends@.len() - 1]@));
                    assert(sends.deep_view().skip(ack_count(message@)) =~= seq![
                        sends@[sends@.len() - 1]@,
                    ]);
                }
                DispatchResult { sends, restart_broadcast_timer: false, error: None }
            },
            MessageType::DiscoveryResponse => {
                self.arm_discovery_response(
                    source,
                    message,
                    now,
                    Ghost(pre),
                    Ghost(peers1),
                    peer.id,
                );
                proof {
                    assert(sends.deep_view().skip(ack_count(message@)) =~= Seq::<
                        OutgoingV,
                    >::empty());
                }
                DispatchResult { sends, restart_broadcast_timer: false, error: None }
            },
            MessageType::P2PConnect => {
                let mut arm = self.arm_p2p_connect(
                    source,
                    message,
                    now,
                    Ghost(pre),
                    Ghost(peers1),
                    peer.id,
                );
                let ghost arm_deep = arm.deep_view();
                sends.append(&mut arm);
                proof {
                    assert(sends.deep_view() =~= ack_part + arm_deep);
                    assert(sends.deep_view().skip(ack_count(message@)) =~= arm_deep);
                }
                DispatchResult { sends, restart_broadcast_timer: false, error: None }
            },
            MessageType::Data => {
                let (mut arm, error) = self.arm_data(
                    source,
                    message,
                    now,
                    Ghost(pre),
                    Ghost(peers1),
                );
                let ghost arm_deep = arm.deep_view();
                sends.append(&mut arm);
                proof {
                    assert(sends.deep_view() =~= ack_part + arm_deep);
                    assert(sends.deep_view().skip(ack_count(message@)) =~= arm_deep);
                }
                DispatchResult { sends, restart_broadcast_timer: false, error }
            },
            MessageType::Disconnect => {
                let restart = self.arm_disconnect(
                    source,
                    now,
                    Ghost(pre),
                    Ghost(peers1),
                    peer.id,
                    existed,
                    Ghost(message@),
                );
                proof {
                    assert(sends.deep_view().skip(ack_count(message@)) =~= Seq::<
                        OutgoingV,
                    >::empty());
                }
                DispatchResult { sends, restart_broadcast_timer: restart, error: None }
            },
            MessageType::ListNodesRequest => {
                let mut arm = self.arm_list_nodes(
                    source,
                    now,
                    Ghost(pre),
                    Ghost(peers1),
                    Ghost(message@),
                );
                let ghost arm_deep = arm.deep_view();
                sends.append(&mut arm);
                proof {
                    assert(sends.deep_view() =~= ack_part + arm_deep);
                    assert(sends.deep_view().skip(ack_count(message@)) =~= arm_deep);
                }
                DispatchResult { sends, restart_broadcast_timer: false, error: None }
            },
            _ => {
                proof {
                    assert(sends.deep_view().skip(ack_count(message@)) =~= Seq::<
                        OutgoingV,
                    >::empty());
                }
                DispatchResult { sends, restart_broadcast_timer: false, error: None }
            },
        }
    }

    /// The server's identity, endpoint and registry counts.
    pub fn get_stats(&self) -> (r: ServerStats)
        ensures
            r.node_id == self.local_node_info@.id,
            r.listen_address == self.config.listen_address,
            r.peer_stats.total_peers == self.peer_manager.peers_v().len(),
    {
        ServerStats {
            node_id: self.local_node_info.id,
            listen_address: self.config.listen_address,
            peer_stats: self.peer_manager.get_stats(),
            uptime: unix_time_seconds(),
        }
    }
}

} // verus!
