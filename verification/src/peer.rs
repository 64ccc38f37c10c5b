//! The peer registry: one record per observed transport endpoint,
//! indexed by endpoint and, once authenticated, by node identifier.
//!
//! The registry's well-formedness says what the original dual indexes
//! guaranteed: no two records share an endpoint or an identifier, and
//! the record count never exceeds the configured capacity. Handlers
//! return the messages to send instead of touching a socket.

use vstd::prelude::*;
use vstd::string::StringExecFns;

use crate::Addr;
use crate::codec::error_payload;
use crate::codec::handshake_response_to_value;
use crate::codec::spec_validate_handshake_request;
use crate::codec::spec_validate_handshake_response;
use crate::protocol::HandshakeError;
use crate::protocol::HandshakeProtocol;
use crate::protocol::HandshakeResponseV;
use crate::protocol::Message;
use crate::protocol::MessageType;
use crate::protocol::NodeInfo;
use crate::protocol::NodeInfoV;
use crate::protocol::Outgoing;
use crate::protocol::PeerInfo;
use crate::protocol::PeerInfoV;
use crate::protocol::clone_strings;
use crate::protocol::format_uuid;
use crate::protocol::fresh_uuid;
use crate::protocol::is_plain_message;
use crate::protocol::metadata_get;
use crate::protocol::spec_metadata_get;
use crate::protocol::uuid_text;
use crate::protocol::with_network_id;
use crate::value::SpecValue;

verus! {

/// Where a peer stands in its lifecycle.
#[derive(Debug)]
pub enum PeerStatus {
    Connecting,
    Connected,
    Handshaking,
    Authenticated,
    Disconnected,
    Error(String),
}

/// The mathematical form of a peer's status.
#[verifier::ext_equal]
pub enum PeerStatusV {
    Connecting,
    Connected,
    Handshaking,
    Authenticated,
    Disconnected,
    Error(Seq<char>),
}

impl View for PeerStatus {
    type V = PeerStatusV;

    open spec fn view(&self) -> PeerStatusV {
        match self {
            PeerStatus::Connecting => PeerStatusV::Connecting,
            PeerStatus::Connected => PeerStatusV::Connected,
            PeerStatus::Handshaking => PeerStatusV::Handshaking,
            PeerStatus::Authenticated => PeerStatusV::Authenticated,
            PeerStatus::Disconnected => PeerStatusV::Disconnected,
            PeerStatus::Error(s) => PeerStatusV::Error(s@),
        }
    }
}

impl Clone for PeerStatus {
    /// A clone mirrors the original status.
    fn clone(&self) -> (r: PeerStatus)
        ensures
            r@ == self@,
    {
        match self {
            PeerStatus::Connecting => PeerStatus::Connecting,
            PeerStatus::Connected => PeerStatus::Connected,
            PeerStatus::Handshaking => PeerStatus::Handshaking,
            PeerStatus::Authenticated => PeerStatus::Authenticated,
            PeerStatus::Disconnected => PeerStatus::Disconnected,
            PeerStatus::Error(s) => PeerStatus::Error(s.clone()),
        }
    }
}

/// Only authenticated peers take part in routing and discovery.
pub open spec fn status_is_authenticated(s: PeerStatusV) -> bool {
    s is Authenticated
}

/// Connected and authenticated peers survive the liveness sweep.
pub open spec fn status_is_connected(s: PeerStatusV) -> bool {
    s is Connected || s is Authenticated
}

/// Peers still working towards a handshake.
pub open spec fn status_is_connecting(s: PeerStatusV) -> bool {
    s is Connecting || s is Handshaking
}

/// One peer record: the endpoint it was observed at, its identity once
/// authenticated, and its liveness bookkeeping.
#[derive(Debug)]
pub struct Peer {
    pub id: u128,
    pub node_info: Option<NodeInfo>,
    pub addr: Addr,
    pub status: PeerStatus,
    pub last_ping: Option<u64>,
    pub created_at: u64,
}

/// The mathematical form of a peer record.
#[verifier::ext_equal]
pub struct PeerV {
    pub id: u128,
    pub node_info: Option<NodeInfoV>,
    pub addr: Addr,
    pub status: PeerStatusV,
    pub last_ping: Option<u64>,
    pub created_at: u64,
}

impl View for Peer {
    type V = PeerV;

    open spec fn view(&self) -> PeerV {
        PeerV {
            id: self.id,
            node_info: match self.node_info {
                Some(ref i) => Some(i@),
                None => None,
            },
            addr: self.addr,
            status: self.status@,
            last_ping: self.last_ping,
            created_at: self.created_at,
        }
    }
}

impl DeepView for Peer {
    type V = PeerV;

    open spec fn deep_view(&self) -> PeerV {
        self.view()
    }
}

impl Peer {
    /// A fresh record in `Connecting` state under a random pending
    /// identifier, to be replaced at handshake time.
    pub fn new(addr: Addr, now: u64) -> (r: Peer)
        ensures
            r@.id != 0,
            r@.node_info is None,
            r@.addr == addr,
            r@.status is Connecting,
            r@.last_ping is None,
            r@.created_at == now,
    {
        Peer {
            id: fresh_uuid(),
            node_info: None,
            addr,
            status: PeerStatus::Connecting,
            last_ping: None,
            created_at: now,
        }
    }

    /// A record for an already-authenticated node.
    pub fn with_node_info(addr: Addr, node_info: NodeInfo, now: u64) -> (r: Peer)
        ensures
            r@.id == node_info@.id,
            r@.node_info == Some(node_info@),
            r@.addr == addr,
            r@.status is Authenticated,
            r@.last_ping is None,
            r@.created_at == now,
    {
        let id = node_info.id;
        Peer {
            id,
            node_info: Some(node_info),
            addr,
            status: PeerStatus::Authenticated,
            last_ping: None,
            created_at: now,
        }
    }

    /// Moves the record to a new status.
    pub fn update_status(&mut self, status: PeerStatus)
        ensures
            final (self)@ == (PeerV { status: status@, ..old(self)@ }),
    {
        self.status = status;
    }

    /// Counts inbound traffic as a liveness signal at the given time.
    pub fn update_ping(&mut self, now: u64)
        ensures
            final (self)@ == (PeerV { last_ping: Some(now), ..old(self)@ }),
    {
        self.last_ping = Some(now);
    }

    /// Whether the peer has completed its handshake.
    pub fn is_authenticated(&self) -> (r: bool)
        ensures
            r == status_is_authenticated(self@.status),
    {
        matches!(self.status, PeerStatus::Authenticated)
    }

    /// Whether the peer survives the liveness sweep.
    pub fn is_connected(&self) -> (r: bool)
        ensures
            r == status_is_connected(self@.status),
    {
        matches!(self.status, PeerStatus::Connected | PeerStatus::Authenticated)
    }

    /// The endpoint the record is keyed by.
    pub fn addr(&self) -> (r: Addr)
        ensures
            r == self@.addr,
    {
        self.addr
    }
}

impl Clone for Peer {
    /// A clone mirrors the original record.
    fn clone(&self) -> (r: Peer)
        ensures
            r@ == self@,
    {
        let node_info = match &self.node_info {
            Some(i) => Some(i.clone()),
            None => None,
        };
        let r = Peer {
            id: self.id,
            node_info,
            addr: self.addr,
            status: self.status.clone(),
            last_ping: self.last_ping,
            created_at: self.created_at,
        };
        proof {
            assert(r@ =~= self@);
        }
        r
    }
}

/// Why the registry refused an operation.
#[derive(Clone, Copy, Debug, PartialEq, Eq, Structural)]
pub enum RegistryError {
    /// The registry already holds `max_connections` records.
    Capacity,
    /// A record for that endpoint already exists.
    AddressExists,
    /// The freshly drawn pending identifier collided with a record.
    IdCollision,
}

/// No two records share an endpoint or an identifier.
pub open spec fn wf_peers(peers: Seq<PeerV>) -> bool {
    forall|i: int, j: int|
        0 <= i < j < peers.len() ==> (#[trigger] peers[i]).addr != (#[trigger] peers[j]).addr
            && peers[i].id != peers[j].id
}

/// Some record holds the identifier.
pub open spec fn has_peer_id(peers: Seq<PeerV>, id: u128) -> bool {
    exists|i: int| 0 <= i < peers.len() && (#[trigger] peers[i]).id == id
}

/// Some record holds the endpoint.
pub open spec fn has_peer_addr(peers: Seq<PeerV>, addr: Addr) -> bool {
    exists|i: int| 0 <= i < peers.len() && (#[trigger] peers[i]).addr == addr
}

/// The index of the record holding the identifier.
pub open spec fn idx_of_id(peers: Seq<PeerV>, id: u128) -> int {
    choose|i: int| 0 <= i < peers.len() && (#[trigger] peers[i]).id == id
}

/// The index of the record holding the endpoint.
pub open spec fn idx_of_addr(peers: Seq<PeerV>, addr: Addr) -> int {
    choose|i: int| 0 <= i < peers.len() && (#[trigger] peers[i]).addr == addr
}

/// The record holding the identifier.
pub open spec fn peer_at_id(peers: Seq<PeerV>, id: u128) -> PeerV {
    peers[idx_of_id(peers, id)]
}

/// The record holding the endpoint.
pub open spec fn peer_at_addr(peers: Seq<PeerV>, addr: Addr) -> PeerV {
    peers[idx_of_addr(peers, addr)]
}

/// The registry of peer records, bounded by the configured capacity.
pub struct PeerManager {
    pub peers: Vec<Peer>,
    pub local_node_info: NodeInfo,
    pub max_connections: usize,
}

/// Counts of the registry's records by lifecycle stage.
#[derive(Clone, Copy, Debug, PartialEq, Eq, Structural)]
pub struct PeerStats {
    pub total_peers: usize,
    pub authenticated_peers: usize,
    pub connecting_peers: usize,
}

impl PeerManager {
    /// The registry's records, mathematically.
    pub open spec fn peers_v(&self) -> Seq<PeerV> {
        self.peers.deep_view()
    }

    /// Every registry operation keeps this shape: unique endpoints,
    /// unique identifiers, and the capacity bound.
    pub open spec fn wf(&self) -> bool {
        &&& wf_peers(self.peers_v())
        &&& self.peers_v().len() <= self.max_connections
    }

    /// The registry's fixed identity and capacity are untouched.
    pub open spec fn same_config(&self, other: &PeerManager) -> bool {
        &&& self.local_node_info@ == other.local_node_info@
        &&& self.max_connections == other.max_connections
    }

    /// An empty registry for the given local node and capacity.
    pub fn new(local_node_info: NodeInfo, max_connections: usize) -> (r: PeerManager)
        ensures
            r.wf(),
            r.peers_v().len() == 0,
            r.local_node_info@ == local_node_info@,
            r.max_connections == max_connections,
    {
        let r = PeerManager { peers: Vec::new(), local_node_info, max_connections };
        proof {
            assert(r.peers_v() =~= Seq::<PeerV>::empty());
        }
        r
    }

    /// The index of the record holding the identifier, if any.
    fn find_by_id(&self, id: u128) -> (r: Option<usize>)
        ensures
            match r {
                Some(i) => 0 <= i < self.peers_v().len() && self.peers_v()[i as int].id == id,
                None => !has_peer_id(self.peers_v(), id),
            },
    {
        let n = self.peers.len();
        let mut i: usize = 0;
        while i < n
            invariant
                n == self.peers@.len(),
                0 <= i <= n,
                self.peers_v().len() == n,
                forall|j: int| 0 <= j < i ==> (#[trigger] self.peers_v()[j]).id != id,
            decreases n - i,
        {
            if self.peers[i].id == id {
                return Some(i);
            }
            i = i + 1;
        }
        None
    }

    /// The index of the record holding the endpoint, if any.
    fn find_by_addr(&self, addr: Addr) -> (r: Option<usize>)
        ensures
            match r {
                Some(i) => 0 <= i < self.peers_v().len() && self.peers_v()[i as int].addr == addr,
                None => !has_peer_addr(self.peers_v(), addr),
            },
    {
        let n = self.peers.len();
        let mut i: usize = 0;
        while i < n
            invariant
                n == self.peers@.len(),
                0 <= i <= n,
                self.peers_v().len() == n,
                forall|j: int| 0 <= j < i ==> (#[trigger] self.peers_v()[j]).addr != addr,
            decreases n - i,
        {
            if self.peers[i].addr == addr {
                return Some(i);
            }
            i = i + 1;
        }
        None
    }

    /// The index of the record holding the endpoint, which must exist.
    fn find_addr_idx(&self, addr: Addr) -> (r: usize)
        requires
            has_peer_addr(self.peers_v(), addr),
        ensures
            0 <= r < self.peers_v().len(),
            self.peers_v()[r as int].addr == addr,
    {
        let n = self.peers.len();
        let mut i: usize = 0;
        while i < n
            invariant
                n == self.peers@.len(),
                0 <= i <= n,
                self.peers_v().len() == n,
                has_peer_addr(self.peers_v(), addr),
                forall|j: int| 0 <= j < i ==> (#[trigger] self.peers_v()[j]).addr != addr,
            decreases n - i,
        {
            if self.peers[i].addr == addr {
                return i;
            }
            i = i + 1;
        }
        proof {
            assert(false);
        }
        0
    }

    /// Adds a record in `Connecting` state for a new endpoint, unless
    /// the registry is full, the endpoint is taken, or the drawn
    /// pending identifier collides.
    pub fn add_peer(&mut self, addr: Addr, now: u64) -> (r: Result<Peer, RegistryError>)
        requires
            old(self).wf(),
        ensures
            final (self).wf(),
            final (self).same_config(old(self)),
            (match r {
                Ok(p) => {
                    &&& old(self).peers_v().len() < old(self).max_connections
                    &&& !has_peer_addr(old(self).peers_v(), addr)
                    &&& !has_peer_id(old(self).peers_v(), p@.id)
                    &&& p@.addr == addr
                    &&& p@.status is Connecting
                    &&& p@.node_info is None
                    &&& p@.last_ping is None
                    &&& p@.created_at == now
                    &&& final (self).peers_v() == old(self).peers_v().push(p@)
                },
                Err(RegistryError::Capacity) => {
                    &&& old(self).peers_v().len() >= old(self).max_connections
                    &&& final (self).peers_v() == old(self).peers_v()
                },
                Err(RegistryError::AddressExists) => {
                    &&& old(self).peers_v().len() < old(self).max_connections
                    &&& has_peer_addr(old(self).peers_v(), addr)
                    &&& final (self).peers_v() == old(self).peers_v()
                },
                Err(RegistryError::IdCollision) => {
                    &&& old(self).peers_v().len() < old(self).max_connections
                    &&& !has_peer_addr(old(self).peers_v(), addr)
                    &&& final (self).peers_v() == old(self).peers_v()
                },
            }),
    {
        if self.peers.len() >= self.max_connections {
            return Err(RegistryError::Capacity);
        }
        if self.find_by_addr(addr).is_some() {
            return Err(RegistryError::AddressExists);
        }
        let p = Peer::new(addr, now);
        if self.find_by_id(p.id).is_some() {
            return Err(RegistryError::IdCollision);
        }
        let ret = p.clone();
        let ghost old_deep = self.peers_v();
        self.peers.push(p);
        proof {
            assert(self.peers_v() =~= old_deep.push(ret@));
            assert forall|i: int, j: int| 0 <= i < j < self.peers_v().len() implies (
            #[trigger] self.peers_v()[i]).addr != (#[trigger] self.peers_v()[j]).addr
                && self.peers_v()[i].id != self.peers_v()[j].id by {
                if j < old_deep.len() {
                } else {
                    assert(self.peers_v()[i] == old_deep[i]);
                }
            }
        }
        Ok(ret)
    }

    /// Removes the record holding the identifier from the registry,
    /// doing nothing when there is none.
    pub fn remove_peer(&mut self, peer_id: u128) -> (r: Option<Peer>)
        requires
            old(self).wf(),
        ensures
            final (self).wf(),
            final (self).same_config(old(self)),
            (match r {
                Some(p) => {
                    &&& has_peer_id(old(self).peers_v(), peer_id)
                    &&& p@ == peer_at_id(old(self).peers_v(), peer_id)
                    &&& p@.id == peer_id
                    &&& final (self).peers_v() == old(self).peers_v().remove(
                        idx_of_id(old(self).peers_v(), peer_id),
                    )
                },
                None => {
                    &&& !has_peer_id(old(self).peers_v(), peer_id)
                    &&& final (self).peers_v() == old(self).peers_v()
                },
            }),
    {
        let idx = match self.find_by_id(peer_id) {
            Some(i) => i,
            None => {
                return None;
            },
        };
        let ghost old_deep = self.peers_v();
        let p = self.peers.remove(idx);
        proof {
            assert(idx_of_id(old_deep, peer_id) == idx as int) by {
                let k = idx_of_id(old_deep, peer_id);
                assert(0 <= k < old_deep.len() && old_deep[k].id == peer_id);
            }
            assert(self.peers_v() =~= old_deep.remove(idx as int));
            assert forall|i: int, j: int| 0 <= i < j < self.peers_v().len() implies (
            #[trigger] self.peers_v()[i]).addr != (#[trigger] self.peers_v()[j]).addr
                && self.peers_v()[i].id != self.peers_v()[j].id by {
                let i0 = if i < idx as int {
                    i
                } else {
                    i + 1
                };
                let j0 = if j < idx as int {
                    j
                } else {
                    j + 1
                };
                assert(self.peers_v()[i] == old_deep[i0]);
                assert(self.peers_v()[j] == old_deep[j0]);
            }
        }
        Some(p)
    }

    /// The record holding the identifier, if any.
    pub fn get_peer(&self, peer_id: u128) -> (r: Option<&Peer>)
        requires
            self.wf(),
        ensures
            match r {
                Some(p) => has_peer_id(self.peers_v(), peer_id) && p@ == peer_at_id(
                    self.peers_v(),
                    peer_id,
                ),
                None => !has_peer_id(self.peers_v(), peer_id),
            },
    {
        match self.find_by_id(peer_id) {
            Some(i) => {
                proof {
                    let k = idx_of_id(self.peers_v(), peer_id);
                    assert(0 <= k < self.peers_v().len() && self.peers_v()[k].id == peer_id);
                }
                Some(&self.peers[i])
            },
            None => None,
        }
    }

    /// The record holding the endpoint, if any.
    pub fn get_peer_by_addr(&self, addr: Addr) -> (r: Option<&Peer>)
        requires
            self.wf(),
        ensures
            match r {
                Some(p) => has_peer_addr(self.peers_v(), addr) && p@ == peer_at_addr(
                    self.peers_v(),
                    addr,
                ),
                None => !has_peer_addr(self.peers_v(), addr),
            },
    {
        match self.find_by_addr(addr) {
            Some(i) => {
                proof {
                    let k = idx_of_addr(self.peers_v(), addr);
                    assert(0 <= k < self.peers_v().len() && self.peers_v()[k].addr == addr);
                }
                Some(&self.peers[i])
            },
            None => None,
        }
    }

    /// The record keyed by the endpoint, created in `Connecting` state
    /// when the endpoint is new.
    pub fn get_or_create_peer_by_addr(&mut self, addr: Addr, now: u64) -> (r: Result<
        Peer,
        RegistryError,
    >)
        requires
            old(self).wf(),
        ensures
            final (self).wf(),
            final (self).same_config(old(self)),
            (match r {
                Ok(p) => {
                    &&& p@.addr == addr
                    &&& has_peer_addr(final (self).peers_v(), addr)
                    &&& p@ == peer_at_addr(final (self).peers_v(), addr)
                    &&& (if has_peer_addr(old(self).peers_v(), addr) {
                        final (self).peers_v() == old(self).peers_v()
                    } else {
                        &&& old(self).peers_v().len() < old(self).max_connections
                        &&& p@.status is Connecting
                        &&& p@.node_info is None
                        &&& p@.last_ping is None
                        &&& p@.created_at == now
                        &&& !has_peer_id(old(self).peers_v(), p@.id)
                        &&& final (self).peers_v() == old(self).peers_v().push(p@)
                    })
                },
                Err(e) => {
                    &&& !has_peer_addr(old(self).peers_v(), addr)
                    &&& !(e is AddressExists)
                    &&& (e is Capacity <==> old(self).peers_v().len() >= old(
                        self,
                    ).max_connections)
                    &&& final (self).peers_v() == old(self).peers_v()
                },
            }),
    {
        let found = match self.find_by_addr(addr) {
            Some(i) => {
                let p = self.peers[i].clone();
                proof {
                    let k = idx_of_addr(self.peers_v(), addr);
                    assert(0 <= k < self.peers_v().len() && self.peers_v()[k].addr == addr);
                }
                return Ok(p);
            },
            None => (),
        };
        let r = self.add_peer(addr, now);
        match r {
            Ok(p) => {
                proof {
                    let peers = self.peers_v();
                    let k = idx_of_addr(peers, addr);
                    assert(peers[peers.len() - 1].addr == addr);
                    assert(has_peer_addr(peers, addr));
                    assert(0 <= k < peers.len() && peers[k].addr == addr);
                    if k < peers.len() - 1 {
                        assert(old(self).peers_v()[k].addr == addr);
                        assert(false);
                    }
                }
                Ok(p)
            },
            Err(e) => Err(e),
        }
    }

    /// Clones of every record, in registry order.
    pub fn get_all_peers(&self) -> (r: Vec<Peer>)
        ensures
            r.deep_view() == self.peers_v(),
    {
        let mut out: Vec<Peer> = Vec::new();
        let n = self.peers.len();
        let mut i: usize = 0;
        while i < n
            invariant
                n == self.peers@.len(),
                0 <= i <= n,
                out@.len() == i,
                forall|j: int| 0 <= j < i ==> (#[trigger] out@[j])@ == self.peers@[j]@,
            decreases n - i,
        {
            let p = self.peers[i].clone();
            out.push(p);
            i = i + 1;
        }
        proof {
            assert(out.deep_view() =~= self.peers_v());
        }
        out
    }

    /// Clones of every authenticated record, in registry order.
    pub fn get_authenticated_peers(&self) -> (r: Vec<Peer>)
        ensures
            r.deep_view() == self.peers_v().filter(
                |p: PeerV| status_is_authenticated(p.status),
            ),
    {
        let ghost pred = |p: PeerV| status_is_authenticated(p.status);
        let mut out: Vec<Peer> = Vec::new();
        let n = self.peers.len();
        let mut i: usize = 0;
        proof {
            reveal(Seq::filter);
            assert(self.peers_v().take(0) =~= Seq::<PeerV>::empty());
        }
        while i < n
            invariant
                n == self.peers@.len(),
                0 <= i <= n,
                self.peers_v().len() == n,
                out.deep_view() == self.peers_v().take(i as int).filter(
                    |p: PeerV| status_is_authenticated(p.status),
                ),
            decreases n - i,
        {
            let ghost pre = self.peers_v().take(i as int);
            let ghost cur = self.peers_v().take(i + 1);
            proof {
                reveal(Seq::filter);
                assert(cur.drop_last() =~= pre);
                assert(cur.last() == self.peers_v()[i as int]);
            }
            if self.peers[i].is_authenticated() {
                let p = self.peers[i].clone();
                out.push(p);
                proof {
                    assert(out.deep_view() =~= cur.filter(
                        |p: PeerV| status_is_authenticated(p.status),
                    ));
                }
            }
            i = i + 1;
        }
        proof {
            assert(self.peers_v().take(n as int) =~= self.peers_v());
        }
        out
    }

    /// Moves the record holding the identifier to a new status.
    pub fn set_peer_status(&mut self, peer_id: u128, status: PeerStatus) -> (r: bool)
        requires
            old(self).wf(),
        ensures
            final (self).wf(),
            final (self).same_config(old(self)),
            r == has_peer_id(old(self).peers_v(), peer_id),
            (if r {
                final (self).peers_v() == old(self).peers_v().update(
                    idx_of_id(old(self).peers_v(), peer_id),
                    (PeerV { status: status@, ..peer_at_id(old(self).peers_v(), peer_id) }),
                )
            } else {
                final (self).peers_v() == old(self).peers_v()
            }),
    {
        let idx = match self.find_by_id(peer_id) {
            Some(i) => i,
            None => {
                return false;
            },
        };
        let ghost old_deep = self.peers_v();
        let p = &mut self.peers[idx];
        p.update_status(status);
        proof {
            let k = idx_of_id(old_deep, peer_id);
            assert(0 <= k < old_deep.len() && old_deep[k].id == peer_id);
            assert(k == idx as int);
            assert(self.peers_v() =~= old_deep.update(
                k,
                PeerV { status: status@, ..peer_at_id(old_deep, peer_id) },
            ));
            assert forall|i: int, j: int| 0 <= i < j < self.peers_v().len() implies (
            #[trigger] self.peers_v()[i]).addr != (#[trigger] self.peers_v()[j]).addr
                && self.peers_v()[i].id != self.peers_v()[j].id by {
                assert(old_deep[i].addr != old_deep[j].addr && old_deep[i].id != old_deep[j].id);
            }
        }
        true
    }

    /// Drops every record that is neither connected nor authenticated.
    pub fn cleanup_disconnected_peers(&mut self)
        requires
            old(self).wf(),
        ensures
            final (self).wf(),
            final (self).same_config(old(self)),
            final (self).peers_v() == old(self).peers_v().filter(
                |p: PeerV| status_is_connected(p.status),
            ),
    {
        let mut kept: Vec<Peer> = Vec::new();
        let n = self.peers.len();
        let mut i: usize = 0;
        proof {
            reveal(Seq::filter);
            assert(self.peers_v().take(0) =~= Seq::<PeerV>::empty());
        }
        while i < n
            invariant
                n == self.peers@.len(),
                0 <= i <= n,
                self.peers_v().len() == n,
                kept.deep_view() == self.peers_v().take(i as int).filter(
                    |p: PeerV| status_is_connected(p.status),
                ),
            decreases n - i,
        {
            let ghost pre = self.peers_v().take(i as int);
            let ghost cur = self.peers_v().take(i + 1);
            proof {
                reveal(Seq::filter);
                assert(cur.drop_last() =~= pre);
                assert(cur.last() == self.peers_v()[i as int]);
            }
            if self.peers[i].is_connected() {
                let p = self.peers[i].clone();
                kept.push(p);
                proof {
                    assert(kept.deep_view() =~= cur.filter(
                        |p: PeerV| status_is_connected(p.status),
                    ));
                }
            }
            i = i + 1;
        }
        proof {
            assert(self.peers_v().take(n as int) =~= self.peers_v());
        }
        let ghost old_deep = self.peers_v();
        self.peers = kept;
        proof {
            lemma_filter_keeps_wf(old_deep, |p: PeerV| status_is_connected(p.status));
        }
    }

    /// The record counts: total, authenticated, and still connecting.
    pub fn get_stats(&self) -> (r: PeerStats)
        ensures
            r.total_peers == self.peers_v().len(),
            r.authenticated_peers == self.peers_v().filter(
                |p: PeerV| status_is_authenticated(p.status),
            ).len(),
            r.connecting_peers == self.peers_v().filter(
                |p: PeerV| status_is_connecting(p.status),
            ).len(),
    {
        let total = self.peers.len();
        let mut authenticated: usize = 0;
        let mut connecting: usize = 0;
        let n = self.peers.len();
        let mut i: usize = 0;
        proof {
            reveal(Seq::filter);
            assert(self.peers_v().take(0) =~= Seq::<PeerV>::empty());
        }
        while i < n
            invariant
                n == self.peers@.len(),
                0 <= i <= n,
                self.peers_v().len() == n,
                authenticated == self.peers_v().take(i as int).filter(
                    |p: PeerV| status_is_authenticated(p.status),
                ).len(),
                connecting == self.peers_v().take(i as int).filter(
                    |p: PeerV| status_is_connecting(p.status),
                ).len(),
                authenticated <= i,
                connecting <= i,
            decreases n - i,
        {
            let ghost pre = self.peers_v().take(i as int);
            let ghost cur = self.peers_v().take(i + 1);
            proof {
                reveal(Seq::filter);
                assert(cur.drop_last() =~= pre);
                assert(cur.last() == self.peers_v()[i as int]);
            }
            match &self.peers[i].status {
                PeerStatus::Authenticated => {
                    authenticated = authenticated + 1;
                },
                PeerStatus::Connecting | PeerStatus::Handshaking => {
                    connecting = connecting + 1;
                },
                _ => {},
            }
            i = i + 1;
        }
        proof {
            assert(self.peers_v().take(n as int) =~= self.peers_v());
        }
        PeerStats { total_peers: total, authenticated_peers: authenticated, connecting_peers: connecting }
    }
}

/// Why a handshake was rejected.
#[derive(Clone, Copy, Debug, PartialEq, Eq, Structural)]
pub enum HandshakeFailure {
    /// The message failed validation.
    Invalid(HandshakeError),
    /// The request carried an empty network identifier.
    MissingNetworkId,
    /// The network identifier does not match this overlay.
    NetworkIdMismatch,
    /// Another record already holds the claimed node identifier.
    NodeIdExists,
    /// The responding side reported a failed handshake.
    Refused,
}

/// The error text for a network-identifier mismatch.
pub open spec fn mismatch_error_text(expected: Seq<char>, got: Seq<char>) -> Seq<char> {
    "\u{7f51}\u{7edc}ID\u{4e0d}\u{5339}\u{914d}: \u{671f}\u{671b} "@ + expected
        + "\u{ff0c}\u{6536}\u{5230} "@ + got
}

/// The error text for a duplicate node identifier.
pub open spec fn node_exists_text(id_text: Seq<char>) -> Seq<char> {
    "\u{8282}\u{70b9}ID "@ + id_text + " \u{5df2}\u{5b58}\u{5728}"@
}

/// Exactly one error reply to the given endpoint with the given text.
pub open spec fn one_error_send(sends: Seq<crate::protocol::OutgoingV>, dest: Addr, text: Seq<char>) -> bool {
    &&& sends.len() == 1
    &&& sends[0].dest == dest
    &&& is_plain_message(sends[0].msg, MessageType::Error, error_payload(text))
}

/// The discovery entries for all authenticated peers except the given
/// one, each stamped with the given time.
pub open spec fn peer_info_list(peers: Seq<PeerV>, exclude: Option<u128>, now: u64) -> Seq<
    PeerInfoV,
>
    decreases peers.len(),
{
    if peers.len() == 0 {
        Seq::empty()
    } else {
        let front = peer_info_list(peers.drop_last(), exclude, now);
        let last = peers.last();
        if status_is_authenticated(last.status) && last.node_info is Some && (match exclude {
            Some(x) => last.node_info->0.id != x,
            None => true,
        }) {
            front.push(
                PeerInfoV {
                    id: last.node_info->0.id,
                    addr: last.node_info->0.listen_addr,
                    last_seen: now,
                    capabilities: last.node_info->0.capabilities,
                },
            )
        } else {
            front
        }
    }
}

/// A peer never appears in a list that excludes it.
pub proof fn lemma_peer_info_list_excludes(peers: Seq<PeerV>, ex: u128, now: u64)
    ensures
        forall|k: int|
            0 <= k < peer_info_list(peers, Some(ex), now).len() ==> (#[trigger] peer_info_list(
                peers,
                Some(ex),
                now,
            )[k]).id != ex,
    decreases peers.len(),
{
    if peers.len() > 0 {
        lemma_peer_info_list_excludes(peers.drop_last(), ex, now);
        let l = peer_info_list(peers, Some(ex), now);
        let front = peer_info_list(peers.drop_last(), Some(ex), now);
        assert forall|k: int| 0 <= k < l.len() implies (#[trigger] l[k]).id != ex by {
            if k < front.len() {
                assert(l[k] == front[k]);
            }
        }
    }
}

impl PeerManager {
    /// Handles a handshake request from the peer at the given endpoint:
    /// checks the announcement, the network identifier and identifier
    /// uniqueness, authenticates the peer on success, and returns the
    /// one reply to send.
    pub fn handle_handshake_request(&mut self, peer_addr: Addr, message: &Message, now: u64) -> (r:
        (Result<NodeInfo, HandshakeFailure>, Vec<Outgoing>))
        requires
            old(self).wf(),
            has_peer_addr(old(self).peers_v(), peer_addr),
        ensures
            final (self).wf(),
            final (self).same_config(old(self)),
            ({
                let old_peers = old(self).peers_v();
                let idx = idx_of_addr(old_peers, peer_addr);
                let local = old(self).local_node_info@;
                match spec_validate_handshake_request(message@) {
                    Err(e) => {
                        &&& r.0 == Err::<NodeInfo, HandshakeFailure>(HandshakeFailure::Invalid(e))
                        &&& final (self).peers_v() == old_peers
                        &&& one_error_send(r.1.deep_view(), peer_addr, crate::protocol::handshake_error_text(e))
                    },
                    Ok(info) => {
                        if info.network_id.len() == 0 {
                            &&& r.0 == Err::<NodeInfo, HandshakeFailure>(
                                HandshakeFailure::MissingNetworkId,
                            )
                            &&& final (self).peers_v() == old_peers.update(
                                idx,
                                (PeerV {
                                    status: PeerStatusV::Error(
                                        "\u{7f3a}\u{5c11} network_id"@,
                                    ),
                                    ..peer_at_addr(old_peers, peer_addr)
                                }),
                            )
                            &&& one_error_send(
                                r.1.deep_view(),
                                peer_addr,
                                "\u{63e1}\u{624b}\u{8bf7}\u{6c42}\u{7f3a}\u{5c11} network_id"@,
                            )
                        } else if info.network_id != local.network_id {
                            &&& r.0 == Err::<NodeInfo, HandshakeFailure>(
                                HandshakeFailure::NetworkIdMismatch,
                            )
                            &&& final (self).peers_v() == old_peers
                            &&& one_error_send(
                                r.1.deep_view(),
                                peer_addr,
                                mismatch_error_text(local.network_id, info.network_id),
                            )
                        } else if has_peer_id(old_peers, info.id) {
                            &&& r.0 == Err::<NodeInfo, HandshakeFailure>(
                                HandshakeFailure::NodeIdExists,
                            )
                            &&& final (self).peers_v() == old_peers
                            &&& one_error_send(
                                r.1.deep_view(),
                                peer_addr,
                                node_exists_text(uuid_text(info.id)),
                            )
                        } else {
                            &&& (match r.0 {
                                Ok(i) => i@ == info,
                                Err(_) => false,
                            })
                            &&& final (self).peers_v() == old_peers.update(
                                idx,
                                (PeerV {
                                    id: info.id,
                                    node_info: Some(info),
                                    status: PeerStatusV::Authenticated,
                                    ..peer_at_addr(old_peers, peer_addr)
                                }),
                            )
                            &&& r.1.deep_view().len() == 1
                            &&& r.1.deep_view()[0].dest == peer_addr
                            &&& is_plain_message(
                                r.1.deep_view()[0].msg,
                                MessageType::HandshakeResponse,
                                handshake_response_to_value(
                                    HandshakeResponseV {
                                        node_info: with_network_id(local, info.network_id),
                                        success: true,
                                        error_message: None,
                                        public_addr: None,
                                    },
                                ),
                            )
                        }
                    },
                }
            }),
    {
        let info = match HandshakeProtocol::validate_handshake_request(message) {
            Ok(i) => i,
            Err(e) => {
                let mut sends: Vec<Outgoing> = Vec::new();
                sends.push(Outgoing { dest: peer_addr, msg: Message::error(e.message()) });
                proof {
                    assert(sends.deep_view() =~= seq![sends@[0]@]);
                }
                return (Err(HandshakeFailure::Invalid(e)), sends);
            },
        };
        let idx = self.find_addr_idx(peer_addr);
        proof {
            let k = idx_of_addr(self.peers_v(), peer_addr);
            assert(0 <= k < self.peers_v().len() && self.peers_v()[k].addr == peer_addr);
            assert(k == idx as int);
        }
        if info.network_id.as_str().is_empty() {
            let mut sends: Vec<Outgoing> = Vec::new();
            sends.push(
                Outgoing {
                    dest: peer_addr,
                    msg: Message::error(
                        "\u{63e1}\u{624b}\u{8bf7}\u{6c42}\u{7f3a}\u{5c11} network_id".to_owned(),
                    ),
                },
            );
            let ghost old_deep = self.peers_v();
            let p = &mut self.peers[idx];
            p.update_status(PeerStatus::Error("\u{7f3a}\u{5c11} network_id".to_owned()));
            proof {
                assert(sends.deep_view() =~= seq![sends@[0]@]);
                assert(self.peers_v() =~= old_deep.update(
                    idx as int,
                    (PeerV {
                        status: PeerStatusV::Error("\u{7f3a}\u{5c11} network_id"@),
                        ..peer_at_addr(old_deep, peer_addr)
                    }),
                ));
                lemma_update_same_keys_wf(old_deep, self.peers_v(), idx as int);
            }
            return (Err(HandshakeFailure::MissingNetworkId), sends);
        }
        if !crate::value::str_eq(
            info.network_id.as_str(),
            self.local_node_info.network_id.as_str(),
        ) {
            let mut text = "\u{7f51}\u{7edc}ID\u{4e0d}\u{5339}\u{914d}: \u{671f}\u{671b} ".to_owned();
            text.append(self.local_node_info.network_id.as_str());
            text.append("\u{ff0c}\u{6536}\u{5230} ");
            text.append(info.network_id.as_str());
            let mut sends: Vec<Outgoing> = Vec::new();
            sends.push(Outgoing { dest: peer_addr, msg: Message::error(text) });
            proof {
                assert(sends.deep_view() =~= seq![sends@[0]@]);
            }
            return (Err(HandshakeFailure::NetworkIdMismatch), sends);
        }
        if self.find_by_id(info.id).is_some() {
            let mut text = "\u{8282}\u{70b9}ID ".to_owned();
            let id_text = format_uuid(info.id);
            text.append(id_text.as_str());
            text.append(" \u{5df2}\u{5b58}\u{5728}");
            let mut sends: Vec<Outgoing> = Vec::new();
            sends.push(Outgoing { dest: peer_addr, msg: Message::error(text) });
            proof {
                assert(sends.deep_view() =~= seq![sends@[0]@]);
            }
            return (Err(HandshakeFailure::NodeIdExists), sends);
        }
        let ghost old_deep = self.peers_v();
        let info_for_peer = info.clone();
        {
            let p = &mut self.peers[idx];
            p.id = info.id;
            p.node_info = Some(info_for_peer);
            p.status = PeerStatus::Authenticated;
        }
        let mut local_info = self.local_node_info.clone();
        local_info.network_id = info.network_id.clone();
        let response = Message::handshake_response(local_info, true);
        let mut sends: Vec<Outgoing> = Vec::new();
        sends.push(Outgoing { dest: peer_addr, msg: response });
        proof {
            assert(sends.deep_view() =~= seq![sends@[0]@]);
            assert(self.peers_v() =~= old_deep.update(
                idx as int,
                (PeerV {
                    id: info@.id,
                    node_info: Some(info@),
                    status: PeerStatusV::Authenticated,
                    ..peer_at_addr(old_deep, peer_addr)
                }),
            ));
            assert forall|i: int, j: int| 0 <= i < j < self.peers_v().len() implies (
            #[trigger] self.peers_v()[i]).addr != (#[trigger] self.peers_v()[j]).addr
                && self.peers_v()[i].id != self.peers_v()[j].id by {
                assert(old_deep[i].addr != old_deep[j].addr && old_deep[i].id != old_deep[j].id);
                if i == idx as int {
                    assert(self.peers_v()[j] == old_deep[j]);
                } else if j == idx as int {
                    assert(self.peers_v()[i] == old_deep[i]);
                }
            }
            assert(with_network_id(old(self).local_node_info@, info@.network_id) =~= local_info@);
        }
        (Ok(info), sends)
    }

    /// Handles a handshake response on the active-connect path: checks
    /// the optional network-identifier metadata and promotes the peer,
    /// or records why the handshake failed.
    pub fn handle_handshake_response(&mut self, peer_addr: Addr, message: &Message) -> (r: Result<
        (),
        HandshakeFailure,
    >)
        requires
            old(self).wf(),
            has_peer_addr(old(self).peers_v(), peer_addr),
        ensures
            final (self).wf(),
            final (self).same_config(old(self)),
            ({
                let old_peers = old(self).peers_v();
                let idx = idx_of_addr(old_peers, peer_addr);
                let local = old(self).local_node_info@;
                match spec_validate_handshake_response(message@) {
                    Err(e) => {
                        &&& r == Err::<(), HandshakeFailure>(HandshakeFailure::Invalid(e))
                        &&& final (self).peers_v() == old_peers
                    },
                    Ok(resp) => {
                        if !resp.success {
                            &&& r == Err::<(), HandshakeFailure>(HandshakeFailure::Refused)
                            &&& final (self).peers_v() == old_peers.update(
                                idx,
                                (PeerV {
                                    status: PeerStatusV::Error(
                                        match resp.error_message {
                                            Some(t) => t,
                                            None => "\u{63e1}\u{624b}\u{5931}\u{8d25}"@,
                                        },
                                    ),
                                    ..peer_at_addr(old_peers, peer_addr)
                                }),
                            )
                        } else {
                            let expected = spec_metadata_get(local.metadata, "network_id"@);
                            let remote = spec_metadata_get(
                                resp.node_info.metadata,
                                "network_id"@,
                            );
                            if expected is Some && expected != remote {
                                &&& r == Err::<(), HandshakeFailure>(
                                    HandshakeFailure::NetworkIdMismatch,
                                )
                                &&& final (self).peers_v() == old_peers.update(
                                    idx,
                                    (PeerV {
                                        status: PeerStatusV::Error(
                                            "\u{7f51}\u{7edc}ID\u{4e0d}\u{5339}\u{914d}"@,
                                        ),
                                        ..peer_at_addr(old_peers, peer_addr)
                                    }),
                                )
                            } else if exists|k: int|
                                0 <= k < old_peers.len() && k != idx && (
                                #[trigger] old_peers[k]).id == resp.node_info.id {
                                &&& r == Err::<(), HandshakeFailure>(HandshakeFailure::NodeIdExists)
                                &&& final (self).peers_v() == old_peers
                            } else {
                                &&& r == Ok::<(), HandshakeFailure>(())
                                &&& final (self).peers_v() == old_peers.update(
                                    idx,
                                    (PeerV {
                                        id: resp.node_info.id,
                                        node_info: Some(resp.node_info),
                                        status: PeerStatusV::Authenticated,
                                        ..peer_at_addr(old_peers, peer_addr)
                                    }),
                                )
                            }
                        }
                    },
                }
            }),
    {
        let resp = match HandshakeProtocol::validate_handshake_response(message) {
            Ok(h) => h,
            Err(e) => {
                return Err(HandshakeFailure::Invalid(e));
            },
        };
        let idx = self.find_addr_idx(peer_addr);
        proof {
            let k = idx_of_addr(self.peers_v(), peer_addr);
            assert(0 <= k < self.peers_v().len() && self.peers_v()[k].addr == peer_addr);
            assert(k == idx as int);
        }
        if !resp.success {
            let text = match resp.error_message {
                Some(t) => t,
                None => "\u{63e1}\u{624b}\u{5931}\u{8d25}".to_owned(),
            };
            let ghost old_deep = self.peers_v();
            let p = &mut self.peers[idx];
            p.update_status(PeerStatus::Error(text));
            proof {
                assert(self.peers_v() =~= old_deep.update(
                    idx as int,
                    (PeerV {
                        status: self.peers_v()[idx as int].status,
                        ..peer_at_addr(old_deep, peer_addr)
                    }),
                ));
                lemma_update_same_keys_wf(old_deep, self.peers_v(), idx as int);
            }
            return Err(HandshakeFailure::Refused);
        }
        let expected = metadata_get(&self.local_node_info.metadata, "network_id");
        let remote = metadata_get(&resp.node_info.metadata, "network_id");
        let mismatch = match (expected, remote) {
            (Some(e), Some(r)) => !crate::value::str_eq(e.as_str(), r.as_str()),
            (Some(_), None) => true,
            _ => false,
        };
        if mismatch {
            let ghost old_deep = self.peers_v();
            let p = &mut self.peers[idx];
            p.update_status(
                PeerStatus::Error("\u{7f51}\u{7edc}ID\u{4e0d}\u{5339}\u{914d}".to_owned()),
            );
            proof {
                assert(self.peers_v() =~= old_deep.update(
                    idx as int,
                    (PeerV {
                        status: PeerStatusV::Error("\u{7f51}\u{7edc}ID\u{4e0d}\u{5339}\u{914d}"@),
                        ..peer_at_addr(old_deep, peer_addr)
                    }),
                ));
                lemma_update_same_keys_wf(old_deep, self.peers_v(), idx as int);
            }
            return Err(HandshakeFailure::NetworkIdMismatch);
        }
        let taken = match self.find_by_id(resp.node_info.id) {
            Some(k) => k != idx,
            None => false,
        };
        if taken {
            return Err(HandshakeFailure::NodeIdExists);
        }
        proof {
            if exists|k: int|
                0 <= k < self.peers_v().len() && k != idx as int && (
                #[trigger] self.peers_v()[k]).id == resp.node_info@.id {
                let k = choose|k: int|
                    0 <= k < self.peers_v().len() && k != idx as int && (
                    #[trigger] self.peers_v()[k]).id == resp.node_info@.id;
                assert(has_peer_id(self.peers_v(), resp.node_info@.id));
                assert(false);
            }
        }
        let ghost old_deep = self.peers_v();
        let new_id = resp.node_info.id;
        {
            let p = &mut self.peers[idx];
            p.id = new_id;
            p.node_info = Some(resp.node_info);
            p.status = PeerStatus::Authenticated;
        }
        proof {
            assert(self.peers_v() =~= old_deep.update(
                idx as int,
                (PeerV {
                    id: new_id,
                    node_info: self.peers_v()[idx as int].node_info,
                    status: PeerStatusV::Authenticated,
                    ..peer_at_addr(old_deep, peer_addr)
                }),
            ));
            assert forall|i: int, j: int| 0 <= i < j < self.peers_v().len() implies (
            #[trigger] self.peers_v()[i]).addr != (#[trigger] self.peers_v()[j]).addr
                && self.peers_v()[i].id != self.peers_v()[j].id by {
                assert(old_deep[i].addr != old_deep[j].addr && old_deep[i].id != old_deep[j].id);
                if i == idx as int {
                    assert(self.peers_v()[j] == old_deep[j]);
                } else if j == idx as int {
                    assert(self.peers_v()[i] == old_deep[i]);
                }
            }
        }
        Ok(())
    }

    /// Counts a liveness probe and answers it with a pong.
    pub fn handle_ping(&mut self, peer_addr: Addr, now: u64) -> (r: Vec<Outgoing>)
        requires
            old(self).wf(),
            has_peer_addr(old(self).peers_v(), peer_addr),
        ensures
            final (self).wf(),
            final (self).same_config(old(self)),
            final (self).peers_v() == old(self).peers_v().update(
                idx_of_addr(old(self).peers_v(), peer_addr),
                (PeerV {
                    last_ping: Some(now),
                    ..peer_at_addr(old(self).peers_v(), peer_addr)
                }),
            ),
            r.deep_view().len() == 1,
            r.deep_view()[0].dest == peer_addr,
            is_plain_message(r.deep_view()[0].msg, MessageType::Pong, SpecValue::Null),
    {
        self.touch_ping(peer_addr, now);
        let mut sends: Vec<Outgoing> = Vec::new();
        sends.push(Outgoing { dest: peer_addr, msg: Message::pong() });
        proof {
            assert(sends.deep_view() =~= seq![sends@[0]@]);
        }
        sends
    }

    /// Counts a pong as a liveness signal.
    pub fn handle_pong(&mut self, peer_addr: Addr, now: u64)
        requires
            old(self).wf(),
            has_peer_addr(old(self).peers_v(), peer_addr),
        ensures
            final (self).wf(),
            final (self).same_config(old(self)),
            final (self).peers_v() == old(self).peers_v().update(
                idx_of_addr(old(self).peers_v(), peer_addr),
                (PeerV {
                    last_ping: Some(now),
                    ..peer_at_addr(old(self).peers_v(), peer_addr)
                }),
            ),
    {
        self.touch_ping(peer_addr, now);
    }

    /// Records inbound liveness traffic from the given endpoint.
    fn touch_ping(&mut self, peer_addr: Addr, now: u64)
        requires
            old(self).wf(),
            has_peer_addr(old(self).peers_v(), peer_addr),
        ensures
            final (self).wf(),
            final (self).same_config(old(self)),
            final (self).peers_v() == old(self).peers_v().update(
                idx_of_addr(old(self).peers_v(), peer_addr),
                (PeerV {
                    last_ping: Some(now),
                    ..peer_at_addr(old(self).peers_v(), peer_addr)
                }),
            ),
    {
        let idx = self.find_addr_idx(peer_addr);
        proof {
            let k = idx_of_addr(self.peers_v(), peer_addr);
            assert(0 <= k < self.peers_v().len() && self.peers_v()[k].addr == peer_addr);
            assert(k == idx as int);
        }
        let ghost old_deep = self.peers_v();
        let p = &mut self.peers[idx];
        p.update_ping(now);
        proof {
            assert(self.peers_v() =~= old_deep.update(
                idx as int,
                (PeerV { last_ping: Some(now), ..peer_at_addr(old_deep, peer_addr) }),
            ));
            lemma_update_same_keys_wf(old_deep, self.peers_v(), idx as int);
        }
    }

    /// The discovery entries for all authenticated peers except the
    /// given one, each stamped with the given time.
    pub fn get_peer_info_list_excluding(&self, exclude: Option<u128>, now: u64) -> (r: Vec<
        PeerInfo,
    >)
        ensures
            r.deep_view() == peer_info_list(self.peers_v(), exclude, now),
    {
        let mut out: Vec<PeerInfo> = Vec::new();
        let n = self.peers.len();
        let mut i: usize = 0;
        proof {
            assert(self.peers_v().take(0) =~= Seq::<PeerV>::empty());
        }
        while i < n
            invariant
                n == self.peers@.len(),
                0 <= i <= n,
                self.peers_v().len() == n,
                out.deep_view() == peer_info_list(self.peers_v().take(i as int), exclude, now),
            decreases n - i,
        {
            let ghost pre = self.peers_v().take(i as int);
            let ghost cur = self.peers_v().take(i + 1);
            proof {
                assert(cur.drop_last() =~= pre);
                assert(cur.last() == self.peers_v()[i as int]);
            }
            if self.peers[i].is_authenticated() {
                match &self.peers[i].node_info {
                    Some(info) => {
                        let excluded = match exclude {
                            Some(x) => info.id == x,
                            None => false,
                        };
                        if !excluded {
                            let entry = PeerInfo {
                                id: info.id,
                                addr: info.listen_addr,
                                last_seen: now,
                                capabilities: clone_strings(&info.capabilities),
                            };
                            out.push(entry);
                        }
                    },
                    None => {},
                }
            }
            proof {
                assert(out.deep_view() =~= peer_info_list(cur, exclude, now));
            }
            i = i + 1;
        }
        proof {
            assert(self.peers_v().take(n as int) =~= self.peers_v());
        }
        out
    }

    /// The discovery entries for all authenticated peers.
    pub fn get_peer_info_list(&self, now: u64) -> (r: Vec<PeerInfo>)
        ensures
            r.deep_view() == peer_info_list(self.peers_v(), None, now),
    {
        self.get_peer_info_list_excluding(None, now)
    }
}

/// Updating one record without changing its endpoint or identifier
/// keeps the registry well-formed.
proof fn lemma_update_same_keys_wf(old_peers: Seq<PeerV>, new_peers: Seq<PeerV>, idx: int)
    requires
        wf_peers(old_peers),
        new_peers.len() == old_peers.len(),
        0 <= idx < old_peers.len(),
        new_peers[idx].addr == old_peers[idx].addr,
        new_peers[idx].id == old_peers[idx].id,
        forall|i: int| 0 <= i < old_peers.len() && i != idx ==> new_peers[i] == old_peers[i],
    ensures
        wf_peers(new_peers),
{
    assert forall|i: int, j: int| 0 <= i < j < new_peers.len() implies (
    #[trigger] new_peers[i]).addr != (#[trigger] new_peers[j]).addr && new_peers[i].id
        != new_peers[j].id by {
        assert(old_peers[i].addr != old_peers[j].addr && old_peers[i].id != old_peers[j].id);
        assert(new_peers[i].addr == old_peers[i].addr && new_peers[i].id == old_peers[i].id);
        assert(new_peers[j].addr == old_peers[j].addr && new_peers[j].id == old_peers[j].id);
    }
}

/// Exactly one record holds any live endpoint: any two indices that
/// agree on the endpoint are the same index.
pub proof fn lemma_one_record_per_address(peers: Seq<PeerV>, a: Addr, i: int, j: int)
    requires
        wf_peers(peers),
        0 <= i < peers.len(),
        0 <= j < peers.len(),
        peers[i].addr == a,
        peers[j].addr == a,
    ensures
        i == j,
{
}

/// The two indexes agree: looking an authenticated peer up by its
/// endpoint and by its identifier yields the same record.
pub proof fn lemma_dual_index_agree(peers: Seq<PeerV>, i: int)
    requires
        wf_peers(peers),
        0 <= i < peers.len(),
    ensures
        has_peer_addr(peers, peers[i].addr),
        has_peer_id(peers, peers[i].id),
        peer_at_addr(peers, peers[i].addr) == peers[i],
        peer_at_id(peers, peers[i].id) == peers[i],
        peer_at_addr(peers, peers[i].addr) == peer_at_id(peers, peers[i].id),
{
    assert(has_peer_addr(peers, peers[i].addr));
    assert(has_peer_id(peers, peers[i].id));
    let ka = idx_of_addr(peers, peers[i].addr);
    assert(0 <= ka < peers.len() && peers[ka].addr == peers[i].addr);
    if ka != i {
        assert(false);
    }
    let ki = idx_of_id(peers, peers[i].id);
    assert(0 <= ki < peers.len() && peers[ki].id == peers[i].id);
    if ki != i {
        assert(false);
    }
}

/// Filtering keeps endpoints and identifiers unique.
proof fn lemma_filter_keeps_wf(peers: Seq<PeerV>, pred: spec_fn(PeerV) -> bool)
    requires
        wf_peers(peers),
    ensures
        wf_peers(peers.filter(pred)),
        forall|i: int|
            0 <= i < peers.filter(pred).len() ==> exists|k: int|
                0 <= k < peers.len() && peers[k] == #[trigger] peers.filter(pred)[i],
    decreases peers.len(),
{
    reveal(Seq::filter);
    if peers.len() > 0 {
        let front = peers.drop_last();
        assert(wf_peers(front)) by {
            assert forall|i: int, j: int| 0 <= i < j < front.len() implies (
            #[trigger] front[i]).addr != (#[trigger] front[j]).addr && front[i].id != front[j].id by {
                assert(front[i] == peers[i] && front[j] == peers[j]);
            }
        }
        lemma_filter_keeps_wf(front, pred);
        let ff = front.filter(pred);
        assert forall|i: int|
            0 <= i < peers.filter(pred).len() implies exists|k: int|
            0 <= k < peers.len() && peers[k] == #[trigger] peers.filter(pred)[i] by {
            if i < ff.len() {
                let k = choose|k: int| 0 <= k < front.len() && front[k] == ff[i];
                assert(peers[k] == peers.filter(pred)[i]);
            } else {
                assert(peers.filter(pred)[i] == peers.last());
                assert(peers[peers.len() - 1] == peers.filter(pred)[i]);
            }
        }
        if pred(peers.last()) {
            let out = ff.push(peers.last());
            assert forall|i: int, j: int| 0 <= i < j < out.len() implies (#[trigger] out[i]).addr
                != (#[trigger] out[j]).addr && out[i].id != out[j].id by {
                if j < ff.len() {
                } else {
                    assert(out[j] == peers.last());
                    let k = choose|k: int| 0 <= k < front.len() && front[k] == ff[i];
                    assert(out[i] == peers[k]);
                    assert(peers[k].addr != peers[peers.len() - 1].addr);
                }
            }
            assert(peers.filter(pred) == out);
        }
    }
}

} // verus!
