//! Server configuration: plain values with their documented defaults.
//!
//! Loading a configuration from disk is the caller's business; the
//! library only defines the shapes and the default values.

use vstd::prelude::*;

use crate::Addr;
use crate::stun_server::StunServerConfig;

verus! {

/// Interactive connectivity establishment settings.
#[derive(Debug)]
pub struct IceConfig {
    pub enable: bool,
    pub stun_servers: Vec<String>,
    pub gathering_timeout: u64,
    pub connectivity_check_timeout: u64,
    pub max_candidates: usize,
    pub stun_retry_count: u32,
    pub stun_timeout: u64,
    pub port_prediction: PortPredictionConfig,
}

/// Port-prediction settings for address translation traversal.
#[derive(Debug)]
pub struct PortPredictionConfig {
    pub enable: bool,
    pub max_predictions: usize,
    pub min_samples: usize,
    pub prediction_window: u16,
    pub enable_ipv6: bool,
    pub port_range: (u16, u16),
    pub prediction_timeout_ms: u64,
    pub enable_port_verification: bool,
    pub verification_timeout_ms: u64,
    pub enable_nat_type_optimization: bool,
}

impl Default for PortPredictionConfig {
    /// The documented defaults.
    fn default() -> (r: PortPredictionConfig)
        ensures
            r.enable,
            r.max_predictions == 10,
            r.min_samples == 3,
            r.prediction_window == 100,
            r.enable_ipv6,
            r.port_range == (1024u16, 65535u16),
            r.prediction_timeout_ms == 5000,
            r.enable_port_verification,
            r.verification_timeout_ms == 1000,
            r.enable_nat_type_optimization,
    {
        PortPredictionConfig {
            enable: true,
            max_predictions: 10,
            min_samples: 3,
            prediction_window: 100,
            enable_ipv6: true,
            port_range: (1024, 65535),
            prediction_timeout_ms: 5000,
            enable_port_verification: true,
            verification_timeout_ms: 1000,
            enable_nat_type_optimization: true,
        }
    }
}

/// Address-translation detection settings.
#[derive(Debug)]
pub struct NatDetectionConfig {
    pub enable: bool,
    pub stun_servers: Vec<String>,
    pub detection_timeout: u64,
    pub retry_count: u32,
    pub verbose_logging: bool,
}

impl Default for NatDetectionConfig {
    /// The documented defaults.
    fn default() -> (r: NatDetectionConfig)
        ensures
            r.enable,
            r.stun_servers.deep_view() == seq![
                "stun.l.google.com:19302"@,
                "stun1.l.google.com:19302"@,
                "stun2.l.google.com:19302"@,
            ],
            r.detection_timeout == 5000,
            r.retry_count == 3,
            !r.verbose_logging,
    {
        let mut stun_servers: Vec<String> = Vec::new();
        stun_servers.push("stun.l.google.com:19302".to_owned());
        stun_servers.push("stun1.l.google.com:19302".to_owned());
        stun_servers.push("stun2.l.google.com:19302".to_owned());
        let r = NatDetectionConfig {
            enable: true,
            stun_servers,
            detection_timeout: 5000,
            retry_count: 3,
            verbose_logging: false,
        };
        proof {
            assert(r.stun_servers.deep_view() =~= seq![
                "stun.l.google.com:19302"@,
                "stun1.l.google.com:19302"@,
                "stun2.l.google.com:19302"@,
            ]);
        }
        r
    }
}

impl Default for IceConfig {
    /// The documented defaults.
    fn default() -> (r: IceConfig)
        ensures
            r.enable,
            r.stun_servers.deep_view() == seq![
                "stun.l.google.com:19302"@,
                "stun1.l.google.com:19302"@,
            ],
            r.gathering_timeout == 5000,
            r.connectivity_check_timeout == 30000,
            r.max_candidates == 10,
            r.stun_retry_count == 3,
            r.stun_timeout == 5000,
            r.port_prediction.enable,
    {
        let mut stun_servers: Vec<String> = Vec::new();
        stun_servers.push("stun.l.google.com:19302".to_owned());
        stun_servers.push("stun1.l.google.com:19302".to_owned());
        let r = IceConfig {
            enable: true,
            stun_servers,
            gathering_timeout: 5000,
            connectivity_check_timeout: 30000,
            max_candidates: 10,
            stun_retry_count: 3,
            stun_timeout: 5000,
            port_prediction: PortPredictionConfig::default(),
        };
        proof {
            assert(r.stun_servers.deep_view() =~= seq![
                "stun.l.google.com:19302"@,
                "stun1.l.google.com:19302"@,
            ]);
        }
        r
    }
}

/// The server's whole configuration.
#[derive(Debug)]
pub struct Config {
    pub listen_address: Addr,
    pub max_connections: usize,
    pub heartbeat_interval: u64,
    pub connection_timeout: u64,
    pub discovery_port_range: (u16, u16),
    pub enable_discovery: bool,
    pub network_id: String,
    pub peerlist_broadcast_debounce_ms: u64,
    pub ice: IceConfig,
    pub stun_server: StunServerConfig,
    pub allow_symmetric_nat_relay: bool,
    pub nat_detection: NatDetectionConfig,
}

impl Default for Config {
    /// The documented defaults: loopback on port 8080, one hundred
    /// connections, and the default overlay identifier.
    fn default() -> (r: Config)
        ensures
            r.listen_address == (Addr { ip: 0x7f000001, port: 8080 }),
            r.max_connections == 100,
            r.heartbeat_interval == 30,
            r.connection_timeout == 60,
            r.discovery_port_range == (8081u16, 8090u16),
            r.enable_discovery,
            r.network_id@ == "p2p_default"@,
            r.peerlist_broadcast_debounce_ms == 300,
            !r.allow_symmetric_nat_relay,
            !r.stun_server.enable,
    {
        Config {
            listen_address: Addr { ip: 0x7f000001, port: 8080 },
            max_connections: 100,
            heartbeat_interval: 30,
            connection_timeout: 60,
            discovery_port_range: (8081, 8090),
            enable_discovery: true,
            network_id: "p2p_default".to_owned(),
            peerlist_broadcast_debounce_ms: 300,
            ice: IceConfig::default(),
            stun_server: StunServerConfig::default(),
            allow_symmetric_nat_relay: false,
            nat_detection: NatDetectionConfig::default(),
        }
    }
}

} // verus!
