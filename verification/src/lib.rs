//! A minimal service-registration-and-discovery broker library.
//!
//! Services register a logical name and receive a virtual IPv4 address and a
//! TCP port drawn from a bounded pool; they keep the registration alive with
//! periodic heartbeats, and a byte-transparent proxy resolves names to live
//! backends. This crate holds the broker's logic — the registry and its port
//! pool, the wire-level registration/heartbeat protocol, the proxy dispatch
//! decision, and the client-side state machine — each function with a proved
//! contract. The surrounding I/O (listeners, socket reads and writes, the
//! periodic sweep timer) lives outside the library and hands it plain values.

use vstd::prelude::*;

pub mod client;
pub mod network;
pub mod protocol;
pub mod proxy;
pub mod registry;
pub mod text;

verus! {

use crate::network::SockAddr;

/// Construction-time configuration for the broker: where each listener binds,
/// how often the liveness sweep runs, and how old a heartbeat may grow before
/// its record is evicted.
pub struct NetSelConfig {
    /// Bind address of the registration/heartbeat server.
    pub registry_addr: SockAddr,
    /// Bind address of the TCP proxy dispatcher.
    pub tcp_proxy_addr: SockAddr,
    /// Bind address of the HTTP-aware proxy (an external collaborator; the
    /// library only carries its address).
    pub http_proxy_addr: SockAddr,
    /// Bind address of the name-resolution server (likewise external).
    pub dns_addr: SockAddr,
    /// Seconds between liveness sweeps.
    pub health_check_interval: u64,
    /// Maximum seconds since the last heartbeat before a record is evicted.
    pub max_heartbeat_age: u64,
}

impl Default for NetSelConfig {
    /// The stock configuration: registration on port 9000, TCP proxy on 8080,
    /// HTTP proxy on 8081, name resolution on loopback 5353, a sweep every
    /// 30 seconds, eviction after 60 seconds without a heartbeat.
    fn default() -> (c: NetSelConfig)
        ensures
            c.registry_addr == (SockAddr { ip: 0, port: 9000 }),
            c.tcp_proxy_addr == (SockAddr { ip: 0, port: 8080 }),
            c.http_proxy_addr == (SockAddr { ip: 0, port: 8081 }),
            c.dns_addr == (SockAddr { ip: 0x7F000001, port: 5353 }),
            c.health_check_interval == 30,
            c.max_heartbeat_age == 60,
    {
        NetSelConfig {
            registry_addr: SockAddr { ip: 0, port: 9000 },
            tcp_proxy_addr: SockAddr { ip: 0, port: 8080 },
            http_proxy_addr: SockAddr { ip: 0, port: 8081 },
            dns_addr: SockAddr { ip: 0x7F00_0001, port: 5353 },
            health_check_interval: 30,
            max_heartbeat_age: 60,
        }
    }
}

} // verus!
