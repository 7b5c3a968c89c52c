//! The settings that the socket worker reads.

use vstd::prelude::*;

use crate::address::{SocketAddr, SocketAddrView};

verus! {

/// How the header that a reverse proxy sets holds the address of the peer.
#[derive(Clone, Copy, Debug, PartialEq, Eq, Structural)]
pub enum ReverseProxyPeerIpHeaderFormat {
    /// The address stands behind the last comma.
    LastAddress,
}

/// What an access list is used for.
#[derive(Clone, Copy, Debug, PartialEq, Eq, Structural)]
pub enum AccessListMode {
    /// Only torrents on the list are served.
    Allow,
    /// Torrents on the list are not served.
    Deny,
    /// All torrents are served.
    Off,
}

#[derive(Clone, Debug)]
pub struct NetworkConfig {
    pub use_ipv4: bool,
    pub use_ipv6: bool,
    pub address_ipv4: SocketAddr,
    pub address_ipv6: SocketAddr,
    /// Do not accept IPv4 connections on the IPv6 socket.
    pub set_only_ipv6: bool,
    pub tcp_backlog: i32,
    /// Serve further requests on a connection after the first one.
    pub keep_alive: bool,
    /// Take the address of the peer from a header of each request.
    pub runs_behind_reverse_proxy: bool,
    /// The name of that header, or several names separated by commas.
    pub reverse_proxy_ip_header_name: String,
    pub reverse_proxy_ip_header_format: ReverseProxyPeerIpHeaderFormat,
}

#[derive(Clone, Debug)]
pub struct ProtocolConfig {
    /// The number of torrents that one scrape request may ask for.
    pub max_scrape_torrents: usize,
}

#[derive(Clone, Debug)]
pub struct AccessListConfig {
    pub mode: AccessListMode,
}

#[derive(Clone, Debug)]
pub struct CleaningConfig {
    /// Close a connection without requests for this many seconds.
    pub max_connection_idle: u32,
    /// Seconds between two searches for idle connections.
    pub connection_cleaning_interval: u64,
}

#[derive(Clone, Debug)]
pub struct Config {
    /// The number of swarm workers, among which the torrents are divided.
    pub swarm_workers: usize,
    pub network: NetworkConfig,
    pub protocol: ProtocolConfig,
    pub access_list: AccessListConfig,
    pub cleaning: CleaningConfig,
}

impl Default for Config {
    fn default() -> (config: Self)
        ensures
            config.swarm_workers == 1,
            config.network.use_ipv4,
            config.network.use_ipv6,
            config.network.address_ipv4@ == (SocketAddrView::V4 {
                octets: Seq::new(4, |i: int| 0u8),
                port: 3000,
            }),
            config.network.address_ipv6@ == (SocketAddrView::V6 {
                groups: Seq::new(8, |i: int| 0u16),
                port: 3000,
                flowinfo: 0,
                scope_id: 0,
            }),
            config.network.set_only_ipv6,
            config.network.tcp_backlog == 1024,
            config.network.keep_alive,
            !config.network.runs_behind_reverse_proxy,
            config.network.reverse_proxy_ip_header_name@ == "X-Forwarded-For"@,
            config.network.reverse_proxy_ip_header_format
                == ReverseProxyPeerIpHeaderFormat::LastAddress,
            config.protocol.max_scrape_torrents == 100,
            config.access_list.mode == AccessListMode::Off,
            config.cleaning.max_connection_idle == 180,
            config.cleaning.connection_cleaning_interval == 60,
    {
        let octets = [0u8, 0, 0, 0];
        let groups = [0u16, 0, 0, 0, 0, 0, 0, 0];
        assert(octets@ =~= Seq::new(4, |i: int| 0u8));
        assert(groups@ =~= Seq::new(8, |i: int| 0u16));
        Config {
            swarm_workers: 1,
            network: NetworkConfig {
                use_ipv4: true,
                use_ipv6: true,
                address_ipv4: SocketAddr::V4 { octets, port: 3000 },
                address_ipv6: SocketAddr::V6 {
                    groups,
                    port: 3000,
                    flowinfo: 0,
                    scope_id: 0,
                },
                set_only_ipv6: true,
                tcp_backlog: 1024,
                keep_alive: true,
                runs_behind_reverse_proxy: false,
                reverse_proxy_ip_header_name: "X-Forwarded-For".to_owned(),
                reverse_proxy_ip_header_format: ReverseProxyPeerIpHeaderFormat::LastAddress,
            },
            protocol: ProtocolConfig { max_scrape_torrents: 100 },
            access_list: AccessListConfig { mode: AccessListMode::Off },
            cleaning: CleaningConfig { max_connection_idle: 180, connection_cleaning_interval: 60 },
        }
    }
}

} // verus!
