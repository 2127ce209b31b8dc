//! How each inbound is listened on: the settings of its server, and what is done with a client.

use vstd::prelude::*;

use crate::address::SocketAddress;
use crate::config::{Alike, InboundConfig, Protocol, RouteRule, Section, TlsConfig, TransportConfig};
use crate::error::{failure, fault, CoreError, ErrorKind};
use crate::listener_binds::{naive_over_quic, naive_uses_quic, shadowsocks_udp_enabled, takes_udp};
use crate::service_config::Timeouts;
use crate::service_error::{bind_error, CoreServiceError};
use crate::shadowsocks_server::ShadowsocksServerConfig;
use crate::socks5::Socks5ServerConfig;
use crate::text::{same_text, trim, trimmed};
use crate::trojan_server::TrojanServerConfig;
use crate::tuic_server::TuicServerConfig;
use crate::user::CoreUser;

verus! {

/// What is done with a client once it is accepted.
#[derive(Clone, Copy, Debug, PartialEq, Eq, Structural)]
pub enum ClientHandling {
    Plain,
    WebSocket,
    HttpUpgrade,
    Tls,
    TlsWebSocket,
    TlsHttpUpgrade,
    TlsBridge,
}

/// How clients are accepted.
#[derive(Clone, Copy, Debug, PartialEq, Eq, Structural)]
pub enum AcceptMode {
    /// By a gRPC server.
    Grpc,
    /// By a REALITY gateway.
    Reality,
    /// By a QUIC endpoint.
    Quic,
    /// As tasks, over WebSocket in TLS.
    AsyncTlsWebSocket,
    /// As tasks, in TLS.
    AsyncTls,
    /// As tasks, as they come.
    AsyncPlain,
    /// Each by a thread.
    Threads(ClientHandling),
}

/// Whether the failures of a client are counted, so that it may be shut out for a while.
pub open spec fn counts_failures(mode: AcceptMode) -> bool {
    match mode {
        AcceptMode::AsyncTlsWebSocket => true,
        AcceptMode::AsyncTls => true,
        AcceptMode::Threads(_) => true,
        _ => false,
    }
}

/// Whether the failures of a client are counted.
pub fn uses_failure_backoff(mode: AcceptMode) -> (r: bool)
    ensures
        r == counts_failures(mode),
{
    match mode {
        AcceptMode::AsyncTlsWebSocket => true,
        AcceptMode::AsyncTls => true,
        AcceptMode::Threads(_) => true,
        _ => false,
    }
}

/// What is done with a client, by whether TLS is set and by the network.
pub open spec fn handling(tls: bool, network: Seq<char>) -> ClientHandling {
    if trim(network) == "ws"@ {
        if tls {
            ClientHandling::TlsWebSocket
        } else {
            ClientHandling::WebSocket
        }
    } else if trim(network) == "httpupgrade"@ {
        if tls {
            ClientHandling::TlsHttpUpgrade
        } else {
            ClientHandling::HttpUpgrade
        }
    } else if tls {
        ClientHandling::Tls
    } else {
        ClientHandling::Plain
    }
}

/// What is done with a client.
pub fn client_handling(tls: bool, network: &str) -> (r: ClientHandling)
    ensures
        r == handling(tls, network@),
{
    let name = trimmed(network);
    if same_text(name.as_str(), "ws") {
        if tls {
            ClientHandling::TlsWebSocket
        } else {
            ClientHandling::WebSocket
        }
    } else if same_text(name.as_str(), "httpupgrade") {
        if tls {
            ClientHandling::TlsHttpUpgrade
        } else {
            ClientHandling::HttpUpgrade
        }
    } else if tls {
        ClientHandling::Tls
    } else {
        ClientHandling::Plain
    }
}

/// Whether a network is plain TCP; none is.
pub open spec fn is_plain_tcp(network: Seq<char>) -> bool {
    trim(network).len() == 0 || trim(network) == "tcp"@
}

/// Whether a network is plain TCP.
pub fn vless_transport_is_tcp(network: &str) -> (r: bool)
    ensures
        r == is_plain_tcp(network@),
{
    let name = trimmed(network);
    name.as_str().is_empty() || same_text(name.as_str(), "tcp")
}

/// How a VMess inbound accepts clients.
pub open spec fn vmess_mode(inbound: InboundConfig) -> AcceptMode {
    if trim(inbound.transport.network@) == "grpc"@ {
        AcceptMode::Grpc
    } else {
        AcceptMode::Threads(handling(inbound.tls is Some, inbound.transport.network@))
    }
}

/// How a Trojan inbound accepts clients.
pub open spec fn trojan_mode(inbound: InboundConfig) -> AcceptMode {
    let network = trim(inbound.transport.network@);
    if network == "grpc"@ {
        AcceptMode::Grpc
    } else if inbound.tls is Some && network == "ws"@ {
        AcceptMode::AsyncTlsWebSocket
    } else {
        AcceptMode::Threads(handling(inbound.tls is Some, inbound.transport.network@))
    }
}

/// How a VLESS inbound accepts clients.
pub open spec fn vless_mode(inbound: InboundConfig) -> AcceptMode {
    let network = trim(inbound.transport.network@);
    if network == "grpc"@ {
        AcceptMode::Grpc
    } else if inbound.tls is Some && inbound.tls->0.reality is Some {
        AcceptMode::Reality
    } else if inbound.tls is Some && network == "ws"@ {
        AcceptMode::AsyncTlsWebSocket
    } else if inbound.tls is Some && is_plain_tcp(inbound.transport.network@) && trim(
        inbound.flow@,
    ) == "xtls-rprx-vision"@ {
        AcceptMode::AsyncTls
    } else if inbound.tls is None && is_plain_tcp(inbound.transport.network@) {
        AcceptMode::AsyncPlain
    } else {
        AcceptMode::Threads(handling(inbound.tls is Some, inbound.transport.network@))
    }
}

/// How an AnyTLS inbound accepts clients.
pub open spec fn anytls_mode(inbound: InboundConfig) -> AcceptMode {
    AcceptMode::Threads(
        if inbound.tls is Some {
            ClientHandling::TlsBridge
        } else {
            ClientHandling::Plain
        },
    )
}

/// How a Naive inbound accepts clients.
pub open spec fn naive_mode(inbound: InboundConfig) -> AcceptMode {
    if naive_over_quic(inbound) {
        AcceptMode::Quic
    } else {
        AcceptMode::AsyncPlain
    }
}

/// The TLS settings that a listener takes.
#[derive(Debug)]
pub struct TlsFiles {
    pub cert_file: String,
    pub key_file: String,
    pub server_name: String,
    pub alpn: Vec<String>,
    pub reject_unknown_sni: bool,
}

/// A text, or nothing where it is missing.
pub open spec fn text_or_empty(text: Option<String>) -> Seq<char> {
    match text {
        Some(text) => text@,
        None => ""@,
    }
}

/// A text, or nothing where it is missing.
fn or_empty(text: &Option<String>) -> (r: String)
    ensures
        r@ == text_or_empty(*text),
{
    match text {
        Some(text) => text.clone(),
        None => "".to_owned(),
    }
}

/// A copy of a list of texts.
fn copy_texts(list: &Vec<String>) -> (r: Vec<String>)
    ensures
        r@ == list@,
{
    let mut out: Vec<String> = Vec::new();
    let mut i: usize = 0;
    while i < list.len()
        invariant
            i <= list@.len(),
            out@ == list@.subrange(0, i as int),
        decreases list.len() - i,
    {
        out.push(list[i].clone());
        i += 1;
        assert(out@ =~= list@.subrange(0, i as int));
    }
    assert(out@ =~= list@);
    out
}

/// A copy of a list of users.
fn copy_users(users: &Vec<CoreUser>) -> (r: Vec<CoreUser>)
    ensures
        r@ == users@,
{
    let mut out: Vec<CoreUser> = Vec::new();
    let mut i: usize = 0;
    while i < users.len()
        invariant
            i <= users@.len(),
            out@ == users@.subrange(0, i as int),
        decreases users.len() - i,
    {
        out.push(users[i].clone());
        i += 1;
        assert(out@ =~= users@.subrange(0, i as int));
    }
    assert(out@ =~= users@);
    out
}

/// Whether TLS settings are those of an inbound.
pub open spec fn files_of(files: TlsFiles, tls: TlsConfig) -> bool {
    &&& files.cert_file@ == text_or_empty(tls.cert_file)
    &&& files.key_file@ == text_or_empty(tls.key_file)
    &&& files.server_name@ == tls.server_name@
    &&& files.alpn@ == tls.alpn@
    &&& files.reject_unknown_sni == tls.reject_unknown_sni
}

/// The TLS settings that a listener takes.
pub fn tls_files(tls: &TlsConfig) -> (r: TlsFiles)
    ensures
        files_of(r, *tls),
{
    TlsFiles {
        cert_file: or_empty(&tls.cert_file),
        key_file: or_empty(&tls.key_file),
        server_name: tls.server_name.clone(),
        alpn: copy_texts(&tls.alpn),
        reject_unknown_sni: tls.reject_unknown_sni,
    }
}

/// The settings of a gRPC server.
#[derive(Debug)]
pub struct GrpcPlan {
    pub service_name: String,
    pub tls: Option<TlsFiles>,
}

/// The settings of a gRPC server: the service of the transport, or else `GunService`.
pub fn grpc_plan(inbound: &InboundConfig) -> (r: GrpcPlan)
    ensures
        r.service_name@ == (match inbound.transport.service_name {
            Some(name) => name@,
            None => "GunService"@,
        }),
        match (r.tls, inbound.tls) {
            (Some(files), Some(tls)) => files_of(files, tls),
            (None, None) => true,
            _ => false,
        },
{
    let service_name = match &inbound.transport.service_name {
        Some(name) => name.clone(),
        None => "GunService".to_owned(),
    };
    let tls = match &inbound.tls {
        Some(tls) => Some(tls_files(tls)),
        None => None,
    };
    GrpcPlan { service_name, tls }
}

/// How an inbound is listened on: the settings of its server, and how it accepts clients.
#[derive(Debug)]
pub struct ListenerPlan<C> {
    pub settings: C,
    pub mode: AcceptMode,
}

/// Settings of an HTTP, VMess or Mieru server.
#[derive(Debug)]
pub struct ProxyServerConfig {
    pub node_tag: String,
    pub listen: SocketAddress,
    pub users: Vec<CoreUser>,
    pub routes: Vec<RouteRule>,
    pub connect_timeout_secs: u64,
}

/// Settings of a VLESS server.
#[derive(Debug)]
pub struct VlessServerConfig {
    pub node_tag: String,
    pub listen: SocketAddress,
    pub users: Vec<CoreUser>,
    pub routes: Vec<RouteRule>,
    pub flow: String,
    pub connect_timeout_secs: u64,
    pub connection_idle_secs: u64,
    pub uplink_only_secs: u64,
    pub downlink_only_secs: u64,
}

/// Settings of an AnyTLS server.
#[derive(Debug)]
pub struct AnyTlsServerConfig {
    pub node_tag: String,
    pub listen: SocketAddress,
    pub users: Vec<CoreUser>,
    pub routes: Vec<RouteRule>,
    pub connect_timeout_secs: u64,
    pub padding_scheme: Vec<String>,
}

/// Settings of a Trojan listener: those of its server, and how it relays.
#[derive(Debug)]
pub struct TrojanListenerConfig {
    pub server: TrojanServerConfig,
    pub connection_idle_secs: u64,
    pub uplink_only_secs: u64,
    pub downlink_only_secs: u64,
    pub sniffing: Section,
    pub sniffing_cache_millis: u64,
}

/// The disguise of a Hysteria2 server.
#[derive(Debug, PartialEq, Eq)]
pub struct Hysteria2ObfsConfig {
    pub kind: String,
    pub password: String,
}

/// Settings of a Hysteria2 server.
#[derive(Debug)]
pub struct Hysteria2ServerConfig {
    pub node_tag: String,
    pub listen: SocketAddress,
    pub users: Vec<CoreUser>,
    pub routes: Vec<RouteRule>,
    pub tls: TlsFiles,
    pub connect_timeout_secs: u64,
    pub up_mbps: u64,
    pub down_mbps: u64,
    pub ignore_client_bandwidth: bool,
    pub congestion_control: String,
    pub obfs: Option<Hysteria2ObfsConfig>,
}

/// Settings of a Naive server.
#[derive(Debug)]
pub struct NaiveServerConfig {
    pub node_tag: String,
    pub listen: SocketAddress,
    pub users: Vec<CoreUser>,
    pub routes: Vec<RouteRule>,
    pub tls: TlsFiles,
    pub connect_timeout_secs: u64,
}

/// The disguise that a transport sets: its kind and its password, unless both are blank.
pub open spec fn obfs_of(transport: TransportConfig) -> Option<(Seq<char>, Seq<char>)> {
    let kind = trim(text_or_empty(transport.obfs));
    let password = trim(text_or_empty(transport.obfs_password));
    if kind.len() == 0 && password.len() == 0 {
        None
    } else {
        Some((kind, password))
    }
}

/// The view of a disguise.
pub open spec fn obfs_view(obfs: Option<Hysteria2ObfsConfig>) -> Option<(Seq<char>, Seq<char>)> {
    match obfs {
        Some(obfs) => Some((obfs.kind@, obfs.password@)),
        None => None,
    }
}

/// The disguise that a transport sets.
pub fn hysteria2_obfs_config(transport: &TransportConfig) -> (r: Option<Hysteria2ObfsConfig>)
    ensures
        obfs_view(r) == obfs_of(*transport),
{
    let kind_text = or_empty(&transport.obfs);
    let password_text = or_empty(&transport.obfs_password);
    let kind = trimmed(kind_text.as_str());
    let password = trimmed(password_text.as_str());
    if kind.as_str().is_empty() && password.as_str().is_empty() {
        None
    } else {
        Some(Hysteria2ObfsConfig { kind, password })
    }
}

/// Whether settings are those of an inbound at an address.
pub open spec fn base_settings(
    inbound: InboundConfig,
    addr: SocketAddress,
    node_tag: String,
    listen: SocketAddress,
    users: Vec<CoreUser>,
) -> bool {
    node_tag@ == inbound.tag@ && listen == addr && users@ == inbound.users@
}

/// What planning a SOCKS5 inbound comes to.
pub open spec fn socks_planned(
    inbound: InboundConfig,
    listen: Result<SocketAddress, CoreError>,
    routes: Vec<RouteRule>,
    timeouts: Timeouts,
    r: Result<ListenerPlan<Socks5ServerConfig>, CoreServiceError>,
) -> bool {
    match listen {
        Err(e) => r is Err && r->Err_0.is_bind(inbound.tag@, e@),
        Ok(addr) => {
            &&& r is Ok
            &&& base_settings(
                inbound,
                addr,
                r->Ok_0.settings.node_tag,
                r->Ok_0.settings.listen,
                r->Ok_0.settings.users,
            )
            &&& r->Ok_0.settings.routes == routes
            &&& r->Ok_0.settings.connect_timeout_millis == timeouts.connect_secs * 1000
            &&& r->Ok_0.mode == AcceptMode::Threads(ClientHandling::Plain)
        },
    }
}

/// Plans a SOCKS5 inbound.
pub fn start_socks_listener(
    inbound: &InboundConfig,
    listen: Result<SocketAddress, CoreError>,
    routes: Vec<RouteRule>,
    timeouts: &Timeouts,
) -> (r: Result<ListenerPlan<Socks5ServerConfig>, CoreServiceError>)
    requires
        timeouts.connect_secs * 1000 <= u64::MAX,
    ensures
        socks_planned(*inbound, listen, routes, *timeouts, r),
{
    match listen {
        Err(e) => Err(bind_error(inbound.tag.as_str(), e)),
        Ok(addr) => Ok(
            ListenerPlan {
                settings: Socks5ServerConfig {
                    node_tag: inbound.tag.clone(),
                    listen: addr,
                    users: copy_users(&inbound.users),
                    routes,
                    connect_timeout_millis: timeouts.connect_secs * 1000,
                },
                mode: AcceptMode::Threads(ClientHandling::Plain),
            },
        ),
    }
}

/// What planning an inbound with plain proxy settings comes to.
pub open spec fn proxy_planned(
    inbound: InboundConfig,
    listen: Result<SocketAddress, CoreError>,
    routes: Vec<RouteRule>,
    timeouts: Timeouts,
    mode: AcceptMode,
    r: Result<ListenerPlan<ProxyServerConfig>, CoreServiceError>,
) -> bool {
    match listen {
        Err(e) => r is Err && r->Err_0.is_bind(inbound.tag@, e@),
        Ok(addr) => {
            &&& r is Ok
            &&& base_settings(
                inbound,
                addr,
                r->Ok_0.settings.node_tag,
                r->Ok_0.settings.listen,
                r->Ok_0.settings.users,
            )
            &&& r->Ok_0.settings.routes == routes
            &&& r->Ok_0.settings.connect_timeout_secs == timeouts.connect_secs
            &&& r->Ok_0.mode == mode
        },
    }
}

/// Plans an inbound with plain proxy settings.
fn start_proxy_listener(
    inbound: &InboundConfig,
    listen: Result<SocketAddress, CoreError>,
    routes: Vec<RouteRule>,
    timeouts: &Timeouts,
    mode: AcceptMode,
) -> (r: Result<ListenerPlan<ProxyServerConfig>, CoreServiceError>)
    ensures
        proxy_planned(*inbound, listen, routes, *timeouts, mode, r),
{
    match listen {
        Err(e) => Err(bind_error(inbound.tag.as_str(), e)),
        Ok(addr) => Ok(
            ListenerPlan {
                settings: ProxyServerConfig {
                    node_tag: inbound.tag.clone(),
                    listen: addr,
                    users: copy_users(&inbound.users),
                    routes,
                    connect_timeout_secs: timeouts.connect_secs,
                },
                mode,
            },
        ),
    }
}

/// Plans an HTTP inbound.
pub fn start_http_listener(
    inbound: &InboundConfig,
    listen: Result<SocketAddress, CoreError>,
    routes: Vec<RouteRule>,
    timeouts: &Timeouts,
) -> (r: Result<ListenerPlan<ProxyServerConfig>, CoreServiceError>)
    ensures
        proxy_planned(
            *inbound,
            listen,
            routes,
            *timeouts,
            AcceptMode::Threads(ClientHandling::Plain),
            r,
        ),
{
    start_proxy_listener(
        inbound,
        listen,
        routes,
        timeouts,
        AcceptMode::Threads(ClientHandling::Plain),
    )
}

/// Plans a Mieru inbound.
pub fn start_mieru_listener(
    inbound: &InboundConfig,
    listen: Result<SocketAddress, CoreError>,
    routes: Vec<RouteRule>,
    timeouts: &Timeouts,
) -> (r: Result<ListenerPlan<ProxyServerConfig>, CoreServiceError>)
    ensures
        proxy_planned(
            *inbound,
            listen,
            routes,
            *timeouts,
            AcceptMode::Threads(ClientHandling::Plain),
            r,
        ),
{
    start_proxy_listener(
        inbound,
        listen,
        routes,
        timeouts,
        AcceptMode::Threads(ClientHandling::Plain),
    )
}

/// Plans a VMess inbound.
pub fn start_vmess_listener(
    inbound: &InboundConfig,
    listen: Result<SocketAddress, CoreError>,
    routes: Vec<RouteRule>,
    timeouts: &Timeouts,
) -> (r: Result<ListenerPlan<ProxyServerConfig>, CoreServiceError>)
    ensures
        proxy_planned(*inbound, listen, routes, *timeouts, vmess_mode(*inbound), r),
{
    let network = trimmed(inbound.transport.network.as_str());
    let mode = if same_text(network.as_str(), "grpc") {
        AcceptMode::Grpc
    } else {
        AcceptMode::Threads(
            client_handling(inbound.tls.is_some(), inbound.transport.network.as_str()),
        )
    };
    start_proxy_listener(inbound, listen, routes, timeouts, mode)
}

/// What planning a VLESS inbound comes to.
pub open spec fn vless_planned(
    inbound: InboundConfig,
    listen: Result<SocketAddress, CoreError>,
    routes: Vec<RouteRule>,
    timeouts: Timeouts,
    r: Result<ListenerPlan<VlessServerConfig>, CoreServiceError>,
) -> bool {
    match listen {
        Err(e) => r is Err && r->Err_0.is_bind(inbound.tag@, e@),
        Ok(addr) => {
            &&& r is Ok
            &&& base_settings(
                inbound,
                addr,
                r->Ok_0.settings.node_tag,
                r->Ok_0.settings.listen,
                r->Ok_0.settings.users,
            )
            &&& r->Ok_0.settings.routes == routes
            &&& r->Ok_0.settings.flow@ == inbound.flow@
            &&& r->Ok_0.settings.connect_timeout_secs == timeouts.connect_secs
            &&& r->Ok_0.settings.connection_idle_secs == timeouts.connection_idle_secs
            &&& r->Ok_0.settings.uplink_only_secs == timeouts.uplink_only_secs
            &&& r->Ok_0.settings.downlink_only_secs == timeouts.downlink_only_secs
            &&& r->Ok_0.mode == vless_mode(inbound)
        },
    }
}

/// How a VLESS inbound accepts clients.
fn choose_vless_mode(inbound: &InboundConfig) -> (r: AcceptMode)
    ensures
        r == vless_mode(*inbound),
{
    let network = trimmed(inbound.transport.network.as_str());
    if same_text(network.as_str(), "grpc") {
        return AcceptMode::Grpc;
    }
    match &inbound.tls {
        Some(tls) => {
            if tls.reality.is_some() {
                return AcceptMode::Reality;
            }
            if same_text(network.as_str(), "ws") {
                return AcceptMode::AsyncTlsWebSocket;
            }
            let flow = trimmed(inbound.flow.as_str());
            if vless_transport_is_tcp(inbound.transport.network.as_str()) && same_text(
                flow.as_str(),
                "xtls-rprx-vision",
            ) {
                return AcceptMode::AsyncTls;
            }
            AcceptMode::Threads(client_handling(true, inbound.transport.network.as_str()))
        },
        None => {
            if vless_transport_is_tcp(inbound.transport.network.as_str()) {
                return AcceptMode::AsyncPlain;
            }
            AcceptMode::Threads(client_handling(false, inbound.transport.network.as_str()))
        },
    }
}

/// Plans a VLESS inbound.
pub fn start_vless_listener(
    inbound: &InboundConfig,
    listen: Result<SocketAddress, CoreError>,
    routes: Vec<RouteRule>,
    timeouts: &Timeouts,
) -> (r: Result<ListenerPlan<VlessServerConfig>, CoreServiceError>)
    ensures
        vless_planned(*inbound, listen, routes, *timeouts, r),
{
    match listen {
        Err(e) => Err(bind_error(inbound.tag.as_str(), e)),
        Ok(addr) => Ok(
            ListenerPlan {
                settings: VlessServerConfig {
                    node_tag: inbound.tag.clone(),
                    listen: addr,
                    users: copy_users(&inbound.users),
                    routes,
                    flow: inbound.flow.clone(),
                    connect_timeout_secs: timeouts.connect_secs,
                    connection_idle_secs: timeouts.connection_idle_secs,
                    uplink_only_secs: timeouts.uplink_only_secs,
                    downlink_only_secs: timeouts.downlink_only_secs,
                },
                mode: choose_vless_mode(inbound),
            },
        ),
    }
}

/// What planning a Trojan inbound comes to.
pub open spec fn trojan_planned(
    inbound: InboundConfig,
    listen: Result<SocketAddress, CoreError>,
    routes: Vec<RouteRule>,
    timeouts: Timeouts,
    r: Result<ListenerPlan<TrojanListenerConfig>, CoreServiceError>,
) -> bool {
    match listen {
        Err(e) => r is Err && r->Err_0.is_bind(inbound.tag@, e@),
        Ok(addr) => {
            &&& r is Ok
            &&& base_settings(
                inbound,
                addr,
                r->Ok_0.settings.server.node_tag,
                r->Ok_0.settings.server.listen,
                r->Ok_0.settings.server.users,
            )
            &&& r->Ok_0.settings.server.routes == routes
            &&& r->Ok_0.settings.server.connect_timeout_millis == timeouts.connect_secs * 1000
            &&& r->Ok_0.settings.connection_idle_secs == timeouts.connection_idle_secs
            &&& r->Ok_0.settings.uplink_only_secs == timeouts.uplink_only_secs
            &&& r->Ok_0.settings.downlink_only_secs == timeouts.downlink_only_secs
            &&& inbound.sniffing.alike(r->Ok_0.settings.sniffing)
            &&& r->Ok_0.settings.sniffing_cache_millis == timeouts.sniffing_cache_millis
            &&& r->Ok_0.mode == trojan_mode(inbound)
        },
    }
}

/// Plans a Trojan inbound.
pub fn start_trojan_listener(
    inbound: &InboundConfig,
    listen: Result<SocketAddress, CoreError>,
    routes: Vec<RouteRule>,
    timeouts: &Timeouts,
) -> (r: Result<ListenerPlan<TrojanListenerConfig>, CoreServiceError>)
    requires
        timeouts.connect_secs * 1000 <= u64::MAX,
    ensures
        trojan_planned(*inbound, listen, routes, *timeouts, r),
{
    let addr = match listen {
        Ok(addr) => addr,
        Err(e) => {
            return Err(bind_error(inbound.tag.as_str(), e));
        },
    };
    let network = trimmed(inbound.transport.network.as_str());
    let tls = inbound.tls.is_some();
    let mode = if same_text(network.as_str(), "grpc") {
        AcceptMode::Grpc
    } else if tls && same_text(network.as_str(), "ws") {
        AcceptMode::AsyncTlsWebSocket
    } else {
        AcceptMode::Threads(client_handling(tls, inbound.transport.network.as_str()))
    };
    Ok(
        ListenerPlan {
            settings: TrojanListenerConfig {
                server: TrojanServerConfig {
                    node_tag: inbound.tag.clone(),
                    listen: addr,
                    users: copy_users(&inbound.users),
                    routes,
                    connect_timeout_millis: timeouts.connect_secs * 1000,
                },
                connection_idle_secs: timeouts.connection_idle_secs,
                uplink_only_secs: timeouts.uplink_only_secs,
                downlink_only_secs: timeouts.downlink_only_secs,
                sniffing: inbound.sniffing.copied(),
                sniffing_cache_millis: timeouts.sniffing_cache_millis,
            },
            mode,
        },
    )
}

/// What planning a Shadowsocks inbound comes to.
pub open spec fn shadowsocks_planned(
    inbound: InboundConfig,
    listen: Result<SocketAddress, CoreError>,
    routes: Vec<RouteRule>,
    timeouts: Timeouts,
    r: Result<(ListenerPlan<ShadowsocksServerConfig>, bool), CoreServiceError>,
) -> bool {
    match listen {
        Err(e) => r is Err && r->Err_0.is_bind(inbound.tag@, e@),
        Ok(addr) => {
            &&& r is Ok
            &&& base_settings(
                inbound,
                addr,
                r->Ok_0.0.settings.node_tag,
                r->Ok_0.0.settings.listen,
                r->Ok_0.0.settings.users,
            )
            &&& r->Ok_0.0.settings.routes == routes
            &&& r->Ok_0.0.settings.method@ == text_or_empty(inbound.cipher)
            &&& r->Ok_0.0.settings.connect_timeout_millis == timeouts.connect_secs * 1000
            &&& r->Ok_0.0.mode == AcceptMode::Threads(ClientHandling::Plain)
            &&& r->Ok_0.1 == takes_udp(inbound.transport.network@)
        },
    }
}

/// Plans a Shadowsocks inbound; the second part is whether it takes UDP too.
pub fn start_shadowsocks_listener(
    inbound: &InboundConfig,
    listen: Result<SocketAddress, CoreError>,
    routes: Vec<RouteRule>,
    timeouts: &Timeouts,
) -> (r: Result<(ListenerPlan<ShadowsocksServerConfig>, bool), CoreServiceError>)
    requires
        timeouts.connect_secs * 1000 <= u64::MAX,
    ensures
        shadowsocks_planned(*inbound, listen, routes, *timeouts, r),
{
    match listen {
        Err(e) => Err(bind_error(inbound.tag.as_str(), e)),
        Ok(addr) => {
            let udp = shadowsocks_udp_enabled(&inbound.transport);
            let plan = ListenerPlan {
                settings: ShadowsocksServerConfig {
                    node_tag: inbound.tag.clone(),
                    listen: addr,
                    method: or_empty(&inbound.cipher),
                    users: copy_users(&inbound.users),
                    routes,
                    connect_timeout_millis: timeouts.connect_secs * 1000,
                },
                mode: AcceptMode::Threads(ClientHandling::Plain),
            };
            Ok((plan, udp))
        },
    }
}

/// What planning an AnyTLS inbound comes to.
pub open spec fn anytls_planned(
    inbound: InboundConfig,
    listen: Result<SocketAddress, CoreError>,
    routes: Vec<RouteRule>,
    timeouts: Timeouts,
    r: Result<ListenerPlan<AnyTlsServerConfig>, CoreServiceError>,
) -> bool {
    match listen {
        Err(e) => r is Err && r->Err_0.is_bind(inbound.tag@, e@),
        Ok(addr) => {
            &&& r is Ok
            &&& base_settings(
                inbound,
                addr,
                r->Ok_0.settings.node_tag,
                r->Ok_0.settings.listen,
                r->Ok_0.settings.users,
            )
            &&& r->Ok_0.settings.routes == routes
            &&& r->Ok_0.settings.connect_timeout_secs == timeouts.connect_secs
            &&& r->Ok_0.settings.padding_scheme@ == inbound.padding_scheme@
            &&& r->Ok_0.mode == anytls_mode(inbound)
        },
    }
}

/// Plans an AnyTLS inbound.
pub fn start_anytls_listener(
    inbound: &InboundConfig,
    listen: Result<SocketAddress, CoreError>,
    routes: Vec<RouteRule>,
    timeouts: &Timeouts,
) -> (r: Result<ListenerPlan<AnyTlsServerConfig>, CoreServiceError>)
    ensures
        anytls_planned(*inbound, listen, routes, *timeouts, r),
{
    match listen {
        Err(e) => Err(bind_error(inbound.tag.as_str(), e)),
        Ok(addr) => Ok(
            ListenerPlan {
                settings: AnyTlsServerConfig {
                    node_tag: inbound.tag.clone(),
                    listen: addr,
                    users: copy_users(&inbound.users),
                    routes,
                    connect_timeout_secs: timeouts.connect_secs,
                    padding_scheme: copy_texts(&inbound.padding_scheme),
                },
                mode: AcceptMode::Threads(
                    if inbound.tls.is_some() {
                        ClientHandling::TlsBridge
                    } else {
                        ClientHandling::Plain
                    },
                ),
            },
        ),
    }
}

/// What planning a TUIC inbound comes to.
pub open spec fn tuic_planned(
    inbound: InboundConfig,
    listen: Result<SocketAddress, CoreError>,
    routes: Vec<RouteRule>,
    timeouts: Timeouts,
    r: Result<ListenerPlan<TuicServerConfig>, CoreServiceError>,
) -> bool {
    match (listen, inbound.tls) {
        (Err(e), _) => r is Err && r->Err_0.is_bind(inbound.tag@, e@),
        (Ok(_), None) => r is Err && r->Err_0.is_bind(
            inbound.tag@,
            fault(ErrorKind::InvalidInput, "tuic requires tls config"@),
        ),
        (Ok(addr), Some(tls)) => {
            &&& r is Ok
            &&& base_settings(
                inbound,
                addr,
                r->Ok_0.settings.node_tag,
                r->Ok_0.settings.listen,
                r->Ok_0.settings.users,
            )
            &&& r->Ok_0.settings.routes == routes
            &&& r->Ok_0.settings.cert_file@ == text_or_empty(tls.cert_file)
            &&& r->Ok_0.settings.key_file@ == text_or_empty(tls.key_file)
            &&& r->Ok_0.settings.server_name@ == tls.server_name@
            &&& r->Ok_0.settings.alpn@ == tls.alpn@
            &&& r->Ok_0.settings.reject_unknown_sni == tls.reject_unknown_sni
            &&& r->Ok_0.settings.congestion_control@ == inbound.transport.congestion_control@
            &&& r->Ok_0.settings.connect_timeout_millis == timeouts.connect_secs * 1000
            &&& r->Ok_0.mode == AcceptMode::Quic
        },
    }
}

/// Plans a TUIC inbound, which needs TLS.
pub fn start_tuic_listener(
    inbound: &InboundConfig,
    listen: Result<SocketAddress, CoreError>,
    routes: Vec<RouteRule>,
    timeouts: &Timeouts,
) -> (r: Result<ListenerPlan<TuicServerConfig>, CoreServiceError>)
    requires
        timeouts.connect_secs * 1000 <= u64::MAX,
    ensures
        tuic_planned(*inbound, listen, routes, *timeouts, r),
{
    let addr = match listen {
        Ok(addr) => addr,
        Err(e) => {
            return Err(bind_error(inbound.tag.as_str(), e));
        },
    };
    match &inbound.tls {
        None => Err(
            bind_error(
                inbound.tag.as_str(),
                failure(ErrorKind::InvalidInput, "tuic requires tls config"),
            ),
        ),
        Some(tls) => Ok(
            ListenerPlan {
                settings: TuicServerConfig {
                    node_tag: inbound.tag.clone(),
                    listen: addr,
                    users: copy_users(&inbound.users),
                    routes,
                    cert_file: or_empty(&tls.cert_file),
                    key_file: or_empty(&tls.key_file),
                    server_name: tls.server_name.clone(),
                    alpn: copy_texts(&tls.alpn),
                    reject_unknown_sni: tls.reject_unknown_sni,
                    congestion_control: inbound.transport.congestion_control.clone(),
                    connect_timeout_millis: timeouts.connect_secs * 1000,
                },
                mode: AcceptMode::Quic,
            },
        ),
    }
}

/// What planning a Hysteria2 inbound comes to.
pub open spec fn hysteria2_planned(
    inbound: InboundConfig,
    listen: Result<SocketAddress, CoreError>,
    routes: Vec<RouteRule>,
    timeouts: Timeouts,
    r: Result<ListenerPlan<Hysteria2ServerConfig>, CoreServiceError>,
) -> bool {
    match (listen, inbound.tls) {
        (Err(e), _) => r is Err && r->Err_0.is_bind(inbound.tag@, e@),
        (Ok(_), None) => r is Err && r->Err_0.is_bind(
            inbound.tag@,
            fault(ErrorKind::InvalidInput, "hysteria2 requires tls config"@),
        ),
        (Ok(addr), Some(tls)) => {
            &&& r is Ok
            &&& base_settings(
                inbound,
                addr,
                r->Ok_0.settings.node_tag,
                r->Ok_0.settings.listen,
                r->Ok_0.settings.users,
            )
            &&& r->Ok_0.settings.routes == routes
            &&& files_of(r->Ok_0.settings.tls, tls)
            &&& r->Ok_0.settings.connect_timeout_secs == timeouts.connect_secs
            &&& r->Ok_0.settings.up_mbps == inbound.transport.up_mbps
            &&& r->Ok_0.settings.down_mbps == inbound.transport.down_mbps
            &&& r->Ok_0.settings.ignore_client_bandwidth
                == inbound.transport.ignore_client_bandwidth
            &&& r->Ok_0.settings.congestion_control@ == inbound.transport.congestion_control@
            &&& obfs_view(r->Ok_0.settings.obfs) == obfs_of(inbound.transport)
            &&& r->Ok_0.mode == AcceptMode::Quic
        },
    }
}

/// Plans a Hysteria2 inbound, which needs TLS.
pub fn start_hysteria2_listener(
    inbound: &InboundConfig,
    listen: Result<SocketAddress, CoreError>,
    routes: Vec<RouteRule>,
    timeouts: &Timeouts,
) -> (r: Result<ListenerPlan<Hysteria2ServerConfig>, CoreServiceError>)
    ensures
        hysteria2_planned(*inbound, listen, routes, *timeouts, r),
{
    let addr = match listen {
        Ok(addr) => addr,
        Err(e) => {
            return Err(bind_error(inbound.tag.as_str(), e));
        },
    };
    match &inbound.tls {
        None => Err(
            bind_error(
                inbound.tag.as_str(),
                failure(ErrorKind::InvalidInput, "hysteria2 requires tls config"),
            ),
        ),
        Some(tls) => Ok(
            ListenerPlan {
                settings: Hysteria2ServerConfig {
                    node_tag: inbound.tag.clone(),
                    listen: addr,
                    users: copy_users(&inbound.users),
                    routes,
                    tls: tls_files(tls),
                    connect_timeout_secs: timeouts.connect_secs,
                    up_mbps: inbound.transport.up_mbps,
                    down_mbps: inbound.transport.down_mbps,
                    ignore_client_bandwidth: inbound.transport.ignore_client_bandwidth,
                    congestion_control: inbound.transport.congestion_control.clone(),
                    obfs: hysteria2_obfs_config(&inbound.transport),
                },
                mode: AcceptMode::Quic,
            },
        ),
    }
}

/// What planning a Naive inbound comes to.
pub open spec fn naive_planned(
    inbound: InboundConfig,
    listen: Result<SocketAddress, CoreError>,
    routes: Vec<RouteRule>,
    timeouts: Timeouts,
    r: Result<ListenerPlan<NaiveServerConfig>, CoreServiceError>,
) -> bool {
    match (listen, inbound.tls) {
        (Err(e), _) => r is Err && r->Err_0.is_bind(inbound.tag@, e@),
        (Ok(_), None) => r is Err && r->Err_0.is_bind(
            inbound.tag@,
            fault(ErrorKind::InvalidInput, "naive requires tls config"@),
        ),
        (Ok(addr), Some(tls)) => {
            &&& r is Ok
            &&& base_settings(
                inbound,
                addr,
                r->Ok_0.settings.node_tag,
                r->Ok_0.settings.listen,
                r->Ok_0.settings.users,
            )
            &&& r->Ok_0.settings.routes == routes
            &&& files_of(r->Ok_0.settings.tls, tls)
            &&& r->Ok_0.settings.connect_timeout_secs == timeouts.connect_secs
            &&& r->Ok_0.mode == naive_mode(inbound)
        },
    }
}

/// Plans a Naive inbound, which needs TLS.
pub fn start_naive_listener(
    inbound: &InboundConfig,
    listen: Result<SocketAddress, CoreError>,
    routes: Vec<RouteRule>,
    timeouts: &Timeouts,
) -> (r: Result<ListenerPlan<NaiveServerConfig>, CoreServiceError>)
    ensures
        naive_planned(*inbound, listen, routes, *timeouts, r),
{
    let addr = match listen {
        Ok(addr) => addr,
        Err(e) => {
            return Err(bind_error(inbound.tag.as_str(), e));
        },
    };
    match &inbound.tls {
        None => Err(
            bind_error(
                inbound.tag.as_str(),
                failure(ErrorKind::InvalidInput, "naive requires tls config"),
            ),
        ),
        Some(tls) => {
            let mode = if naive_uses_quic(inbound) {
                AcceptMode::Quic
            } else {
                AcceptMode::AsyncPlain
            };
            Ok(
                ListenerPlan {
                    settings: NaiveServerConfig {
                        node_tag: inbound.tag.clone(),
                        listen: addr,
                        users: copy_users(&inbound.users),
                        routes,
                        tls: tls_files(tls),
                        connect_timeout_secs: timeouts.connect_secs,
                    },
                    mode,
                },
            )
        },
    }
}

/// How an inbound of any protocol is listened on.
#[derive(Debug)]
pub enum PlannedListener {
    Socks(ListenerPlan<Socks5ServerConfig>),
    Http(ListenerPlan<ProxyServerConfig>),
    Vless(ListenerPlan<VlessServerConfig>),
    Vmess(ListenerPlan<ProxyServerConfig>),
    Trojan(ListenerPlan<TrojanListenerConfig>),
    Shadowsocks(ListenerPlan<ShadowsocksServerConfig>, bool),
    AnyTls(ListenerPlan<AnyTlsServerConfig>),
    Tuic(ListenerPlan<TuicServerConfig>),
    Hysteria2(ListenerPlan<Hysteria2ServerConfig>),
    Mieru(ListenerPlan<ProxyServerConfig>),
    Naive(ListenerPlan<NaiveServerConfig>),
}

/// What planning an inbound comes to: what planning it by its protocol does.
pub open spec fn planned(
    inbound: InboundConfig,
    listen: Result<SocketAddress, CoreError>,
    routes: Vec<RouteRule>,
    timeouts: Timeouts,
    r: Result<PlannedListener, CoreServiceError>,
) -> bool {
    let plain = AcceptMode::Threads(ClientHandling::Plain);
    match inbound.protocol {
        Protocol::Socks => match r {
            Ok(PlannedListener::Socks(p)) => socks_planned(inbound, listen, routes, timeouts, Ok(p)),
            Ok(_) => false,
            Err(e) => socks_planned(inbound, listen, routes, timeouts, Err(e)),
        },
        Protocol::Http => match r {
            Ok(PlannedListener::Http(p)) => proxy_planned(
                inbound,
                listen,
                routes,
                timeouts,
                plain,
                Ok(p),
            ),
            Ok(_) => false,
            Err(e) => proxy_planned(inbound, listen, routes, timeouts, plain, Err(e)),
        },
        Protocol::Vless => match r {
            Ok(PlannedListener::Vless(p)) => vless_planned(inbound, listen, routes, timeouts, Ok(p)),
            Ok(_) => false,
            Err(e) => vless_planned(inbound, listen, routes, timeouts, Err(e)),
        },
        Protocol::Vmess => match r {
            Ok(PlannedListener::Vmess(p)) => proxy_planned(
                inbound,
                listen,
                routes,
                timeouts,
                vmess_mode(inbound),
                Ok(p),
            ),
            Ok(_) => false,
            Err(e) => proxy_planned(
                inbound,
                listen,
                routes,
                timeouts,
                vmess_mode(inbound),
                Err(e),
            ),
        },
        Protocol::Trojan => match r {
            Ok(PlannedListener::Trojan(p)) => trojan_planned(
                inbound,
                listen,
                routes,
                timeouts,
                Ok(p),
            ),
            Ok(_) => false,
            Err(e) => trojan_planned(inbound, listen, routes, timeouts, Err(e)),
        },
        Protocol::Shadowsocks => match r {
            Ok(PlannedListener::Shadowsocks(p, udp)) => shadowsocks_planned(
                inbound,
                listen,
                routes,
                timeouts,
                Ok((p, udp)),
            ),
            Ok(_) => false,
            Err(e) => shadowsocks_planned(inbound, listen, routes, timeouts, Err(e)),
        },
        Protocol::AnyTls => match r {
            Ok(PlannedListener::AnyTls(p)) => anytls_planned(
                inbound,
                listen,
                routes,
                timeouts,
                Ok(p),
            ),
            Ok(_) => false,
            Err(e) => anytls_planned(inbound, listen, routes, timeouts, Err(e)),
        },
        Protocol::Tuic => match r {
            Ok(PlannedListener::Tuic(p)) => tuic_planned(inbound, listen, routes, timeouts, Ok(p)),
            Ok(_) => false,
            Err(e) => tuic_planned(inbound, listen, routes, timeouts, Err(e)),
        },
        Protocol::Hysteria2 => match r {
            Ok(PlannedListener::Hysteria2(p)) => hysteria2_planned(
                inbound,
                listen,
                routes,
                timeouts,
                Ok(p),
            ),
            Ok(_) => false,
            Err(e) => hysteria2_planned(inbound, listen, routes, timeouts, Err(e)),
        },
        Protocol::Mieru => match r {
            Ok(PlannedListener::Mieru(p)) => proxy_planned(
                inbound,
                listen,
                routes,
                timeouts,
                plain,
                Ok(p),
            ),
            Ok(_) => false,
            Err(e) => proxy_planned(inbound, listen, routes, timeouts, plain, Err(e)),
        },
        Protocol::Naive => match r {
            Ok(PlannedListener::Naive(p)) => naive_planned(inbound, listen, routes, timeouts, Ok(p)),
            Ok(_) => false,
            Err(e) => naive_planned(inbound, listen, routes, timeouts, Err(e)),
        },
    }
}

/// Plans an inbound by its protocol.
pub fn plan_listener(
    inbound: &InboundConfig,
    listen: Result<SocketAddress, CoreError>,
    routes: Vec<RouteRule>,
    timeouts: &Timeouts,
) -> (r: Result<PlannedListener, CoreServiceError>)
    requires
        timeouts.connect_secs * 1000 <= u64::MAX,
    ensures
        planned(*inbound, listen, routes, *timeouts, r),
{
    match inbound.protocol {
        Protocol::Socks => match start_socks_listener(inbound, listen, routes, timeouts) {
            Ok(plan) => Ok(PlannedListener::Socks(plan)),
            Err(e) => Err(e),
        },
        Protocol::Http => match start_http_listener(inbound, listen, routes, timeouts) {
            Ok(plan) => Ok(PlannedListener::Http(plan)),
            Err(e) => Err(e),
        },
        Protocol::Vless => match start_vless_listener(inbound, listen, routes, timeouts) {
            Ok(plan) => Ok(PlannedListener::Vless(plan)),
            Err(e) => Err(e),
        },
        Protocol::Vmess => match start_vmess_listener(inbound, listen, routes, timeouts) {
            Ok(plan) => Ok(PlannedListener::Vmess(plan)),
            Err(e) => Err(e),
        },
        Protocol::Trojan => match start_trojan_listener(inbound, listen, routes, timeouts) {
            Ok(plan) => Ok(PlannedListener::Trojan(plan)),
            Err(e) => Err(e),
        },
        Protocol::Shadowsocks => match start_shadowsocks_listener(
            inbound,
            listen,
            routes,
            timeouts,
        ) {
            Ok((plan, udp)) => Ok(PlannedListener::Shadowsocks(plan, udp)),
            Err(e) => Err(e),
        },
        Protocol::AnyTls => match start_anytls_listener(inbound, listen, routes, timeouts) {
            Ok(plan) => Ok(PlannedListener::AnyTls(plan)),
            Err(e) => Err(e),
        },
        Protocol::Tuic => match start_tuic_listener(inbound, listen, routes, timeouts) {
            Ok(plan) => Ok(PlannedListener::Tuic(plan)),
            Err(e) => Err(e),
        },
        Protocol::Hysteria2 => match start_hysteria2_listener(inbound, listen, routes, timeouts) {
            Ok(plan) => Ok(PlannedListener::Hysteria2(plan)),
            Err(e) => Err(e),
        },
        Protocol::Mieru => match start_mieru_listener(inbound, listen, routes, timeouts) {
            Ok(plan) => Ok(PlannedListener::Mieru(plan)),
            Err(e) => Err(e),
        },
        Protocol::Naive => match start_naive_listener(inbound, listen, routes, timeouts) {
            Ok(plan) => Ok(PlannedListener::Naive(plan)),
            Err(e) => Err(e),
        },
    }
}

} // verus!
