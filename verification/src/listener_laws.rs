//! What every listener keeps of the inbound that it is planned for.

use vstd::prelude::*;

use crate::address::{IpModel, SocketAddress, SocketModel};
use crate::config::{Alike, InboundConfig, Protocol, RouteRule};
use crate::error::{CoreError, ErrorKind, ErrorModel};
use crate::listener_binds::{
    accepted, binds_conflict, binds_of, duplicate_message, first_conflict, listen_address, lookup_view, network_text,
    protocol_text, quic_count, takes_udp, unresolved_message, with_bind, BindModel, Network,
};
use crate::listener_plan::{
    counts_failures, obfs_of, obfs_view, planned, AcceptMode, ClientHandling, PlannedListener,
};
use crate::service_config::Timeouts;
use crate::service_error::CoreServiceError;
use crate::numeral::decimal;
use crate::text::{contains, join, lemma_split_of_join, lower, trim};
use crate::text_laws::law_contains;
use crate::user::CoreUser;

verus! {

/// How a planned listener accepts clients.
pub open spec fn mode_of(p: PlannedListener) -> AcceptMode {
    match p {
        PlannedListener::Socks(p) => p.mode,
        PlannedListener::Http(p) => p.mode,
        PlannedListener::Vless(p) => p.mode,
        PlannedListener::Vmess(p) => p.mode,
        PlannedListener::Trojan(p) => p.mode,
        PlannedListener::Shadowsocks(p, _) => p.mode,
        PlannedListener::AnyTls(p) => p.mode,
        PlannedListener::Tuic(p) => p.mode,
        PlannedListener::Hysteria2(p) => p.mode,
        PlannedListener::Mieru(p) => p.mode,
        PlannedListener::Naive(p) => p.mode,
    }
}

/// The protocol that a planned listener speaks.
pub open spec fn protocol_of(p: PlannedListener) -> Protocol {
    match p {
        PlannedListener::Socks(_) => Protocol::Socks,
        PlannedListener::Http(_) => Protocol::Http,
        PlannedListener::Vless(_) => Protocol::Vless,
        PlannedListener::Vmess(_) => Protocol::Vmess,
        PlannedListener::Trojan(_) => Protocol::Trojan,
        PlannedListener::Shadowsocks(_, _) => Protocol::Shadowsocks,
        PlannedListener::AnyTls(_) => Protocol::AnyTls,
        PlannedListener::Tuic(_) => Protocol::Tuic,
        PlannedListener::Hysteria2(_) => Protocol::Hysteria2,
        PlannedListener::Mieru(_) => Protocol::Mieru,
        PlannedListener::Naive(_) => Protocol::Naive,
    }
}

/// The tag, the address, the users, the routes and the milliseconds for connecting of a planned
/// listener.
pub open spec fn basics_of(p: PlannedListener) -> (
    Seq<char>,
    SocketAddress,
    Seq<CoreUser>,
    Vec<RouteRule>,
    int,
) {
    match p {
        PlannedListener::Socks(p) => (
            p.settings.node_tag@,
            p.settings.listen,
            p.settings.users@,
            p.settings.routes,
            p.settings.connect_timeout_millis as int,
        ),
        PlannedListener::Http(p) => (
            p.settings.node_tag@,
            p.settings.listen,
            p.settings.users@,
            p.settings.routes,
            p.settings.connect_timeout_secs * 1000,
        ),
        PlannedListener::Vless(p) => (
            p.settings.node_tag@,
            p.settings.listen,
            p.settings.users@,
            p.settings.routes,
            p.settings.connect_timeout_secs * 1000,
        ),
        PlannedListener::Vmess(p) => (
            p.settings.node_tag@,
            p.settings.listen,
            p.settings.users@,
            p.settings.routes,
            p.settings.connect_timeout_secs * 1000,
        ),
        PlannedListener::Trojan(p) => (
            p.settings.server.node_tag@,
            p.settings.server.listen,
            p.settings.server.users@,
            p.settings.server.routes,
            p.settings.server.connect_timeout_millis as int,
        ),
        PlannedListener::Shadowsocks(p, _) => (
            p.settings.node_tag@,
            p.settings.listen,
            p.settings.users@,
            p.settings.routes,
            p.settings.connect_timeout_millis as int,
        ),
        PlannedListener::AnyTls(p) => (
            p.settings.node_tag@,
            p.settings.listen,
            p.settings.users@,
            p.settings.routes,
            p.settings.connect_timeout_secs * 1000,
        ),
        PlannedListener::Tuic(p) => (
            p.settings.node_tag@,
            p.settings.listen,
            p.settings.users@,
            p.settings.routes,
            p.settings.connect_timeout_millis as int,
        ),
        PlannedListener::Hysteria2(p) => (
            p.settings.node_tag@,
            p.settings.listen,
            p.settings.users@,
            p.settings.routes,
            p.settings.connect_timeout_secs * 1000,
        ),
        PlannedListener::Mieru(p) => (
            p.settings.node_tag@,
            p.settings.listen,
            p.settings.users@,
            p.settings.routes,
            p.settings.connect_timeout_secs * 1000,
        ),
        PlannedListener::Naive(p) => (
            p.settings.node_tag@,
            p.settings.listen,
            p.settings.users@,
            p.settings.routes,
            p.settings.connect_timeout_secs * 1000,
        ),
    }
}

/// The certificate file, the key file, the server name, the application protocols and whether
/// unknown server names are rejected, for the listeners that hold TLS settings.
pub open spec fn tls_of(p: PlannedListener) -> Option<
    (Seq<char>, Seq<char>, Seq<char>, Seq<String>, bool),
> {
    match p {
        PlannedListener::Tuic(p) => Some(
            (
                p.settings.cert_file@,
                p.settings.key_file@,
                p.settings.server_name@,
                p.settings.alpn@,
                p.settings.reject_unknown_sni,
            ),
        ),
        PlannedListener::Hysteria2(p) => Some(
            (
                p.settings.tls.cert_file@,
                p.settings.tls.key_file@,
                p.settings.tls.server_name@,
                p.settings.tls.alpn@,
                p.settings.tls.reject_unknown_sni,
            ),
        ),
        PlannedListener::Naive(p) => Some(
            (
                p.settings.tls.cert_file@,
                p.settings.tls.key_file@,
                p.settings.tls.server_name@,
                p.settings.tls.alpn@,
                p.settings.tls.reject_unknown_sni,
            ),
        ),
        _ => None,
    }
}

/// A listener speaks the protocol of its inbound, under the tag of the inbound, at its address,
/// for its users, with the routes and the time for connecting that it was given.
pub proof fn law_listener_is_of_its_inbound(
    inbound: InboundConfig,
    addr: SocketAddress,
    routes: Vec<RouteRule>,
    timeouts: Timeouts,
    p: PlannedListener,
)
    requires
        planned(inbound, Ok(addr), routes, timeouts, Ok(p)),
    ensures
        protocol_of(p) == inbound.protocol,
        basics_of(p) == (
            inbound.tag@,
            addr,
            inbound.users@,
            routes,
            timeouts.connect_secs * 1000,
        ),
{
}

/// A listener that holds TLS settings holds those of its inbound.
pub proof fn law_tls_settings_are_kept(
    inbound: InboundConfig,
    addr: SocketAddress,
    routes: Vec<RouteRule>,
    timeouts: Timeouts,
    p: PlannedListener,
)
    requires
        planned(inbound, Ok(addr), routes, timeouts, Ok(p)),
    ensures
        tls_of(p) matches Some((cert, key, name, alpn, strict)) ==> {
            &&& inbound.tls is Some
            &&& inbound.tls->0.cert_file matches Some(f) ==> cert == f@
            &&& inbound.tls->0.cert_file is None ==> cert.len() == 0
            &&& inbound.tls->0.key_file matches Some(f) ==> key == f@
            &&& inbound.tls->0.key_file is None ==> key.len() == 0
            &&& name == inbound.tls->0.server_name@
            &&& alpn == inbound.tls->0.alpn@
            &&& strict == inbound.tls->0.reject_unknown_sni
        },
{
    reveal_strlit("");
}

/// The other settings of a listener are those of its inbound, and the times are those that it was
/// given.
pub proof fn law_settings_are_kept(
    inbound: InboundConfig,
    addr: SocketAddress,
    routes: Vec<RouteRule>,
    timeouts: Timeouts,
    p: PlannedListener,
)
    requires
        planned(inbound, Ok(addr), routes, timeouts, Ok(p)),
    ensures
        p matches PlannedListener::Vless(p) ==> {
            &&& p.settings.flow@ == inbound.flow@
            &&& p.settings.connection_idle_secs == timeouts.connection_idle_secs
            &&& p.settings.uplink_only_secs == timeouts.uplink_only_secs
            &&& p.settings.downlink_only_secs == timeouts.downlink_only_secs
        },
        p matches PlannedListener::Trojan(p) ==> {
            &&& p.settings.sniffing.text@ == inbound.sniffing.text@
            &&& p.settings.sniffing_cache_millis == timeouts.sniffing_cache_millis
            &&& p.settings.connection_idle_secs == timeouts.connection_idle_secs
            &&& p.settings.uplink_only_secs == timeouts.uplink_only_secs
            &&& p.settings.downlink_only_secs == timeouts.downlink_only_secs
        },
        p matches PlannedListener::Shadowsocks(p, udp) ==> {
            &&& inbound.cipher matches Some(name) ==> p.settings.method@ == name@
            &&& inbound.cipher is None ==> p.settings.method@.len() == 0
            &&& udp == takes_udp(inbound.transport.network@)
        },
        p matches PlannedListener::AnyTls(p) ==> p.settings.padding_scheme@
            == inbound.padding_scheme@,
        p matches PlannedListener::Tuic(p) ==> p.settings.congestion_control@
            == inbound.transport.congestion_control@,
        p matches PlannedListener::Hysteria2(p) ==> {
            &&& p.settings.up_mbps == inbound.transport.up_mbps
            &&& p.settings.down_mbps == inbound.transport.down_mbps
            &&& p.settings.ignore_client_bandwidth == inbound.transport.ignore_client_bandwidth
            &&& p.settings.congestion_control@ == inbound.transport.congestion_control@
            &&& obfs_view(p.settings.obfs) == obfs_of(inbound.transport)
        },
{
    reveal_strlit("");
}

/// The disguise of a Hysteria2 inbound is what its transport sets, without white space around it;
/// there is none exactly where both its kind and its password are blank.
pub proof fn law_disguise(transport: crate::config::TransportConfig, kind: String, password: String)
    requires
        transport.obfs == Some(kind),
        transport.obfs_password == Some(password),
    ensures
        obfs_of(transport) is None <==> trim(kind@).len() == 0 && trim(password@).len() == 0,
        obfs_of(transport) matches Some(pair) ==> pair.0 == trim(kind@) && pair.1 == trim(
            password@,
        ),
{
}

/// Whether clients are accepted in TLS.
pub open spec fn in_tls(mode: AcceptMode) -> bool {
    ||| mode is AsyncTlsWebSocket
    ||| mode is AsyncTls
    ||| mode == AcceptMode::Threads(ClientHandling::Tls)
    ||| mode == AcceptMode::Threads(ClientHandling::TlsWebSocket)
    ||| mode == AcceptMode::Threads(ClientHandling::TlsHttpUpgrade)
    ||| mode == AcceptMode::Threads(ClientHandling::TlsBridge)
}

/// Whether clients are accepted over WebSocket.
pub open spec fn over_websocket(mode: AcceptMode) -> bool {
    ||| mode is AsyncTlsWebSocket
    ||| mode == AcceptMode::Threads(ClientHandling::WebSocket)
    ||| mode == AcceptMode::Threads(ClientHandling::TlsWebSocket)
}

/// Whether clients are accepted over an upgrade of HTTP.
pub open spec fn over_upgrade(mode: AcceptMode) -> bool {
    ||| mode == AcceptMode::Threads(ClientHandling::HttpUpgrade)
    ||| mode == AcceptMode::Threads(ClientHandling::TlsHttpUpgrade)
}

/// An inbound with TLS settings whose clients are not accepted by gRPC, REALITY or QUIC has its
/// clients accepted in TLS; one without TLS settings never has. This holds of the protocols that
/// leave TLS to the listener.
pub proof fn law_tls_is_never_left_out(
    inbound: InboundConfig,
    addr: SocketAddress,
    routes: Vec<RouteRule>,
    timeouts: Timeouts,
    p: PlannedListener,
)
    requires
        planned(inbound, Ok(addr), routes, timeouts, Ok(p)),
        inbound.protocol == Protocol::Vmess || inbound.protocol == Protocol::Vless
            || inbound.protocol == Protocol::Trojan || inbound.protocol == Protocol::AnyTls,
    ensures
        inbound.tls is Some ==> in_tls(mode_of(p)) || mode_of(p) is Grpc || mode_of(p) is Reality,
        inbound.tls is None ==> !in_tls(mode_of(p)) && !(mode_of(p) is Reality),
        mode_of(p) is Reality <==> inbound.protocol == Protocol::Vless && inbound.tls is Some
            && inbound.tls->0.reality is Some && trim(inbound.transport.network@) != "grpc"@,
        !(mode_of(p) is Quic),
{
}

/// The network of a transport decides what clients are accepted over.
pub proof fn law_network_decides(
    inbound: InboundConfig,
    addr: SocketAddress,
    routes: Vec<RouteRule>,
    timeouts: Timeouts,
    p: PlannedListener,
)
    requires
        planned(inbound, Ok(addr), routes, timeouts, Ok(p)),
        inbound.protocol == Protocol::Vmess || inbound.protocol == Protocol::Vless
            || inbound.protocol == Protocol::Trojan,
    ensures
        mode_of(p) is Grpc <==> trim(inbound.transport.network@) == "grpc"@,
        over_websocket(mode_of(p)) <==> trim(inbound.transport.network@) == "ws"@ && !(mode_of(
            p,
        ) is Reality),
        over_upgrade(mode_of(p)) <==> trim(inbound.transport.network@) == "httpupgrade"@
            && !(mode_of(p) is Reality),
        inbound.protocol == Protocol::Vmess ==> mode_of(p) is Grpc || mode_of(p) is Threads,
        mode_of(p) is AsyncTlsWebSocket <==> inbound.protocol != Protocol::Vmess && inbound.tls
            is Some && trim(inbound.transport.network@) == "ws"@ && !(mode_of(p) is Reality),
        mode_of(p) is AsyncTls <==> inbound.protocol == Protocol::Vless && inbound.tls is Some && (
        trim(inbound.transport.network@).len() == 0 || trim(inbound.transport.network@) == "tcp"@)
            && trim(inbound.flow@) == "xtls-rprx-vision"@ && !(mode_of(p) is Reality),
        mode_of(p) is AsyncPlain <==> inbound.protocol == Protocol::Vless && inbound.tls is None
            && (trim(inbound.transport.network@).len() == 0 || trim(inbound.transport.network@)
            == "tcp"@),
        mode_of(p) != AcceptMode::Threads(ClientHandling::TlsBridge),
{
    reveal_strlit("ws");
    reveal_strlit("grpc");
    reveal_strlit("httpupgrade");
    reveal_strlit("tcp");
    assert("ws"@.len() == 2 && "grpc"@.len() == 4 && "httpupgrade"@.len() == 11 && "tcp"@.len()
        == 3);
}

/// The protocols that have no transport take their clients as they come, and those that run over
/// QUIC take them by QUIC.
pub proof fn law_other_protocols(
    inbound: InboundConfig,
    addr: SocketAddress,
    routes: Vec<RouteRule>,
    timeouts: Timeouts,
    p: PlannedListener,
)
    requires
        planned(inbound, Ok(addr), routes, timeouts, Ok(p)),
    ensures
        inbound.protocol == Protocol::Socks || inbound.protocol == Protocol::Http
            || inbound.protocol == Protocol::Mieru || inbound.protocol == Protocol::Shadowsocks
            ==> mode_of(p) == AcceptMode::Threads(ClientHandling::Plain),
        inbound.protocol == Protocol::AnyTls ==> mode_of(p) == AcceptMode::Threads(
            if inbound.tls is Some {
                ClientHandling::TlsBridge
            } else {
                ClientHandling::Plain
            },
        ),
        inbound.protocol == Protocol::Tuic || inbound.protocol == Protocol::Hysteria2
            ==> mode_of(p) is Quic,
        inbound.protocol == Protocol::Naive ==> mode_of(p) is Quic || mode_of(p) is AsyncPlain,
{
}

/// A listener that takes its clients by QUIC listens on UDP alone, and one that does not listens on
/// TCP.
pub proof fn law_mode_agrees_with_sockets(
    inbound: InboundConfig,
    addr: SocketAddress,
    routes: Vec<RouteRule>,
    timeouts: Timeouts,
    p: PlannedListener,
)
    requires
        planned(inbound, Ok(addr), routes, timeouts, Ok(p)),
    ensures
        ({
            let binds = binds_of(inbound, addr@);
            &&& mode_of(p) is Quic <==> binds.len() == 1 && binds[0].network == Network::Udp
            &&& !(mode_of(p) is Quic) <==> binds.len() >= 1 && binds[0].network == Network::Tcp
            &&& p matches PlannedListener::Shadowsocks(_, udp) ==> (udp <==> binds.len() == 2)
            &&& quic_count(seq![inbound]) == if mode_of(p) is Quic {
                1nat
            } else {
                0
            }
        }),
{
    reveal_with_fuel(quic_count, 2);
    assert(seq![inbound].subrange(0, 0) =~= Seq::empty());
}

/// No listener is planned without an address; and with one, only a protocol that needs TLS and has
/// none is refused. The refusal names the inbound, and the error of its address.
pub proof fn law_refused_inbounds(
    inbound: InboundConfig,
    listen: Result<SocketAddress, CoreError>,
    routes: Vec<RouteRule>,
    timeouts: Timeouts,
    r: Result<PlannedListener, CoreServiceError>,
)
    requires
        planned(inbound, listen, routes, timeouts, r),
    ensures
        r is Err <==> listen is Err || (inbound.tls is None && (inbound.protocol == Protocol::Tuic
            || inbound.protocol == Protocol::Hysteria2 || inbound.protocol == Protocol::Naive)),
        r matches Err(e) ==> (e matches CoreServiceError::Bind { tag, source } && {
            &&& tag@ == inbound.tag@
            &&& listen matches Err(reason) ==> source@ == reason@
            &&& listen is Ok ==> source.kind == ErrorKind::InvalidInput
        }),
{
}

/// The failures of clients are counted wherever clients are accepted by threads or in TLS as
/// tasks, and nowhere else.
pub proof fn law_failures_are_counted(mode: AcceptMode)
    ensures
        counts_failures(mode) <==> mode is Threads || mode is AsyncTls || mode is AsyncTlsWebSocket,
        in_tls(mode) ==> counts_failures(mode),
{
}

/// Two sockets are in the way of each other exactly where they are of one kind, have one port, and
/// have one address or a wildcard among the two.
pub proof fn law_conflicts(a: BindModel, b: BindModel)
    ensures
        binds_conflict(a, b) <==> a.network == b.network && a.addr.port == b.addr.port && (
        a.addr.ip == b.addr.ip || only_zeros(a.addr.ip) || only_zeros(b.addr.ip)),
        binds_conflict(a, b) == binds_conflict(b, a),
        binds_conflict(a, a),
{
}

/// Whether all octets of an address are zero.
pub open spec fn only_zeros(ip: IpModel) -> bool {
    match ip {
        IpModel::V4(octets) => forall|i: int| 0 <= i < octets.len() ==> #[trigger] octets[i] == 0,
        IpModel::V6(octets) => forall|i: int| 0 <= i < octets.len() ==> #[trigger] octets[i] == 0,
    }
}

/// An inbound listens on TCP, unless it runs over QUIC; then it listens on UDP, and so does a
/// Shadowsocks inbound that takes UDP. Each socket has the tag, the protocol and the address of
/// the inbound.
pub proof fn law_sockets_of_an_inbound(inbound: InboundConfig, addr: SocketModel)
    ensures
        ({
            let binds = binds_of(inbound, addr);
            let quic = inbound.protocol == Protocol::Tuic || inbound.protocol
                == Protocol::Hysteria2 || (inbound.protocol == Protocol::Naive && (lower(
                trim(inbound.transport.network@),
            ) == "quic"@ || (inbound.tls is Some && exists|i: int|
                0 <= i < inbound.tls->0.alpn@.len() && lower(
                    trim((#[trigger] inbound.tls->0.alpn@[i])@),
                ) == "h3"@)));
            let both = inbound.protocol == Protocol::Shadowsocks && takes_udp(
                inbound.transport.network@,
            );
            &&& binds.len() == if both {
                2int
            } else {
                1
            }
            &&& binds[0].network == if quic {
                Network::Udp
            } else {
                Network::Tcp
            }
            &&& both ==> binds[1].network == Network::Udp
            &&& forall|i: int|
                0 <= i < binds.len() ==> (#[trigger] binds[i]).tag == inbound.tag@
                    && binds[i].protocol == inbound.protocol && binds[i].addr == addr
        }),
{
}

/// A network is a list of names between commas. UDP is among them exactly where one of the names
/// is `udp`, whatever the case of its letters and the white space around it.
pub proof fn law_networks_are_a_list(names: Seq<Seq<char>>)
    requires
        names.len() >= 1,
        forall|i: int| 0 <= i < names.len() ==> !(#[trigger] names[i]).contains(','),
    ensures
        takes_udp(join(names, ',')) <==> exists|i: int|
            0 <= i < names.len() && lower(trim(#[trigger] names[i])) == "udp"@,
{
    lemma_split_of_join(names, ',');
}

/// An inbound listens where its address says: on the wildcard of version six where the address is
/// blank or a wildcard, on the address that is written, or else on the first that its name was
/// looked up to.
pub proof fn law_listen_address(
    listen: Seq<char>,
    port: u16,
    lookup: Result<Option<SocketModel>, ErrorModel>,
)
    ensures
        trim(listen).len() == 0 || trim(listen) == "0.0.0.0"@ || trim(listen) == "::"@ || trim(
            listen,
        ) == "[::]"@ ==> listen_address(listen, port, lookup) == Ok::<SocketModel, ErrorModel>(
            SocketModel {
                ip: IpModel::V6(
                    seq![0u8, 0, 0, 0, 0, 0, 0, 0, 0, 0, 0, 0, 0, 0, 0, 0],
                ),
                port,
                flow_info: 0,
                scope_id: 0,
            },
        ),
        trim(listen).len() > 0 && trim(listen) != "0.0.0.0"@ && trim(listen) != "::"@ && trim(
            listen,
        ) != "[::]"@ ==> match IpModel::parse(trim(listen)) {
            Some(ip) => listen_address(listen, port, lookup) == Ok::<SocketModel, ErrorModel>(
                SocketModel { ip, port, flow_info: 0, scope_id: 0 },
            ),
            None => match lookup {
                Ok(Some(found)) => listen_address(listen, port, lookup) == Ok::<
                    SocketModel,
                    ErrorModel,
                >(found),
                Ok(None) => listen_address(listen, port, lookup) is Err,
                Err(e) => listen_address(listen, port, lookup) == Err::<SocketModel, ErrorModel>(e),
            },
        },
{
    reveal_strlit("");
    assert(trim(listen).len() == 0 ==> trim(listen) =~= ""@);
    assert(crate::socket_bind::ipv6_wildcard() == IpModel::V6(
        seq![0u8, 0, 0, 0, 0, 0, 0, 0, 0, 0, 0, 0, 0, 0, 0, 0],
    )) by {
        assert(Seq::new(16, |i: int| 0u8) =~= seq![
            0u8,
            0,
            0,
            0,
            0,
            0,
            0,
            0,
            0,
            0,
            0,
            0,
            0,
            0,
            0,
            0,
        ]);
    }
}

/// What is said of an inbound that cannot be listened on names the inbound, and the error or the
/// inbound that is in its way.
pub proof fn law_refusals_name_the_inbound(
    inbound: InboundConfig,
    e: ErrorModel,
    bind: BindModel,
    existing: BindModel,
)
    ensures
        contains(unresolved_message(inbound, e), inbound.tag@),
        contains(unresolved_message(inbound, e), inbound.listen@),
        contains(unresolved_message(inbound, e), e.message),
        contains(duplicate_message(bind, existing), bind.tag),
        contains(duplicate_message(bind, existing), existing.tag),
        contains(duplicate_message(bind, existing), bind.addr.text()),
{
    let m = unresolved_message(inbound, e);
    let a = "inbound "@;
    let b = " listen "@ + inbound.listen@ + ":"@ + decimal(inbound.port as nat)
        + " did not resolve: "@ + e.message;
    assert(m =~= a + inbound.tag@ + b);
    law_contains(m, a, inbound.tag@, b);
    let c = "inbound "@ + inbound.tag@ + " listen "@;
    let d = ":"@ + decimal(inbound.port as nat) + " did not resolve: "@ + e.message;
    assert(m =~= c + inbound.listen@ + d);
    law_contains(m, c, inbound.listen@, d);
    let f = c + inbound.listen@ + ":"@ + decimal(inbound.port as nat) + " did not resolve: "@;
    assert(m =~= f + e.message + Seq::empty());
    law_contains(m, f, e.message, Seq::empty());
    lemma_duplicate_message(bind, existing);
}

proof fn lemma_duplicate_message(bind: BindModel, existing: BindModel)
    ensures
        contains(duplicate_message(bind, existing), bind.tag),
        contains(duplicate_message(bind, existing), existing.tag),
        contains(duplicate_message(bind, existing), bind.addr.text()),
{
    let m = duplicate_message(bind, existing);
    let tail = " ("@ + protocol_text(existing.protocol)
        + "); change one node server port or listen address"@;
    let g = "duplicate "@ + network_text(bind.network) + " listen "@;
    let h = " for inbound "@;
    let k = " ("@ + protocol_text(bind.protocol) + ") conflicts with "@;
    let to_tag = g + bind.addr.text() + h;
    let to_other = to_tag + bind.tag + k;
    let last = existing.tag + tail;
    assert(m =~= to_other + existing.tag + tail);
    law_contains(m, to_other, existing.tag, tail);
    assert(m =~= to_tag + bind.tag + (k + last));
    law_contains(m, to_tag, bind.tag, k + last);
    assert(m =~= g + bind.addr.text() + (h + bind.tag + k + last));
    law_contains(m, g, bind.addr.text(), h + bind.tag + k + last);
}

/// Different protocols have different names, and so have the kinds of sockets.
pub proof fn law_names_are_distinct(a: Protocol, b: Protocol, m: Network, n: Network)
    ensures
        protocol_text(a) == protocol_text(b) ==> a == b,
        network_text(m) == network_text(n) ==> m == n,
{
    reveal_strlit("Socks");
    reveal_strlit("Http");
    reveal_strlit("Vless");
    reveal_strlit("Vmess");
    reveal_strlit("Trojan");
    reveal_strlit("Shadowsocks");
    reveal_strlit("AnyTls");
    reveal_strlit("Tuic");
    reveal_strlit("Hysteria2");
    reveal_strlit("Mieru");
    reveal_strlit("Naive");
    reveal_strlit("tcp");
    reveal_strlit("udp");
    assert("tcp"@[0] == 't' && "udp"@[0] == 'u');
    let p = protocol_text(a);
    let q = protocol_text(b);
    if p == q {
        assert(p[0] == q[0] && p[1] == q[1] && p.len() == q.len());
    }
}

/// Of the addresses that a name was looked up to, the first counts.
pub proof fn law_first_address_counts(found: Vec<SocketAddress>, e: CoreError)
    ensures
        found@.len() > 0 ==> lookup_view(Ok(found)) == Ok::<Option<SocketModel>, ErrorModel>(
            Some(found@[0]@),
        ),
        found@.len() == 0 ==> lookup_view(Ok(found)) == Ok::<Option<SocketModel>, ErrorModel>(None),
        lookup_view(Err(e)) == Err::<Option<SocketModel>, ErrorModel>(e@),
{
}

/// A socket that nothing is in the way of is taken; else the first that is in its way is named.
pub proof fn law_first_conflict_is_named(seen: Seq<BindModel>, bind: BindModel, k: int)
    ensures
        (forall|j: int| 0 <= j < seen.len() ==> !binds_conflict(#[trigger] seen[j], bind))
            ==> with_bind(seen, bind) == Ok::<Seq<BindModel>, Seq<char>>(seen.push(bind)),
        0 <= k < seen.len() && binds_conflict(seen[k], bind) && (forall|j: int|
            0 <= j < k ==> !binds_conflict(#[trigger] seen[j], bind)) ==> with_bind(seen, bind)
            == Err::<Seq<BindModel>, Seq<char>>(duplicate_message(bind, seen[k])),
{
    if 0 <= k < seen.len() && binds_conflict(seen[k], bind) && (forall|j: int|
        0 <= j < k ==> !binds_conflict(#[trigger] seen[j], bind)) {
        assert(first_conflict(seen, bind, k));
        let at = choose|at: int| first_conflict(seen, bind, at);
        if at < k {
            assert(!binds_conflict(seen[at], bind));
        } else if k < at {
            assert(!binds_conflict(seen[k], bind));
        }
    }
}

/// The first inbound with a problem is the one that is named: an inbound is looked at only where
/// those before it are without one.
pub proof fn law_first_problem_is_named(
    inbounds: Seq<InboundConfig>,
    inbound: InboundConfig,
    resolved: Seq<Result<SocketAddress, CoreError>>,
)
    requires
        inbounds.len() < resolved.len(),
    ensures
        ({
            let before = accepted(inbounds, resolved);
            let after = accepted(inbounds.push(inbound), resolved);
            &&& before is Err ==> after == before
            &&& before is Ok ==> (resolved[inbounds.len() as int] matches Err(e) ==> after == Err::<
                Seq<BindModel>,
                Seq<char>,
            >(unresolved_message(inbound, e@)))
        }),
{
    assert(inbounds.push(inbound).subrange(0, inbounds.len() as int) =~= inbounds);
}

} // verus!
