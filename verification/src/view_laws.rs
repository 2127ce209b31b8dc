//! The mathematical values of what is handed out hold what is handed out.

use vstd::prelude::*;

use crate::address::{IpAddress, IpModel, SocketAddress};
use crate::config::Protocol;
use crate::error::{fault, CoreError, ErrorKind, ErrorModel};
use crate::listener_binds::{protocol_text, ListenerBindSpec, ValidationError};
use crate::route::{blocked, unsupported};
use crate::service_error::CoreServiceError;
use crate::shadowsocks::ShadowsocksCipher;
use crate::shadowsocks_server::{ShadowsocksRequest, ShadowsocksUdpRequest};
use crate::socks5::{SocksRequest, UdpAssociation};
use crate::target::SocksTarget;
use crate::text::contains;
use crate::traffic::{TrafficDelta, TrafficKey};
use crate::trojan_server::TrojanRequest;
use crate::tuic::{UdpCommand, UdpPacket};
use crate::tuic_server::Authentication;
use crate::wire::{arrived, text_or, Exchange, Tape};

verus! {

/// An error has its kind and its message; the end of the data has a kind of its own.
pub proof fn law_errors(e: CoreError, kind: ErrorKind, message: Seq<char>)
    ensures
        e@.kind == e.kind && e@.message == e.message@,
        fault(kind, message).kind == kind && fault(kind, message).message == message,
        crate::error::eof().kind == ErrorKind::UnexpectedEof,
{
}

/// What is said of a route that blocks is that it is not permitted, and of one that leads nowhere
/// that it is not supported, with its tag.
pub proof fn law_route_errors(tag: Seq<char>)
    ensures
        blocked().kind == ErrorKind::PermissionDenied,
        blocked().message == "target blocked by route"@,
        unsupported(tag).kind == ErrorKind::Unsupported,
        contains(unsupported(tag).message, tag),
        unsupported(tag).message == "outbound route "@ + tag + " is not implemented"@,
{
    crate::text_laws::law_contains(
        unsupported(tag).message,
        "outbound route "@,
        tag,
        " is not implemented"@,
    );
}

/// An address has its octets, and a socket address its port; only one of version six has flow
/// information and a scope.
pub proof fn law_addresses(ip: IpAddress, s: SocketAddress)
    ensures
        ip matches IpAddress::V4(octets) ==> ip@ == IpModel::V4(octets@),
        ip matches IpAddress::V6(octets) ==> ip@ == IpModel::V6(octets@),
        s@.ip == s.ip@ && s@.port == s.port,
        s.ip is V6 ==> s@.flow_info == s.flow_info && s@.scope_id == s.scope_id,
        s.ip is V4 ==> s@.flow_info == 0 && s@.scope_id == 0,
{
}

/// A record of traffic has its key, its user id, its upload and its download.
pub proof fn law_traffic_records(d: TrafficDelta, key: TrafficKey)
    ensures
        d@.node_tag == d.node_tag@ && d@.user_uuid == d.user_uuid@ && d@.user_id == d.user_id,
        d@.upload == d.upload && d@.download == d.download,
        d@.online_ips.len() == d.online_ips@.len(),
        forall|i: int|
            0 <= i < d.online_ips@.len() ==> #[trigger] d@.online_ips[i] == d.online_ips@[i]@,
        key@.0 == key.node_tag@ && key@.1 == key.user_uuid@,
{
}

/// A target has its host and its port.
pub proof fn law_targets(t: SocksTarget)
    ensures
        t@.host == t.host@,
        t@.port == t.port,
{
}

/// A request over SOCKS5 has its command, its user where it has one, and its target.
pub proof fn law_socks_requests(q: SocksRequest, a: UdpAssociation)
    ensures
        q@.command == q.command && q@.target == q.target@,
        q.user_uuid matches Some(uuid) ==> q@.user_uuid == Some(uuid@),
        q.user_uuid is None ==> q@.user_uuid is None,
        a@.upload == a.upload && a@.download == a.download,
        a.client matches Some(client) ==> a@.client == Some(client@),
        a.client is None ==> a@.client is None,
{
}

/// A request over Trojan has its command, its hash, its user and its target.
pub proof fn law_trojan_requests(q: TrojanRequest, e: CoreError)
    ensures
        ({
            let r = crate::trojan_server::request_result(Ok(q));
            &&& r is Ok
            &&& r->Ok_0.command == q.command && r->Ok_0.password_hash == q.password_hash@
            &&& r->Ok_0.user_uuid == q.user_uuid@ && r->Ok_0.user_id == q.user_id
            &&& r->Ok_0.target == q.target@
        }),
        crate::trojan_server::request_result(Err(e)) == Err::<
            crate::trojan_server::RequestModel,
            ErrorModel,
        >(e@),
{
}

/// A request over Shadowsocks has its user, its target, its payload and the cipher of its reader.
pub proof fn law_shadowsocks_requests(
    q: ShadowsocksRequest,
    u: ShadowsocksUdpRequest,
    c: ShadowsocksCipher,
)
    ensures
        ({
            let r = crate::shadowsocks_server::request_result(Ok(q));
            &&& r is Ok
            &&& r->Ok_0.user == q.user && r->Ok_0.target == q.target@
            &&& r->Ok_0.initial_payload == q.initial_payload@
            &&& r->Ok_0.cipher == q.client_reader.cipher@
        }),
        crate::shadowsocks_server::udp_request_result(Ok(u)) == Ok::<
            (crate::user::CoreUser, crate::target::TargetModel, Seq<u8>),
            ErrorModel,
        >((u.user, u.target@, u.payload@)),
        c@.method == c.method && c@.key == c.key@ && c@.nonce == c.nonce,
{
}

/// A packet over TUIC has its numbers, its target and its payload.
pub proof fn law_tuic_packets(p: UdpPacket, c: UdpCommand, a: Authentication)
    ensures
        p@.assoc_id == p.assoc_id && p@.packet_id == p.packet_id,
        p@.fragment_total == p.fragment_total && p@.fragment_id == p.fragment_id,
        p.target matches Some(t) ==> p@.target == Some(t@),
        p.target is None ==> p@.target is None,
        p@.payload == p.payload@,
        p@.single() <==> p.fragment_total == 1 && p.fragment_id == 0,
        c matches UdpCommand::Packet(q) ==> c@ == crate::tuic::CommandModel::Packet(q@),
        c matches UdpCommand::Dissociate(id) ==> c@ == crate::tuic::CommandModel::Dissociate(id),
        c is Heartbeat ==> c@ is Heartbeat,
        crate::tuic_server::authentication_result(Ok(a)) == Ok::<
            (Seq<u8>, Seq<u8>, crate::user::CoreUser),
            ErrorModel,
        >((a.uuid@, a.token@, a.user)),
{
}

/// A socket to listen on has its tag, its protocol, its kind and its address.
pub proof fn law_sockets(b: ListenerBindSpec)
    ensures
        b@.tag == b.tag@ && b@.protocol == b.protocol && b@.network == b.network && b@.addr
            == b.addr@,
{
}

/// A stream is read in order: what is read next begins where the last read ended, and what is sent
/// stands behind what was sent.
pub proof fn law_streams(t: Tape, x: Exchange, m: nat, n: nat, bytes: Seq<u8>)
    requires
        t.wf(),
    ensures
        x@.input == x.input@ && x@.position == x.position && x@.output == x.output@,
        t.offers(n) <==> t.position + n <= t.input.len(),
        t.offers(n) ==> t.next(n) == t.input.subrange(
            t.position as int,
            t.position as int + n,
        ),
        t.skip(n).position == t.position + n && t.skip(n).input == t.input && t.skip(n).output
            == t.output,
        t.skip(m).skip(n).position == t.position + m + n,
        t.send(bytes).output == t.output + bytes && t.send(bytes).input == t.input && t.send(
            bytes,
        ).position == t.position,
        t.rest() == t.input.subrange(t.position as int, t.input.len() as int),
{
}

/// Bytes are a text where they are valid, and the text is what they encode.
pub proof fn law_texts_in_bytes(text: Seq<char>, bytes: Seq<u8>, message: Seq<char>)
    ensures
        text_or(vstd::utf8::encode_utf8(text), message) == Ok::<Seq<char>, ErrorModel>(text),
        !vstd::utf8::valid_utf8(bytes) ==> (text_or(bytes, message) matches Err(e) && e.message
            == message && e.kind == ErrorKind::InvalidData),
{
    vstd::utf8::encode_utf8_valid_utf8(text);
    vstd::utf8::encode_utf8_decode_utf8(text);
}

/// The numbers of the replies of a SOCKS5 server, and the sizes and times that are fixed.
pub proof fn law_fixed_numbers()
    ensures
        crate::socks5::STATUS_SUCCESS == 0,
        crate::socks5::STATUS_CONNECTION_NOT_ALLOWED == 2,
        crate::socks5::STATUS_COMMAND_NOT_SUPPORTED == 7,
        crate::socks5::STATUS_ADDRESS_NOT_SUPPORTED == 8,
        crate::stream::RELAY_COPY_BUFFER_SIZE == 64 * 1024,
        crate::stream::NATIVE_RELAY_STACK_SIZE == 256 * 1024,
        crate::stream::NATIVE_RELAY_IDLE_TIMEOUT_SECS == 10,
        crate::stream::NATIVE_RELAY_SPAWN_BATCH == 8,
        crate::stream::WINDOWS_DETACHED_BLOCKING_RELAY_STACK_KIB == 2048,
        crate::stream::UNIX_DETACHED_BLOCKING_RELAY_STACK_KIB == 256,
        crate::connection_workers::CONNECTION_WORKER_SHUTDOWN_MILLIS == 3 * 1000,
        crate::trojan::MAX_UDP_PACKET_SIZE == 65535,
        crate::trojan::TROJAN_PASSWORD_HEX_LEN == 2 * 28,
        crate::trojan_server::CLIENT_CLOSE_CONNECT_POLL_MILLIS == 10,
        crate::tuic_server::UDP_DATAGRAM_BUFFER_SIZE == 1024 * 1024,
        crate::tuic_server::UDP_PACKET_BUFFER_SIZE == 64 * 1024,
        crate::tls::TLS_READ_CHUNK == 16 * 1024,
        crate::crypto::TAG_LEN == 16,
{
}

/// What is said about why a node could not be started names the inbound and the reason.
pub proof fn law_service_errors(
    error: ValidationError,
    tag: String,
    source: CoreError,
    message: String,
    protocol: Protocol,
)
    ensures
        CoreServiceError::InvalidConfig(error).text() == "invalid core config: "@ + error.message@,
        (CoreServiceError::Bind { tag, source }).text() == "failed to bind inbound "@ + tag@ + ": "@
            + source.message@,
        (CoreServiceError::UnsupportedFeature { tag, message }).text() == "inbound "@ + tag@
            + " unsupported feature: "@ + message@,
        (CoreServiceError::UnsupportedProtocol { tag, protocol }).text() == "inbound "@ + tag@
            + " protocol "@ + protocol_text(protocol)
            + " is not implemented in keli-core-rs yet"@,
{
}

/// An error of binding is that of its inbound and its reason, and of no other.
pub proof fn law_bind_errors(e: CoreServiceError, tag: Seq<char>, reason: ErrorModel)
    ensures
        e.is_bind(tag, reason) <==> (e matches CoreServiceError::Bind { tag: name, source } && name@
            == tag && source.kind == reason.kind && source.message@ == reason.message),
{
}

/// Of bytes that arrived nothing is read yet, and nothing is answered yet.
pub proof fn law_arrived(bytes: Seq<u8>)
    ensures
        arrived(bytes).input == bytes,
        arrived(bytes).position == 0,
        arrived(bytes).output.len() == 0,
{
}

} // verus!
