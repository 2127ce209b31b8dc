//! What stands on the wire of a Trojan connection, and what an outbound asks for.

use vstd::prelude::*;
use vstd::utf8::{
    encode_utf8, encode_utf8_decode_utf8, encode_utf8_valid_utf8, is_ascii_chars,
    is_ascii_chars_encode_utf8,
};

use crate::address::{IpModel, SocketAddress, SocketModel};
use crate::config::{OutboundConfig, OutboundTlsConfig};
use crate::crypto::sha224_digest;
use crate::error::{CoreError, ErrorKind, ErrorModel};
use crate::table::get;
use crate::target::{address_bytes, TargetModel};
use crate::target_laws::{law_address_is_written, law_target_is_read, port_bytes, WireHost};
use crate::text::{lower, trim, unbracket};
use crate::trojan::{
    hex, packet_in, password_hash, read_udp_packet, request_head, target_bytes, target_in,
    udp_packet_bytes, unknown_address,
};
use crate::trojan_outbound::{
    outbound_plan, outbound_server, set_text, transport_host, transport_of, wanted_server_name,
    TrojanTransport,
};
use crate::trojan_server::{
    closed_kind, late_kind, request, RequestModel, TrojanCommand, TrojanUdpRelayState, UdpDownload,
    UdpTunnel,
};
use crate::user::CoreUser;
use crate::wire::{arrived, Tape};

verus! {

/// Each byte is written as two hexadecimal digits in lower case, the more significant first.
pub proof fn law_hex(bytes: Seq<u8>, i: int)
    requires
        0 <= i < bytes.len(),
    ensures
        hex(bytes).len() == 2 * bytes.len(),
        hex(bytes)[2 * i] == "0123456789abcdef"@[bytes[i] as int / 16],
        hex(bytes)[2 * i + 1] == "0123456789abcdef"@[bytes[i] as int % 16],
    decreases bytes.len(),
{
    reveal_strlit("0123456789abcdef");
    let init = bytes.subrange(0, bytes.len() - 1);
    if i < init.len() {
        law_hex(init, i);
        assert(init[i] == bytes[i]);
    } else {
        crate::trojan::lemma_hex(init);
    }
}

/// Different bytes have different notations.
pub proof fn law_hex_is_distinct(a: Seq<u8>, b: Seq<u8>)
    requires
        hex(a) == hex(b),
    ensures
        a == b,
{
    crate::trojan::lemma_hex(a);
    crate::trojan::lemma_hex(b);
    reveal_strlit("0123456789abcdef");
    assert forall|i: int| 0 <= i < a.len() implies a[i] == b[i] by {
        law_hex(a, i);
        law_hex(b, i);
        lemma_hex_digit(a[i] as int / 16, b[i] as int / 16);
        lemma_hex_digit(a[i] as int % 16, b[i] as int % 16);
    }
    assert(a =~= b);
}

/// Different values have different digits.
proof fn lemma_hex_digit(m: int, n: int)
    requires
        0 <= m < 16,
        0 <= n < 16,
        "0123456789abcdef"@[m] == "0123456789abcdef"@[n],
    ensures
        m == n,
{
    reveal_strlit("0123456789abcdef");
    crate::text_laws::law_digits('0', m);
    crate::text_laws::law_digits('0', n);
}

/// A client presents its password as the digest of it.
pub proof fn law_password_hash(password: Seq<char>, i: int)
    requires
        0 <= i < sha224_digest(encode_utf8(password)).len(),
    ensures
        ({
            let digest = sha224_digest(encode_utf8(password));
            &&& password_hash(password).len() == 2 * digest.len()
            &&& password_hash(password)[2 * i] == "0123456789abcdef"@[digest[i] as int / 16]
            &&& password_hash(password)[2 * i + 1] == "0123456789abcdef"@[digest[i] as int % 16]
        }),
{
    law_hex(sha224_digest(encode_utf8(password)), i);
}

/// The number of a command.
pub open spec fn command_byte(command: TrojanCommand) -> u8 {
    match command {
        TrojanCommand::Tcp => 1,
        TrojanCommand::UdpAssociate => 3,
    }
}

/// The bytes of a request: the hash of the password and the end of a line, the command, the target,
/// and the end of a line.
pub open spec fn request_bytes(
    hash: Seq<char>,
    command: u8,
    host: WireHost,
    port: u16,
) -> Seq<u8> {
    encode_utf8(hash) + seq![13u8, 10u8, command] + host.bytes() + port_bytes(port) + seq![
        13u8,
        10u8,
    ]
}

/// A request is read as what it says, for the user under whose hash it comes, and nothing behind it
/// is read; without such a user it is refused.
pub proof fn law_request_is_read(
    users: Seq<(Seq<char>, CoreUser)>,
    hash: Seq<char>,
    command: TrojanCommand,
    host: WireHost,
    port: u16,
    rest: Seq<u8>,
)
    requires
        is_ascii_chars(hash),
        hash.len() == 56,
        host.fits(),
    ensures
        ({
            let head = request_bytes(hash, command_byte(command), host, port);
            let (r, t) = request(users, arrived(head + rest));
            &&& get(users, hash) matches Some(user) ==> r == Ok::<RequestModel, ErrorModel>(
                RequestModel {
                    command,
                    password_hash: hash,
                    user_uuid: user.uuid@,
                    user_id: user.id,
                    target: TargetModel { host: host.text(), port },
                },
            ) && t == arrived(head + rest).skip(head.len())
            &&& get(users, hash) is None ==> (r matches Err(e) && e.kind
                == ErrorKind::PermissionDenied)
        }),
{
    let head = request_bytes(hash, command_byte(command), host, port);
    let input = head + rest;
    let t = arrived(input);
    let h = encode_utf8(hash);
    is_ascii_chars_encode_utf8(hash);
    encode_utf8_valid_utf8(hash);
    encode_utf8_decode_utf8(hash);
    assert(t.next(56) =~= h);
    let t1 = t.skip(56);
    assert(t1.next(2) =~= seq![13u8, 10u8]);
    let t2 = t1.skip(2);
    assert(t2.next(1) =~= seq![command_byte(command)]);
    let t3 = t2.skip(1);
    assert(t3.next(1) =~= seq![host.bytes()[0]]);
    let before = h + seq![13u8, 10u8, command_byte(command)];
    let after = seq![13u8, 10u8] + rest;
    assert(input =~= before + host.bytes() + port_bytes(port) + after);
    law_target_is_read(before, host, port, after, t.output, unknown_address());
    let t4 = Tape {
        input,
        position: (input.len() - after.len()) as nat,
        output: t.output,
    };
    assert(t4.next(2) =~= seq![13u8, 10u8]);
}

/// A request with another command is refused, and so is one whose hash is not followed by the end
/// of a line.
pub proof fn law_other_requests_are_refused(
    users: Seq<(Seq<char>, CoreUser)>,
    hash: Seq<char>,
    first: u8,
    second: u8,
    command: u8,
    rest: Seq<u8>,
)
    requires
        is_ascii_chars(hash),
        hash.len() == 56,
        first != 13 || second != 10 || (command != 1 && command != 3),
    ensures
        request(users, arrived(encode_utf8(hash) + seq![first, second, command] + rest)).0 is Err,
{
    let input = encode_utf8(hash) + seq![first, second, command] + rest;
    let t = arrived(input);
    is_ascii_chars_encode_utf8(hash);
    encode_utf8_valid_utf8(hash);
    encode_utf8_decode_utf8(hash);
    assert(t.next(56) =~= encode_utf8(hash));
    let t1 = t.skip(56);
    assert(t1.next(2) =~= seq![first, second]);
    assert(seq![first, second][0] == first && seq![first, second][1] == second);
    assert(seq![13u8, 10u8][0] == 13 && seq![13u8, 10u8][1] == 10);
    assert(t1.skip(2).next(1) =~= seq![command]);
}

/// The bytes of a packet: its target, its length, the end of a line, and its payload.
pub open spec fn packet_bytes(host: WireHost, port: u16, payload: Seq<u8>) -> Seq<u8> {
    host.bytes() + port_bytes(port) + seq![
        (payload.len() / 256) as u8,
        (payload.len() % 256) as u8,
        13u8,
        10u8,
    ] + payload
}

/// A packet is read as its target and its payload, from a stream and from a buffer, and nothing
/// behind it is read.
pub proof fn law_packet_is_read(host: WireHost, port: u16, payload: Seq<u8>, rest: Seq<u8>)
    requires
        host.fits(),
        payload.len() <= 65535,
    ensures
        ({
            let packet = packet_bytes(host, port, payload);
            let target = TargetModel { host: host.text(), port };
            &&& read_udp_packet(arrived(packet + rest)) == (
                Ok::<(TargetModel, Seq<u8>), ErrorModel>((target, payload)),
                arrived(packet + rest).skip(packet.len()),
            )
            &&& packet_in(packet + rest) == Ok::<Option<(TargetModel, Seq<u8>, int)>, ErrorModel>(
                Some((target, payload, packet.len() as int)),
            )
        }),
{
    lemma_packet_in_stream(host, port, payload, rest);
    lemma_packet_in_buffer(host, port, payload, rest);
}

proof fn lemma_packet_in_stream(host: WireHost, port: u16, payload: Seq<u8>, rest: Seq<u8>)
    requires
        host.fits(),
        payload.len() <= 65535,
    ensures
        ({
            let packet = packet_bytes(host, port, payload);
            read_udp_packet(arrived(packet + rest)) == (
                Ok::<(TargetModel, Seq<u8>), ErrorModel>(
                    (TargetModel { host: host.text(), port }, payload),
                ),
                arrived(packet + rest).skip(packet.len()),
            )
        }),
{
    let packet = packet_bytes(host, port, payload);
    let input = packet + rest;
    let t = arrived(input);
    let none = Seq::<u8>::empty();
    let line = seq![(payload.len() / 256) as u8, (payload.len() % 256) as u8, 13u8, 10u8];
    let after = line + payload + rest;
    assert(input =~= none + host.bytes() + port_bytes(port) + after);
    law_target_is_read(none, host, port, after, t.output, unknown_address());
    assert(t.next(1) =~= seq![host.bytes()[0]]);
    let t1 = Tape { input, position: (input.len() - after.len()) as nat, output: t.output };
    assert(t1.next(2) =~= seq![(payload.len() / 256) as u8, (payload.len() % 256) as u8]);
    assert(t1.skip(2).next(2) =~= seq![13u8, 10u8]);
    assert(t1.skip(2).skip(2).next(payload.len()) =~= payload);
}

proof fn lemma_packet_in_buffer(host: WireHost, port: u16, payload: Seq<u8>, rest: Seq<u8>)
    requires
        host.fits(),
        payload.len() <= 65535,
    ensures
        packet_in(packet_bytes(host, port, payload) + rest) == Ok::<
            Option<(TargetModel, Seq<u8>, int)>,
            ErrorModel,
        >(
            Some(
                (
                    TargetModel { host: host.text(), port },
                    payload,
                    packet_bytes(host, port, payload).len() as int,
                ),
            ),
        ),
{
    let packet = packet_bytes(host, port, payload);
    let bytes = packet + rest;
    let at = (host.bytes() + port_bytes(port)).len() as int;
    match host {
        WireHost::V4(o) => {
            assert(bytes.subrange(1, 5) =~= o);
        },
        WireHost::V6(o) => {
            assert(bytes.subrange(1, 17) =~= o);
        },
        WireHost::Name(name) => {
            encode_utf8_valid_utf8(name);
            encode_utf8_decode_utf8(name);
            assert(bytes.subrange(2, 2 + encode_utf8(name).len() as int) =~= encode_utf8(name));
        },
    }
    assert(bytes[at - 2] == port_bytes(port)[0] && bytes[at - 1] == port_bytes(port)[1]);
    assert(bytes.subrange(at + 2, at + 4) =~= seq![13u8, 10u8]);
    assert(bytes.subrange(at + 4, at + 4 + payload.len()) =~= payload);
}

/// A packet to a client names where it came from.
pub proof fn law_packet_layout(source: SocketModel, payload: Seq<u8>)
    requires
        payload.len() <= 65535,
    ensures
        udp_packet_bytes(source, payload) == packet_bytes(
            match source.ip {
                IpModel::V4(octets) => WireHost::V4(octets),
                IpModel::V6(octets) => WireHost::V6(octets),
            },
            source.port,
            payload,
        ),
{
    law_address_is_written(source);
    let host = match source.ip {
        IpModel::V4(octets) => WireHost::V4(octets),
        IpModel::V6(octets) => WireHost::V6(octets),
    };
    let n = (payload.len() % 65536) as u16;
    assert((n / 256) as u8 == (payload.len() / 256) as u8);
    assert((n % 256) as u8 == (payload.len() % 256) as u8);
    assert(udp_packet_bytes(source, payload) =~= packet_bytes(host, source.port, payload));
}

/// What an outbound sends first is a request to connect to its target, as a server reads it.
pub proof fn law_outbound_request(hash: Seq<char>, host: WireHost, port: u16)
    ensures
        request_head(hash) + (host.bytes() + port_bytes(port)) + seq![13u8, 10u8] == request_bytes(
            hash,
            1,
            host,
            port,
        ),
{
    let head = encode_utf8(hash) + seq![13u8, 10u8, 1u8];
    assert(request_head(hash) =~= head);
    let address = host.bytes() + port_bytes(port);
    assert(head + address =~= head + host.bytes() + port_bytes(port));
}

/// A target is written as a server reads it: an address by its octets, and a name without the white
/// space and the square brackets around it, which may be neither empty nor longer than 255 bytes.
pub proof fn law_target_is_written(target: TargetModel)
    ensures
        match IpModel::parse(target.host) {
            Some(IpModel::V4(octets)) => target_bytes(target) == Ok::<Seq<u8>, ErrorModel>(
                WireHost::V4(octets).bytes() + port_bytes(target.port),
            ),
            Some(IpModel::V6(octets)) => target_bytes(target) == Ok::<Seq<u8>, ErrorModel>(
                WireHost::V6(octets).bytes() + port_bytes(target.port),
            ),
            None => {
                let name = unbracket(trim(target.host));
                if 0 < encode_utf8(name).len() <= 255 {
                    target_bytes(target) == Ok::<Seq<u8>, ErrorModel>(
                        WireHost::Name(name).bytes() + port_bytes(target.port),
                    )
                } else {
                    target_bytes(target) is Err
                }
            },
        },
{
}

/// A setting of a transport counts without the white space around it, and not at all where nothing
/// is left.
pub proof fn law_settings_are_trimmed(value: Option<String>)
    ensures
        set_text(value) is Some <==> value is Some && trim(value->0@).len() > 0,
        set_text(value) matches Some(text) ==> text == trim(value->0@),
{
}

/// The server of an outbound is at its address, without white space around it, and its port; both
/// have to be there.
pub proof fn law_outbound_server(outbound: OutboundConfig)
    ensures
        outbound_server(outbound) is Ok <==> outbound.address is Some && trim(
            outbound.address->0@,
        ).len() > 0 && outbound.port is Some,
        outbound_server(outbound) matches Ok(server) ==> server.host == trim(outbound.address->0@)
            && server.port == outbound.port->0,
{
}

/// An outbound is planned with its server, its password without white space around it, and the
/// transport of its network; all have to be there.
pub proof fn law_outbound_plan(outbound: OutboundConfig, network: Seq<char>)
    ensures
        outbound_plan(outbound, network) is Ok <==> outbound_server(outbound) is Ok
            && outbound.password is Some && trim(outbound.password->0@).len() > 0 && transport_of(
            network,
            outbound.tls is Some,
        ) is Some,
        outbound_plan(outbound, network) matches Ok((server, password, transport)) ==> {
            &&& outbound_server(outbound) == Ok::<TargetModel, ErrorModel>(server)
            &&& password == trim(outbound.password->0@)
            &&& transport_of(network, outbound.tls is Some) == Some(transport)
        },
{
}

/// The name of a network, in letters of any case, decides the transport of an outbound; TLS is
/// never left out where it is set, nor used where it is not.
pub proof fn law_outbound_transport(network: Seq<char>, tls: bool)
    ensures
        transport_of(network, tls) matches Some(t) ==> {
            &&& tls ==> !(t is Tcp) && !(t is WebSocket) && !(t is HttpUpgrade)
            &&& !tls ==> !(t is Tls) && !(t is TlsWebSocket) && !(t is TlsHttpUpgrade)
            &&& t is WebSocket || t is TlsWebSocket <==> lower(network) == "ws"@
            &&& t is HttpUpgrade || t is TlsHttpUpgrade <==> lower(network) == "httpupgrade"@
            &&& t is Tcp || t is Tls <==> lower(network) == "tcp"@
            &&& t is Grpc <==> lower(network) == "grpc"@
            &&& t is Http2 <==> lower(network) == "h2"@ || lower(network) == "http"@
            &&& t is Quic <==> lower(network) == "quic"@
        },
        transport_of(network, tls) is None <==> lower(network) != "ws"@ && lower(network)
            != "httpupgrade"@ && lower(network) != "tcp"@ && lower(network) != "grpc"@ && lower(
            network,
        ) != "h2"@ && lower(network) != "http"@ && lower(network) != "quic"@,
{
    reveal_strlit("ws");
    reveal_strlit("httpupgrade");
    reveal_strlit("tcp");
    reveal_strlit("grpc");
    reveal_strlit("h2");
    reveal_strlit("http");
    reveal_strlit("quic");
    assert("ws"@[0] == 'w' && "h2"@[0] == 'h' && "httpupgrade"@.len() == 11 && "http"@.len() == 4
        && "http"@[0] == 'h' && "tcp"@.len() == 3 && "grpc"@[0] == 'g' && "quic"@[0] == 'q'
        && "grpc"@.len() == 4 && "quic"@.len() == 4 && "ws"@.len() == 2 && "h2"@.len() == 2);
}

/// The host that a transport asks for is the one that it names, or else the server name of TLS, or
/// else the server, without square brackets.
pub proof fn law_transport_host(outbound: OutboundConfig, server: Seq<char>)
    ensures
        ({
            let named = outbound.transport matches Some(t) && t.host is Some && trim(
                t.host->0@,
            ).len() > 0;
            let secured = outbound.tls matches Some(t) && trim(t.server_name@).len() > 0;
            &&& named ==> transport_host(outbound, server) == unbracket(
                trim(outbound.transport->0.host->0@),
            )
            &&& !named && secured ==> transport_host(outbound, server) == unbracket(
                trim(outbound.tls->0.server_name@),
            )
            &&& !named && !secured ==> transport_host(outbound, server) == unbracket(server)
        }),
{
}

/// The name that a TLS server has to have is the one that is set, or else the host of the server.
pub proof fn law_wanted_server_name(tls: OutboundTlsConfig, server: Seq<char>)
    ensures
        unbracket(trim(tls.server_name@)).len() > 0 ==> wanted_server_name(tls, server)
            == unbracket(trim(tls.server_name@)),
        unbracket(trim(tls.server_name@)).len() == 0 ==> wanted_server_name(tls, server)
            == unbracket(trim(server)),
{
}

/// The kinds of errors that say that a stream was closed, and those that say that nothing came in
/// time.
pub proof fn law_kinds_of_errors(kind: ErrorKind)
    ensures
        closed_kind(kind) <==> kind is UnexpectedEof || kind is ConnectionAborted || kind
            is ConnectionReset || kind is BrokenPipe,
        late_kind(kind) <==> kind is WouldBlock || kind is TimedOut,
{
}

/// A relay of packets counts what it sends as upload, and what it answers or receives as download;
/// only what came by itself counts as progress.
pub proof fn law_tunnel_steps(s: UdpTunnel, n: u64, len: usize)
    ensures
        s.upload + n <= u64::MAX ==> s.with_sent(n).upload == s.upload + n,
        s.upload + n > u64::MAX ==> s.with_sent(n).upload == u64::MAX,
        s.with_sent(n).download == s.download && s.with_sent(n).progressed == s.progressed
            && s.with_sent(n).pending == s.pending && s.with_sent(n).idle_rounds == s.idle_rounds,
        s.download + len <= u64::MAX ==> s.with_answer(len).download == s.download + len
            && s.with_received(len).download == s.download + len,
        s.download + len > u64::MAX ==> s.with_answer(len).download == u64::MAX && s.with_received(
            len,
        ).download == u64::MAX,
        s.with_answer(len).upload == s.upload && s.with_received(len).upload == s.upload,
        s.with_answer(len).progressed == s.progressed && s.with_received(len).progressed,
        s.with_answer(len).pending == s.pending && s.with_received(len).pending == s.pending,
{
}

/// A packet that reaches the client is counted, and the download goes on; a failure ends it, and is
/// kept unless it says that the stream was closed.
pub proof fn law_download_steps(s: UdpDownload, len: usize, e: CoreError)
    ensures
        s.download + len <= u64::MAX ==> s.after_write(len, Ok(())).download == s.download + len,
        s.after_write(len, Ok(())).progressed,
        s.after_write(len, Ok(())).stopped == s.stopped,
        s.after_write(len, Ok(())).failed == s.failed,
        s.after_write(len, Err(e)).stopped,
        s.after_write(len, Err(e)).download == s.download,
        s.after_write(len, Err(e)).failed == (if e.kind is UnexpectedEof || e.kind
            is ConnectionAborted || e.kind is ConnectionReset || e.kind is BrokenPipe {
            s.failed
        } else {
            Some(e)
        }),
{
}

/// A relay of packets knows the address of the last target that it resolved, and of no other.
pub proof fn law_known_target(s: TrojanUdpRelayState, target: TargetModel, remote: SocketAddress)
    ensures
        s.target is None ==> s.known(target) is None,
        s.target matches Some(t) ==> s.known(target) == (if t.host@ == target.host && t.port
            == target.port {
            s.target_addr
        } else {
            None
        }),
        s.bound(remote) <==> (remote.ip is V4 && s.ipv4) || (remote.ip is V6 && s.ipv6),
{
}

/// The length of a payload that is too long for its two bytes is written modulo what they hold.
pub proof fn law_long_packet_layout(source: SocketModel, payload: Seq<u8>)
    ensures
        ({
            let bytes = udp_packet_bytes(source, payload);
            let at = bytes.len() - payload.len() - 4;
            &&& bytes[at] * 256 + bytes[at + 1] == payload.len() % 65536
            &&& bytes[at + 2] == 13 && bytes[at + 3] == 10
            &&& bytes.subrange(at + 4, bytes.len() as int) == payload
            &&& at == address_bytes(source).len()
        }),
{
    let bytes = udp_packet_bytes(source, payload);
    let n = (payload.len() % 65536) as u16;
    let head = address_bytes(source);
    let at = head.len() as int;
    assert(bytes =~= head + seq![(n / 256) as u8, (n % 256) as u8, 13u8, 10u8] + payload);
    assert(bytes[at] == (n / 256) as u8 && bytes[at + 1] == (n % 256) as u8);
    assert(bytes.subrange(at + 4, bytes.len() as int) =~= payload);
}

/// The target that bytes begin with is known as soon as its port has arrived, and not before.
pub proof fn law_target_arrives(bytes: Seq<u8>)
    ensures
        bytes.len() == 0 ==> target_in(bytes) matches Ok(None),
        bytes.len() > 0 && bytes[0] == 1 ==> (target_in(bytes) matches Ok(found) && (found is Some
            <==> bytes.len() >= 7) && (found matches Some((target, used)) ==> used == 7)),
        bytes.len() > 0 && bytes[0] == 4 ==> (target_in(bytes) matches Ok(found) && (found is Some
            <==> bytes.len() >= 19) && (found matches Some((target, used)) ==> used == 19)),
        bytes.len() == 1 && bytes[0] == 3 ==> target_in(bytes) matches Ok(None),
        bytes.len() > 1 && bytes[0] == 3 && bytes.len() < 2 + bytes[1] ==> target_in(
            bytes,
        ) matches Ok(None),
        bytes.len() > 1 && bytes[0] == 3 && bytes.len() >= 2 + bytes[1] && vstd::utf8::valid_utf8(
            bytes.subrange(2, 2 + bytes[1]),
        ) ==> (target_in(bytes) matches Ok(found) && (found is Some <==> bytes.len() >= 4 + bytes[1])
            && (found matches Some((target, used)) ==> used == 4 + bytes[1])),
        bytes.len() > 1 && bytes[0] == 3 && bytes.len() >= 2 + bytes[1] && !vstd::utf8::valid_utf8(
            bytes.subrange(2, 2 + bytes[1]),
        ) ==> (target_in(bytes) matches Err(e) && e.kind == ErrorKind::InvalidData && e.message
            == "invalid domain"@),
        bytes.len() > 0 && bytes[0] != 1 && bytes[0] != 3 && bytes[0] != 4 ==> (target_in(
            bytes,
        ) matches Err(e) && e.kind == ErrorKind::InvalidData),
{
}

} // verus!
