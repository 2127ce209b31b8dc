//! What a SOCKS5 server makes of the bytes of its clients.

use vstd::prelude::*;
use vstd::utf8::{
    encode_utf8, encode_utf8_decode_utf8, encode_utf8_valid_utf8,
};

use crate::address::{IpModel, SocketModel};
use crate::error::{ErrorKind, ErrorModel};
use crate::socks5::{
    client_after, command_request, datagram_step, next_attempt, no_address, reply_bytes, request, udp_request, udp_response, RequestModel,
    AssociationModel, SocksCommand, UdpStepModel,
};
use crate::table::{get, lemma_find};
use crate::target::TargetModel;
use crate::target_laws::{law_address_is_written, law_target_is_read, port_bytes, WireHost};
use crate::user::CoreUser;
use crate::wire::{arrived, Tape};

verus! {

/// A datagram: three zero bytes, the target, and the payload.
pub open spec fn datagram(host: WireHost, port: u16, payload: Seq<u8>) -> Seq<u8> {
    seq![0u8, 0u8, 0u8] + host.bytes() + port_bytes(port) + payload
}

/// A datagram is read as the host, the port and the payload that it holds.
pub proof fn law_datagram_is_read(host: WireHost, port: u16, payload: Seq<u8>)
    requires
        host.fits(),
    ensures
        udp_request(datagram(host, port, payload)) == Ok::<(TargetModel, Seq<u8>), ErrorModel>(
            (TargetModel { host: host.text(), port }, payload),
        ),
{
    let d = datagram(host, port, payload);
    match host {
        WireHost::V4(o) => {
            assert(d.subrange(4, 8) =~= o);
            assert(d.subrange(10, d.len() as int) =~= payload);
        },
        WireHost::V6(o) => {
            assert(d.subrange(4, 20) =~= o);
            assert(d.subrange(22, d.len() as int) =~= payload);
        },
        WireHost::Name(name) => {
            let n = encode_utf8(name).len() as int;
            encode_utf8_valid_utf8(name);
            encode_utf8_decode_utf8(name);
            assert(d[4] == n);
            assert(d.subrange(5, 5 + n) =~= encode_utf8(name));
            assert(d[5 + n] == port_bytes(port)[0] && d[6 + n] == port_bytes(port)[1]);
            assert(d.subrange(7 + n, d.len() as int) =~= payload);
        },
    }
}

/// Only a datagram that begins with three zero bytes and a known address type is read; its payload
/// is the end of the datagram.
pub proof fn law_only_datagrams_are_read(input: Seq<u8>)
    ensures
        udp_request(input) matches Ok((target, payload)) ==> {
            let at = input.len() - payload.len();
            &&& at >= 7
            &&& input[0] == 0 && input[1] == 0 && input[2] == 0
            &&& input[3] == 1 || input[3] == 3 || input[3] == 4
            &&& input[3] == 1 ==> at == 10
            &&& input[3] == 4 ==> at == 22
            &&& input[3] == 3 ==> at == 7 + input[4]
            &&& payload == input.subrange(at, input.len() as int)
            &&& target.port == input[at - 2] * 256 + input[at - 1]
        },
        input.len() >= 4 && input[0] == 0 && input[1] == 0 && input[2] != 0 ==> udp_request(
            input,
        ) is Err && udp_request(input)->Err_0.kind == ErrorKind::Unsupported,
{
}

/// A datagram to a client names where it came from, in front of its payload.
pub proof fn law_response_names_its_source(source: SocketModel, payload: Seq<u8>)
    ensures
        udp_response(source, payload) == datagram(
            match source.ip {
                IpModel::V4(octets) => WireHost::V4(octets),
                IpModel::V6(octets) => WireHost::V6(octets),
            },
            source.port,
            payload,
        ),
{
    law_address_is_written(source);
}

/// What comes from the client of an association is a request of it; what comes from elsewhere goes
/// to the client, with its source; and without a client nothing is done.
pub proof fn law_datagrams_go_both_ways(
    client: SocketModel,
    source: SocketModel,
    host: WireHost,
    port: u16,
    payload: Seq<u8>,
)
    requires
        host.fits(),
        source != client,
    ensures
        datagram_step(Some(client), client, datagram(host, port, payload)) == Ok::<
            UdpStepModel,
            ErrorModel,
        >(UdpStepModel::Forward(TargetModel { host: host.text(), port }, payload)),
        datagram_step(Some(client), source, payload) == Ok::<UdpStepModel, ErrorModel>(
            UdpStepModel::Reply(
                client,
                datagram(
                    match source.ip {
                        IpModel::V4(octets) => WireHost::V4(octets),
                        IpModel::V6(octets) => WireHost::V6(octets),
                    },
                    source.port,
                    payload,
                ),
            ),
        ),
        datagram_step(None, source, payload) == Ok::<UdpStepModel, ErrorModel>(
            UdpStepModel::Ignore,
        ),
{
    law_datagram_is_read(host, port, payload);
    law_response_names_its_source(source, payload);
}

/// The bytes of a reply: version five, the status, a zero byte, and the bound address.
pub proof fn law_reply_layout(status: u8, bind: SocketModel)
    ensures
        reply_bytes(status, bind) == seq![5u8, status, 0u8] + (match bind.ip {
            IpModel::V4(octets) => WireHost::V4(octets).bytes(),
            IpModel::V6(octets) => WireHost::V6(octets).bytes(),
        }) + port_bytes(bind.port),
        reply_bytes(status, no_address()) == seq![
            5u8,
            status,
            0u8,
            1u8,
            0u8,
            0u8,
            0u8,
            0u8,
            0u8,
            0u8,
        ],
{
    law_address_is_written(bind);
    assert(reply_bytes(status, bind) =~= seq![5u8, status, 0u8] + (match bind.ip {
        IpModel::V4(octets) => WireHost::V4(octets).bytes(),
        IpModel::V6(octets) => WireHost::V6(octets).bytes(),
    }) + port_bytes(bind.port));
}

/// The number of a command.
pub open spec fn command_byte(command: SocksCommand) -> u8 {
    match command {
        SocksCommand::Connect => 1,
        SocksCommand::UdpAssociate => 3,
    }
}

/// What a client sends first: version five, and the methods that it offers.
pub open spec fn greeting(methods: Seq<u8>) -> Seq<u8> {
    seq![5u8, methods.len() as u8] + methods
}

/// What a client sends to prove who it is: the version of that, its name, and its password.
pub open spec fn credentials(name: Seq<char>, password: Seq<char>) -> Seq<u8> {
    seq![1u8, encode_utf8(name).len() as u8] + encode_utf8(name) + seq![
        encode_utf8(password).len() as u8,
    ] + encode_utf8(password)
}

/// What a client wants: version five, the command, a reserved byte, and the target.
pub open spec fn wish(
    command: SocksCommand,
    reserved: u8,
    host: WireHost,
    port: u16,
) -> Seq<u8> {
    seq![5u8, command_byte(command), reserved] + host.bytes() + port_bytes(port)
}

/// A server without users serves every client that offers to come without a name, and answers that
/// it takes this offer.
pub proof fn law_open_server_serves(
    methods: Seq<u8>,
    command: SocksCommand,
    reserved: u8,
    host: WireHost,
    port: u16,
    rest: Seq<u8>,
)
    requires
        host.fits(),
        command is UdpAssociate ==> reserved == 0,
        methods.len() <= 255,
        methods.contains(0u8),
    ensures
        ({
            let input = greeting(methods) + wish(command, reserved, host, port) + rest;
            request(Seq::empty(), arrived(input)) == (
                Ok::<RequestModel, ErrorModel>(
                    RequestModel {
                        command,
                        user_uuid: None,
                        target: TargetModel { host: host.text(), port },
                    },
                ),
                Tape {
                    input,
                    position: (input.len() - rest.len()) as nat,
                    output: seq![5u8, 0u8],
                },
            )
        }),
{
    let input = greeting(methods) + wish(command, reserved, host, port) + rest;
    let n = methods.len();
    let t = arrived(input);
    assert(t.next(2) =~= seq![5u8, n as u8]);
    assert(t.skip(2).next(n) =~= methods);
    let t2 = t.skip(2).skip(n).send(seq![5u8, 0u8]);
    assert(t2.next(4) =~= seq![5u8, command_byte(command), reserved, host.bytes()[0]]);
    let before = greeting(methods) + seq![5u8, command_byte(command), reserved];
    assert(input =~= before + host.bytes() + port_bytes(port) + rest);
    law_target_is_read(
        before,
        host,
        port,
        rest,
        t2.output,
        crate::error::fault(ErrorKind::InvalidData, "unsupported socks address type"@),
    );
    assert(t2.output =~= seq![5u8, 0u8]);
}

/// A server with users serves a client that gives the name of a user and the credential of that
/// user, as that user; it answers that it wants a password, and that it is right.
pub proof fn law_known_user_is_served(
    users: Seq<(Seq<char>, CoreUser)>,
    methods: Seq<u8>,
    name: Seq<char>,
    password: Seq<char>,
    command: SocksCommand,
    reserved: u8,
    host: WireHost,
    port: u16,
    rest: Seq<u8>,
)
    requires
        host.fits(),
        command is UdpAssociate ==> reserved == 0,
        methods.len() <= 255,
        methods.contains(2u8),
        encode_utf8(name).len() <= 255,
        encode_utf8(password).len() <= 255,
        get(users, name) is Some,
        get(users, name)->0.credential_text() == password,
    ensures
        ({
            let input = greeting(methods) + credentials(name, password) + wish(command, reserved, host, port)
                + rest;
            request(users, arrived(input)) == (
                Ok::<RequestModel, ErrorModel>(
                    RequestModel {
                        command,
                        user_uuid: Some(get(users, name)->0.uuid@),
                        target: TargetModel { host: host.text(), port },
                    },
                ),
                Tape {
                    input,
                    position: (input.len() - rest.len()) as nat,
                    output: seq![5u8, 2u8, 1u8, 0u8],
                },
            )
        }),
{
    lemma_find(users, name);
    let head = greeting(methods) + credentials(name, password);
    let input = head + wish(command, reserved, host, port) + rest;
    assert(input =~= head + (wish(command, reserved, host, port) + rest));
    assert(users.len() > 0);
    lemma_credentials_are_read(users, methods, name, password, wish(command, reserved, host, port) + rest);
    lemma_wish_is_read(
        head,
        command,
        reserved,
        host,
        port,
        rest,
        seq![5u8, 2u8, 1u8, 0u8],
        Some(get(users, name)->0.uuid@),
    );
}

/// What a client wants is read as the command and the target that it names.
proof fn lemma_wish_is_read(
    head: Seq<u8>,
    command: SocksCommand,
    reserved: u8,
    host: WireHost,
    port: u16,
    rest: Seq<u8>,
    output: Seq<u8>,
    user_uuid: Option<Seq<char>>,
)
    requires
        host.fits(),
        command is UdpAssociate ==> reserved == 0,
    ensures
        ({
            let input = head + wish(command, reserved, host, port) + rest;
            command_request(Tape { input, position: head.len(), output }, user_uuid) == (
                Ok::<RequestModel, ErrorModel>(
                    RequestModel {
                        command,
                        user_uuid,
                        target: TargetModel { host: host.text(), port },
                    },
                ),
                Tape { input, position: (input.len() - rest.len()) as nat, output },
            )
        }),
{
    let input = head + wish(command, reserved, host, port) + rest;
    let t = Tape { input, position: head.len(), output };
    assert(t.next(4) =~= seq![5u8, command_byte(command), reserved, host.bytes()[0]]);
    let before = head + seq![5u8, command_byte(command), reserved];
    assert(input =~= before + host.bytes() + port_bytes(port) + rest);
    law_target_is_read(
        before,
        host,
        port,
        rest,
        output,
        crate::error::fault(ErrorKind::InvalidData, "unsupported socks address type"@),
    );
}

/// How far a server with users reads, and what it answers, until it knows who the client is.
proof fn lemma_credentials_are_read(
    users: Seq<(Seq<char>, CoreUser)>,
    methods: Seq<u8>,
    name: Seq<char>,
    password: Seq<char>,
    rest: Seq<u8>,
)
    requires
        users.len() > 0,
        methods.len() <= 255,
        methods.contains(2u8),
        encode_utf8(name).len() <= 255,
        encode_utf8(password).len() <= 255,
    ensures
        ({
            let head = greeting(methods) + credentials(name, password);
            let right = get(users, name) is Some && get(users, name)->0.credential_text()
                == password;
            let t = Tape {
                input: head + rest,
                position: head.len(),
                output: if right {
                    seq![5u8, 2u8, 1u8, 0u8]
                } else {
                    seq![5u8, 2u8, 1u8, 0xffu8]
                },
            };
            &&& right ==> request(users, arrived(head + rest)) == command_request(
                t,
                Some(get(users, name)->0.uuid@),
            )
            &&& !right ==> request(users, arrived(head + rest)).1 == t && (request(
                users,
                arrived(head + rest),
            ).0 matches Err(e) && e.kind == ErrorKind::PermissionDenied)
        }),
{
    let head = greeting(methods) + credentials(name, password);
    let input = head + rest;
    let n = methods.len();
    let a = encode_utf8(name).len();
    let b = encode_utf8(password).len();
    encode_utf8_valid_utf8(name);
    encode_utf8_decode_utf8(name);
    encode_utf8_valid_utf8(password);
    encode_utf8_decode_utf8(password);
    let t = arrived(input);
    assert(t.next(2) =~= seq![5u8, n as u8]);
    assert(t.skip(2).next(n) =~= methods);
    let t2 = t.skip(2).skip(n).send(seq![5u8, 2u8]);
    assert(t2.next(2) =~= seq![1u8, a as u8]);
    assert(t2.skip(2).next(a) =~= encode_utf8(name));
    let t3 = t2.skip(2).skip(a);
    assert(t3.next(1) =~= seq![b as u8]);
    assert(t3.skip(1).next(b) =~= encode_utf8(password));
    let t4 = t3.skip(1).skip(b);
    assert(t4.position == head.len());
    assert(t4.send(seq![1u8, 0u8]).output =~= seq![5u8, 2u8, 1u8, 0u8]);
    assert(t4.send(seq![1u8, 0xffu8]).output =~= seq![5u8, 2u8, 1u8, 0xffu8]);
}

/// A server with users refuses a client whose name is not that of a user or whose password is not
/// the credential of that user, and tells it so.
pub proof fn law_wrong_password_is_refused(
    users: Seq<(Seq<char>, CoreUser)>,
    methods: Seq<u8>,
    name: Seq<char>,
    password: Seq<char>,
    rest: Seq<u8>,
)
    requires
        users.len() > 0,
        methods.len() <= 255,
        methods.contains(2u8),
        encode_utf8(name).len() <= 255,
        encode_utf8(password).len() <= 255,
        get(users, name) is None || get(users, name)->0.credential_text() != password,
    ensures
        ({
            let input = greeting(methods) + credentials(name, password) + rest;
            &&& request(users, arrived(input)).0 matches Err(e) && e.kind
                == ErrorKind::PermissionDenied
            &&& request(users, arrived(input)).1.output == seq![5u8, 2u8, 1u8, 0xffu8]
        }),
{
    lemma_credentials_are_read(users, methods, name, password, rest);
}

/// A server takes one offer alone: to come without a name where it has no users, and with a
/// password where it has some. Without that offer it refuses, and says so.
pub proof fn law_other_offers_are_refused(
    users: Seq<(Seq<char>, CoreUser)>,
    methods: Seq<u8>,
    rest: Seq<u8>,
)
    requires
        methods.len() <= 255,
        !methods.contains(
            if users.len() == 0 {
                0u8
            } else {
                2u8
            },
        ),
    ensures
        request(users, arrived(greeting(methods) + rest)).0 matches Err(e) && e.kind
            == ErrorKind::PermissionDenied,
        request(users, arrived(greeting(methods) + rest)).1.output == seq![5u8, 0xffu8],
{
    let input = greeting(methods) + rest;
    let t = arrived(input);
    assert(t.next(2) =~= seq![5u8, methods.len() as u8]);
    assert(t.skip(2).next(methods.len()) =~= methods);
    assert(t.skip(2).skip(methods.len()).send(seq![5u8, 0xffu8]).output =~= seq![5u8, 0xffu8]);
}

/// Another version than five is refused in the greeting and in the request, and another than one in
/// the credentials; so is a request to relay datagrams whose reserved byte is not zero.
pub proof fn law_other_versions_are_refused(
    users: Seq<(Seq<char>, CoreUser)>,
    methods: Seq<u8>,
    version: u8,
    command: u8,
    reserved: u8,
    rest: Seq<u8>,
)
    requires
        methods.len() <= 255,
    ensures
        version != 5 ==> request(users, arrived(seq![version, command] + rest)).0 is Err
            && request(users, arrived(seq![version, command] + rest)).1.output.len() == 0,
        users.len() == 0 && methods.contains(0u8) && (version != 5 || (command == 3 && reserved
            != 0)) ==> request(
            users,
            arrived(greeting(methods) + seq![version, command, reserved] + rest),
        ).0 is Err,
        users.len() > 0 && methods.contains(2u8) && version != 1 ==> request(
            users,
            arrived(greeting(methods) + seq![version, command] + rest),
        ).0 is Err && request(
            users,
            arrived(greeting(methods) + seq![version, command] + rest),
        ).1.output == seq![5u8, 2u8, 1u8, 0xffu8],
{
    let n = methods.len();
    assert(arrived(seq![version, command] + rest).next(2) =~= seq![version, command]);
    let a = arrived(greeting(methods) + seq![version, command, reserved] + rest);
    assert(a.next(2) =~= seq![5u8, n as u8]);
    assert(a.skip(2).next(n) =~= methods);
    let a2 = a.skip(2).skip(n);
    if a2.offers(4) {
        assert(a2.next(4)[0] == version && a2.next(4)[1] == command && a2.next(4)[2] == reserved);
    }
    let b = arrived(greeting(methods) + seq![version, command] + rest);
    assert(b.next(2) =~= seq![5u8, n as u8]);
    assert(b.skip(2).next(n) =~= methods);
    let b2 = b.skip(2).skip(n).send(seq![5u8, 2u8]);
    assert(b2.next(2) =~= seq![version, command]);
    assert(b2.skip(2).send(seq![1u8, 0xffu8]).output =~= seq![5u8, 2u8, 1u8, 0xffu8]);
}

/// A command that is neither to connect nor to relay datagrams is refused, and so is an address of
/// an unknown type; the answer says which it was.
pub proof fn law_other_wishes_are_refused(methods: Seq<u8>, command: u8, kind: u8, rest: Seq<u8>)
    requires
        methods.len() <= 255,
        methods.contains(0u8),
        (command != 1 && command != 3) || (kind != 1 && kind != 3 && kind != 4),
    ensures
        ({
            let input = greeting(methods) + seq![5u8, command, 0u8, kind] + rest;
            let (r, t) = request(Seq::empty(), arrived(input));
            &&& r is Err
            &&& t.output == seq![5u8, 0u8] + reply_bytes(
                if command != 1 && command != 3 {
                    7u8
                } else {
                    8u8
                },
                no_address(),
            )
        }),
{
    let input = greeting(methods) + seq![5u8, command, 0u8, kind] + rest;
    let n = methods.len();
    let t = arrived(input);
    assert(t.next(2) =~= seq![5u8, n as u8]);
    assert(t.skip(2).next(n) =~= methods);
    let t2 = t.skip(2).skip(n).send(seq![5u8, 0u8]);
    assert(t2.next(4) =~= seq![5u8, command, 0u8, kind]);
    assert(t2.output =~= seq![5u8, 0u8]);
}

/// The client of an association is the first source that has the address of the peer of the control
/// connection, and no other.
pub proof fn law_client_is_learned(
    client: SocketModel,
    source: SocketModel,
    peer: IpModel,
)
    ensures
        source.ip == peer ==> client_after(None, source, peer) == Some(source),
        source.ip != peer ==> client_after(None, source, peer) is None,
        client_after(Some(client), source, peer) == Some(client),
{
}

/// An association begins without a client and without traffic; what it sends counts as upload, what
/// it answers as download, and a datagram that arrives counts as neither.
pub proof fn law_association_steps(
    s: AssociationModel,
    source: SocketModel,
    peer: IpModel,
    n: u64,
)
    ensures
        AssociationModel::fresh().client is None && AssociationModel::fresh().upload == 0
            && AssociationModel::fresh().download == 0,
        s.met(source, peer).upload == s.upload && s.met(source, peer).download == s.download,
        s.met(source, peer).client == client_after(s.client, source, peer),
        s.upload + n <= u64::MAX ==> s.sent(n).upload == s.upload + n,
        s.upload + n > u64::MAX ==> s.sent(n).upload == u64::MAX,
        s.sent(n).download == s.download && s.sent(n).client == s.client,
        s.download + n <= u64::MAX ==> s.answered(n).download == s.download + n,
        s.download + n > u64::MAX ==> s.answered(n).download == u64::MAX,
        s.answered(n).upload == s.upload && s.answered(n).client == s.client,
{
}

/// The addresses of a target are tried one after the other; once all were, the last failure stands.
pub proof fn law_attempts_in_order(found: nat, tried: nat, last: ErrorModel)
    ensures
        tried < found ==> next_attempt(found, tried, None) == Ok::<nat, ErrorModel>(tried)
            && next_attempt(found, tried, Some(last)) == Ok::<nat, ErrorModel>(tried),
        tried >= found ==> next_attempt(found, tried, Some(last)) == Err::<nat, ErrorModel>(last),
        tried >= found ==> next_attempt(found, tried, None) is Err,
{
}

} // verus!
