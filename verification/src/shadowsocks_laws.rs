//! What stands on the wire of a Shadowsocks session.

use vstd::prelude::*;

use crate::address::{IpModel, SocketModel};
use crate::crypto::{
    aes128_gcm_opened, aes128_gcm_sealed, aes256_gcm_opened, aes256_gcm_sealed,
    chacha20_poly1305_opened, chacha20_poly1305_sealed, hkdf_sha1_key, md5_digest,
};
use crate::error::{ErrorKind, ErrorModel};
use crate::shadowsocks::{
    announced_length, chunk, chunk_bytes, counter_nonce, key_block, key_blocks,
    method_of, request_payload, session_cipher, session_key, session_label, CipherModel,
    ShadowsocksMethod,
};
use crate::shadowsocks_server::{
    is_gone, is_stale, known_client, law_remotes_of_live_clients, lemma_no_packet_owner,
    live_remotes, touched, UdpClientContext, lemma_owner_prefix, lemma_packet_owner_prefix, owner_of_head,
    request, udp_packet, udp_request, RequestModel, UdpClientSession,
};
use crate::table::{distinct, get, lemma_cut};
use crate::target::TargetModel;
use crate::target_laws::{law_address_is_written, law_target_is_read, port_bytes, WireHost};
use crate::text::{lower, replace, trim};
use crate::user::CoreUser;
use crate::wire::{arrived, Tape};

verus! {

/// A nonce has twelve bytes; the first eight hold the counter, the least significant byte first,
/// and the last four are zero.
pub proof fn law_nonce_holds_the_counter(n: u64)
    ensures
        ({
            let b = counter_nonce(n);
            &&& b.len() == 12
            &&& b[0] + 0x100 * b[1] + 0x1_0000 * b[2] + 0x100_0000 * b[3] + 0x1_0000_0000 * b[4]
                + 0x100_0000_0000 * b[5] + 0x1_0000_0000_0000 * b[6] + 0x100_0000_0000_0000 * b[7]
                == n
            &&& b[8] == 0 && b[9] == 0 && b[10] == 0 && b[11] == 0
        }),
{
    assert(n % 256 + 0x100 * (n / 0x100 % 256) + 0x1_0000 * (n / 0x1_0000 % 256) + 0x100_0000 * (n
        / 0x100_0000 % 256) + 0x1_0000_0000 * (n / 0x1_0000_0000 % 256) + 0x100_0000_0000 * (n
        / 0x100_0000_0000 % 256) + 0x1_0000_0000_0000 * (n / 0x1_0000_0000_0000 % 256)
        + 0x100_0000_0000_0000 * (n / 0x100_0000_0000_0000 % 256) == n) by (bit_vector);
}

/// Each message of a session is sealed under the key of the session and the number of messages
/// before it.
pub proof fn law_messages_are_numbered(c: CipherModel)
    requires
        c.nonce < u64::MAX,
    ensures
        c.advanced().nonce == c.nonce + 1,
        c.advanced().key == c.key,
        c.advanced().method == c.method,
{
}

/// Each cipher seals and opens as its name says, with a key of sixteen or thirty-two bytes.
pub proof fn law_ciphers_are_those_named(key: Seq<u8>, nonce: Seq<u8>, bytes: Seq<u8>)
    requires
        bytes.len() <= 0xffff_ffff,
    ensures
        ShadowsocksMethod::Aes128Gcm.key_size() == 16,
        ShadowsocksMethod::Aes256Gcm.key_size() == 32,
        ShadowsocksMethod::ChaCha20IetfPoly1305.key_size() == 32,
        ShadowsocksMethod::Aes128Gcm.sealed(key, nonce, bytes) == aes128_gcm_sealed(
            key,
            nonce,
            bytes,
        ),
        ShadowsocksMethod::Aes256Gcm.sealed(key, nonce, bytes) == aes256_gcm_sealed(
            key,
            nonce,
            bytes,
        ),
        ShadowsocksMethod::ChaCha20IetfPoly1305.sealed(key, nonce, bytes)
            == chacha20_poly1305_sealed(key, nonce, bytes),
        ShadowsocksMethod::Aes128Gcm.opened(key, nonce, bytes) == aes128_gcm_opened(
            key,
            nonce,
            bytes,
        ),
        ShadowsocksMethod::Aes256Gcm.opened(key, nonce, bytes) == aes256_gcm_opened(
            key,
            nonce,
            bytes,
        ),
        ShadowsocksMethod::ChaCha20IetfPoly1305.opened(key, nonce, bytes)
            == chacha20_poly1305_opened(key, nonce, bytes),
{
}

/// The key of a session is derived from the salt of the session and, under the label `ss-subkey`,
/// from the digest of the password; where thirty-two bytes are wanted, the digest is followed by
/// that of itself and the password.
pub proof fn law_session_keys(method: ShadowsocksMethod, password: Seq<char>, salt: Seq<u8>)
    ensures
        ({
            let p = vstd::utf8::encode_utf8(password);
            let label = "ss-subkey"@.map_values(|c: char| c as u8);
            let (material, len) = if method == ShadowsocksMethod::Aes128Gcm {
                (md5_digest(p).subrange(0, 16), 16nat)
            } else {
                ((md5_digest(p) + md5_digest(md5_digest(p) + p)).subrange(0, 32), 32nat)
            };
            session_cipher(method, password, salt) == CipherModel {
                method,
                key: hkdf_sha1_key(salt, material, label, len),
                nonce: 0,
            }
        }),
{
    let p = vstd::utf8::encode_utf8(password);
    let label = "ss-subkey"@.map_values(|c: char| c as u8);
    reveal_strlit("ss-subkey");
    assert(label =~= session_label());
    reveal_with_fuel(key_blocks, 3);
    reveal_with_fuel(key_block, 3);
    let first = md5_digest(p);
    let second = md5_digest(first + p);
    assert(key_blocks(p, 1) =~= first);
    assert(key_blocks(p, 2) =~= first + second);
}

/// A chunk announces its length in two bytes, the more significant first; it is not empty and
/// holds at most 16383 bytes.
pub proof fn law_announced_lengths(high: u8, low: u8, head: Seq<u8>)
    ensures
        1 <= high * 256 + low <= 16383 ==> announced_length(seq![high, low]) == Ok::<
            nat,
            ErrorModel,
        >((high * 256 + low) as nat),
        !(1 <= high * 256 + low <= 16383) ==> announced_length(seq![high, low]) is Err,
        head.len() != 2 ==> announced_length(head) is Err,
{
}

/// A chunk is its length, sealed, and its payload, sealed as the message after that.
pub proof fn law_chunk_layout(c: CipherModel, payload: Seq<u8>)
    requires
        payload.len() <= 16383,
        c.nonce < u64::MAX,
    ensures
        chunk_bytes(c, payload) == c.method.sealed(
            c.key,
            counter_nonce(c.nonce),
            seq![(payload.len() / 256) as u8, (payload.len() % 256) as u8],
        ) + c.method.sealed(c.key, counter_nonce((c.nonce + 1) as u64), payload),
{
    let n = payload.len() as u16;
    assert(seq![(n / 256) as u8, (n % 256) as u8] =~= seq![
        (payload.len() / 256) as u8,
        (payload.len() % 256) as u8,
    ]);
}

/// A chunk is read from a head that opens to its length and a body that opens, as the message
/// after that, to its payload. Nothing behind the chunk is read.
pub proof fn law_chunk_is_read(
    c: CipherModel,
    before: Seq<u8>,
    head: Seq<u8>,
    body: Seq<u8>,
    rest: Seq<u8>,
    output: Seq<u8>,
    payload: Seq<u8>,
)
    requires
        c.nonce < u64::MAX - 1,
        1 <= payload.len() <= 16383,
        head.len() == 18,
        body.len() == payload.len() + 16,
        c.method.opened(c.key, counter_nonce(c.nonce), head) == Some(
            seq![(payload.len() / 256) as u8, (payload.len() % 256) as u8],
        ),
        c.method.opened(c.key, counter_nonce((c.nonce + 1) as u64), body) == Some(payload),
    ensures
        ({
            let input = before + head + body + rest;
            chunk(c, Tape { input, position: before.len(), output }) == (
                Ok::<Seq<u8>, ErrorModel>(payload),
                CipherModel { method: c.method, key: c.key, nonce: (c.nonce + 2) as u64 },
                Tape { input, position: (before.len() + head.len() + body.len()) as nat, output },
            )
        }),
{
    let input = before + head + body + rest;
    let t = Tape { input, position: before.len(), output };
    assert(t.next(18) =~= head);
    assert(t.skip(18).next(body.len()) =~= body);
    law_announced_lengths(
        (payload.len() / 256) as u8,
        (payload.len() % 256) as u8,
        Seq::empty(),
    );
}

/// The first payload of a session begins with the target.
pub proof fn law_first_payload_names_the_target(host: WireHost, port: u16, data: Seq<u8>)
    requires
        host.fits(),
    ensures
        request_payload(host.bytes() + port_bytes(port) + data) == Ok::<
            (TargetModel, Seq<u8>),
            ErrorModel,
        >((TargetModel { host: host.text(), port }, data)),
{
    let payload = host.bytes() + port_bytes(port) + data;
    let none = Seq::<u8>::empty();
    assert(none + host.bytes() + port_bytes(port) + data =~= payload);
    law_target_is_read(
        none,
        host,
        port,
        data,
        none,
        crate::error::fault(ErrorKind::InvalidData, "unsupported shadowsocks address type"@),
    );
    let t = arrived(payload);
    assert(t.next(1) =~= seq![host.bytes()[0]]);
    assert(payload.subrange(payload.len() - data.len(), payload.len() as int) =~= data);
}

/// A client that sends its salt and a chunk that begins with the target, both as a writer with the
/// credential of a user writes them, is that user; the request holds the target and the rest of
/// the chunk. The reader of the request is where the writer is: a second chunk of the writer is
/// read next, as it was written.
pub proof fn law_stream_goes_on_after_request(
    users: Seq<CoreUser>,
    i: int,
    method: ShadowsocksMethod,
    salt: Seq<u8>,
    first: Seq<u8>,
    second: Seq<u8>,
    rest: Seq<u8>,
    writer: CipherModel,
    last: CipherModel,
    host: WireHost,
    port: u16,
    data: Seq<u8>,
    next: Seq<u8>,
)
    requires
        0 <= i < users.len(),
        host.fits(),
        salt.len() == method.key_size(),
        chunk(session_cipher(method, users[i].credential_text(), salt), arrived(first)) == (
            Ok::<Seq<u8>, ErrorModel>(host.bytes() + port_bytes(port) + data),
            writer,
            arrived(first).skip(first.len()),
        ),
        chunk(writer, arrived(second)) == (
            Ok::<Seq<u8>, ErrorModel>(next),
            last,
            arrived(second).skip(second.len()),
        ),
        forall|j: int|
            0 <= j < i ==> session_cipher(
                method,
                (#[trigger] users[j]).credential_text(),
                salt,
            ).open_next(first.subrange(0, 18)) is None,
    ensures
        ({
            let input = salt + first + second + rest;
            let (r, t) = request(users, method, arrived(input));
            &&& r == Ok::<RequestModel, ErrorModel>(
                RequestModel {
                    user: users[i],
                    target: TargetModel { host: host.text(), port },
                    initial_payload: data,
                    cipher: writer,
                },
            )
            &&& t.position == salt.len() + first.len()
            &&& chunk(r->Ok_0.cipher, t).0 == Ok::<Seq<u8>, ErrorModel>(next)
            &&& chunk(r->Ok_0.cipher, t).1 == last
            &&& chunk(r->Ok_0.cipher, t).2.position == salt.len() + first.len() + second.len()
        }),
{
    let input = salt + first + second + rest;
    let t = arrived(input);
    let c = session_cipher(method, users[i].credential_text(), salt);
    let f = arrived(first);
    assert(f.offers(18));
    let head = first.subrange(0, 18);
    assert(f.next(18) =~= head);
    let body = first.subrange(18, first.len() as int);
    let len = announced_length(c.open_next(head)->0)->Ok_0;
    assert(f.skip(18).offers(len + 16));
    assert(18 + len + 16 == first.len());
    assert(f.skip(18).next(len + 16) =~= body);
    assert(t.next(method.key_size()) =~= salt);
    let t1 = t.skip(method.key_size());
    assert(t1.next(18) =~= head);
    assert(t1.skip(18).next(len + 16) =~= body);
    lemma_no_head_owner(users.subrange(0, i), method, salt, head);
    lemma_owner_prefix(users, method, salt, head, i);
    law_first_payload_names_the_target(host, port, data);
    let t3 = t1.skip(18).skip(len + 16);
    lemma_chunk_anywhere(writer, salt + first, second, rest, t3.output);
    assert((salt + first) + second + rest =~= input);
}

/// A chunk is read wherever it stands as it is read where it stands alone.
proof fn lemma_chunk_anywhere(
    c: CipherModel,
    before: Seq<u8>,
    bytes: Seq<u8>,
    rest: Seq<u8>,
    output: Seq<u8>,
)
    requires
        chunk(c, arrived(bytes)).0 is Ok,
        chunk(c, arrived(bytes)).2 == arrived(bytes).skip(bytes.len()),
    ensures
        ({
            let t = Tape { input: before + bytes + rest, position: before.len(), output };
            &&& chunk(c, t).0 == chunk(c, arrived(bytes)).0
            &&& chunk(c, t).1 == chunk(c, arrived(bytes)).1
            &&& chunk(c, t).2 == t.skip(bytes.len())
        }),
{
    let s = arrived(bytes);
    let t = Tape { input: before + bytes + rest, position: before.len(), output };
    assert(s.offers(18));
    assert(t.next(18) =~= s.next(18));
    let len = announced_length(c.open_next(s.next(18))->0)->Ok_0;
    assert(s.skip(18).offers(len + 16));
    assert(t.skip(18).next(len + 16) =~= s.skip(18).next(len + 16));
    assert(18 + len + 16 == bytes.len());
    assert(t.skip(18).skip(len + 16) == t.skip(bytes.len()));
}

/// A head that no credential opens has no owner.
proof fn lemma_no_head_owner(
    users: Seq<CoreUser>,
    method: ShadowsocksMethod,
    salt: Seq<u8>,
    sealed: Seq<u8>,
)
    requires
        forall|j: int|
            0 <= j < users.len() ==> session_cipher(
                method,
                (#[trigger] users[j]).credential_text(),
                salt,
            ).open_next(sealed) is None,
    ensures
        owner_of_head(users, method, salt, sealed) < 0,
    decreases users.len(),
{
    if users.len() > 0 {
        let init = users.subrange(0, users.len() - 1);
        assert forall|j: int| 0 <= j < init.len() implies session_cipher(
            method,
            (#[trigger] init[j]).credential_text(),
            salt,
        ).open_next(sealed) is None by {
            assert(init[j] == users[j]);
        }
        lemma_no_head_owner(init, method, salt, sealed);
    }
}

/// A stream whose first head no credential opens is refused.
pub proof fn law_unknown_stream_is_refused(
    users: Seq<CoreUser>,
    method: ShadowsocksMethod,
    salt: Seq<u8>,
    head: Seq<u8>,
    rest: Seq<u8>,
)
    requires
        salt.len() == method.key_size(),
        head.len() == 18,
        forall|j: int|
            0 <= j < users.len() ==> session_cipher(
                method,
                (#[trigger] users[j]).credential_text(),
                salt,
            ).open_next(head) is None,
    ensures
        request(users, method, arrived(salt + head + rest)).0 matches Err(e) && e.kind
            == ErrorKind::PermissionDenied,
{
    let t = arrived(salt + head + rest);
    assert(t.next(method.key_size()) =~= salt);
    assert(t.skip(method.key_size()).next(18) =~= head);
    lemma_no_head_owner(users, method, salt, head);
}

/// A packet is a salt and, sealed under it as the first message, the target and the payload. It is
/// the request of the first user whose credential opens it, and refused where there is none.
pub proof fn law_packet_is_read(
    users: Seq<CoreUser>,
    i: int,
    method: ShadowsocksMethod,
    salt: Seq<u8>,
    sealed: Seq<u8>,
    host: WireHost,
    port: u16,
    payload: Seq<u8>,
)
    requires
        host.fits(),
        salt.len() == method.key_size(),
        sealed.len() > 16,
        0 <= i <= users.len(),
        i < users.len() ==> session_cipher(method, users[i].credential_text(), salt).open_next(
            sealed,
        ) == Some(host.bytes() + port_bytes(port) + payload),
        forall|j: int|
            0 <= j < i ==> session_cipher(
                method,
                (#[trigger] users[j]).credential_text(),
                salt,
            ).open_next(sealed) is None,
    ensures
        i < users.len() ==> udp_request(users, method, salt + sealed) == Ok::<
            (CoreUser, TargetModel, Seq<u8>),
            ErrorModel,
        >((users[i], TargetModel { host: host.text(), port }, payload)),
        i == users.len() ==> (udp_request(users, method, salt + sealed) matches Err(e) && e.kind
            == ErrorKind::PermissionDenied),
{
    let packet = salt + sealed;
    let n = method.key_size() as int;
    assert(packet.subrange(0, n) =~= salt);
    assert(packet.subrange(n, packet.len() as int) =~= sealed);
    assert(users.subrange(0, users.len() as int) =~= users);
    lemma_no_packet_owner(users.subrange(0, i), method, salt, sealed);
    if i < users.len() {
        lemma_packet_owner_prefix(users, method, salt, sealed, i);
    }
    law_first_payload_names_the_target(host, port, payload);
}

/// A packet with nothing but a salt and a tag, or less, is refused.
pub proof fn law_short_packet_is_refused(
    users: Seq<CoreUser>,
    method: ShadowsocksMethod,
    packet: Seq<u8>,
)
    requires
        packet.len() <= method.key_size() + 16,
    ensures
        udp_request(users, method, packet) matches Err(e) && e.kind == ErrorKind::UnexpectedEof,
{
}

/// A packet to a client holds, sealed under its salt as the first message, where the payload came
/// from and the payload.
pub proof fn law_packet_layout(
    method: ShadowsocksMethod,
    credential: Seq<char>,
    salt: Seq<u8>,
    source: SocketModel,
    payload: Seq<u8>,
)
    ensures
        ({
            let host = match source.ip {
                IpModel::V4(octets) => WireHost::V4(octets),
                IpModel::V6(octets) => WireHost::V6(octets),
            };
            udp_packet(method, credential, salt, source, payload) == salt + method.sealed(
                session_key(method, credential, salt),
                counter_nonce(0),
                host.bytes() + port_bytes(source.port) + payload,
            )
        }),
{
    law_address_is_written(source);
}

/// A client of packets is forgotten once it was silent for more than five minutes.
pub proof fn law_silent_client_is_stale(session: UdpClientSession, now: u64)
    ensures
        is_stale(session, now) <==> now - session.last_seen > 5 * 60 * 1000,
{
}

/// A cipher goes by its name, whatever the case of its letters and the white space around it, with
/// underscores for hyphens.
pub proof fn law_cipher_names(value: Seq<char>)
    ensures
        ({
            let name = replace(lower(trim(value)), '_', '-');
            &&& method_of(value) == Ok::<ShadowsocksMethod, ErrorModel>(
                ShadowsocksMethod::Aes128Gcm,
            ) <==> name == "aes-128-gcm"@
            &&& method_of(value) == Ok::<ShadowsocksMethod, ErrorModel>(
                ShadowsocksMethod::Aes256Gcm,
            ) <==> name == "aes-256-gcm"@
            &&& method_of(value) == Ok::<ShadowsocksMethod, ErrorModel>(
                ShadowsocksMethod::ChaCha20IetfPoly1305,
            ) <==> name == "chacha20-ietf-poly1305"@
        }),
{
    reveal_strlit("aes-128-gcm");
    reveal_strlit("aes-256-gcm");
    reveal_strlit("chacha20-ietf-poly1305");
    assert("aes-128-gcm"@[4] == '1' && "aes-256-gcm"@[4] == '2');
    assert("aes-128-gcm"@[0] == 'a' && "aes-256-gcm"@[0] == 'a' && "chacha20-ietf-poly1305"@[0]
        == 'c');
}

/// A client of packets is known for the user that it was last seen with, and for no other.
pub proof fn law_known_clients(
    clients: Seq<(SocketModel, UdpClientSession)>,
    client: SocketModel,
    user_uuid: Seq<char>,
    other: SocketModel,
)
    requires
        distinct(clients),
        other != client,
    ensures
        known_client(clients, client, user_uuid) <==> (get(clients, client) matches Some(session)
            && session.user_uuid@ == user_uuid),
        !known_client(clients, client, user_uuid) ==> get(
            touched(clients, client, user_uuid),
            client,
        ) is None,
        known_client(clients, client, user_uuid) ==> get(
            touched(clients, client, user_uuid),
            client,
        ) == get(clients, client),
        get(touched(clients, client, user_uuid), other) == get(clients, other),
{
    lemma_cut(clients, client);
}

/// A client is gone where it is known and was silent for more than five minutes. The way to a
/// remote address is forgotten with its client, and only then.
pub proof fn law_gone_clients(
    clients: Seq<(SocketModel, UdpClientSession)>,
    remotes: Seq<(SocketModel, UdpClientContext)>,
    client: SocketModel,
    now: u64,
    k: int,
)
    requires
        0 <= k < remotes.len(),
    ensures
        is_gone(clients, client, now) <==> (get(clients, client) matches Some(session) && now
            - session.last_seen > 5 * 60 * 1000),
        live_remotes(remotes, clients, now).contains(remotes[k]) <==> !is_gone(
            clients,
            remotes[k].1.client_addr@,
            now,
        ),
    decreases remotes.len(),
{
    let init = remotes.subrange(0, remotes.len() - 1);
    let last = remotes[remotes.len() - 1];
    let rest = live_remotes(init, clients, now);
    let all = live_remotes(remotes, clients, now);
    law_remotes_of_live_clients(remotes, clients, now);
    if all.contains(remotes[k]) {
        let j = choose|j: int| 0 <= j < all.len() && all[j] == remotes[k];
        assert(!is_gone(clients, all[j].1.client_addr@, now));
    } else if k < init.len() {
        assert(init[k] == remotes[k]);
        law_gone_clients(clients, init, client, now, k);
        if rest.contains(remotes[k]) {
            let j = choose|j: int| 0 <= j < rest.len() && rest[j] == remotes[k];
            assert(all[j] == remotes[k]);
        }
    } else if !is_gone(clients, last.1.client_addr@, now) {
        assert(all[rest.len() as int] == last);
    }
}

} // verus!
