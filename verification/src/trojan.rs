//! The Trojan protocol: password hashes, requests, and UDP packets.

use vstd::prelude::*;
use vstd::utf8::encode_utf8;

use crate::address::{lemma_parse_well_formed, IpAddress, IpModel, SocketAddress, SocketModel};
use crate::crypto::{sha224_digest, sha224_sum};
use crate::error::{eof, failure, fault, CoreError, ErrorKind, ErrorModel};
use crate::numeral::{digit_char, digit_of};
use crate::target::{
    address_bytes, lemma_read_target_extended, lemma_read_target_wf, push_address, read_target,
    take_target, SocksTarget, TargetModel, ATYP_DOMAIN, ATYP_IPV4, ATYP_IPV6,
};
use crate::text::{trim, trimmed, unbracket, unbracketed};
use crate::wire::{
    arrived, be16, be16_bytes, copy_bytes, decode_or, extended, four_bytes, join_be16, lemma_be16,
    lemma_extended, push_be16, push_bytes, sixteen_bytes, text_or, Exchange, Tape,
};

verus! {

pub const COMMAND_TCP: u8 = 0x01;

pub const COMMAND_UDP_ASSOCIATE: u8 = 0x03;

/// How many characters a password hash has.
pub const TROJAN_PASSWORD_HEX_LEN: usize = 56;

/// How long a UDP payload may be that is received.
pub const MAX_UDP_PACKET_SIZE: usize = 65_535;

/// The hexadecimal notation of bytes, in lower case.
pub open spec fn hex(bytes: Seq<u8>) -> Seq<char>
    decreases bytes.len(),
{
    if bytes.len() == 0 {
        Seq::empty()
    } else {
        let last = bytes[bytes.len() - 1];
        hex(bytes.subrange(0, bytes.len() - 1)).push(digit_char(last as int / 16)).push(
            digit_char(last as int % 16),
        )
    }
}

/// The hash of a password, by which a client presents it.
pub open spec fn password_hash(password: Seq<char>) -> Seq<char> {
    hex(sha224_digest(encode_utf8(password)))
}

/// Writes bytes in hexadecimal notation.
pub fn hex_lower(bytes: &[u8]) -> (r: String)
    ensures
        r@ == hex(bytes@),
{
    let mut out = String::new();
    let mut i: usize = 0;
    while i < bytes.len()
        invariant
            i <= bytes@.len(),
            out@ == hex(bytes@.subrange(0, i as int)),
        decreases bytes.len() - i,
    {
        let ghost longer = bytes@.subrange(0, i + 1);
        assert(longer.subrange(0, longer.len() - 1) == bytes@.subrange(0, i as int));
        out.push(digit_of(bytes[i] / 16));
        out.push(digit_of(bytes[i] % 16));
        i += 1;
    }
    assert(bytes@.subrange(0, bytes@.len() as int) == bytes@);
    out
}

/// The hash of a password.
pub fn trojan_password_hash(password: &str) -> (r: String)
    ensures
        r@ == password_hash(password@),
        is_hash(r@),
{
    let digest = sha224_sum(password.as_bytes());
    proof {
        lemma_hex(digest@);
    }
    hex_lower(digest.as_slice())
}

/// Whether a text has the form of a password hash.
pub open spec fn is_hash(s: Seq<char>) -> bool {
    s.len() == TROJAN_PASSWORD_HEX_LEN && vstd::utf8::is_ascii_chars(s)
}

/// A notation has two characters per byte, all of them hexadecimal digits.
pub proof fn lemma_hex(bytes: Seq<u8>)
    ensures
        hex(bytes).len() == 2 * bytes.len(),
        vstd::utf8::is_ascii_chars(hex(bytes)),
    decreases bytes.len(),
{
    if bytes.len() > 0 {
        lemma_hex(bytes.subrange(0, bytes.len() - 1));
    }
}

/// Carriage return and line feed.
pub open spec fn crlf() -> Seq<u8> {
    seq![13u8, 10u8]
}

/// Reading carriage return and line feed.
pub open spec fn read_crlf(t: Tape) -> (Result<(), ErrorModel>, Tape) {
    if !t.offers(2) {
        (Err(eof()), t)
    } else if t.next(2) == crlf() {
        (Ok(()), t.skip(2))
    } else {
        (Err(fault(ErrorKind::InvalidData, "missing crlf"@)), t.skip(2))
    }
}

/// Reads carriage return and line feed.
pub fn take_crlf(stream: &mut Exchange) -> (r: Result<(), CoreError>)
    requires
        old(stream).wf(),
    ensures
        final(stream).wf(),
        (match r {
            Ok(_) => Ok::<(), ErrorModel>(()),
            Err(e) => Err(e@),
        }, final(stream)@) == read_crlf(old(stream)@),
{
    match stream.take(2) {
        Ok(bytes) => if bytes[0] == 13 && bytes[1] == 10 {
            assert(bytes@ =~= crlf());
            Ok(())
        } else {
            assert(bytes@ != crlf());
            Err(failure(ErrorKind::InvalidData, "missing crlf"))
        },
        Err(e) => Err(e),
    }
}

/// The error of an address type that is not known.
pub open spec fn unknown_address() -> ErrorModel {
    fault(ErrorKind::InvalidData, "unsupported trojan address type"@)
}

/// Reading a target.
pub open spec fn read_trojan_target(t: Tape) -> (Result<TargetModel, ErrorModel>, Tape) {
    if !t.offers(1) {
        (Err(eof()), t)
    } else {
        read_target(t.skip(1), t.next(1)[0], unknown_address())
    }
}

/// Reads a target.
pub fn take_trojan_target(stream: &mut Exchange) -> (r: Result<SocksTarget, CoreError>)
    requires
        old(stream).wf(),
    ensures
        final(stream).wf(),
        (crate::target::target_result(r), final(stream)@) == read_trojan_target(old(stream)@),
{
    match stream.take(1) {
        Ok(kind) => take_target(stream, kind[0], "unsupported trojan address type"),
        Err(e) => Err(e),
    }
}

/// Reading a UDP packet: its target, its length, and its payload.
pub open spec fn read_udp_packet(t: Tape) -> (Result<(TargetModel, Seq<u8>), ErrorModel>, Tape) {
    let (target, t1) = read_trojan_target(t);
    match target {
        Err(e) => (Err(e), t1),
        Ok(target) => if !t1.offers(2) {
            (Err(eof()), t1)
        } else {
            let len = be16(t1.next(2)[0], t1.next(2)[1]) as nat;
            let (end, t2) = read_crlf(t1.skip(2));
            match end {
                Err(e) => (Err(e), t2),
                Ok(_) => if !t2.offers(len) {
                    (Err(eof()), t2)
                } else {
                    (Ok((target, t2.next(len))), t2.skip(len))
                },
            }
        },
    }
}

/// The view of a result whose value is a packet.
pub open spec fn packet_result(r: Result<(SocksTarget, Vec<u8>), CoreError>) -> Result<
    (TargetModel, Seq<u8>),
    ErrorModel,
> {
    match r {
        Ok((target, payload)) => Ok((target@, payload@)),
        Err(e) => Err(e@),
    }
}

/// Reads a UDP packet.
pub fn read_trojan_udp_packet(stream: &mut Exchange) -> (r: Result<
    (SocksTarget, Vec<u8>),
    CoreError,
>)
    requires
        old(stream).wf(),
    ensures
        final(stream).wf(),
        (packet_result(r), final(stream)@) == read_udp_packet(old(stream)@),
{
    let target = match take_trojan_target(stream) {
        Ok(target) => target,
        Err(e) => {
            return Err(e);
        },
    };
    let len = match stream.take(2) {
        Ok(len) => join_be16(len[0], len[1]),
        Err(e) => {
            return Err(e);
        },
    };
    match take_crlf(stream) {
        Ok(_) => {},
        Err(e) => {
            return Err(e);
        },
    }
    match stream.take(len as usize) {
        Ok(payload) => Ok((target, payload)),
        Err(e) => Err(e),
    }
}

/// The target that bytes begin with and how many bytes it takes, once they hold all of it.
pub open spec fn target_in(bytes: Seq<u8>) -> Result<Option<(TargetModel, int)>, ErrorModel> {
    if bytes.len() == 0 {
        Ok(None)
    } else {
        let host = if bytes[0] == ATYP_IPV4 {
            if bytes.len() < 5 {
                Ok(None)
            } else {
                Ok(Some((IpModel::V4(bytes.subrange(1, 5)).text(), 5)))
            }
        } else if bytes[0] == ATYP_DOMAIN {
            if bytes.len() < 2 || bytes.len() < 2 + bytes[1] {
                Ok(None)
            } else {
                match text_or(bytes.subrange(2, 2 + bytes[1]), "invalid domain"@) {
                    Ok(host) => Ok(Some((host, 2 + bytes[1]))),
                    Err(e) => Err(e),
                }
            }
        } else if bytes[0] == ATYP_IPV6 {
            if bytes.len() < 17 {
                Ok(None)
            } else {
                Ok(Some((IpModel::V6(bytes.subrange(1, 17)).text(), 17)))
            }
        } else {
            Err(unknown_address())
        };
        match host {
            Err(e) => Err(e),
            Ok(None) => Ok(None),
            Ok(Some((host, at))) => if bytes.len() < at + 2 {
                Ok(None)
            } else {
                Ok(Some((TargetModel { host, port: be16(bytes[at], bytes[at + 1]) }, at + 2)))
            },
        }
    }
}

/// The packet that bytes begin with and how many bytes it takes, once they hold all of it.
pub open spec fn packet_in(bytes: Seq<u8>) -> Result<
    Option<(TargetModel, Seq<u8>, int)>,
    ErrorModel,
> {
    match target_in(bytes) {
        Err(e) => Err(e),
        Ok(None) => Ok(None),
        Ok(Some((target, at))) => if bytes.len() < at + 4 {
            Ok(None)
        } else if bytes.subrange(at + 2, at + 4) != crlf() {
            Err(fault(ErrorKind::InvalidData, "invalid trojan udp crlf"@))
        } else {
            let end = at + 4 + be16(bytes[at], bytes[at + 1]);
            if bytes.len() < end {
                Ok(None)
            } else {
                Ok(Some((target, bytes.subrange(at + 4, end), end)))
            }
        },
    }
}

/// Reads the target that bytes begin with, and gives how many bytes it takes.
pub fn parse_trojan_target_from_bytes(bytes: &[u8]) -> (r: Result<
    Option<(SocksTarget, usize)>,
    CoreError,
>)
    ensures
        match r {
            Ok(Some((target, at))) => target_in(bytes@) == Ok::<
                Option<(TargetModel, int)>,
                ErrorModel,
            >(Some((target@, at as int))) && 0 < at <= bytes@.len(),
            Ok(None) => target_in(bytes@) == Ok::<Option<(TargetModel, int)>, ErrorModel>(None),
            Err(e) => target_in(bytes@) == Err::<Option<(TargetModel, int)>, ErrorModel>(e@),
        },
{
    if bytes.len() == 0 {
        return Ok(None);
    }
    let kind = bytes[0];
    let (host, at): (String, usize) = if kind == ATYP_IPV4 {
        if bytes.len() < 5 {
            return Ok(None);
        }
        (IpAddress::V4(four_bytes(bytes, 1)).to_text(), 5)
    } else if kind == ATYP_DOMAIN {
        if bytes.len() < 2 {
            return Ok(None);
        }
        let len: usize = bytes[1] as usize;
        if bytes.len() - 2 < len {
            return Ok(None);
        }
        match decode_or(copy_bytes(bytes, 2, 2 + len), "invalid domain") {
            Ok(host) => (host, 2 + len),
            Err(e) => {
                return Err(e);
            },
        }
    } else if kind == ATYP_IPV6 {
        if bytes.len() < 17 {
            return Ok(None);
        }
        (IpAddress::V6(sixteen_bytes(bytes, 1)).to_text(), 17)
    } else {
        return Err(failure(ErrorKind::InvalidData, "unsupported trojan address type"));
    };
    if bytes.len() - at < 2 {
        return Ok(None);
    }
    Ok(Some((SocksTarget { host, port: join_be16(bytes[at], bytes[at + 1]) }, at + 2)))
}

/// Takes the packet that a buffer begins with out of it, once the buffer holds all of it.
pub fn parse_trojan_udp_packet_from_buffer(buffer: &mut Vec<u8>) -> (r: Result<
    Option<(SocksTarget, Vec<u8>)>,
    CoreError,
>)
    ensures
        match packet_in(old(buffer)@) {
            Ok(Some((target, payload, end))) => {
                &&& r matches Ok(Some((t, p))) && t@ == target && p@ == payload
                &&& final(buffer)@ == old(buffer)@.subrange(end, old(buffer)@.len() as int)
            },
            Ok(None) => {
                &&& r == Ok::<Option<(SocksTarget, Vec<u8>)>, CoreError>(None)
                &&& final(buffer)@ == old(buffer)@
            },
            Err(e) => r is Err && r->Err_0@ == e && final(buffer)@ == old(buffer)@,
        },
{
    let (target, at) = match parse_trojan_target_from_bytes(buffer.as_slice()) {
        Ok(Some(found)) => found,
        Ok(None) => {
            return Ok(None);
        },
        Err(e) => {
            return Err(e);
        },
    };
    if buffer.len() - at < 4 {
        return Ok(None);
    }
    if buffer[at + 2] != 13 || buffer[at + 3] != 10 {
        assert(buffer@.subrange(at + 2, at + 4) != crlf()) by {
            let end = buffer@.subrange(at + 2, at + 4);
            assert(end[0] == buffer@[at + 2]);
            assert(end[1] == buffer@[at + 3]);
        }
        return Err(failure(ErrorKind::InvalidData, "invalid trojan udp crlf"));
    }
    assert(buffer@.subrange(at + 2, at + 4) =~= crlf());
    let len: usize = join_be16(buffer[at], buffer[at + 1]) as usize;
    if buffer.len() - at - 4 < len {
        return Ok(None);
    }
    let end: usize = at + 4 + len;
    let payload = copy_bytes(buffer.as_slice(), at + 4, end);
    let rest = copy_bytes(buffer.as_slice(), end, buffer.len());
    *buffer = rest;
    Ok(Some((target, payload)))
}

/// The notation of a UDP packet from a source; the length is taken modulo 65536.
pub open spec fn udp_packet_bytes(source: SocketModel, payload: Seq<u8>) -> Seq<u8> {
    address_bytes(source) + be16_bytes((payload.len() % 65536) as u16) + crlf() + payload
}

/// Writes a UDP packet from a source.
pub fn encode_trojan_udp_packet(source: &SocketAddress, payload: &[u8]) -> (r: Vec<u8>)
    ensures
        r@ == udp_packet_bytes(source@, payload@),
{
    let mut out: Vec<u8> = Vec::new();
    push_address(&mut out, source);
    assert(out@ =~= address_bytes(source@));
    push_be16(&mut out, (payload.len() % 65536) as u16);
    let ghost head = out@;
    out.push(13);
    out.push(10);
    assert(out@ =~= head + crlf());
    push_bytes(&mut out, payload);
    out
}

/// The notation of a target in a request: that of an IP address where the host is one, else the
/// domain without white space and square brackets around it, which may be neither empty nor
/// longer than 255 bytes.
pub open spec fn target_bytes(t: TargetModel) -> Result<Seq<u8>, ErrorModel> {
    match IpModel::parse(t.host) {
        Some(IpModel::V4(o)) => Ok(seq![ATYP_IPV4] + o + be16_bytes(t.port)),
        Some(IpModel::V6(o)) => Ok(seq![ATYP_IPV6] + o + be16_bytes(t.port)),
        None => {
            let name = encode_utf8(unbracket(trim(t.host)));
            if name.len() == 0 || name.len() > 255 {
                Err(fault(ErrorKind::InvalidInput, "trojan target host is invalid"@))
            } else {
                Ok(seq![ATYP_DOMAIN, name.len() as u8] + name + be16_bytes(t.port))
            }
        },
    }
}

/// What a request begins with: the password hash and the command.
pub open spec fn request_head(hash: Seq<char>) -> Seq<u8> {
    encode_utf8(hash) + crlf() + seq![COMMAND_TCP]
}

/// Writes a target; nothing is written where the host is not valid.
pub fn write_trojan_target(out: &mut Vec<u8>, target: &SocksTarget) -> (r: Result<(), CoreError>)
    ensures
        match target_bytes(target@) {
            Ok(bytes) => r is Ok && final(out)@ == old(out)@ + bytes,
            Err(e) => r is Err && r->Err_0@ == e && final(out)@ == old(out)@,
        },
{
    let ghost before = out@;
    match IpAddress::parse(target.host.as_str()) {
        Some(IpAddress::V4(o)) => {
            out.push(ATYP_IPV4);
            push_bytes(out, o.as_slice());
        },
        Some(IpAddress::V6(o)) => {
            out.push(ATYP_IPV6);
            push_bytes(out, o.as_slice());
        },
        None => {
            let clean = trimmed(target.host.as_str());
            let host = unbracketed(clean.as_str());
            let name = host.as_str().as_bytes();
            if name.len() == 0 || name.len() > 255 {
                return Err(failure(ErrorKind::InvalidInput, "trojan target host is invalid"));
            }
            out.push(ATYP_DOMAIN);
            out.push(name.len() as u8);
            push_bytes(out, name);
        },
    }
    push_be16(out, target.port);
    assert(out@ =~= before + target_bytes(target@)->Ok_0);
    Ok(())
}

/// Writes a request for a TCP connection; where the host is not valid, only the password hash
/// and the command are written.
pub fn write_trojan_tcp_request(out: &mut Vec<u8>, password: &str, target: &SocksTarget) -> (r:
    Result<(), CoreError>)
    ensures
        match target_bytes(target@) {
            Ok(bytes) => r is Ok && final(out)@ == old(out)@ + (request_head(password_hash(password@)) + bytes
                + crlf()),
            Err(e) => r is Err && r->Err_0@ == e && final(out)@ == old(out)@ + request_head(
                password_hash(password@),
            ),
        },
{
    let ghost before = out@;
    let hash = trojan_password_hash(password);
    push_bytes(out, hash.as_str().as_bytes());
    out.push(13);
    out.push(10);
    out.push(COMMAND_TCP);
    assert(out@ =~= before + request_head(password_hash(password@)));
    match write_trojan_target(out, target) {
        Ok(_) => {
            out.push(13);
            out.push(10);
            assert(out@ =~= before + (request_head(password_hash(password@)) + target_bytes(target@)->Ok_0
                + crlf()));
            Ok(())
        },
        Err(e) => Err(e),
    }
}

/// The local address that a UDP socket is bound to for a remote address: the wildcard of its
/// version.
pub fn udp_bind_addr_for_remote(remote: &SocketAddress) -> (r: SocketAddress)
    ensures
        r@ == SocketModel::plain(r@.ip, 0),
        r@.ip.unspecified(),
        r@.ip.well_formed(),
        r.ip is V4 == remote.ip is V4,
{
    match remote.ip {
        IpAddress::V4(_) => SocketAddress::new(IpAddress::V4([0u8; 4]), 0),
        IpAddress::V6(_) => SocketAddress::new(IpAddress::V6([0u8; 16]), 0),
    }
}

/// A UDP packet is taken out of a buffer exactly: its source, its payload, and no byte of what
/// follows it.
pub proof fn law_udp_packet_reads_back(source: SocketModel, payload: Seq<u8>, rest: Seq<u8>)
    requires
        source.ip.well_formed(),
        payload.len() <= 65535,
    ensures
        packet_in(udp_packet_bytes(source, payload) + rest) == Ok::<
            Option<(TargetModel, Seq<u8>, int)>,
            ErrorModel,
        >(
            Some(
                (
                    TargetModel { host: source.ip.text(), port: source.port },
                    payload,
                    udp_packet_bytes(source, payload).len() as int,
                ),
            ),
        ),
        (udp_packet_bytes(source, payload) + rest).subrange(
            udp_packet_bytes(source, payload).len() as int,
            (udp_packet_bytes(source, payload) + rest).len() as int,
        ) == rest,
{
    let packet = udp_packet_bytes(source, payload);
    let bytes = packet + rest;
    lemma_be16(source.port);
    lemma_be16(payload.len() as u16);
    let o = crate::target::octets(source.ip);
    let n = o.len() as int;
    let at = n + 3;
    assert(bytes.subrange(1, 1 + n) =~= o);
    assert(bytes[1 + n] == be16_bytes(source.port)[0]);
    assert(bytes[2 + n] == be16_bytes(source.port)[1]);
    assert(bytes[at] == be16_bytes(payload.len() as u16)[0]);
    assert(bytes[at + 1] == be16_bytes(payload.len() as u16)[1]);
    assert(bytes.subrange(at + 2, at + 4) =~= crlf());
    assert(bytes.subrange(at + 4, at + 4 + payload.len()) =~= payload);
    assert(bytes.subrange(packet.len() as int, bytes.len() as int) =~= rest);
}

/// Bytes that arrive later do not change the target that a buffer begins with, nor a refusal.
proof fn lemma_target_in_extended(bytes: Seq<u8>, more: Seq<u8>)
    requires
        target_in(bytes) != Ok::<Option<(TargetModel, int)>, ErrorModel>(None),
    ensures
        target_in(bytes + more) == target_in(bytes),
        target_in(bytes) matches Ok(Some((_, at))) ==> 0 < at <= bytes.len(),
{
    let all = bytes + more;
    assert(forall|i: int| 0 <= i < bytes.len() ==> #[trigger] all[i] == bytes[i]);
    assert(all[0] == bytes[0]);
    if bytes[0] == ATYP_IPV4 {
        assert(all.subrange(1, 5) =~= bytes.subrange(1, 5));
    } else if bytes[0] == ATYP_DOMAIN {
        assert(all[1] == bytes[1]);
        assert(all.subrange(2, 2 + bytes[1]) =~= bytes.subrange(2, 2 + bytes[1]));
    } else if bytes[0] == ATYP_IPV6 {
        assert(all.subrange(1, 17) =~= bytes.subrange(1, 17));
    }
}

/// Bytes that arrive later do not change the packet that a buffer begins with, nor a refusal.
pub proof fn law_buffered_packet_is_incremental(bytes: Seq<u8>, more: Seq<u8>)
    requires
        packet_in(bytes) != Ok::<Option<(TargetModel, Seq<u8>, int)>, ErrorModel>(None),
    ensures
        packet_in(bytes + more) == packet_in(bytes),
{
    let all = bytes + more;
    lemma_target_in_extended(bytes, more);
    if let Ok(Some((target, at))) = target_in(bytes) {
        assert(all.subrange(at + 2, at + 4) =~= bytes.subrange(at + 2, at + 4));
        assert(all[at] == bytes[at]);
        assert(all[at + 1] == bytes[at + 1]);
        let end = at + 4 + be16(bytes[at], bytes[at + 1]);
        if bytes.len() >= end {
            assert(all.subrange(at + 4, end) =~= bytes.subrange(at + 4, end));
        }
    }
}

/// A buffer gives a packet exactly where reading it as a stream does, and the same one.
pub proof fn law_buffer_agrees_with_stream(bytes: Seq<u8>)
    ensures
        match packet_in(bytes) {
            Ok(Some((target, payload, end))) => read_udp_packet(arrived(bytes)) == (
                Ok::<(TargetModel, Seq<u8>), ErrorModel>((target, payload)),
                arrived(bytes).skip(end as nat),
            ),
            Ok(None) => read_udp_packet(arrived(bytes)).0 == Err::<
                (TargetModel, Seq<u8>),
                ErrorModel,
            >(eof()),
            Err(_) => read_udp_packet(arrived(bytes)).0 is Err,
        },
{
    let t = arrived(bytes);
    if bytes.len() > 0 {
        assert(t.next(1)[0] == bytes[0]);
        let t1 = t.skip(1);
        if bytes[0] == ATYP_IPV4 && bytes.len() >= 5 {
            assert(t1.next(4) =~= bytes.subrange(1, 5));
        } else if bytes[0] == ATYP_DOMAIN && bytes.len() >= 2 {
            assert(t1.next(1)[0] == bytes[1]);
            if bytes.len() >= 2 + bytes[1] {
                assert(t1.skip(1).next(bytes[1] as nat) =~= bytes.subrange(2, 2 + bytes[1]));
            }
        } else if bytes[0] == ATYP_IPV6 && bytes.len() >= 17 {
            assert(t1.next(16) =~= bytes.subrange(1, 17));
        }
        if let Ok(Some((target, at))) = target_in(bytes) {
            let t2 = read_trojan_target(t).1;
            assert(t2.position == at);
            if bytes.len() >= at + 4 {
                assert(t2.next(2)[0] == bytes[at]);
                assert(t2.next(2)[1] == bytes[at + 1]);
                assert(t2.skip(2).next(2) =~= bytes.subrange(at + 2, at + 4));
                let end = at + 4 + be16(bytes[at], bytes[at + 1]);
                if bytes.len() >= end {
                    assert(t2.skip(4).next((end - at - 4) as nat) =~= bytes.subrange(at + 4, end));
                }
            }
        }
    }
}

/// Bytes that arrive later do not change what was read of a target, nor a refusal that is not
/// for want of bytes.
pub proof fn lemma_read_trojan_target_extended(t: Tape, more: Seq<u8>)
    requires
        t.wf(),
        read_trojan_target(t).0 != Err::<TargetModel, ErrorModel>(eof()),
    ensures
        read_trojan_target(extended(t, more)) == (
            read_trojan_target(t).0,
            extended(read_trojan_target(t).1, more),
        ),
        read_trojan_target(t).1.wf(),
{
    lemma_extended(t, more);
    assert(t.offers(1));
    lemma_read_target_extended(t.skip(1), t.next(1)[0], unknown_address(), more);
    lemma_read_target_wf(t.skip(1), t.next(1)[0], unknown_address());
}

/// A target as it is after a passage over the wire.
pub open spec fn carried(t: TargetModel) -> TargetModel {
    TargetModel {
        host: match IpModel::parse(t.host) {
            Some(ip) => ip.text(),
            None => unbracket(trim(t.host)),
        },
        port: t.port,
    }
}

/// A target that could be written reads back from any place.
pub proof fn law_target_reads_back(target: TargetModel, before: Seq<u8>, after: Seq<u8>)
    requires
        target_bytes(target) is Ok,
    ensures
        read_trojan_target(
            arrived(before + target_bytes(target)->Ok_0 + after).skip(before.len()),
        ) == (
            Ok::<TargetModel, ErrorModel>(carried(target)),
            arrived(before + target_bytes(target)->Ok_0 + after).skip(
                before.len() + target_bytes(target)->Ok_0.len(),
            ),
        ),
{
    let bytes = target_bytes(target)->Ok_0;
    let input = before + bytes + after;
    let t = arrived(input).skip(before.len());
    let t1 = t.skip(1);
    lemma_be16(target.port);
    let port = be16_bytes(target.port);
    assert(t.next(1) =~= bytes.subrange(0, 1));
    assert(t.next(1)[0] == bytes[0]);
    match IpModel::parse(target.host) {
        Some(ip) => {
            lemma_parse_well_formed(target.host);
            let o = crate::target::octets(ip);
            assert(t1.next(o.len()) =~= o);
            let t2 = t1.skip(o.len());
            assert(t2.next(2) =~= port);
        },
        None => {
            let host = unbracket(trim(target.host));
            let name = encode_utf8(host);
            vstd::utf8::encode_utf8_valid_utf8(host);
            vstd::utf8::encode_utf8_decode_utf8(host);
            assert(t1.next(1) =~= bytes.subrange(1, 2));
            assert(t1.next(1)[0] == bytes[1]);
            let t2 = t1.skip(1);
            assert(t2.next(name.len()) =~= name);
            let t3 = t2.skip(name.len());
            assert(t3.next(2) =~= port);
        },
    }
}

} // verus!
