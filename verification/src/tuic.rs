//! The TUIC protocol: commands, addresses, and user ids.

use vstd::prelude::*;
use vstd::utf8::encode_utf8;

use crate::address::{lemma_parse_well_formed, IpAddress, IpModel, SocketAddress};
use crate::error::{eof, failure, fault, CoreError, ErrorKind, ErrorModel};
use crate::numeral::{parse_chars, parse_unsigned};
use crate::target::{target_result, SocksTarget, TargetModel};
use crate::text::{chars_of, lower, lowered, replace, replaced, same_text, string_of, trim, trimmed};
use crate::wire::{
    be16, be16_bytes, copy_bytes, decode_or, four_bytes, join_be16, lemma_be16, push_be16,
    push_bytes, sixteen_bytes, text_or, Exchange, Tape,
};

verus! {

pub const VERSION: u8 = 0x05;

pub const COMMAND_AUTHENTICATE: u8 = 0x00;

pub const COMMAND_CONNECT: u8 = 0x01;

pub const COMMAND_PACKET: u8 = 0x02;

pub const COMMAND_DISSOCIATE: u8 = 0x03;

pub const COMMAND_HEARTBEAT: u8 = 0x04;

pub const ATYP_DOMAIN: u8 = 0x00;

pub const ATYP_IPV4: u8 = 0x01;

pub const ATYP_IPV6: u8 = 0x02;

pub const ATYP_NONE: u8 = 0xff;

/// A packet, or a fragment of one.
#[derive(Debug, PartialEq, Eq)]
pub struct UdpPacket {
    pub assoc_id: u16,
    pub packet_id: u16,
    pub fragment_total: u8,
    pub fragment_id: u8,
    pub target: Option<SocksTarget>,
    pub payload: Vec<u8>,
}

/// The mathematical value of a packet.
#[verifier::ext_equal]
pub struct PacketModel {
    pub assoc_id: u16,
    pub packet_id: u16,
    pub fragment_total: u8,
    pub fragment_id: u8,
    pub target: Option<TargetModel>,
    pub payload: Seq<u8>,
}

/// The view of an optional target.
pub open spec fn target_view(target: Option<SocksTarget>) -> Option<TargetModel> {
    match target {
        Some(t) => Some(t@),
        None => None,
    }
}

impl View for UdpPacket {
    type V = PacketModel;

    open spec fn view(&self) -> PacketModel {
        PacketModel {
            assoc_id: self.assoc_id,
            packet_id: self.packet_id,
            fragment_total: self.fragment_total,
            fragment_id: self.fragment_id,
            target: target_view(self.target),
            payload: self.payload@,
        }
    }
}

impl PacketModel {
    /// Whether the packet is whole.
    pub open spec fn single(self) -> bool {
        self.fragment_total == 1 && self.fragment_id == 0
    }
}

impl UdpPacket {
    /// Whether the packet is whole.
    pub fn is_single_fragment(&self) -> (r: bool)
        ensures
            r == self@.single(),
    {
        self.fragment_total == 1 && self.fragment_id == 0
    }
}

/// A command about UDP.
#[derive(Debug, PartialEq, Eq)]
pub enum UdpCommand {
    Packet(UdpPacket),
    Dissociate(u16),
    Heartbeat,
}

/// The mathematical value of a command.
#[verifier::ext_equal]
pub enum CommandModel {
    Packet(PacketModel),
    Dissociate(u16),
    Heartbeat,
}

impl View for UdpCommand {
    type V = CommandModel;

    open spec fn view(&self) -> CommandModel {
        match self {
            UdpCommand::Packet(p) => CommandModel::Packet(p@),
            UdpCommand::Dissociate(id) => CommandModel::Dissociate(*id),
            UdpCommand::Heartbeat => CommandModel::Heartbeat,
        }
    }
}

/// The view of a result whose value is a command.
pub open spec fn command_result(r: Result<UdpCommand, CoreError>) -> Result<
    CommandModel,
    ErrorModel,
> {
    match r {
        Ok(c) => Ok(c@),
        Err(e) => Err(e@),
    }
}

/// An error for input that ends too early.
pub open spec fn truncated(message: Seq<char>) -> ErrorModel {
    fault(ErrorKind::UnexpectedEof, message)
}

/// An error for input that is not valid.
pub open spec fn invalid(message: Seq<char>) -> ErrorModel {
    fault(ErrorKind::InvalidData, message)
}

/// The port at an offset.
pub open spec fn port_at(input: Seq<u8>, at: int) -> Result<u16, ErrorModel> {
    if input.len() < at + 2 {
        Err(truncated("truncated tuic port"@))
    } else {
        Ok(be16(input[at], input[at + 1]))
    }
}

/// The address at an offset, and the offset behind it.
pub open spec fn address_at(input: Seq<u8>, at: int) -> Result<
    (Option<TargetModel>, int),
    ErrorModel,
> {
    if at >= input.len() {
        Err(truncated("missing tuic address type"@))
    } else if input[at] == ATYP_NONE {
        Ok((None, at + 1))
    } else if input[at] == ATYP_DOMAIN {
        if at + 1 >= input.len() {
            Err(truncated("missing tuic domain length"@))
        } else {
            let end = at + 2 + input[at + 1];
            if input.len() < end + 2 {
                Err(truncated("truncated tuic domain address"@))
            } else {
                match text_or(input.subrange(at + 2, end), "invalid tuic domain"@) {
                    Ok(host) => Ok(
                        (Some(TargetModel { host, port: be16(input[end], input[end + 1]) }), end + 2),
                    ),
                    Err(e) => Err(e),
                }
            }
        }
    } else if input[at] == ATYP_IPV4 {
        if input.len() < at + 7 {
            Err(truncated("truncated tuic ipv4 address"@))
        } else {
            Ok(
                (
                    Some(
                        TargetModel {
                            host: IpModel::V4(input.subrange(at + 1, at + 5)).text(),
                            port: be16(input[at + 5], input[at + 6]),
                        },
                    ),
                    at + 7,
                ),
            )
        }
    } else if input[at] == ATYP_IPV6 {
        if input.len() < at + 19 {
            Err(truncated("truncated tuic ipv6 address"@))
        } else {
            Ok(
                (
                    Some(
                        TargetModel {
                            host: IpModel::V6(input.subrange(at + 1, at + 17)).text(),
                            port: be16(input[at + 17], input[at + 18]),
                        },
                    ),
                    at + 19,
                ),
            )
        }
    } else {
        Err(invalid("unsupported tuic address type"@))
    }
}

/// The packet that a packet command holds.
pub open spec fn packet_of(input: Seq<u8>) -> Result<PacketModel, ErrorModel> {
    if input.len() < 10 {
        Err(invalid("tuic udp packet command is too short"@))
    } else {
        match address_at(input, 10) {
            Err(e) => Err(e),
            Ok((target, at)) => if input.len() - at != be16(input[8], input[9]) {
                Err(invalid("tuic udp packet payload length mismatch"@))
            } else {
                Ok(
                    PacketModel {
                        assoc_id: be16(input[2], input[3]),
                        packet_id: be16(input[4], input[5]),
                        fragment_total: input[6],
                        fragment_id: input[7],
                        target,
                        payload: input.subrange(at, input.len() as int),
                    },
                )
            },
        }
    }
}

/// The command that bytes hold.
pub open spec fn command_of(input: Seq<u8>) -> Result<CommandModel, ErrorModel> {
    if input.len() < 2 || input[0] != VERSION {
        Err(invalid("invalid tuic udp command header"@))
    } else if input[1] == COMMAND_PACKET {
        match packet_of(input) {
            Ok(p) => Ok(CommandModel::Packet(p)),
            Err(e) => Err(e),
        }
    } else if input[1] == COMMAND_DISSOCIATE {
        if input.len() != 4 {
            Err(invalid("invalid tuic dissociate command"@))
        } else {
            Ok(CommandModel::Dissociate(be16(input[2], input[3])))
        }
    } else if input[1] == COMMAND_HEARTBEAT {
        if input.len() == 2 {
            Ok(CommandModel::Heartbeat)
        } else {
            Err(invalid("invalid tuic heartbeat command"@))
        }
    } else {
        Err(invalid("unsupported tuic udp command"@))
    }
}

/// Reads the port at an offset.
fn read_port_from(input: &[u8], at: usize) -> (r: Result<u16, CoreError>)
    requires
        at <= input@.len(),
    ensures
        match r {
            Ok(port) => port_at(input@, at as int) == Ok::<u16, ErrorModel>(port),
            Err(e) => port_at(input@, at as int) == Err::<u16, ErrorModel>(e@),
        },
{
    if input.len() - at < 2 {
        return Err(failure(ErrorKind::UnexpectedEof, "truncated tuic port"));
    }
    Ok(join_be16(input[at], input[at + 1]))
}

/// Reads the address at an offset, and gives the offset behind it.
pub fn parse_address_from(input: &[u8], at: usize) -> (r: Result<
    (Option<SocksTarget>, usize),
    CoreError,
>)
    ensures
        match r {
            Ok((target, end)) => address_at(input@, at as int) == Ok::<
                (Option<TargetModel>, int),
                ErrorModel,
            >((target_view(target), end as int)) && at < end <= input@.len(),
            Err(e) => address_at(input@, at as int) == Err::<
                (Option<TargetModel>, int),
                ErrorModel,
            >(e@),
        },
{
    if at >= input.len() {
        return Err(failure(ErrorKind::UnexpectedEof, "missing tuic address type"));
    }
    let kind = input[at];
    let from: usize = at + 1;
    if kind == ATYP_NONE {
        return Ok((None, from));
    }
    if kind == ATYP_DOMAIN {
        if from >= input.len() {
            return Err(failure(ErrorKind::UnexpectedEof, "missing tuic domain length"));
        }
        let len: usize = input[from] as usize;
        let start: usize = from + 1;
        if input.len() - start < len + 2 {
            return Err(failure(ErrorKind::UnexpectedEof, "truncated tuic domain address"));
        }
        let end: usize = start + len;
        let host = match decode_or(copy_bytes(input, start, end), "invalid tuic domain") {
            Ok(host) => host,
            Err(e) => {
                return Err(e);
            },
        };
        return match read_port_from(input, end) {
            Ok(port) => Ok((Some(SocksTarget { host, port }), end + 2)),
            Err(e) => Err(e),
        };
    }
    if kind == ATYP_IPV4 {
        if input.len() - from < 6 {
            return Err(failure(ErrorKind::UnexpectedEof, "truncated tuic ipv4 address"));
        }
        let host = IpAddress::V4(four_bytes(input, from)).to_text();
        return match read_port_from(input, from + 4) {
            Ok(port) => Ok((Some(SocksTarget { host, port }), from + 6)),
            Err(e) => Err(e),
        };
    }
    if kind == ATYP_IPV6 {
        if input.len() - from < 18 {
            return Err(failure(ErrorKind::UnexpectedEof, "truncated tuic ipv6 address"));
        }
        let host = IpAddress::V6(sixteen_bytes(input, from)).to_text();
        return match read_port_from(input, from + 16) {
            Ok(port) => Ok((Some(SocksTarget { host, port }), from + 18)),
            Err(e) => Err(e),
        };
    }
    Err(failure(ErrorKind::InvalidData, "unsupported tuic address type"))
}

/// Reads a packet command.
pub fn parse_udp_packet(input: &[u8]) -> (r: Result<UdpPacket, CoreError>)
    ensures
        match r {
            Ok(p) => packet_of(input@) == Ok::<PacketModel, ErrorModel>(p@),
            Err(e) => packet_of(input@) == Err::<PacketModel, ErrorModel>(e@),
        },
{
    if input.len() < 10 {
        return Err(failure(ErrorKind::InvalidData, "tuic udp packet command is too short"));
    }
    let (target, at) = match parse_address_from(input, 10) {
        Ok(found) => found,
        Err(e) => {
            return Err(e);
        },
    };
    if input.len() - at != join_be16(input[8], input[9]) as usize {
        return Err(failure(ErrorKind::InvalidData, "tuic udp packet payload length mismatch"));
    }
    Ok(
        UdpPacket {
            assoc_id: join_be16(input[2], input[3]),
            packet_id: join_be16(input[4], input[5]),
            fragment_total: input[6],
            fragment_id: input[7],
            target,
            payload: copy_bytes(input, at, input.len()),
        },
    )
}

/// Reads a command about UDP.
pub fn parse_udp_command(input: &[u8]) -> (r: Result<UdpCommand, CoreError>)
    ensures
        command_result(r) == command_of(input@),
{
    if input.len() < 2 || input[0] != VERSION {
        return Err(failure(ErrorKind::InvalidData, "invalid tuic udp command header"));
    }
    let kind = input[1];
    if kind == COMMAND_PACKET {
        match parse_udp_packet(input) {
            Ok(p) => Ok(UdpCommand::Packet(p)),
            Err(e) => Err(e),
        }
    } else if kind == COMMAND_DISSOCIATE {
        if input.len() != 4 {
            return Err(failure(ErrorKind::InvalidData, "invalid tuic dissociate command"));
        }
        Ok(UdpCommand::Dissociate(join_be16(input[2], input[3])))
    } else if kind == COMMAND_HEARTBEAT {
        if input.len() == 2 {
            Ok(UdpCommand::Heartbeat)
        } else {
            Err(failure(ErrorKind::InvalidData, "invalid tuic heartbeat command"))
        }
    } else {
        Err(failure(ErrorKind::InvalidData, "unsupported tuic udp command"))
    }
}

/// The notation of an address: that of an IP address where the host is one, else the domain.
pub open spec fn encoded_address(target: Option<TargetModel>) -> Result<Seq<u8>, ErrorModel> {
    match target {
        None => Ok(seq![ATYP_NONE]),
        Some(t) => match IpModel::parse(t.host) {
            Some(IpModel::V4(o)) => Ok(seq![ATYP_IPV4] + o + be16_bytes(t.port)),
            Some(IpModel::V6(o)) => Ok(seq![ATYP_IPV6] + o + be16_bytes(t.port)),
            None => {
                let name = encode_utf8(t.host);
                if name.len() > 255 {
                    Err(fault(ErrorKind::InvalidInput, "tuic domain is too long"@))
                } else {
                    Ok(seq![ATYP_DOMAIN, name.len() as u8] + name + be16_bytes(t.port))
                }
            },
        },
    }
}

/// The notation of a packet command.
pub open spec fn encoded_packet(p: PacketModel) -> Result<Seq<u8>, ErrorModel> {
    if p.payload.len() > 65535 {
        Err(fault(ErrorKind::InvalidInput, "tuic udp packet payload is too large"@))
    } else {
        match encoded_address(p.target) {
            Err(e) => Err(e),
            Ok(address) => Ok(
                seq![VERSION, COMMAND_PACKET] + be16_bytes(p.assoc_id) + be16_bytes(p.packet_id)
                    + seq![p.fragment_total, p.fragment_id] + be16_bytes(p.payload.len() as u16)
                    + address + p.payload,
            ),
        }
    }
}

/// The view of a result whose value is bytes.
pub open spec fn bytes_result(r: Result<Vec<u8>, CoreError>) -> Result<Seq<u8>, ErrorModel> {
    match r {
        Ok(b) => Ok(b@),
        Err(e) => Err(e@),
    }
}

/// Writes an address.
pub fn encode_address(target: Option<&SocksTarget>) -> (r: Result<Vec<u8>, CoreError>)
    ensures
        bytes_result(r) == encoded_address(
            match target {
                Some(t) => Some(t@),
                None => None,
            },
        ),
{
    let mut out: Vec<u8> = Vec::new();
    let target = match target {
        Some(target) => target,
        None => {
            out.push(ATYP_NONE);
            assert(out@ =~= seq![ATYP_NONE]);
            return Ok(out);
        },
    };
    match IpAddress::parse(target.host.as_str()) {
        Some(IpAddress::V4(o)) => {
            out.push(ATYP_IPV4);
            push_bytes(&mut out, o.as_slice());
            assert(out@ =~= seq![ATYP_IPV4] + o@);
        },
        Some(IpAddress::V6(o)) => {
            out.push(ATYP_IPV6);
            push_bytes(&mut out, o.as_slice());
            assert(out@ =~= seq![ATYP_IPV6] + o@);
        },
        None => {
            let name = target.host.as_str().as_bytes();
            if name.len() > 255 {
                return Err(failure(ErrorKind::InvalidInput, "tuic domain is too long"));
            }
            out.push(ATYP_DOMAIN);
            out.push(name.len() as u8);
            assert(out@ =~= seq![ATYP_DOMAIN, name@.len() as u8]);
            push_bytes(&mut out, name);
        },
    }
    push_be16(&mut out, target.port);
    Ok(out)
}

/// Writes a packet command.
pub fn encode_udp_packet(
    assoc_id: u16,
    packet_id: u16,
    fragment_total: u8,
    fragment_id: u8,
    target: Option<&SocksTarget>,
    payload: &[u8],
) -> (r: Result<Vec<u8>, CoreError>)
    ensures
        bytes_result(r) == encoded_packet(
            PacketModel {
                assoc_id,
                packet_id,
                fragment_total,
                fragment_id,
                target: match target {
                    Some(t) => Some(t@),
                    None => None,
                },
                payload: payload@,
            },
        ),
{
    if payload.len() > 65535 {
        return Err(failure(ErrorKind::InvalidInput, "tuic udp packet payload is too large"));
    }
    let address = match encode_address(target) {
        Ok(address) => address,
        Err(e) => {
            return Err(e);
        },
    };
    let mut out: Vec<u8> = Vec::new();
    out.push(VERSION);
    out.push(COMMAND_PACKET);
    assert(out@ =~= seq![VERSION, COMMAND_PACKET]);
    push_be16(&mut out, assoc_id);
    push_be16(&mut out, packet_id);
    let ghost head = out@;
    out.push(fragment_total);
    out.push(fragment_id);
    assert(out@ =~= head + seq![fragment_total, fragment_id]);
    push_be16(&mut out, payload.len() as u16);
    push_bytes(&mut out, address.as_slice());
    push_bytes(&mut out, payload);
    Ok(out)
}

/// The target that a socket address names.
pub fn socket_addr_to_target(address: &SocketAddress) -> (r: SocksTarget)
    ensures
        r@ == (TargetModel { host: address@.ip.text(), port: address@.port }),
{
    SocksTarget { host: address.ip.to_text(), port: address.port }
}

/// A target as it is after a passage over the wire: an IP address in its canonical notation.
pub open spec fn carried(target: Option<TargetModel>) -> Option<TargetModel> {
    match target {
        Some(t) => match IpModel::parse(t.host) {
            Some(ip) => Some(TargetModel { host: ip.text(), ..t }),
            None => Some(t),
        },
        None => None,
    }
}

/// An address that could be written reads back from any place, up to the notation of an IP
/// address.
pub proof fn law_address_reads_back(target: Option<TargetModel>, before: Seq<u8>, after: Seq<u8>)
    requires
        encoded_address(target) is Ok,
    ensures
        address_at(before + encoded_address(target)->Ok_0 + after, before.len() as int) == Ok::<
            (Option<TargetModel>, int),
            ErrorModel,
        >((carried(target), (before.len() + encoded_address(target)->Ok_0.len()) as int)),
{
    let address = encoded_address(target)->Ok_0;
    let input = before + address + after;
    let at = before.len() as int;
    assert(forall|i: int| 0 <= i < address.len() ==> #[trigger] input[at + i] == address[i]);
    if target is Some {
        let t = target->0;
        lemma_be16(t.port);
        let port = be16_bytes(t.port);
        match IpModel::parse(t.host) {
            Some(ip) => {
                lemma_parse_well_formed(t.host);
                let o = crate::target::octets(ip);
                assert(input.subrange(at + 1, at + 1 + o.len()) =~= o);
                assert(input[at] == address[0]);
                assert(input[at + 1 + o.len()] == address[1 + o.len() as int]);
                assert(input[at + 2 + o.len()] == address[2 + o.len() as int]);
                assert(address[1 + o.len() as int] == port[0]);
                assert(address[2 + o.len() as int] == port[1]);
            },
            None => {
                let name = encode_utf8(t.host);
                vstd::utf8::encode_utf8_valid_utf8(t.host);
                vstd::utf8::encode_utf8_decode_utf8(t.host);
                assert(input.subrange(at + 2, at + 2 + name.len()) =~= name);
                assert(input[at] == address[0]);
                assert(input[at + 1] == address[1]);
                assert(input[at + 2 + name.len()] == address[2 + name.len() as int]);
                assert(input[at + 3 + name.len()] == address[3 + name.len() as int]);
                assert(address[2 + name.len() as int] == port[0]);
                assert(address[3 + name.len() as int] == port[1]);
            },
        }
    } else {
        assert(input[at] == address[0]);
    }
}

/// A packet that could be written reads back, up to the notation of an IP address.
pub proof fn law_packet_reads_back(p: PacketModel)
    requires
        encoded_packet(p) is Ok,
    ensures
        command_of(encoded_packet(p)->Ok_0) == Ok::<CommandModel, ErrorModel>(
            CommandModel::Packet(PacketModel { target: carried(p.target), ..p }),
        ),
{
    let address = encoded_address(p.target)->Ok_0;
    let input = encoded_packet(p)->Ok_0;
    let head = seq![VERSION, COMMAND_PACKET] + be16_bytes(p.assoc_id) + be16_bytes(p.packet_id)
        + seq![p.fragment_total, p.fragment_id] + be16_bytes(p.payload.len() as u16);
    lemma_be16(p.assoc_id);
    lemma_be16(p.packet_id);
    lemma_be16(p.payload.len() as u16);
    assert(input =~= head + address + p.payload);
    law_address_reads_back(p.target, head, p.payload);
    assert(input.subrange((10 + address.len()) as int, input.len() as int) =~= p.payload);
}

/// Reading the domain of an address from a stream.
pub open spec fn read_domain(t: Tape) -> (Result<Seq<char>, ErrorModel>, Tape) {
    if !t.offers(1) {
        (Err(eof()), t)
    } else {
        let n = t.next(1)[0] as nat;
        let t1 = t.skip(1);
        if !t1.offers(n) {
            (Err(eof()), t1)
        } else {
            (text_or(t1.next(n), "invalid tuic domain"@), t1.skip(n))
        }
    }
}

/// Reading the host of an address from a stream.
pub open spec fn read_host(t: Tape, kind: u8) -> (Result<Seq<char>, ErrorModel>, Tape) {
    if kind == ATYP_DOMAIN {
        read_domain(t)
    } else if kind == ATYP_IPV4 {
        if t.offers(4) {
            (Ok(IpModel::V4(t.next(4)).text()), t.skip(4))
        } else {
            (Err(eof()), t)
        }
    } else if kind == ATYP_IPV6 {
        if t.offers(16) {
            (Ok(IpModel::V6(t.next(16)).text()), t.skip(16))
        } else {
            (Err(eof()), t)
        }
    } else {
        (Err(invalid("unsupported tuic address type"@)), t)
    }
}

/// Reading an address from a stream.
pub open spec fn read_target(t: Tape) -> (Result<TargetModel, ErrorModel>, Tape) {
    if !t.offers(1) {
        (Err(eof()), t)
    } else {
        let (host, t1) = read_host(t.skip(1), t.next(1)[0]);
        match host {
            Err(e) => (Err(e), t1),
            Ok(host) => if t1.offers(2) {
                (
                    Ok(TargetModel { host, port: be16(t1.next(2)[0], t1.next(2)[1]) }),
                    t1.skip(2),
                )
            } else {
                (Err(eof()), t1)
            },
        }
    }
}

/// Reads the host of an address from a stream.
fn take_host(stream: &mut Exchange, kind: u8) -> (r: Result<String, CoreError>)
    requires
        old(stream).wf(),
    ensures
        final(stream).wf(),
        (crate::wire::text_result(r), final(stream)@) == read_host(old(stream)@, kind),
{
    if kind == ATYP_DOMAIN {
        match stream.take(1) {
            Ok(len) => match stream.take(len[0] as usize) {
                Ok(name) => decode_or(name, "invalid tuic domain"),
                Err(e) => Err(e),
            },
            Err(e) => Err(e),
        }
    } else if kind == ATYP_IPV4 {
        match stream.take(4) {
            Ok(bytes) => {
                let octets = four_bytes(bytes.as_slice(), 0);
                assert(octets@ =~= bytes@);
                Ok(IpAddress::V4(octets).to_text())
            },
            Err(e) => Err(e),
        }
    } else if kind == ATYP_IPV6 {
        match stream.take(16) {
            Ok(bytes) => {
                let octets = sixteen_bytes(bytes.as_slice(), 0);
                assert(octets@ =~= bytes@);
                Ok(IpAddress::V6(octets).to_text())
            },
            Err(e) => Err(e),
        }
    } else {
        Err(failure(ErrorKind::InvalidData, "unsupported tuic address type"))
    }
}

/// Reads an address from a stream.
pub fn read_address(stream: &mut Exchange) -> (r: Result<SocksTarget, CoreError>)
    requires
        old(stream).wf(),
    ensures
        final(stream).wf(),
        (target_result(r), final(stream)@) == read_target(old(stream)@),
{
    let kind = match stream.take(1) {
        Ok(kind) => kind[0],
        Err(e) => {
            return Err(e);
        },
    };
    match take_host(stream, kind) {
        Ok(host) => match stream.take(2) {
            Ok(port) => Ok(SocksTarget { host, port: join_be16(port[0], port[1]) }),
            Err(e) => Err(e),
        },
        Err(e) => Err(e),
    }
}

/// The text without hyphens.
pub open spec fn without_hyphens(s: Seq<char>) -> Seq<char>
    decreases s.len(),
{
    if s.len() == 0 {
        Seq::empty()
    } else {
        let rest = without_hyphens(s.subrange(0, s.len() - 1));
        if s[s.len() - 1] == '-' {
            rest
        } else {
            rest.push(s[s.len() - 1])
        }
    }
}

/// The value of the pair of hexadecimal digits at a position.
pub open spec fn pair_value(s: Seq<char>, i: int) -> Option<nat> {
    parse_unsigned(s.subrange(2 * i, 2 * i + 2), 16, 255)
}

/// The sixteen bytes of a user id: pairs of hexadecimal digits, with hyphens anywhere.
pub open spec fn uuid_bytes(value: Seq<char>) -> Result<Seq<u8>, ErrorModel> {
    let compact = without_hyphens(value);
    if encode_utf8(compact).len() != 32 {
        Err(fault(ErrorKind::InvalidInput, "tuic user uuid must be 16 bytes"@))
    } else if compact.len() == 32 && forall|i: int|
        0 <= i < 16 ==> #[trigger] pair_value(compact, i) is Some {
        Ok(Seq::new(16, |i: int| pair_value(compact, i)->0 as u8))
    } else {
        Err(fault(ErrorKind::InvalidInput, "tuic user uuid is invalid"@))
    }
}

/// Reads the sixteen bytes of a user id.
pub fn parse_uuid_bytes(value: &str) -> (r: Result<[u8; 16], CoreError>)
    ensures
        match r {
            Ok(bytes) => uuid_bytes(value@) == Ok::<Seq<u8>, ErrorModel>(bytes@),
            Err(e) => uuid_bytes(value@) == Err::<Seq<u8>, ErrorModel>(e@),
        },
{
    let chars = chars_of(value);
    let mut compact: Vec<char> = Vec::new();
    let mut i: usize = 0;
    while i < chars.len()
        invariant
            i <= chars@.len(),
            compact@ == without_hyphens(chars@.subrange(0, i as int)),
        decreases chars.len() - i,
    {
        let ghost longer = chars@.subrange(0, i + 1);
        assert(longer.subrange(0, longer.len() - 1) == chars@.subrange(0, i as int));
        if chars[i] != '-' {
            compact.push(chars[i]);
        }
        i += 1;
    }
    assert(chars@.subrange(0, chars@.len() as int) == value@);
    let text = string_of(compact.as_slice());
    if text.as_str().as_bytes().len() != 32 {
        return Err(failure(ErrorKind::InvalidInput, "tuic user uuid must be 16 bytes"));
    }
    if compact.len() != 32 {
        return Err(failure(ErrorKind::InvalidInput, "tuic user uuid is invalid"));
    }
    let mut out: [u8; 16] = [0u8; 16];
    let mut index: usize = 0;
    while index < 16
        invariant
            index <= 16,
            compact@ == without_hyphens(value@),
            encode_utf8(compact@).len() == 32,
            compact@.len() == 32,
            forall|k: int| 0 <= k < index ==> #[trigger] pair_value(compact@, k) is Some,
            forall|k: int|
                0 <= k < index ==> #[trigger] out@[k] == pair_value(compact@, k)->0 as u8,
        decreases 16 - index,
    {
        let pair = [compact[2 * index], compact[2 * index + 1]];
        assert(pair@.subrange(0, 2) =~= compact@.subrange(2 * index as int, 2 * index + 2));
        match parse_chars(pair.as_slice(), 0, 16, 255) {
            Some(value) => {
                out[index] = value as u8;
            },
            None => {
                assert(pair_value(compact@, index as int) is None);
                return Err(failure(ErrorKind::InvalidInput, "tuic user uuid is invalid"));
            },
        }
        index += 1;
    }
    assert(out@ =~= Seq::new(16, |i: int| pair_value(compact@, i)->0 as u8));
    Ok(out)
}

/// How the sending rate of a connection is controlled.
#[derive(Clone, Copy, Debug, PartialEq, Eq, Structural)]
pub enum CongestionControl {
    Cubic,
    Bbr,
    NewReno,
}

/// The name of a congestion control without white space around it, in lower case, with
/// underscores for hyphens and spaces.
pub open spec fn normal_control(value: Seq<char>) -> Seq<char> {
    replace(replace(lower(trim(value)), '-', '_'), ' ', '_')
}

/// The congestion control that a setting names; none is cubic.
pub open spec fn control_of(value: Seq<char>) -> Result<CongestionControl, ErrorModel> {
    let name = normal_control(value);
    if name == ""@ || name == "cubic"@ {
        Ok(CongestionControl::Cubic)
    } else if name == "bbr"@ {
        Ok(CongestionControl::Bbr)
    } else if name == "new_reno"@ || name == "newreno"@ || name == "reno"@ {
        Ok(CongestionControl::NewReno)
    } else {
        Err(
            fault(
                ErrorKind::InvalidInput,
                "unsupported tuic congestion_control "@ + name,
            ),
        )
    }
}

/// The normal form of the name of a congestion control.
pub fn normalize_tuic_congestion_control(value: &str) -> (r: String)
    ensures
        r@ == normal_control(value@),
{
    let clean = trimmed(value);
    let small = lowered(clean.as_str());
    let joined = replaced(small.as_str(), '-', '_');
    replaced(joined.as_str(), ' ', '_')
}

/// The congestion control that a setting names.
pub fn tuic_congestion_control(value: &str) -> (r: Result<CongestionControl, CoreError>)
    ensures
        match r {
            Ok(control) => control_of(value@) == Ok::<CongestionControl, ErrorModel>(control),
            Err(e) => control_of(value@) == Err::<CongestionControl, ErrorModel>(e@),
        },
{
    let name = normalize_tuic_congestion_control(value);
    let name = name.as_str();
    if same_text(name, "") || same_text(name, "cubic") {
        Ok(CongestionControl::Cubic)
    } else if same_text(name, "bbr") {
        Ok(CongestionControl::Bbr)
    } else if same_text(name, "new_reno") || same_text(name, "newreno") || same_text(name, "reno") {
        Ok(CongestionControl::NewReno)
    } else {
        let mut message = "unsupported tuic congestion_control ".to_owned();
        message.append(name);
        Err(CoreError { kind: ErrorKind::InvalidInput, message })
    }
}

} // verus!
