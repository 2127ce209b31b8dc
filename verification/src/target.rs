//! The target of a proxied connection, and its notation with address types 1, 3 and 4.

use vstd::prelude::*;

use crate::address::{IpAddress, IpModel, SocketAddress, SocketModel};
use crate::error::{eof, failure, fault, CoreError, ErrorKind, ErrorModel};
use crate::wire::{
    be16, be16_bytes, extended, four_bytes, join_be16, lemma_extended, push_be16, push_bytes,
    read_text, sixteen_bytes, text_result, Exchange, Tape,
};

verus! {

pub const ATYP_IPV4: u8 = 0x01;

pub const ATYP_DOMAIN: u8 = 0x03;

pub const ATYP_IPV6: u8 = 0x04;

/// Where a client wants to be connected to.
#[derive(Debug, PartialEq, Eq)]
pub struct SocksTarget {
    pub host: String,
    pub port: u16,
}

impl Clone for SocksTarget {
    fn clone(&self) -> (r: SocksTarget)
        ensures
            r == *self,
    {
        SocksTarget { host: self.host.clone(), port: self.port }
    }
}

/// The mathematical value of a target.
#[verifier::ext_equal]
pub struct TargetModel {
    pub host: Seq<char>,
    pub port: u16,
}

impl View for SocksTarget {
    type V = TargetModel;

    open spec fn view(&self) -> TargetModel {
        TargetModel { host: self.host@, port: self.port }
    }
}

/// The view of a result whose value is a target.
pub open spec fn target_result(r: Result<SocksTarget, CoreError>) -> Result<
    TargetModel,
    ErrorModel,
> {
    match r {
        Ok(t) => Ok(t@),
        Err(e) => Err(e@),
    }
}

/// The octets of an address.
pub open spec fn octets(ip: IpModel) -> Seq<u8> {
    match ip {
        IpModel::V4(o) => o,
        IpModel::V6(o) => o,
    }
}

/// A socket address with its address type in front.
pub open spec fn address_bytes(a: SocketModel) -> Seq<u8> {
    match a.ip {
        IpModel::V4(o) => seq![ATYP_IPV4] + o + be16_bytes(a.port),
        IpModel::V6(o) => seq![ATYP_IPV6] + o + be16_bytes(a.port),
    }
}

/// Appends a socket address with its address type in front.
pub fn push_address(out: &mut Vec<u8>, address: &SocketAddress)
    ensures
        final(out)@ == old(out)@ + address_bytes(address@),
{
    let ghost before = out@;
    match &address.ip {
        IpAddress::V4(o) => {
            out.push(ATYP_IPV4);
            push_bytes(out, o.as_slice());
        },
        IpAddress::V6(o) => {
            out.push(ATYP_IPV6);
            push_bytes(out, o.as_slice());
        },
    }
    push_be16(out, address.port);
    assert(out@ =~= before + address_bytes(address@));
}

/// Reading the host of a target whose address type is known.
pub open spec fn read_host(t: Tape, kind: u8, unknown: ErrorModel) -> (
    Result<Seq<char>, ErrorModel>,
    Tape,
) {
    if kind == ATYP_IPV4 {
        if t.offers(4) {
            (Ok(IpModel::V4(t.next(4)).text()), t.skip(4))
        } else {
            (Err(eof()), t)
        }
    } else if kind == ATYP_IPV6 {
        if t.offers(16) {
            (Ok(IpModel::V6(t.next(16)).text()), t.skip(16))
        } else {
            (Err(eof()), t)
        }
    } else if kind == ATYP_DOMAIN {
        if t.offers(1) {
            read_text(t.skip(1), t.next(1)[0] as nat)
        } else {
            (Err(eof()), t)
        }
    } else {
        (Err(unknown), t)
    }
}

/// Reading the host and the port of a target whose address type is known.
pub open spec fn read_target(t: Tape, kind: u8, unknown: ErrorModel) -> (
    Result<TargetModel, ErrorModel>,
    Tape,
) {
    let (host, t1) = read_host(t, kind, unknown);
    match host {
        Err(e) => (Err(e), t1),
        Ok(host) => if t1.offers(2) {
            (
                Ok(TargetModel { host, port: be16(t1.next(2)[0], t1.next(2)[1]) }),
                t1.skip(2),
            )
        } else {
            (Err(eof()), t1)
        },
    }
}

/// Reads the host of a target whose address type is known.
pub fn take_host(stream: &mut Exchange, kind: u8, unknown: &str) -> (r: Result<String, CoreError>)
    requires
        old(stream).wf(),
    ensures
        final(stream).wf(),
        (text_result(r), final(stream)@) == read_host(
            old(stream)@,
            kind,
            fault(ErrorKind::InvalidData, unknown@),
        ),
{
    if kind == ATYP_IPV4 {
        match stream.take(4) {
            Ok(bytes) => {
                let octets = four_bytes(bytes.as_slice(), 0);
                assert(octets@ =~= bytes@);
                Ok(IpAddress::V4(octets).to_text())
            },
            Err(e) => Err(e),
        }
    } else if kind == ATYP_IPV6 {
        match stream.take(16) {
            Ok(bytes) => {
                let octets = sixteen_bytes(bytes.as_slice(), 0);
                assert(octets@ =~= bytes@);
                Ok(IpAddress::V6(octets).to_text())
            },
            Err(e) => Err(e),
        }
    } else if kind == ATYP_DOMAIN {
        match stream.take(1) {
            Ok(len) => stream.take_text(len[0] as usize),
            Err(e) => Err(e),
        }
    } else {
        Err(failure(ErrorKind::InvalidData, unknown))
    }
}

/// Reads the host and the port of a target whose address type is known.
pub fn take_target(
    stream: &mut Exchange,
    kind: u8,
    unknown: &str,
) -> (r: Result<SocksTarget, CoreError>)
    requires
        old(stream).wf(),
    ensures
        final(stream).wf(),
        (target_result(r), final(stream)@) == read_target(
            old(stream)@,
            kind,
            fault(ErrorKind::InvalidData, unknown@),
        ),
{
    match take_host(stream, kind, unknown) {
        Ok(host) => match stream.take(2) {
            Ok(port) => Ok(SocksTarget { host, port: join_be16(port[0], port[1]) }),
            Err(e) => Err(e),
        },
        Err(e) => Err(e),
    }
}

/// The tape after reading a target holds what it held, and reads on from a valid position.
pub proof fn lemma_read_target_wf(t: Tape, kind: u8, unknown: ErrorModel)
    requires
        t.wf(),
    ensures
        read_target(t, kind, unknown).1.wf(),
        read_target(t, kind, unknown).1.input == t.input,
        read_target(t, kind, unknown).1.output == t.output,
        read_target(t, kind, unknown).1.position >= t.position,
{
}

/// Bytes that arrive later do not change a target that was read, nor a refusal that is not
/// for want of bytes.
pub proof fn lemma_read_target_extended(t: Tape, kind: u8, unknown: ErrorModel, more: Seq<u8>)
    requires
        t.wf(),
        unknown.kind != ErrorKind::UnexpectedEof,
        read_target(t, kind, unknown).0 != Err::<TargetModel, ErrorModel>(eof()),
    ensures
        read_target(extended(t, more), kind, unknown) == (
            read_target(t, kind, unknown).0,
            extended(read_target(t, kind, unknown).1, more),
        ),
{
    lemma_extended(t, more);
    let (host, t1) = read_host(t, kind, unknown);
    if kind == ATYP_IPV4 {
        assert(t.offers(4));
    } else if kind == ATYP_IPV6 {
        assert(t.offers(16));
    } else if kind == ATYP_DOMAIN {
        assert(t.offers(1));
        let n = t.next(1)[0] as nat;
        lemma_extended(t.skip(1), more);
        assert(t.skip(1).offers(n));
    }
    if host is Ok {
        lemma_extended(t1, more);
        assert(t1.offers(2));
    }
}

} // verus!
