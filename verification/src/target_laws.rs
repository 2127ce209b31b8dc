//! How the target of a connection stands on the wire.

use vstd::prelude::*;
use vstd::utf8::{
    encode_utf8, encode_utf8_decode_utf8, encode_utf8_valid_utf8,
};

use crate::address::{IpModel, SocketModel};
use crate::error::ErrorModel;
use crate::target::{address_bytes, read_host, read_target, TargetModel};
use crate::wire::Tape;

verus! {

/// A host as a client names it: by the octets of an address, or by a text.
pub enum WireHost {
    V4(Seq<u8>),
    V6(Seq<u8>),
    Name(Seq<char>),
}

impl WireHost {
    /// Whether the host can stand on the wire.
    pub open spec fn fits(self) -> bool {
        match self {
            WireHost::V4(octets) => octets.len() == 4,
            WireHost::V6(octets) => octets.len() == 16,
            WireHost::Name(name) => encode_utf8(name).len() <= 255,
        }
    }

    /// The bytes of the host: its type, and its octets, or the length of its text and the text.
    pub open spec fn bytes(self) -> Seq<u8> {
        match self {
            WireHost::V4(octets) => seq![1u8] + octets,
            WireHost::V6(octets) => seq![4u8] + octets,
            WireHost::Name(name) => seq![3u8, encode_utf8(name).len() as u8] + encode_utf8(name),
        }
    }

    /// The host as a text.
    pub open spec fn text(self) -> Seq<char> {
        match self {
            WireHost::V4(octets) => IpModel::V4(octets).text(),
            WireHost::V6(octets) => IpModel::V6(octets).text(),
            WireHost::Name(name) => name,
        }
    }
}

/// The bytes of a port: the more significant first.
pub open spec fn port_bytes(port: u16) -> Seq<u8> {
    seq![(port / 256) as u8, (port % 256) as u8]
}

/// A target that stands on the wire is read as the host and the port that it names, and nothing
/// behind it is read.
pub proof fn law_target_is_read(
    before: Seq<u8>,
    host: WireHost,
    port: u16,
    rest: Seq<u8>,
    output: Seq<u8>,
    unknown: ErrorModel,
)
    requires
        host.fits(),
    ensures
        ({
            let input = before + host.bytes() + port_bytes(port) + rest;
            let t = Tape { input, position: before.len() + 1, output };
            &&& input[before.len() as int] == host.bytes()[0]
            &&& read_target(t, host.bytes()[0], unknown) == (
                Ok::<TargetModel, ErrorModel>(TargetModel { host: host.text(), port }),
                Tape { input, position: (input.len() - rest.len()) as nat, output },
            )
        }),
{
    let input = before + host.bytes() + port_bytes(port) + rest;
    let t = Tape { input, position: before.len() + 1, output };
    match host {
        WireHost::V4(o) => {
            assert(t.next(4) =~= o);
            assert(t.skip(4).next(2) =~= port_bytes(port));
        },
        WireHost::V6(o) => {
            assert(t.next(16) =~= o);
            assert(t.skip(16).next(2) =~= port_bytes(port));
        },
        WireHost::Name(name) => {
            let n = encode_utf8(name).len();
            encode_utf8_valid_utf8(name);
            encode_utf8_decode_utf8(name);
            assert(t.next(1) =~= seq![n as u8]);
            assert(t.skip(1).next(n) =~= encode_utf8(name));
            assert(t.skip(1).skip(n).next(2) =~= port_bytes(port));
        },
    }
}

/// A socket address stands on the wire by its octets and its port.
pub proof fn law_address_is_written(address: SocketModel)
    ensures
        address_bytes(address) == (match address.ip {
            IpModel::V4(octets) => WireHost::V4(octets).bytes(),
            IpModel::V6(octets) => WireHost::V6(octets).bytes(),
        }) + port_bytes(address.port),
{
}

/// A host whose type is known is read as it is named, and nothing behind it is read.
pub proof fn law_host_is_read(
    before: Seq<u8>,
    host: WireHost,
    rest: Seq<u8>,
    output: Seq<u8>,
    unknown: ErrorModel,
)
    requires
        host.fits(),
    ensures
        ({
            let input = before + host.bytes() + rest;
            read_host(
                Tape { input, position: before.len() + 1, output },
                host.bytes()[0],
                unknown,
            ) == (
                Ok::<Seq<char>, ErrorModel>(host.text()),
                Tape { input, position: (input.len() - rest.len()) as nat, output },
            )
        }),
{
    let input = before + host.bytes() + rest;
    let t = Tape { input, position: before.len() + 1, output };
    match host {
        WireHost::V4(o) => {
            assert(t.next(4) =~= o);
        },
        WireHost::V6(o) => {
            assert(t.next(16) =~= o);
        },
        WireHost::Name(name) => {
            let n = encode_utf8(name).len();
            encode_utf8_valid_utf8(name);
            encode_utf8_decode_utf8(name);
            assert(t.next(1) =~= seq![n as u8]);
            assert(t.skip(1).next(n) =~= encode_utf8(name));
        },
    }
}

} // verus!
