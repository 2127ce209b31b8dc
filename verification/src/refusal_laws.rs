//! What is refused, and with which error.

use vstd::prelude::*;
use vstd::utf8::{encode_utf8, valid_utf8};

use crate::address::IpModel;
use crate::config::OutboundConfig;
use crate::error::{ErrorKind, ErrorModel};
use crate::listener_binds::{listen_address, written_address};
use crate::shadowsocks::{
    announced_length, chunk, method_of, normalized_method, request_payload, CipherModel,
    ShadowsocksMethod,
};
use crate::socks5::next_attempt;
use crate::table::get;
use crate::target::TargetModel;
use crate::text::{lower, trim, unbracket};
use crate::tls::{loaded_certificates, loaded_private_key};
use crate::trojan::{packet_in, read_trojan_target, read_udp_packet, target_bytes};
use crate::trojan_outbound::{outbound_plan, outbound_server};
use crate::tuic::{
    command_of, control_of, encoded_address, encoded_packet, normal_control, port_at, uuid_bytes,
    without_hyphens, PacketModel,
};
use crate::tuic_fragments::{pushed, GroupModel};
use crate::tuic_server::{authentication, connect_request};
use crate::user::CoreUser;
use crate::wire::{arrived, Tape};

verus! {

/// Whether a result is an error of this kind with this message.
pub open spec fn refuses<T>(r: Result<T, ErrorModel>, kind: ErrorKind, message: Seq<char>) -> bool {
    r matches Err(e) && e.kind == kind && e.message == message
}

/// Whether a result is the error of a stream that ends too early.
pub open spec fn ends_early<T>(r: Result<T, ErrorModel>) -> bool {
    refuses(r, ErrorKind::UnexpectedEof, "failed to fill whole buffer"@)
}

/// A datagram of a SOCKS5 client that is not one is refused, by what is wrong with it first.
pub proof fn law_refused_datagrams(input: Seq<u8>)
    ensures
        ({
            let r = crate::socks5::udp_request(input);
            let headed = input.len() >= 4 && input[0] == 0 && input[1] == 0;
            let whole = headed && input[2] == 0;
            &&& !headed ==> refuses(
                r,
                ErrorKind::InvalidData,
                "invalid socks udp request header"@,
            )
            &&& headed && input[2] != 0 ==> refuses(
                r,
                ErrorKind::Unsupported,
                "fragmented socks udp packets are not supported"@,
            )
            &&& whole && input[3] == 1 && input.len() < 8 ==> refuses(
                r,
                ErrorKind::UnexpectedEof,
                "truncated socks udp ipv4 address"@,
            )
            &&& whole && input[3] == 1 && 8 <= input.len() < 10 ==> refuses(
                r,
                ErrorKind::UnexpectedEof,
                "truncated socks udp port"@,
            )
            &&& whole && input[3] == 4 && input.len() < 20 ==> refuses(
                r,
                ErrorKind::UnexpectedEof,
                "truncated socks udp ipv6 address"@,
            )
            &&& whole && input[3] == 4 && 20 <= input.len() < 22 ==> refuses(
                r,
                ErrorKind::UnexpectedEof,
                "truncated socks udp port"@,
            )
            &&& whole && input[3] == 3 && input.len() == 4 ==> refuses(
                r,
                ErrorKind::UnexpectedEof,
                "truncated socks udp domain length"@,
            )
            &&& whole && input[3] == 3 && 5 <= input.len() < 5 + input[4] ==> refuses(
                r,
                ErrorKind::UnexpectedEof,
                "truncated socks udp domain"@,
            )
            &&& whole && input[3] == 3 && input.len() >= 5 + input[4] && input.len() >= 5 && !valid_utf8(
                input.subrange(5, 5 + input[4]),
            ) ==> refuses(r, ErrorKind::InvalidData, "invalid utf-8"@)
            &&& whole && input[3] == 3 && input.len() >= 5 && 5 + input[4] <= input.len() < 7
                + input[4] && valid_utf8(input.subrange(5, 5 + input[4])) ==> refuses(
                r,
                ErrorKind::UnexpectedEof,
                "truncated socks udp port"@,
            )
            &&& whole && input[3] != 1 && input[3] != 3 && input[3] != 4 ==> refuses(
                r,
                ErrorKind::InvalidData,
                "unsupported socks udp address type"@,
            )
        }),
{
}

/// A stream that does not begin with a greeting of SOCKS5 is refused without an answer, and one
/// whose methods do not serve is refused after one.
pub proof fn law_refused_greetings(users: Seq<(Seq<char>, CoreUser)>, input: Seq<u8>)
    ensures
        ({
            let (r, t) = crate::socks5::request(users, arrived(input));
            &&& input.len() < 2 ==> ends_early(r) && t.output.len() == 0
            &&& input.len() >= 2 && input[0] != 5 ==> refuses(
                r,
                ErrorKind::InvalidData,
                "unsupported socks version"@,
            ) && t.output.len() == 0
            &&& input.len() >= 2 && input[0] == 5 && input.len() < 2 + input[1] ==> ends_early(r)
                && t.output.len() == 0
            &&& input.len() >= 2 && input[0] == 5 && input.len() >= 2 + input[1] && !input.subrange(
                2,
                2 + input[1],
            ).contains(
                if users.len() == 0 {
                    0u8
                } else {
                    2u8
                },
            ) ==> refuses(r, ErrorKind::PermissionDenied, "no matching socks auth method"@)
                && t.output == seq![5u8, 255u8]
        }),
{
    let t = arrived(input);
    if input.len() >= 2 {
        assert(t.next(2)[0] == input[0] && t.next(2)[1] == input[1]);
        if input[0] == 5 && input.len() >= 2 + input[1] {
            assert(t.skip(2).next(input[1] as nat) =~= input.subrange(2, 2 + input[1]));
        }
    }
}

/// A command over SOCKS5 that is not supported is refused, and the answer says why.
pub proof fn law_refused_wishes(
    before: Seq<u8>,
    header: Seq<u8>,
    rest: Seq<u8>,
    output: Seq<u8>,
    user_uuid: Option<Seq<char>>,
)
    requires
        header.len() == 4,
    ensures
        ({
            let t = Tape { input: before + header + rest, position: before.len(), output };
            let (r, t1) = crate::socks5::command_request(t, user_uuid);
            let served = header[1] == 1 || header[1] == 3;
            &&& header[0] != 5 ==> refuses(
                r,
                ErrorKind::InvalidData,
                "unsupported request version"@,
            ) && t1.output == output
            &&& header[0] == 5 && !served ==> refuses(
                r,
                ErrorKind::Unsupported,
                "only socks connect and udp associate are supported"@,
            )
            &&& header[0] == 5 && header[1] == 3 && header[2] != 0 ==> refuses(
                r,
                ErrorKind::Unsupported,
                "socks udp associate request has invalid reserved byte"@,
            )
            &&& header[0] == 5 && (!served || (header[1] == 3 && header[2] != 0)) ==> t1.output
                == output + seq![5u8, 7u8, 0u8, 1u8, 0u8, 0u8, 0u8, 0u8, 0u8, 0u8]
            &&& header[0] == 5 && served && (header[1] == 1 || header[2] == 0) && header[3] != 1
                && header[3] != 3 && header[3] != 4 ==> refuses(
                r,
                ErrorKind::InvalidData,
                "unsupported socks address type"@,
            ) && t1.output == output + seq![5u8, 8u8, 0u8, 1u8, 0u8, 0u8, 0u8, 0u8, 0u8, 0u8]
        }),
{
    let t = Tape { input: before + header + rest, position: before.len(), output };
    assert(t.next(4) =~= header);
    crate::socks5_laws::law_reply_layout(7u8, crate::socks5::no_address());
    crate::socks5_laws::law_reply_layout(8u8, crate::socks5::no_address());
    assert(crate::socks5::reply_bytes(7u8, crate::socks5::no_address()) =~= seq![
        5u8,
        7u8,
        0u8,
        1u8,
        0u8,
        0u8,
        0u8,
        0u8,
        0u8,
        0u8,
    ]);
    assert(crate::socks5::reply_bytes(8u8, crate::socks5::no_address()) =~= seq![
        5u8,
        8u8,
        0u8,
        1u8,
        0u8,
        0u8,
        0u8,
        0u8,
        0u8,
        0u8,
    ]);
}

/// A password over SOCKS5 in another version than the first is refused, and the answer says so.
pub proof fn law_refused_password_version(
    users: Seq<(Seq<char>, CoreUser)>,
    before: Seq<u8>,
    version: u8,
    len: u8,
    rest: Seq<u8>,
    output: Seq<u8>,
)
    requires
        version != 1,
    ensures
        ({
            let t = Tape {
                input: before + seq![version, len] + rest,
                position: before.len(),
                output,
            };
            let (r, t1) = crate::socks5::password_auth(users, t);
            &&& refuses(
                r,
                ErrorKind::InvalidData,
                "unsupported username/password auth version"@,
            )
            &&& t1.output == output + seq![1u8, 255u8]
        }),
{
    let t = Tape { input: before + seq![version, len] + rest, position: before.len(), output };
    assert(t.next(2)[0] == version);
}

/// A request over Trojan is refused for the first thing that is wrong with it: its password hash,
/// the end of the line behind it, its user, and its command.
pub proof fn law_refused_trojan_requests(users: Seq<(Seq<char>, CoreUser)>, input: Seq<u8>)
    ensures
        ({
            let r = crate::trojan_server::request(users, arrived(input)).0;
            let hashed = input.len() >= 56 && valid_utf8(input.subrange(0, 56));
            let lined = hashed && input.len() >= 58 && input[56] == 13 && input[57] == 10;
            let hash = vstd::utf8::decode_utf8(input.subrange(0, 56));
            let known = lined && get(users, hash) is Some;
            &&& input.len() < 56 ==> ends_early(r)
            &&& input.len() >= 56 && !hashed ==> refuses(
                r,
                ErrorKind::InvalidData,
                "invalid trojan password hash"@,
            )
            &&& hashed && input.len() < 58 ==> ends_early(r)
            &&& hashed && input.len() >= 58 && !lined ==> refuses(
                r,
                ErrorKind::InvalidData,
                "missing crlf"@,
            )
            &&& lined && !known ==> refuses(r, ErrorKind::PermissionDenied, "unknown trojan user"@)
            &&& known && input.len() == 58 ==> ends_early(r)
            &&& known && input.len() >= 59 && input[58] != 1 && input[58] != 3 ==> refuses(
                r,
                ErrorKind::Unsupported,
                "only trojan tcp and udp associate commands are supported"@,
            )
            &&& known && input.len() == 59 && (input[58] == 1 || input[58] == 3) ==> ends_early(r)
            &&& known && input.len() >= 60 && (input[58] == 1 || input[58] == 3) && input[59] != 1
                && input[59] != 3 && input[59] != 4 ==> refuses(
                r,
                ErrorKind::InvalidData,
                "unsupported trojan address type"@,
            )
        }),
{
    let t = arrived(input);
    if input.len() >= 56 {
        assert(t.next(56) =~= input.subrange(0, 56));
        let t1 = t.skip(56);
        assert(seq![13u8, 10u8][0] == 13 && seq![13u8, 10u8][1] == 10);
        if input.len() >= 58 {
            assert(t1.next(2)[0] == input[56] && t1.next(2)[1] == input[57]);
            if input[56] == 13 && input[57] == 10 {
                assert(t1.next(2) =~= seq![13u8, 10u8]);
            }
            let t2 = t1.skip(2);
            if input.len() >= 59 {
                assert(t2.next(1)[0] == input[58]);
                let t3 = t2.skip(1);
                if input.len() >= 60 {
                    assert(t3.next(1)[0] == input[59]);
                }
            }
        }
    }
}

/// A target of an unknown type is refused as soon as its type has arrived.
pub proof fn law_refused_types(input: Seq<u8>)
    ensures
        input.len() == 0 ==> ends_early(read_trojan_target(arrived(input)).0) && ends_early(
            request_payload(input),
        ) && ends_early(crate::tuic::read_target(arrived(input)).0) && ends_early(
            read_udp_packet(arrived(input)).0,
        ),
        input.len() > 0 && input[0] != 1 && input[0] != 3 && input[0] != 4 ==> refuses(
            read_trojan_target(arrived(input)).0,
            ErrorKind::InvalidData,
            "unsupported trojan address type"@,
        ) && refuses(
            read_udp_packet(arrived(input)).0,
            ErrorKind::InvalidData,
            "unsupported trojan address type"@,
        ) && refuses(
            request_payload(input),
            ErrorKind::InvalidData,
            "unsupported shadowsocks address type"@,
        ),
        input.len() > 0 && input[0] > 2 ==> refuses(
            crate::tuic::read_target(arrived(input)).0,
            ErrorKind::InvalidData,
            "unsupported tuic address type"@,
        ),
{
    if input.len() > 0 {
        assert(arrived(input).next(1)[0] == input[0]);
    }
}

/// A name that is no text is refused, wherever a target names one.
pub proof fn law_refused_names(input: Seq<u8>)
    requires
        input.len() >= 2,
        input.len() >= 2 + input[1],
        !valid_utf8(input.subrange(2, 2 + input[1])),
    ensures
        input[0] == 3 ==> refuses(
            read_trojan_target(arrived(input)).0,
            ErrorKind::InvalidData,
            "invalid utf-8"@,
        ) && refuses(request_payload(input), ErrorKind::InvalidData, "invalid utf-8"@),
        input[0] == 0 ==> refuses(
            crate::tuic::read_target(arrived(input)).0,
            ErrorKind::InvalidData,
            "invalid tuic domain"@,
        ),
{
    let t = arrived(input);
    assert(t.next(1)[0] == input[0]);
    assert(t.skip(1).next(1)[0] == input[1]);
    assert(t.skip(1).skip(1).next(input[1] as nat) =~= input.subrange(2, 2 + input[1]));
}

/// A command of TUIC that is not one is refused, by what is wrong with it first.
pub proof fn law_refused_tuic_commands(input: Seq<u8>)
    ensures
        ({
            let r = command_of(input);
            let headed = input.len() >= 2 && input[0] == 5;
            let packet = headed && input[1] == 2 && input.len() >= 10;
            &&& !headed ==> refuses(r, ErrorKind::InvalidData, "invalid tuic udp command header"@)
            &&& headed && input[1] != 2 && input[1] != 3 && input[1] != 4 ==> refuses(
                r,
                ErrorKind::InvalidData,
                "unsupported tuic udp command"@,
            )
            &&& headed && input[1] == 3 && input.len() != 4 ==> refuses(
                r,
                ErrorKind::InvalidData,
                "invalid tuic dissociate command"@,
            )
            &&& headed && input[1] == 4 && input.len() != 2 ==> refuses(
                r,
                ErrorKind::InvalidData,
                "invalid tuic heartbeat command"@,
            )
            &&& headed && input[1] == 2 && input.len() < 10 ==> refuses(
                r,
                ErrorKind::InvalidData,
                "tuic udp packet command is too short"@,
            )
            &&& packet && input.len() == 10 ==> refuses(
                r,
                ErrorKind::UnexpectedEof,
                "missing tuic address type"@,
            )
            &&& packet && input.len() > 10 && 2 < input[10] < 255 ==> refuses(
                r,
                ErrorKind::InvalidData,
                "unsupported tuic address type"@,
            )
            &&& packet && input.len() == 11 && input[10] == 0 ==> refuses(
                r,
                ErrorKind::UnexpectedEof,
                "missing tuic domain length"@,
            )
            &&& packet && 11 < input.len() < 14 + input[11] && input[10] == 0 ==> refuses(
                r,
                ErrorKind::UnexpectedEof,
                "truncated tuic domain address"@,
            )
            &&& packet && input.len() > 11 && input.len() >= 14 + input[11] && input[10] == 0
                && !valid_utf8(input.subrange(12, 12 + input[11])) ==> refuses(
                r,
                ErrorKind::InvalidData,
                "invalid tuic domain"@,
            )
            &&& packet && 10 < input.len() < 17 && input[10] == 1 ==> refuses(
                r,
                ErrorKind::UnexpectedEof,
                "truncated tuic ipv4 address"@,
            )
            &&& packet && 10 < input.len() < 29 && input[10] == 2 ==> refuses(
                r,
                ErrorKind::UnexpectedEof,
                "truncated tuic ipv6 address"@,
            )
            &&& packet && input.len() > 10 && input[10] == 255 && input.len() - 11 != input[8] * 256
                + input[9] ==> refuses(
                r,
                ErrorKind::InvalidData,
                "tuic udp packet payload length mismatch"@,
            )
            &&& packet && input.len() >= 17 && input[10] == 1 && input.len() - 17 != input[8] * 256
                + input[9] ==> refuses(
                r,
                ErrorKind::InvalidData,
                "tuic udp packet payload length mismatch"@,
            )
            &&& packet && input.len() >= 29 && input[10] == 2 && input.len() - 29 != input[8] * 256
                + input[9] ==> refuses(
                r,
                ErrorKind::InvalidData,
                "tuic udp packet payload length mismatch"@,
            )
            &&& packet && input.len() > 11 && input.len() >= 14 + input[11] && input[10] == 0
                && valid_utf8(input.subrange(12, 12 + input[11])) && input.len() - 14 - input[11]
                != input[8] * 256 + input[9] ==> refuses(
                r,
                ErrorKind::InvalidData,
                "tuic udp packet payload length mismatch"@,
            )
        }),
{
}

/// A stream of TUIC that is no authentication, or no connection, is refused.
pub proof fn law_refused_tuic_streams(users: Seq<(Seq<u8>, CoreUser)>, input: Seq<u8>)
    ensures
        input.len() < 2 ==> ends_early(authentication(users, arrived(input)).0) && ends_early(
            connect_request(arrived(input)).0,
        ),
        input.len() >= 2 && (input[0] != 5 || input[1] != 0) ==> refuses(
            authentication(users, arrived(input)).0,
            ErrorKind::PermissionDenied,
            "invalid tuic authentication command"@,
        ),
        2 <= input.len() < 50 && input[0] == 5 && input[1] == 0 ==> ends_early(
            authentication(users, arrived(input)).0,
        ),
        input.len() >= 50 && input[0] == 5 && input[1] == 0 && get(users, input.subrange(2, 18)) is None
            ==> refuses(
            authentication(users, arrived(input)).0,
            ErrorKind::PermissionDenied,
            "unknown tuic user"@,
        ),
        input.len() >= 2 && (input[0] != 5 || input[1] != 1) ==> refuses(
            connect_request(arrived(input)).0,
            ErrorKind::InvalidData,
            "invalid tuic connect command"@,
        ),
        input.len() == 2 && input[0] == 5 && input[1] == 1 ==> ends_early(
            connect_request(arrived(input)).0,
        ),
        input.len() > 2 && input[0] == 5 && input[1] == 1 && input[2] > 2 ==> refuses(
            connect_request(arrived(input)).0,
            ErrorKind::InvalidData,
            "unsupported tuic address type"@,
        ),
{
    let t = arrived(input);
    if input.len() >= 2 {
        assert(t.next(2)[0] == input[0] && t.next(2)[1] == input[1]);
        assert(seq![5u8, 0u8][0] == 5 && seq![5u8, 0u8][1] == 0);
        assert(seq![5u8, 1u8][0] == 5 && seq![5u8, 1u8][1] == 1);
        if input[0] == 5 && input[1] == 0 {
            assert(t.next(2) =~= seq![5u8, 0u8]);
        }
        if input[0] == 5 && input[1] == 1 {
            assert(t.next(2) =~= seq![5u8, 1u8]);
        }
        if input.len() >= 18 {
            assert(t.skip(2).next(16) =~= input.subrange(2, 18));
        }
        if input.len() > 2 {
            assert(t.skip(2).next(1)[0] == input[2]);
        }
    }
}

/// What does not fit in a packet of TUIC is refused, and so is a text that is no user id.
pub proof fn law_refused_tuic_values(p: PacketModel, target: TargetModel, value: Seq<char>)
    ensures
        p.payload.len() > 65535 ==> refuses(
            encoded_packet(p),
            ErrorKind::InvalidInput,
            "tuic udp packet payload is too large"@,
        ),
        IpModel::parse(target.host) is None && encode_utf8(target.host).len() > 255
            ==> refuses(
            encoded_address(Some(target)),
            ErrorKind::InvalidInput,
            "tuic domain is too long"@,
        ),
        encode_utf8(without_hyphens(value)).len() != 32 ==> refuses(
            uuid_bytes(value),
            ErrorKind::InvalidInput,
            "tuic user uuid must be 16 bytes"@,
        ),
        encode_utf8(without_hyphens(value)).len() == 32 && uuid_bytes(value) is Err ==> refuses(
            uuid_bytes(value),
            ErrorKind::InvalidInput,
            "tuic user uuid is invalid"@,
        ),
{
}

/// A fragment that is none is refused and changes nothing; one that does not go with those that
/// wait is refused, and they go.
pub proof fn law_refused_fragments(groups: Seq<((u16, u16), GroupModel)>, p: PacketModel)
    ensures
        ({
            let (r, after) = pushed(groups, p);
            let one = p.fragment_total > 0 && p.fragment_id < p.fragment_total;
            &&& !one ==> refuses(r, ErrorKind::InvalidData, "invalid tuic udp fragment index"@)
                && after == groups
            &&& one && p.fragment_total > 1 ==> (get(groups, (p.assoc_id, p.packet_id)) matches Some(
                g,
            ) ==> {
                &&& g.parts.len() != p.fragment_total ==> refuses(
                    r,
                    ErrorKind::InvalidData,
                    "mismatched tuic udp fragment group"@,
                )
                &&& g.parts.len() == p.fragment_total && g.target is Some && p.target is Some
                    && g.target != p.target ==> refuses(
                    r,
                    ErrorKind::InvalidData,
                    "mismatched tuic udp fragment target"@,
                )
                &&& g.parts.len() == p.fragment_total && (g.target is None || p.target is None
                    || g.target == p.target) ==> r is Ok
            })
            &&& one && p.fragment_total > 1 && get(groups, (p.assoc_id, p.packet_id)) is None ==> r is Ok
        }),
{
}

/// A chunk that does not open is refused, and so is one that announces no length or too great a
/// one.
pub proof fn law_refused_chunks(c: CipherModel, input: Seq<u8>, head: Seq<u8>)
    ensures
        head.len() != 2 ==> refuses(
            announced_length(head),
            ErrorKind::InvalidData,
            "invalid shadowsocks chunk length"@,
        ),
        head.len() == 2 && (head[0] * 256 + head[1] == 0 || head[0] * 256 + head[1] > 16383)
            ==> refuses(
            announced_length(head),
            ErrorKind::InvalidData,
            "invalid shadowsocks chunk size"@,
        ),
        input.len() < 18 ==> ends_early(chunk(c, arrived(input)).0),
        input.len() >= 18 && c.open_next(input.subrange(0, 18)) is None ==> refuses(
            chunk(c, arrived(input)).0,
            ErrorKind::InvalidData,
            "decrypt chunk"@,
        ) && chunk(c, arrived(input)).1 == c,
{
    if input.len() >= 18 {
        assert(arrived(input).next(18) =~= input.subrange(0, 18));
    }
}

/// A stream or a packet of Shadowsocks that is too short for its salt and what is sealed under it
/// ends too early.
pub proof fn law_short_shadowsocks(
    users: Seq<CoreUser>,
    method: ShadowsocksMethod,
    input: Seq<u8>,
)
    ensures
        input.len() < method.key_size() + 18 ==> ends_early(
            crate::shadowsocks_server::request(users, method, arrived(input)).0,
        ),
        input.len() <= method.key_size() + 16 ==> refuses(
            crate::shadowsocks_server::udp_request(users, method, input),
            ErrorKind::UnexpectedEof,
            "shadowsocks udp packet too short"@,
        ),
        input.len() >= method.key_size() + 18 && users.len() == 0 ==> refuses(
            crate::shadowsocks_server::request(users, method, arrived(input)).0,
            ErrorKind::PermissionDenied,
            "unknown shadowsocks user"@,
        ),
        input.len() > method.key_size() + 16 && users.len() == 0 ==> refuses(
            crate::shadowsocks_server::udp_request(users, method, input),
            ErrorKind::PermissionDenied,
            "unknown shadowsocks udp user"@,
        ),
{
}

/// A packet over Trojan whose length is not followed by the end of a line is refused as soon as
/// that has arrived; before, and without its whole payload, it is waited for.
pub proof fn law_refused_trojan_packets(bytes: Seq<u8>)
    requires
        bytes.len() > 0,
        bytes[0] == 1,
    ensures
        bytes.len() < 11 ==> packet_in(bytes) matches Ok(None),
        bytes.len() >= 11 && (bytes[9] != 13 || bytes[10] != 10) ==> refuses(
            packet_in(bytes),
            ErrorKind::InvalidData,
            "invalid trojan udp crlf"@,
        ),
        11 <= bytes.len() < 11 + bytes[7] * 256 + bytes[8] && bytes[9] == 13 && bytes[10] == 10
            ==> packet_in(bytes) matches Ok(None),
        bytes.len() >= 11 && bytes.len() >= 11 + bytes[7] * 256 + bytes[8] && bytes[9] == 13
            && bytes[10] == 10 ==> (packet_in(bytes) matches Ok(Some((target, payload, used)))
            && target.port == bytes[5] * 256 + bytes[6] && used == 11 + bytes[7] * 256 + bytes[8]
            && payload == bytes.subrange(11, used)),
{
    if bytes.len() >= 11 {
        let end = bytes.subrange(9, 11);
        assert(end[0] == bytes[9] && end[1] == bytes[10]);
        assert(seq![13u8, 10u8][0] == 13 && seq![13u8, 10u8][1] == 10);
        if bytes[9] == 13 && bytes[10] == 10 {
            assert(end =~= seq![13u8, 10u8]);
        }
    }
}

/// A host that is neither an address nor a name is refused as a target over Trojan.
pub proof fn law_refused_trojan_hosts(target: TargetModel)
    requires
        IpModel::parse(target.host) is None,
        encode_utf8(unbracket(trim(target.host))).len() == 0 || encode_utf8(
            unbracket(trim(target.host)),
        ).len() > 255,
    ensures
        refuses(
            target_bytes(target),
            ErrorKind::InvalidInput,
            "trojan target host is invalid"@,
        ),
{
}

/// An outbound over Trojan is refused for the first thing that it lacks: its address, its port, its
/// password, and a transport that is there.
pub proof fn law_refused_outbounds(outbound: OutboundConfig, network: Seq<char>)
    ensures
        ({
            let r = outbound_plan(outbound, network);
            let address = outbound.address matches Some(text) && trim(text@).len() > 0;
            let password = outbound.password matches Some(text) && trim(text@).len() > 0;
            &&& !address ==> refuses(r, ErrorKind::InvalidInput, "outbound address is required"@)
                && refuses(
                outbound_server(outbound),
                ErrorKind::InvalidInput,
                "outbound address is required"@,
            )
            &&& address && outbound.port is None ==> refuses(
                r,
                ErrorKind::InvalidInput,
                "outbound port is required"@,
            )
            &&& address && outbound.port is Some && !password ==> refuses(
                r,
                ErrorKind::InvalidInput,
                "outbound password is required for trojan"@,
            )
            &&& address && outbound.port is Some && password && r is Err ==> refuses(
                r,
                ErrorKind::Unsupported,
                "trojan outbound transport "@ + lower(network) + " is not supported yet"@,
            )
        }),
{
}

/// A name that names no cipher, or no congestion control, is refused, and the error names it.
pub proof fn law_refused_settings(method: Seq<char>, control: Seq<char>)
    ensures
        method_of(method) is Err ==> refuses(
            method_of(method),
            ErrorKind::Unsupported,
            "shadowsocks cipher "@ + normalized_method(method) + " is not supported"@,
        ),
        control_of(control) is Err ==> refuses(
            control_of(control),
            ErrorKind::InvalidInput,
            "unsupported tuic congestion_control "@ + normal_control(control),
        ),
{
}

/// A file without what is wanted of it is refused, and so is one that cannot be read, with what
/// reading it said.
pub proof fn law_refused_files(message: Seq<char>)
    ensures
        refuses(
            loaded_certificates(Ok(Seq::empty())),
            ErrorKind::InvalidInput,
            "tls certificate file does not contain certificates"@,
        ),
        refuses(loaded_certificates(Err(message)), ErrorKind::InvalidData, message),
        refuses(
            loaded_private_key(Ok(None)),
            ErrorKind::InvalidInput,
            "tls private key file does not contain a private key"@,
        ),
        refuses(loaded_private_key(Err(message)), ErrorKind::InvalidData, message),
{
}

/// Where a name stands for no address, there is none to listen on and none to connect to; where
/// every attempt failed, the last failure is the error.
pub proof fn law_refused_lookups(listen: Seq<char>, port: u16, found: nat, e: ErrorModel)
    ensures
        written_address(listen) is None ==> refuses(
            listen_address(listen, port, Ok(None)),
            ErrorKind::AddrNotAvailable,
            "listen address did not resolve"@,
        ) && refuses(listen_address(listen, port, Err(e)), e.kind, e.message),
        refuses(
            next_attempt(found, found, None),
            ErrorKind::AddrNotAvailable,
            "target did not resolve to any socket address"@,
        ),
        refuses(next_attempt(found, found, Some(e)), e.kind, e.message),
{
}

/// A port of TUIC takes two bytes, the more significant first; with fewer it is refused.
pub proof fn law_refused_ports(input: Seq<u8>, at: int)
    requires
        0 <= at <= input.len(),
    ensures
        input.len() < at + 2 ==> refuses(
            port_at(input, at),
            ErrorKind::UnexpectedEof,
            "truncated tuic port"@,
        ),
        input.len() >= at + 2 ==> (port_at(input, at) matches Ok(port) && port == input[at] * 256
            + input[at + 1]),
{
}

} // verus!
