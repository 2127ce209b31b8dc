//! What stands on the wire of a TUIC connection, and how its users are named.

use vstd::prelude::*;
use vstd::utf8::{
    encode_utf8, encode_utf8_decode_utf8, encode_utf8_valid_utf8, is_ascii_chars,
    is_ascii_chars_encode_utf8,
};

use crate::address::IpModel;
use crate::error::{ErrorKind, ErrorModel};
use crate::numeral::{is_digit, is_numeral, numeral_value};
use crate::table::{distinct, get, lemma_cut};
use crate::target::TargetModel;
use crate::target_laws::{port_bytes, WireHost};
use crate::text::{lower, replace, trim};
use crate::tuic::{
    address_at, command_of, control_of, encoded_address, encoded_packet, pair_value,
    uuid_bytes, without_hyphens, CommandModel, CongestionControl, PacketModel,
};
use crate::tuic_fragments::{pushed, GroupModel};
use crate::tuic_server::{authentication, carries, connect_request, UdpReplyMode};
use crate::user::CoreUser;
use crate::wire::arrived;

verus! {

/// Whether a character is the hexadecimal digit of a value, of either case.
pub open spec fn writes(c: char, n: int) -> bool {
    0 <= n < 16 && (c == "0123456789abcdef"@[n] || c == "0123456789ABCDEF"@[n])
}

/// Whether the characters of a text that are not hyphens write the given values.
pub open spec fn spells(text: Seq<char>, values: Seq<int>) -> bool {
    let digits = text.filter(|c: char| c != '-');
    &&& digits.len() == values.len()
    &&& forall|k: int| 0 <= k < values.len() ==> #[trigger] writes(digits[k], values[k])
}

/// What a hexadecimal digit is in the terms of numerals.
proof fn lemma_writes(c: char, n: int)
    requires
        writes(c, n),
    ensures
        crate::numeral::digit_value(c) == Some(n as nat),
        c != '+',
        (c as u32) < 128,
{
    reveal_strlit("0123456789abcdef");
    reveal_strlit("0123456789ABCDEF");
}

/// Leaving out hyphens is filtering them.
proof fn lemma_without_hyphens_filters(s: Seq<char>)
    ensures
        without_hyphens(s) == s.filter(|c: char| c != '-'),
    decreases s.len(),
{
    reveal(Seq::filter);
    if s.len() > 0 {
        assert(s.drop_last() =~= s.subrange(0, s.len() - 1));
        lemma_without_hyphens_filters(s.drop_last());
    }
}

/// The sixteen bytes of a user id are the values of its thirty-two hexadecimal digits, two for each
/// byte, the more significant first. Hyphens may stand anywhere, and letters be of either case.
pub proof fn law_uuid_is_read(text: Seq<char>, values: Seq<int>)
    requires
        values.len() == 32,
        spells(text, values),
    ensures
        uuid_bytes(text) == Ok::<Seq<u8>, ErrorModel>(
            Seq::new(16, |i: int| (values[2 * i] * 16 + values[2 * i + 1]) as u8),
        ),
{
    let compact = without_hyphens(text);
    lemma_without_hyphens_filters(text);
    assert forall|k: int| 0 <= k < 32 implies crate::numeral::digit_value(#[trigger] compact[k])
        == Some(values[k] as nat) && compact[k] != '+' && (compact[k] as u32) < 128 by {
        assert(writes(compact[k], values[k]));
        lemma_writes(compact[k], values[k]);
    }
    assert(is_ascii_chars(compact));
    is_ascii_chars_encode_utf8(compact);
    assert forall|i: int| 0 <= i < 16 implies #[trigger] pair_value(compact, i) == Some(
        (values[2 * i] * 16 + values[2 * i + 1]) as nat,
    ) by {
        assert(writes(compact[2 * i], values[2 * i]));
        assert(writes(compact[2 * i + 1], values[2 * i + 1]));
        lemma_pair(compact.subrange(2 * i, 2 * i + 2), values[2 * i], values[2 * i + 1]);
    }
    assert(encode_utf8(compact).len() == 32);
    assert(compact.len() == 32);
    assert(uuid_bytes(text) is Ok);
    let bytes = uuid_bytes(text)->Ok_0;
    let wanted = Seq::new(16, |i: int| (values[2 * i] * 16 + values[2 * i + 1]) as u8);
    assert forall|i: int| 0 <= i < 16 implies #[trigger] bytes[i] == wanted[i] by {
        assert(pair_value(compact, i) is Some);
        assert(writes(compact[2 * i], values[2 * i]));
        assert(writes(compact[2 * i + 1], values[2 * i + 1]));
    }
    assert(bytes =~= wanted);
}

/// The value of two digits.
proof fn lemma_pair(s: Seq<char>, high: int, low: int)
    requires
        s.len() == 2,
        writes(s[0], high),
        writes(s[1], low),
    ensures
        crate::numeral::parse_unsigned(s, 16, 255) == Some((high * 16 + low) as nat),
{
    lemma_writes(s[0], high);
    lemma_writes(s[1], low);
    reveal_with_fuel(numeral_value, 3);
    let first = s.subrange(0, 1);
    assert(first.subrange(0, 0) =~= Seq::empty());
    assert(numeral_value(first, 16) == high);
    assert(numeral_value(s, 16) == high * 16 + low);
    assert(is_numeral(s, 16)) by {
        assert forall|i: int| 0 <= i < s.len() implies is_digit(#[trigger] s[i], 16) by {
            if i == 0 {
            } else {
                assert(i == 1);
            }
        }
    }
}

/// Different digits give different bytes.
pub proof fn law_uuids_are_distinct(a: Seq<char>, b: Seq<char>, x: Seq<int>, y: Seq<int>)
    requires
        x.len() == 32,
        y.len() == 32,
        spells(a, x),
        spells(b, y),
        uuid_bytes(a) == uuid_bytes(b),
    ensures
        x == y,
{
    law_uuid_is_read(a, x);
    law_uuid_is_read(b, y);
    let p = uuid_bytes(a)->Ok_0;
    let q = uuid_bytes(b)->Ok_0;
    let da = a.filter(|c: char| c != '-');
    let db = b.filter(|c: char| c != '-');
    assert forall|k: int| 0 <= k < 32 implies x[k] == y[k] by {
        let i = k / 2;
        assert(p[i] == q[i]);
        assert(writes(da[2 * i], x[2 * i]) && writes(da[2 * i + 1], x[2 * i + 1]));
        assert(writes(db[2 * i], y[2 * i]) && writes(db[2 * i + 1], y[2 * i + 1]));
        assert(p[i] == x[2 * i] * 16 + x[2 * i + 1]);
        assert(q[i] == y[2 * i] * 16 + y[2 * i + 1]);
    }
    assert(x =~= y);
}

/// A text that has not thirty-two characters besides its hyphens, or one that is neither a
/// hexadecimal digit nor a plus sign, is no user id.
pub proof fn law_other_texts_are_no_uuids(text: Seq<char>, k: int)
    requires
        ({
            let digits = text.filter(|c: char| c != '-');
            ||| digits.len() > 32
            ||| is_ascii_chars(digits) && digits.len() != 32
            ||| 0 <= k < digits.len() && digits[k] != '+' && forall|n: int|
                !(#[trigger] writes(digits[k], n))
        }),
    ensures
        uuid_bytes(text) is Err,
{
    let compact = without_hyphens(text);
    lemma_without_hyphens_filters(text);
    if is_ascii_chars(compact) {
        is_ascii_chars_encode_utf8(compact);
    }
    if compact.len() == 32 && uuid_bytes(text) is Ok {
        let i = k / 2;
        let pair = compact.subrange(2 * i, 2 * i + 2);
        assert(pair_value(compact, i) is Some);
        let digits = crate::numeral::without_plus(pair);
        let at = if pair[0] == '+' {
            k - 2 * i - 1
        } else {
            k - 2 * i
        };
        assert(digits[at] == compact[k]);
        assert(is_digit(digits[at], 16));
        reveal_strlit("0123456789abcdef");
        reveal_strlit("0123456789ABCDEF");
        let v = crate::numeral::digit_value(compact[k])->0 as int;
        assert(writes(compact[k], v));
    }
}

/// The bytes of a host: its type, and its octets, or the length of its text and the text.
pub open spec fn tuic_host(host: WireHost) -> Seq<u8> {
    match host {
        WireHost::Name(name) => seq![0u8, encode_utf8(name).len() as u8] + encode_utf8(name),
        WireHost::V4(octets) => seq![1u8] + octets,
        WireHost::V6(octets) => seq![2u8] + octets,
    }
}

/// An address that stands in a message is read as the host and the port that it names.
pub proof fn law_address_is_read(before: Seq<u8>, host: WireHost, port: u16, rest: Seq<u8>)
    requires
        host.fits(),
    ensures
        ({
            let input = before + tuic_host(host) + port_bytes(port) + rest;
            address_at(input, before.len() as int) == Ok::<(Option<TargetModel>, int), ErrorModel>(
                (Some(TargetModel { host: host.text(), port }), input.len() - rest.len()),
            )
        }),
        address_at(before + seq![0xffu8] + rest, before.len() as int) == Ok::<
            (Option<TargetModel>, int),
            ErrorModel,
        >((None, before.len() as int + 1)),
{
    let input = before + tuic_host(host) + port_bytes(port) + rest;
    let at = before.len() as int;
    match host {
        WireHost::V4(o) => {
            assert(input.subrange(at + 1, at + 5) =~= o);
        },
        WireHost::V6(o) => {
            assert(input.subrange(at + 1, at + 17) =~= o);
        },
        WireHost::Name(name) => {
            encode_utf8_valid_utf8(name);
            encode_utf8_decode_utf8(name);
            assert(input.subrange(at + 2, at + 2 + encode_utf8(name).len()) =~= encode_utf8(name));
        },
    }
}

/// A connect command is two bytes and the target; it is read as that target, and nothing behind it
/// is read.
pub proof fn law_connect_is_read(host: WireHost, port: u16, rest: Seq<u8>)
    requires
        host.fits(),
    ensures
        ({
            let input = seq![5u8, 1u8] + tuic_host(host) + port_bytes(port) + rest;
            connect_request(arrived(input)) == (
                Ok::<TargetModel, ErrorModel>(TargetModel { host: host.text(), port }),
                arrived(input).skip((input.len() - rest.len()) as nat),
            )
        }),
{
    let input = seq![5u8, 1u8] + tuic_host(host) + port_bytes(port) + rest;
    let t = arrived(input);
    assert(t.next(2) =~= seq![5u8, 1u8]);
    let t1 = t.skip(2);
    assert(t1.next(1) =~= seq![tuic_host(host)[0]]);
    let t2 = t1.skip(1);
    match host {
        WireHost::V4(o) => {
            assert(t2.next(4) =~= o);
            assert(t2.skip(4).next(2) =~= port_bytes(port));
        },
        WireHost::V6(o) => {
            assert(t2.next(16) =~= o);
            assert(t2.skip(16).next(2) =~= port_bytes(port));
        },
        WireHost::Name(name) => {
            let n = encode_utf8(name).len();
            encode_utf8_valid_utf8(name);
            encode_utf8_decode_utf8(name);
            assert(t2.next(1) =~= seq![n as u8]);
            assert(t2.skip(1).next(n) =~= encode_utf8(name));
            assert(t2.skip(1).skip(n).next(2) =~= port_bytes(port));
        },
    }
}

/// A stream that does not begin as a connect command does is no connect command.
pub proof fn law_other_streams_do_not_connect(input: Seq<u8>)
    requires
        input.len() < 2 || input[0] != 5 || input[1] != 1,
    ensures
        connect_request(arrived(input)).0 is Err,
{
    if input.len() >= 2 {
        assert(arrived(input).next(2)[0] == input[0]);
        assert(arrived(input).next(2)[1] == input[1]);
    }
}

/// An authentication is two bytes, the sixteen bytes of a user id and the thirty-two bytes of a
/// token. It is read as those, for the user that stands under the id; without one it is refused.
pub proof fn law_authentication_is_read(
    users: Seq<(Seq<u8>, CoreUser)>,
    uuid: Seq<u8>,
    token: Seq<u8>,
    rest: Seq<u8>,
)
    requires
        uuid.len() == 16,
        token.len() == 32,
    ensures
        ({
            let input = seq![5u8, 0u8] + uuid + token + rest;
            let (r, t) = authentication(users, arrived(input));
            &&& get(users, uuid) matches Some(user) ==> r == Ok::<
                (Seq<u8>, Seq<u8>, CoreUser),
                ErrorModel,
            >((uuid, token, user)) && t.position == 50
            &&& get(users, uuid) is None ==> (r matches Err(e) && e.kind
                == ErrorKind::PermissionDenied)
        }),
{
    let input = seq![5u8, 0u8] + uuid + token + rest;
    let t = arrived(input);
    assert(t.next(2) =~= seq![5u8, 0u8]);
    assert(t.skip(2).next(16) =~= uuid);
    assert(t.skip(2).skip(16).next(32) =~= token);
}

/// A stream that does not begin as an authentication does is refused.
pub proof fn law_other_streams_do_not_authenticate(
    users: Seq<(Seq<u8>, CoreUser)>,
    input: Seq<u8>,
)
    requires
        input.len() < 50 || input[0] != 5 || input[1] != 0,
    ensures
        authentication(users, arrived(input)).0 is Err,
{
    if input.len() >= 2 {
        assert(arrived(input).next(2)[0] == input[0]);
        assert(arrived(input).next(2)[1] == input[1]);
    }
}

/// The bytes of a packet command in front of its address.
pub open spec fn packet_head(
    assoc_id: u16,
    packet_id: u16,
    fragment_total: u8,
    fragment_id: u8,
    len: nat,
) -> Seq<u8> {
    seq![
        5u8,
        2u8,
        (assoc_id / 256) as u8,
        (assoc_id % 256) as u8,
        (packet_id / 256) as u8,
        (packet_id % 256) as u8,
        fragment_total,
        fragment_id,
        (len / 256) as u8,
        (len % 256) as u8,
    ]
}

/// A packet command is read as the packet that it holds, with its target.
pub proof fn law_packet_is_read(
    assoc_id: u16,
    packet_id: u16,
    fragment_total: u8,
    fragment_id: u8,
    host: WireHost,
    port: u16,
    payload: Seq<u8>,
)
    requires
        host.fits(),
        payload.len() <= 65535,
    ensures
        command_of(
            packet_head(assoc_id, packet_id, fragment_total, fragment_id, payload.len())
                + tuic_host(host) + port_bytes(port) + payload,
        ) == Ok::<CommandModel, ErrorModel>(
            CommandModel::Packet(
                PacketModel {
                    assoc_id,
                    packet_id,
                    fragment_total,
                    fragment_id,
                    target: Some(TargetModel { host: host.text(), port }),
                    payload,
                },
            ),
        ),
{
    let head = packet_head(assoc_id, packet_id, fragment_total, fragment_id, payload.len());
    let input = head + tuic_host(host) + port_bytes(port) + payload;
    law_address_is_read(head, host, port, payload);
    assert(forall|i: int| 0 <= i < 10 ==> #[trigger] input[i] == head[i]);
    assert(input.subrange(input.len() - payload.len(), input.len() as int) =~= payload);
}

/// A packet command without an address, as all fragments but the first are, is read as the packet
/// that it holds.
pub proof fn law_fragment_is_read(
    assoc_id: u16,
    packet_id: u16,
    fragment_total: u8,
    fragment_id: u8,
    payload: Seq<u8>,
)
    requires
        payload.len() <= 65535,
    ensures
        command_of(
            packet_head(assoc_id, packet_id, fragment_total, fragment_id, payload.len()) + seq![
                0xffu8,
            ] + payload,
        ) == Ok::<CommandModel, ErrorModel>(
            CommandModel::Packet(
                PacketModel {
                    assoc_id,
                    packet_id,
                    fragment_total,
                    fragment_id,
                    target: None,
                    payload,
                },
            ),
        ),
{
    let head = packet_head(assoc_id, packet_id, fragment_total, fragment_id, payload.len());
    let input = head + seq![0xffu8] + payload;
    assert(forall|i: int| 0 <= i < 10 ==> #[trigger] input[i] == head[i]);
    assert(input[10] == 0xff);
    assert(input.subrange(11, input.len() as int) =~= payload);
}

/// The other commands: to give up an association, which is named by two bytes, and to show that
/// the client lives.
pub proof fn law_other_commands_are_read(high: u8, low: u8)
    ensures
        command_of(seq![5u8, 3u8, high, low]) == Ok::<CommandModel, ErrorModel>(
            CommandModel::Dissociate((high * 256 + low) as u16),
        ),
        command_of(seq![5u8, 4u8]) == Ok::<CommandModel, ErrorModel>(CommandModel::Heartbeat),
{
}

/// Nothing else is a command: each begins with its version and its number, and has the length that
/// it announces.
pub proof fn law_only_commands_are_read(input: Seq<u8>)
    ensures
        command_of(input) matches Ok(c) ==> {
            &&& input.len() >= 2 && input[0] == 5
            &&& input[1] == match c {
                CommandModel::Packet(_) => 2u8,
                CommandModel::Dissociate(_) => 3u8,
                CommandModel::Heartbeat => 4u8,
            }
            &&& c is Dissociate ==> input.len() == 4
            &&& c is Heartbeat ==> input.len() == 2
            &&& c matches CommandModel::Packet(p) ==> p.payload.len() == input[8] * 256 + input[9]
                && p.payload == input.subrange(
                input.len() - p.payload.len(),
                input.len() as int,
            )
        },
{
}

/// An address is written by its octets where it is one, and else by its name, which may not be
/// longer than 255 bytes; without one, a byte says so.
pub proof fn law_address_is_written(target: TargetModel)
    ensures
        match IpModel::parse(target.host) {
            Some(IpModel::V4(octets)) => encoded_address(Some(target)) == Ok::<Seq<u8>, ErrorModel>(
                tuic_host(WireHost::V4(octets)) + port_bytes(target.port),
            ),
            Some(IpModel::V6(octets)) => encoded_address(Some(target)) == Ok::<Seq<u8>, ErrorModel>(
                tuic_host(WireHost::V6(octets)) + port_bytes(target.port),
            ),
            None => if encode_utf8(target.host).len() <= 255 {
                encoded_address(Some(target)) == Ok::<Seq<u8>, ErrorModel>(
                    tuic_host(WireHost::Name(target.host)) + port_bytes(target.port),
                )
            } else {
                encoded_address(Some(target)) is Err
            },
        },
        encoded_address(None) == Ok::<Seq<u8>, ErrorModel>(seq![0xffu8]),
{
}

/// A packet is written as its head, its address and its payload.
pub proof fn law_packet_layout(p: PacketModel, address: Seq<u8>)
    requires
        p.payload.len() <= 65535,
        encoded_address(p.target) == Ok::<Seq<u8>, ErrorModel>(address),
    ensures
        encoded_packet(p) == Ok::<Seq<u8>, ErrorModel>(
            packet_head(
                p.assoc_id,
                p.packet_id,
                p.fragment_total,
                p.fragment_id,
                p.payload.len(),
            ) + address + p.payload,
        ),
{
    let n = p.payload.len() as u16;
    assert((n / 256) as u8 == (p.payload.len() / 256) as u8);
    assert((n % 256) as u8 == (p.payload.len() % 256) as u8);
    assert(encoded_packet(p)->Ok_0 =~= packet_head(
        p.assoc_id,
        p.packet_id,
        p.fragment_total,
        p.fragment_id,
        p.payload.len(),
    ) + address + p.payload);
}

/// What cannot be written: a payload or a name that is longer than its length can say.
pub proof fn law_long_packets_are_refused(p: PacketModel)
    ensures
        encoded_packet(p) is Err <==> p.payload.len() > 65535 || (p.target matches Some(t)
            && IpModel::parse(t.host) is None && encode_utf8(t.host).len() > 255),
{
}

/// A reply goes by stream whatever its length, and by datagram where the connection carries
/// datagrams of its length.
pub proof fn law_replies_are_carried(max: usize, len: nat)
    ensures
        carries(UdpReplyMode::UniStream, Some(max), len),
        carries(UdpReplyMode::UniStream, None, len),
        carries(UdpReplyMode::Datagram, Some(max), len) <==> len <= max,
        !carries(UdpReplyMode::Datagram, None, len),
{
}

/// A congestion control goes by its name, whatever the case of its letters and the white space
/// around it, with hyphens or spaces for underscores; none is cubic.
pub proof fn law_congestion_control_names(value: Seq<char>)
    ensures
        ({
            let name = replace(replace(lower(trim(value)), '-', '_'), ' ', '_');
            &&& control_of(value) == Ok::<CongestionControl, ErrorModel>(CongestionControl::Cubic)
                <==> name.len() == 0 || name == "cubic"@
            &&& control_of(value) == Ok::<CongestionControl, ErrorModel>(CongestionControl::Bbr)
                <==> name == "bbr"@
            &&& control_of(value) == Ok::<CongestionControl, ErrorModel>(CongestionControl::NewReno)
                <==> name == "new_reno"@ || name == "newreno"@ || name == "reno"@
        }),
{
    let name = replace(replace(lower(trim(value)), '-', '_'), ' ', '_');
    reveal_strlit("");
    reveal_strlit("cubic");
    reveal_strlit("bbr");
    reveal_strlit("new_reno");
    reveal_strlit("newreno");
    reveal_strlit("reno");
    assert(name.len() == 0 ==> name =~= ""@);
    assert("cubic"@.len() == 5 && "bbr"@.len() == 3 && "new_reno"@.len() == 8 && "newreno"@.len()
        == 7 && "reno"@.len() == 4);
}

/// A packet that is no fragment is given back at once. A fragment whose number is not among those of
/// its packet is refused and changes nothing; one that says another count or another target than
/// the fragments before it is refused, and those are forgotten.
pub proof fn law_fragments_are_checked(
    groups: Seq<((u16, u16), GroupModel)>,
    p: PacketModel,
)
    requires
        distinct(groups),
    ensures
        p.fragment_total == 1 && p.fragment_id == 0 ==> pushed(groups, p) == (
            Ok::<Option<PacketModel>, ErrorModel>(Some(p)),
            groups,
        ),
        p.fragment_id >= p.fragment_total ==> pushed(groups, p).0 is Err && pushed(groups, p).1
            == groups,
        p.fragment_id < p.fragment_total && p.fragment_total > 1 ==> (get(
            groups,
            (p.assoc_id, p.packet_id),
        ) matches Some(g) ==> {
            let known = g.parts.len() != p.fragment_total || (p.target is Some && g.target is Some
                && g.target != p.target);
            &&& pushed(groups, p).0 is Err <==> known
            &&& known ==> get(pushed(groups, p).1, (p.assoc_id, p.packet_id)) is None
        }),
        p.fragment_id < p.fragment_total && get(groups, (p.assoc_id, p.packet_id)) is None
            ==> pushed(groups, p).0 is Ok,
{
    lemma_cut(groups, (p.assoc_id, p.packet_id));
}

} // verus!
