//! What is made of the errors of clients, of TLS records, and of the addresses to listen on and to
//! connect to.

use vstd::prelude::*;

use crate::address::{IpModel, SocketModel};
use crate::backoff::{handshake_report, is_auth_failure, noted, ClientNote, HandshakeEnd, HandshakeReport};
use crate::config::InboundConfig;
use crate::error::{ErrorKind, ErrorModel};
use crate::numeral::{decimal, is_digit, lemma_numeral_value};
use crate::reality::{after_bracket, gateway_of, is_port, names_port, with_port, RealityGatewayConfig};
use crate::service_error::CoreServiceError;
use crate::socket_bind::{at_address, dual_stack, ipv4_wildcard, lacks_ipv6};
use crate::text::{contains, is_space, join, lemma_split_of_join, lower, split, trim};
use crate::text_laws::{law_join, law_number_reads_back, law_trim};
use crate::tls::{
    content_len, handshake_class, loaded_certificates, loaded_private_key, PrivateKeyKind,
    TlsRecordReader, MAX_TLS_RECORD_LEN, TLS_HEADER_LEN,
};

verus! {

/// The length of what a record holds stands in the last two bytes of its head of five, the more
/// significant first. A record holds at most 18432 bytes.
pub proof fn law_record_head(kind: u8, major: u8, minor: u8, high: u8, low: u8, rest: Seq<u8>)
    ensures
        content_len(seq![kind, major, minor, high, low] + rest) == high * 256 + low,
        TLS_HEADER_LEN == 5,
        MAX_TLS_RECORD_LEN == 18432,
{
}

/// A handshake that ends with a connection that is gone was ended by the client; one that ends with
/// data that is not valid or not permitted was rejected for the name that was asked for, or is
/// not valid; and every other ends for a reason of the connection.
pub proof fn law_handshake_classes(e: ErrorModel)
    ensures
        handshake_class(e) is ClientClosed <==> e.kind is UnexpectedEof || e.kind
            is ConnectionAborted || e.kind is ConnectionReset || e.kind is BrokenPipe,
        handshake_class(e) is SniRejected <==> (e.kind is InvalidData || e.kind
            is PermissionDenied) && (contains(lower(e.message), "no certificates available"@)
            || contains(lower(e.message), "certificate resolver"@) || contains(
            lower(e.message),
            "sni"@,
        )),
        handshake_class(e) is InvalidHandshake ==> e.kind is InvalidData || e.kind
            is PermissionDenied,
        handshake_class(e) is Io ==> !(e.kind is InvalidData) && !(e.kind is PermissionDenied),
{
}

/// A failed handshake counts against a client whose address is known, unless the client closed the
/// connection; one that is accepted counts for it. The error is what the caller gets.
pub proof fn law_handshakes_are_noted(peer_known: bool, end: HandshakeEnd, r: HandshakeReport)
    requires
        handshake_report(peer_known, end, r),
    ensures
        !peer_known ==> r.note == ClientNote::Nothing,
        peer_known ==> (r.note == ClientNote::Success <==> end is Accepted),
        peer_known ==> (r.note == ClientNote::Failure <==> end is RanOut || (
        end matches HandshakeEnd::Failed(e) && !(e.kind is UnexpectedEof || e.kind
            is ConnectionAborted || e.kind is ConnectionReset || e.kind is BrokenPipe))),
        end is Accepted <==> r.result is Ok,
        end matches HandshakeEnd::Failed(e) ==> (r.result matches Err(f) && f@ == e@),
        end is RanOut ==> (r.result matches Err(f) && f.kind is TimedOut),
        r.logged is None <==> end is Accepted || (end matches HandshakeEnd::Failed(e) && (e.kind
            is UnexpectedEof || e.kind is ConnectionAborted || e.kind is ConnectionReset || e.kind
            is BrokenPipe)),
{
}

/// Nothing is noted about a client whose address is not known.
pub proof fn law_unknown_clients_are_not_noted(note: ClientNote)
    ensures
        noted(false, note) == ClientNote::Nothing,
        noted(true, note) == note,
{
}

/// An error counts against a client where it says, in letters of any case, that the client is not
/// who it has to be, and says nothing of a route or a limit of devices.
pub proof fn law_auth_failures(e: ErrorModel)
    ensures
        ({
            let said = |word: Seq<char>| contains(lower(e.message), word);
            is_auth_failure(e) <==> e.kind is PermissionDenied && (said("auth"@) || said(
                "unknown"@,
            ) || said("password"@) || said("credential"@) || said("token"@) || said("username"@)
                || said("replayed"@) || said("user"@)) && !said("route"@) && !said("device limit"@)
                && !said("target blocked"@) && !said("blocked by route"@)
        }),
{
}

/// A file without certificates is an error, and so is one without a private key.
pub proof fn law_files_hold_what_is_wanted(
    certificates: Seq<Seq<u8>>,
    key: (PrivateKeyKind, Seq<u8>),
    message: Seq<char>,
)
    ensures
        certificates.len() > 0 ==> loaded_certificates(Ok(certificates)) == Ok::<
            Seq<Seq<u8>>,
            ErrorModel,
        >(certificates),
        certificates.len() == 0 ==> loaded_certificates(Ok(certificates)) is Err,
        loaded_certificates(Err(message)) matches Err(e) && e.message == message,
        loaded_private_key(Ok(Some(key))) == Ok::<(PrivateKeyKind, Seq<u8>), ErrorModel>(key),
        loaded_private_key(Ok(None)) is Err,
        loaded_private_key(Err(message)) matches Err(e) && e.message == message,
{
}

/// In place of the wildcard of version four the one of version six is listened on, at the same
/// port; every other address is listened on as it is.
pub proof fn law_dual_stack(port: u16, listen: SocketModel)
    ensures
        dual_stack(SocketModel::plain(IpModel::V4(seq![0u8, 0u8, 0u8, 0u8]), port)).port == port,
        dual_stack(SocketModel::plain(IpModel::V4(seq![0u8, 0u8, 0u8, 0u8]), port)).ip
            == IpModel::V6(seq![0u8, 0, 0, 0, 0, 0, 0, 0, 0, 0, 0, 0, 0, 0, 0, 0]),
        listen.ip is V6 ==> dual_stack(listen) == listen,
        listen.ip matches IpModel::V4(o) ==> (exists|i: int| 0 <= i < o.len() && o[i] != 0)
            ==> dual_stack(listen) == listen,
        ipv4_wildcard() == IpModel::V4(seq![0u8, 0u8, 0u8, 0u8]),
{
    assert(Seq::new(16, |i: int| 0u8) =~= seq![0u8, 0, 0, 0, 0, 0, 0, 0, 0, 0, 0, 0, 0, 0, 0, 0]);
    assert(Seq::new(4, |i: int| 0u8) =~= seq![0u8, 0u8, 0u8, 0u8]);
}

/// The errors that say that there are no addresses of version six: by their kinds, and by the
/// numbers that systems give them.
pub proof fn law_want_of_ipv6(kind: ErrorKind, code: i32)
    ensures
        lacks_ipv6(kind, Some(code)) <==> kind is AddrNotAvailable || kind is Unsupported || seq![
            47i32,
            49,
            97,
            10047,
            10049,
        ].contains(code),
        lacks_ipv6(kind, None) <==> kind is AddrNotAvailable || kind is Unsupported,
{
    let codes = seq![47i32, 49, 97, 10047, 10049];
    assert(codes[0] == 47 && codes[1] == 49 && codes[2] == 97 && codes[3] == 10047 && codes[4]
        == 10049);
}

/// The error of an address keeps its kind, and says the address and what was said.
pub proof fn law_error_names_its_address(listen: SocketModel, e: ErrorModel)
    ensures
        at_address(listen, e).kind == e.kind,
        contains(at_address(listen, e).message, listen.text()),
        contains(at_address(listen, e).message, e.message),
{
    let m = at_address(listen, e).message;
    crate::text_laws::law_contains(m, "at "@, listen.text(), ": "@ + e.message);
    assert("at "@ + listen.text() + (": "@ + e.message) =~= m);
    let before = "at "@ + listen.text() + ": "@;
    crate::text_laws::law_contains(m, before, e.message, Seq::empty());
    assert(before + e.message + Seq::empty() =~= m);
}

/// What is said of a number is no white space, no colon and no bracket.
proof fn lemma_decimal_chars(n: nat)
    ensures
        decimal(n).len() > 0,
        forall|i: int|
            0 <= i < decimal(n).len() ==> !is_space(#[trigger] decimal(n)[i]) && decimal(n)[i] != ':'
                && decimal(n)[i] != ']' && decimal(n)[i] != '[',
{
    lemma_numeral_value(n, 10);
    assert forall|i: int| 0 <= i < decimal(n).len() implies !is_space(#[trigger] decimal(n)[i])
        && decimal(n)[i] != ':' && decimal(n)[i] != ']' && decimal(n)[i] != '[' by {
        assert(is_digit(decimal(n)[i], 10));
    }
}

/// A destination that is a host without a port gets the port that is set; one that names its port
/// keeps it.
pub proof fn law_destination_of_a_host(host: Seq<char>, port: u16, other: u16)
    requires
        host.len() > 0,
        !is_space(host[0]),
        !is_space(host[host.len() - 1]),
        host[0] != '[',
        !host.contains(':'),
    ensures
        with_port(host, Some(port)) == host + seq![':'] + decimal(port as nat),
        with_port(host, None) == host,
        names_port(host + seq![':'] + decimal(port as nat)),
        with_port(host + seq![':'] + decimal(port as nat), Some(other)) == host + seq![':']
            + decimal(port as nat),
{
    let none = Seq::<char>::empty();
    let digits = decimal(port as nat);
    lemma_decimal_chars(port as nat);
    law_number_reads_back(port as nat, 10, 65535);
    law_trim(none, host, none);
    assert(none + host + none =~= host);
    let pieces = seq![host];
    law_join(pieces, host, ':');
    lemma_split_of_join(pieces, ':');
    assert(split(host, ':').len() == 1);
    let whole = host + seq![':'] + digits;
    law_trim(none, whole, none);
    assert(none + whole + none =~= whole);
    let both = pieces.push(digits);
    law_join(pieces, digits, ':');
    assert(!digits.contains(':'));
    lemma_split_of_join(both, ':');
    assert(split(whole, ':') == both);
    reveal_strlit(":");
    assert(":"@ =~= seq![':']);
    assert(!names_port(host));
    assert(host + ":"@ + digits =~= whole);
}

/// A destination that is an address of version six, with two colons at least, is put in square
/// brackets in front of the port that is set; one in brackets that names its port keeps it.
pub proof fn law_destination_of_an_address(pieces: Seq<Seq<char>>, port: u16, other: u16)
    requires
        pieces.len() >= 3,
        forall|i: int|
            0 <= i < pieces.len() ==> !(#[trigger] pieces[i]).contains(':') && !pieces[i].contains(
                ']',
            ),
        ({
            let host = join(pieces, ':');
            !is_space(host[0]) && !is_space(host[host.len() - 1]) && host[0] != '[' && !host.contains(
                ']',
            )
        }),
    ensures
        ({
            let host = join(pieces, ':');
            let whole = seq!['['] + host + seq![']', ':'] + decimal(port as nat);
            &&& with_port(host, Some(port)) == whole
            &&& names_port(whole)
            &&& with_port(whole, Some(other)) == whole
        }),
{
    let none = Seq::<char>::empty();
    let digits = decimal(port as nat);
    let host = join(pieces, ':');
    lemma_decimal_chars(port as nat);
    law_number_reads_back(port as nat, 10, 65535);
    lemma_split_of_join(pieces, ':');
    let init = pieces.subrange(0, pieces.len() - 1);
    law_join(init, pieces[pieces.len() - 1], ':');
    assert(init.push(pieces[pieces.len() - 1]) =~= pieces);
    assert(host[join(init, ':').len() as int] == ':');
    law_trim(none, host, none);
    assert(none + host + none =~= host);
    reveal_strlit("[");
    reveal_strlit("]:");
    assert("["@ =~= seq!['[']);
    assert("]:"@ =~= seq![']', ':']);
    let whole = seq!['['] + host + seq![']', ':'] + digits;
    law_trim(none, whole, none);
    assert(none + whole + none =~= whole);
    let rest = host + seq![']', ':'] + digits;
    assert(whole.subrange(1, whole.len() as int) =~= rest);
    lemma_after_bracket(host, digits);
    assert(!names_port(host));
}

/// What follows the bracket that closes a host.
proof fn lemma_after_bracket(host: Seq<char>, digits: Seq<char>)
    requires
        !host.contains(']'),
    ensures
        after_bracket(host + seq![']', ':'] + digits) == Some(digits),
    decreases host.len(),
{
    let s = host + seq![']', ':'] + digits;
    if host.len() == 0 {
        assert(s.subrange(2, s.len() as int) =~= digits);
    } else {
        let fewer = host.subrange(1, host.len() as int);
        assert(host.contains(host[0]));
        assert(s[0] == host[0]);
        assert forall|i: int| 0 <= i < fewer.len() implies #[trigger] fewer[i] != ']' by {
            assert(host.contains(host[i + 1]));
        }
        assert(s.subrange(1, s.len() as int) =~= fewer + seq![']', ':'] + digits);
        lemma_after_bracket(fewer, digits);
    }
}

/// The number of a port is a number below 65536.
pub proof fn law_ports(n: nat)
    ensures
        is_port(decimal(n)) <==> n <= 65535,
{
    law_number_reads_back(n, 10, 65535);
}

/// Of a record that begins, the rest of its head of five bytes is missing; once its length is known,
/// the rest of the record.
pub proof fn law_missing_bytes(r: TlsRecordReader)
    ensures
        r.target_len is None ==> r.missing() == 5 - r.buf@.len(),
        r.target_len matches Some(n) ==> r.missing() == n - r.buf@.len(),
        r.wf() && r.target_len is Some ==> r.missing() == 5 + r.buf@[3] * 256 + r.buf@[4]
            - r.buf@.len(),
{
}

/// A REALITY gateway has the key and the short id of its inbound, the server name without white
/// space around it, the destination with its port, and the time for connecting that it was given.
/// It is refused where TLS, REALITY, the key or the short id is not there.
pub proof fn law_gateway(
    inbound: InboundConfig,
    private_key: Result<Vec<u8>, String>,
    short_id: Result<Vec<u8>, String>,
    connect_secs: u64,
    r: Result<RealityGatewayConfig, CoreServiceError>,
)
    requires
        gateway_of(inbound, private_key, short_id, connect_secs, r),
    ensures
        r is Ok <==> inbound.tls is Some && inbound.tls->0.reality is Some && private_key is Ok
            && short_id is Ok,
        r matches Ok(g) ==> {
            &&& private_key == Ok::<Vec<u8>, String>(g.private_key)
            &&& short_id == Ok::<Vec<u8>, String>(g.short_id)
            &&& g.server_name@ == trim(inbound.tls->0.server_name@)
            &&& g.dest@ == with_port(
                inbound.tls->0.reality->0.dest@,
                inbound.tls->0.reality->0.server_port,
            )
            &&& g.connect_timeout_secs == connect_secs
            &&& g.max_time_diff_secs is None
            &&& !g.probe_dest_on_auth
        },
        r matches Err(e) ==> (e matches CoreServiceError::Bind { tag, source } && tag@
            == inbound.tag@ && source.kind == ErrorKind::InvalidInput),
{
}

/// A destination in an opening bracket without a closing one in front of a colon names no port.
pub proof fn law_open_bracket_names_no_port(dest: Seq<char>)
    requires
        trim(dest).len() > 0,
        trim(dest)[0] == '[',
        forall|i: int|
            0 <= i < trim(dest).len() - 1 ==> !((#[trigger] trim(dest)[i]) == ']' && trim(dest)[i + 1]
                == ':'),
    ensures
        !names_port(dest),
{
    let d = trim(dest);
    let inner = d.subrange(1, d.len() as int);
    assert forall|i: int| 0 <= i < inner.len() - 1 implies !((#[trigger] inner[i]) == ']'
        && inner[i + 1] == ':') by {
        assert(inner[i] == d[i + 1] && inner[i + 1] == d[i + 2]);
    }
    lemma_no_bracket(inner);
}

proof fn lemma_no_bracket(s: Seq<char>)
    requires
        forall|i: int| 0 <= i < s.len() - 1 ==> !((#[trigger] s[i]) == ']' && s[i + 1] == ':'),
    ensures
        after_bracket(s) is None,
    decreases s.len(),
{
    if s.len() >= 2 {
        let fewer = s.subrange(1, s.len() as int);
        assert(!(s[0] == ']' && s[1] == ':'));
        assert forall|i: int| 0 <= i < fewer.len() - 1 implies !((#[trigger] fewer[i]) == ']'
            && fewer[i + 1] == ':') by {
            assert(fewer[i] == s[i + 1] && fewer[i + 1] == s[i + 2]);
        }
        lemma_no_bracket(fewer);
    }
}

} // verus!
