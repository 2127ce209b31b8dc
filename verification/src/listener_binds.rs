//! Which addresses the inbounds of a node listen on, and that no two of them are in the way of
//! each other.

use vstd::prelude::*;

use crate::address::{IpAddress, IpModel, SocketAddress, SocketModel};
use crate::config::{InboundConfig, Protocol, TlsConfig, TransportConfig};
use crate::error::{failure, fault, CoreError, ErrorKind, ErrorModel};
use crate::numeral::{decimal, decimal_text};
use crate::socket_bind::ipv6_wildcard;
use crate::text::{
    chars_of, lower, lowered, same_text, split, split_chars, string_of, trim, trimmed, views,
};

verus! {

/// A configuration that is not valid.
#[derive(Debug, PartialEq, Eq)]
pub struct ValidationError {
    pub message: String,
}

/// The name of a protocol.
pub open spec fn protocol_text(protocol: Protocol) -> Seq<char> {
    match protocol {
        Protocol::Socks => "Socks"@,
        Protocol::Http => "Http"@,
        Protocol::Vless => "Vless"@,
        Protocol::Vmess => "Vmess"@,
        Protocol::Trojan => "Trojan"@,
        Protocol::Shadowsocks => "Shadowsocks"@,
        Protocol::AnyTls => "AnyTls"@,
        Protocol::Tuic => "Tuic"@,
        Protocol::Hysteria2 => "Hysteria2"@,
        Protocol::Mieru => "Mieru"@,
        Protocol::Naive => "Naive"@,
    }
}

/// The name of a protocol.
pub fn protocol_name(protocol: Protocol) -> (r: String)
    ensures
        r@ == protocol_text(protocol),
{
    match protocol {
        Protocol::Socks => "Socks".to_owned(),
        Protocol::Http => "Http".to_owned(),
        Protocol::Vless => "Vless".to_owned(),
        Protocol::Vmess => "Vmess".to_owned(),
        Protocol::Trojan => "Trojan".to_owned(),
        Protocol::Shadowsocks => "Shadowsocks".to_owned(),
        Protocol::AnyTls => "AnyTls".to_owned(),
        Protocol::Tuic => "Tuic".to_owned(),
        Protocol::Hysteria2 => "Hysteria2".to_owned(),
        Protocol::Mieru => "Mieru".to_owned(),
        Protocol::Naive => "Naive".to_owned(),
    }
}

/// Whether a text is the word, whatever the case of its letters and the white space around it.
pub open spec fn is_word(text: Seq<char>, word: Seq<char>) -> bool {
    lower(trim(text)) == word
}

/// Whether a text is the word, which is in lower case.
fn has_word(text: &str, word: &str) -> (r: bool)
    ensures
        r == is_word(text@, word@),
{
    let clean = trimmed(text);
    let small = lowered(clean.as_str());
    same_text(small.as_str(), word)
}

/// Whether a Shadowsocks inbound takes UDP: `udp` is among the networks.
pub open spec fn takes_udp(network: Seq<char>) -> bool {
    exists|i: int|
        0 <= i < split(network, ',').len() && is_word(#[trigger] split(network, ',')[i], "udp"@)
}

/// Whether a Shadowsocks inbound takes UDP.
pub fn shadowsocks_udp_enabled(transport: &TransportConfig) -> (r: bool)
    ensures
        r == takes_udp(transport.network@),
{
    let chars = chars_of(transport.network.as_str());
    let items = split_chars(chars.as_slice(), 0, chars.len(), ',');
    assert(chars@.subrange(0, chars@.len() as int) =~= transport.network@);
    let ghost pieces = split(transport.network@, ',');
    let mut i: usize = 0;
    while i < items.len()
        invariant
            i <= items@.len(),
            pieces == split(transport.network@, ','),
            views(items@) == pieces,
            forall|k: int| 0 <= k < i ==> !is_word(#[trigger] pieces[k], "udp"@),
        decreases items.len() - i,
    {
        let item = string_of(items[i].as_slice());
        assert(pieces[i as int] == items@[i as int]@);
        if has_word(item.as_str(), "udp") {
            return true;
        }
        i += 1;
    }
    false
}

/// Whether a Naive inbound runs over QUIC: its network is `quic`, or it offers `h3`.
pub open spec fn naive_over_quic(inbound: InboundConfig) -> bool {
    inbound.protocol == Protocol::Naive && (is_word(inbound.transport.network@, "quic"@) || (
    inbound.tls is Some && exists|i: int|
        0 <= i < inbound.tls->0.alpn@.len() && is_word(
            (#[trigger] inbound.tls->0.alpn@[i])@,
            "h3"@,
        )))
}

/// Whether h3 is among the application protocols.
fn offers_h3(tls: &TlsConfig) -> (r: bool)
    ensures
        r == exists|i: int|
            0 <= i < tls.alpn@.len() && is_word((#[trigger] tls.alpn@[i])@, "h3"@),
{
    let mut i: usize = 0;
    while i < tls.alpn.len()
        invariant
            i <= tls.alpn@.len(),
            forall|k: int| 0 <= k < i ==> !is_word((#[trigger] tls.alpn@[k])@, "h3"@),
        decreases tls.alpn.len() - i,
    {
        if has_word(tls.alpn[i].as_str(), "h3") {
            return true;
        }
        i += 1;
    }
    false
}

/// Whether a Naive inbound runs over QUIC.
pub fn naive_uses_quic(inbound: &InboundConfig) -> (r: bool)
    ensures
        r == naive_over_quic(*inbound),
{
    if inbound.protocol != Protocol::Naive {
        return false;
    }
    if has_word(inbound.transport.network.as_str(), "quic") {
        return true;
    }
    match &inbound.tls {
        Some(tls) => offers_h3(tls),
        None => false,
    }
}

/// Whether an inbound runs over QUIC.
pub open spec fn over_quic(inbound: InboundConfig) -> bool {
    inbound.protocol == Protocol::Hysteria2 || inbound.protocol == Protocol::Tuic
        || naive_over_quic(inbound)
}

/// Whether an inbound runs over QUIC.
pub fn inbound_binds_quic(inbound: &InboundConfig) -> (r: bool)
    ensures
        r == over_quic(*inbound),
{
    inbound.protocol == Protocol::Hysteria2 || inbound.protocol == Protocol::Tuic
        || naive_uses_quic(inbound)
}

/// How many of the inbounds run over QUIC.
pub open spec fn quic_count(inbounds: Seq<InboundConfig>) -> nat
    decreases inbounds.len(),
{
    if inbounds.len() == 0 {
        0
    } else {
        quic_count(inbounds.subrange(0, inbounds.len() - 1)) + if over_quic(
            inbounds[inbounds.len() - 1],
        ) {
            1nat
        } else {
            0
        }
    }
}

/// How many of the inbounds run over QUIC.
pub fn quic_listener_count(inbounds: &Vec<InboundConfig>) -> (r: usize)
    ensures
        r == quic_count(inbounds@),
        r <= inbounds@.len(),
{
    let mut count: usize = 0;
    let mut i: usize = 0;
    while i < inbounds.len()
        invariant
            i <= inbounds.len(),
            count <= i,
            count == quic_count(inbounds@.subrange(0, i as int)),
        decreases inbounds.len() - i,
    {
        let ghost longer = inbounds@.subrange(0, i + 1);
        assert(longer.subrange(0, longer.len() - 1) == inbounds@.subrange(0, i as int));
        if inbound_binds_quic(&inbounds[i]) {
            count += 1;
        }
        i += 1;
    }
    assert(inbounds@.subrange(0, inbounds@.len() as int) == inbounds@);
    count
}

/// Whether an inbound listens on TCP.
pub open spec fn binds_tcp(inbound: InboundConfig) -> bool {
    !over_quic(inbound)
}

/// Whether an inbound listens on UDP.
pub open spec fn binds_udp(inbound: InboundConfig) -> bool {
    over_quic(inbound) || (inbound.protocol == Protocol::Shadowsocks && takes_udp(
        inbound.transport.network@,
    ))
}

/// Whether an inbound listens on TCP.
pub fn protocol_binds_tcp(inbound: &InboundConfig) -> (r: bool)
    ensures
        r == binds_tcp(*inbound),
{
    match inbound.protocol {
        Protocol::Socks => true,
        Protocol::Http => true,
        Protocol::Vless => true,
        Protocol::Vmess => true,
        Protocol::Trojan => true,
        Protocol::Shadowsocks => true,
        Protocol::AnyTls => true,
        Protocol::Mieru => true,
        Protocol::Naive => !naive_uses_quic(inbound),
        Protocol::Tuic => false,
        Protocol::Hysteria2 => false,
    }
}

/// Whether an inbound listens on UDP.
pub fn protocol_binds_udp(inbound: &InboundConfig) -> (r: bool)
    ensures
        r == binds_udp(*inbound),
{
    inbound_binds_quic(inbound) || (inbound.protocol == Protocol::Shadowsocks
        && shadowsocks_udp_enabled(&inbound.transport))
}

/// Whether two addresses are in the way of each other: the ports are the same, and the addresses
/// are, or one of them is a wildcard.
pub open spec fn addresses_conflict(a: SocketModel, b: SocketModel) -> bool {
    a.port == b.port && (a.ip == b.ip || a.ip.unspecified() || b.ip.unspecified())
}

/// Whether two addresses are in the way of each other.
pub fn listen_addrs_conflict(left: &SocketAddress, right: &SocketAddress) -> (r: bool)
    ensures
        r == addresses_conflict(left@, right@),
{
    left.port == right.port && (left.ip.same(&right.ip) || left.ip.is_unspecified()
        || right.ip.is_unspecified())
}

/// The address that is written where an inbound listens, if it is one: blank and the wildcards
/// stand for the wildcard of version six.
pub open spec fn written_address(listen: Seq<char>) -> Option<IpModel> {
    let text = trim(listen);
    if text == ""@ || text == "0.0.0.0"@ || text == "::"@ || text == "[::]"@ {
        Some(ipv6_wildcard())
    } else {
        IpModel::parse(text)
    }
}

/// Where an inbound listens: an address, or a name to look up.
#[derive(Debug, PartialEq, Eq)]
pub enum ListenHost {
    Address(IpAddress),
    Name(String),
}

/// Where an inbound listens.
pub fn listen_host(listen: &str) -> (r: ListenHost)
    ensures
        match r {
            ListenHost::Address(ip) => written_address(listen@) == Some(ip@),
            ListenHost::Name(name) => written_address(listen@) is None && name@ == trim(listen@),
        },
{
    let text = trimmed(listen);
    if same_text(text.as_str(), "") || same_text(text.as_str(), "0.0.0.0") || same_text(
        text.as_str(),
        "::",
    ) || same_text(text.as_str(), "[::]") {
        let zeros: [u8; 16] = [0u8; 16];
        assert(zeros@ =~= Seq::new(16, |i: int| 0u8));
        return ListenHost::Address(IpAddress::V6(zeros));
    }
    match IpAddress::parse(text.as_str()) {
        Some(ip) => ListenHost::Address(ip),
        None => ListenHost::Name(text),
    }
}

/// The addresses that looking up a name gave, or the error that it ended with.
pub open spec fn lookup_view(lookup: Result<Vec<SocketAddress>, CoreError>) -> Result<
    Option<SocketModel>,
    ErrorModel,
> {
    match lookup {
        Ok(found) => if found@.len() == 0 {
            Ok(None)
        } else {
            Ok(Some(found@[0]@))
        },
        Err(e) => Err(e@),
    }
}

/// The address that an inbound listens on: the one that is written, or else the first that
/// looking up the name gave.
pub open spec fn listen_address(
    listen: Seq<char>,
    port: u16,
    lookup: Result<Option<SocketModel>, ErrorModel>,
) -> Result<SocketModel, ErrorModel> {
    match written_address(listen) {
        Some(ip) => Ok(SocketModel::plain(ip, port)),
        None => match lookup {
            Ok(Some(found)) => Ok(found),
            Ok(None) => Err(
                fault(ErrorKind::AddrNotAvailable, "listen address did not resolve"@),
            ),
            Err(e) => Err(e),
        },
    }
}

/// The address that an inbound listens on; what looking up gave matters only for a name.
pub fn resolve_listen_addr(listen: &str, port: u16, lookup: Result<Vec<SocketAddress>, CoreError>) -> (r:
    Result<SocketAddress, CoreError>)
    ensures
        match r {
            Ok(address) => listen_address(listen@, port, lookup_view(lookup)) == Ok::<
                SocketModel,
                ErrorModel,
            >(address@),
            Err(e) => listen_address(listen@, port, lookup_view(lookup)) == Err::<
                SocketModel,
                ErrorModel,
            >(e@),
        },
{
    match listen_host(listen) {
        ListenHost::Address(ip) => Ok(SocketAddress::new(ip, port)),
        ListenHost::Name(_) => match lookup {
            Ok(found) => if found.len() == 0 {
                Err(failure(ErrorKind::AddrNotAvailable, "listen address did not resolve"))
            } else {
                Ok(found[0])
            },
            Err(e) => Err(e),
        },
    }
}

/// The two kinds of sockets.
#[derive(Clone, Copy, Debug, PartialEq, Eq, Structural)]
pub enum Network {
    Tcp,
    Udp,
}

/// The name of a kind of sockets.
pub open spec fn network_text(network: Network) -> Seq<char> {
    match network {
        Network::Tcp => "tcp"@,
        Network::Udp => "udp"@,
    }
}

/// A socket that an inbound listens on.
#[derive(Debug)]
pub struct ListenerBindSpec {
    pub tag: String,
    pub protocol: Protocol,
    pub network: Network,
    pub addr: SocketAddress,
}

/// The mathematical value of a socket that an inbound listens on.
#[verifier::ext_equal]
pub struct BindModel {
    pub tag: Seq<char>,
    pub protocol: Protocol,
    pub network: Network,
    pub addr: SocketModel,
}

impl View for ListenerBindSpec {
    type V = BindModel;

    open spec fn view(&self) -> BindModel {
        BindModel {
            tag: self.tag@,
            protocol: self.protocol,
            network: self.network,
            addr: self.addr@,
        }
    }
}

/// The view of a socket.
pub open spec fn bind_view() -> spec_fn(ListenerBindSpec) -> BindModel {
    |spec_: ListenerBindSpec| spec_@
}

/// The sockets that an inbound listens on.
pub open spec fn binds_of(inbound: InboundConfig, addr: SocketModel) -> Seq<BindModel> {
    let tcp = BindModel {
        tag: inbound.tag@,
        protocol: inbound.protocol,
        network: Network::Tcp,
        addr,
    };
    let udp = BindModel { network: Network::Udp, ..tcp };
    if binds_tcp(inbound) && binds_udp(inbound) {
        seq![tcp, udp]
    } else if binds_tcp(inbound) {
        seq![tcp]
    } else if binds_udp(inbound) {
        seq![udp]
    } else {
        Seq::empty()
    }
}

/// The message about an inbound whose address could not be found.
pub open spec fn unresolved_message(inbound: InboundConfig, e: ErrorModel) -> Seq<char> {
    "inbound "@ + inbound.tag@ + " listen "@ + inbound.listen@ + ":"@ + decimal(
        inbound.port as nat,
    ) + " did not resolve: "@ + e.message
}

/// The sockets that an inbound listens on.
pub fn listener_bind_specs(inbound: &InboundConfig, resolved: &Result<SocketAddress, CoreError>) -> (r:
    Result<Vec<ListenerBindSpec>, ValidationError>)
    ensures
        match resolved {
            Ok(addr) => r is Ok && r->Ok_0@.map_values(bind_view()) == binds_of(*inbound, addr@),
            Err(e) => r is Err && r->Err_0.message@ == unresolved_message(*inbound, e@),
        },
{
    let addr = match resolved {
        Ok(addr) => *addr,
        Err(error) => {
            let port = decimal_text(inbound.port as u64);
            let mut message = "inbound ".to_owned();
            message.append(inbound.tag.as_str());
            message.append(" listen ");
            message.append(inbound.listen.as_str());
            message.append(":");
            message.append(port.as_str());
            message.append(" did not resolve: ");
            message.append(error.message.as_str());
            return Err(ValidationError { message });
        },
    };
    let mut specs: Vec<ListenerBindSpec> = Vec::new();
    if protocol_binds_tcp(inbound) {
        specs.push(
            ListenerBindSpec {
                tag: inbound.tag.clone(),
                protocol: inbound.protocol,
                network: Network::Tcp,
                addr,
            },
        );
    }
    if protocol_binds_udp(inbound) {
        specs.push(
            ListenerBindSpec {
                tag: inbound.tag.clone(),
                protocol: inbound.protocol,
                network: Network::Udp,
                addr,
            },
        );
    }
    assert(specs@.map_values(bind_view()) =~= binds_of(*inbound, addr@));
    Ok(specs)
}

/// Whether two sockets are in the way of each other.
pub open spec fn binds_conflict(a: BindModel, b: BindModel) -> bool {
    a.network == b.network && addresses_conflict(a.addr, b.addr)
}

/// The message about a socket that another one is in the way of.
pub open spec fn duplicate_message(bind: BindModel, existing: BindModel) -> Seq<char> {
    "duplicate "@ + network_text(bind.network) + " listen "@ + bind.addr.text() + " for inbound "@
        + bind.tag + " ("@ + protocol_text(bind.protocol) + ") conflicts with "@ + existing.tag
        + " ("@ + protocol_text(existing.protocol)
        + "); change one node server port or listen address"@
}

/// Whether a socket is the first among others that is in the way of another.
pub open spec fn first_conflict(seen: Seq<BindModel>, bind: BindModel, at: int) -> bool {
    &&& 0 <= at < seen.len()
    &&& binds_conflict(seen[at], bind)
    &&& forall|k: int| 0 <= k < at ==> !binds_conflict(#[trigger] seen[k], bind)
}

/// Whether no socket is in the way of another one.
pub open spec fn fits(seen: Seq<BindModel>, bind: BindModel) -> bool {
    forall|k: int| 0 <= k < seen.len() ==> !binds_conflict(#[trigger] seen[k], bind)
}

/// Adds a socket to those that were accepted, unless one of them is in its way.
fn accept_bind(seen: &mut Vec<ListenerBindSpec>, bind: ListenerBindSpec) -> (r: Result<
    (),
    ValidationError,
>)
    ensures
        match r {
            Ok(_) => {
                &&& fits(old(seen)@.map_values(bind_view()), bind@)
                &&& final(seen)@ == old(seen)@.push(bind)
            },
            Err(e) => {
                &&& final(seen)@ == old(seen)@
                &&& exists|at: int|
                    first_conflict(old(seen)@.map_values(bind_view()), bind@, at)
                        && e.message@ == duplicate_message(
                        bind@,
                        #[trigger] old(seen)@.map_values(bind_view())[at],
                    )
            },
        },
{
    let ghost models = seen@.map_values(bind_view());
    let mut i: usize = 0;
    while i < seen.len()
        invariant
            i <= seen@.len(),
            seen@ == old(seen)@,
            models == seen@.map_values(bind_view()),
            forall|k: int| 0 <= k < i ==> !binds_conflict(#[trigger] models[k], bind@),
        decreases seen.len() - i,
    {
        let existing = &seen[i];
        assert(models[i as int] == existing@);
        if existing.network == bind.network && listen_addrs_conflict(&existing.addr, &bind.addr) {
            let network = match bind.network {
                Network::Tcp => "tcp",
                Network::Udp => "udp",
            };
            let addr = bind.addr.to_text();
            let protocol = protocol_name(bind.protocol);
            let other = protocol_name(existing.protocol);
            let mut message = "duplicate ".to_owned();
            message.append(network);
            message.append(" listen ");
            message.append(addr.as_str());
            message.append(" for inbound ");
            message.append(bind.tag.as_str());
            message.append(" (");
            message.append(protocol.as_str());
            message.append(") conflicts with ");
            message.append(existing.tag.as_str());
            message.append(" (");
            message.append(other.as_str());
            message.append("); change one node server port or listen address");
            assert(first_conflict(models, bind@, i as int));
            assert(message@ == duplicate_message(bind@, models[i as int]));
            return Err(ValidationError { message });
        }
        i += 1;
    }
    seen.push(bind);
    Ok(())
}

/// The first socket in the way of another is only one.
proof fn lemma_first_conflict_unique(seen: Seq<BindModel>, bind: BindModel, a: int, b: int)
    requires
        first_conflict(seen, bind, a),
        first_conflict(seen, bind, b),
    ensures
        a == b,
{
    if a < b {
        assert(!binds_conflict(seen[a], bind));
    } else if b < a {
        assert(!binds_conflict(seen[b], bind));
    }
}

/// The accepted sockets with another one, or the message about the first that is in its way.
pub open spec fn with_bind(seen: Seq<BindModel>, bind: BindModel) -> Result<
    Seq<BindModel>,
    Seq<char>,
> {
    if fits(seen, bind) {
        Ok(seen.push(bind))
    } else {
        Err(duplicate_message(bind, seen[choose|at: int| first_conflict(seen, bind, at)]))
    }
}

/// The accepted sockets with others, one after the other.
pub open spec fn with_binds(seen: Seq<BindModel>, binds: Seq<BindModel>) -> Result<
    Seq<BindModel>,
    Seq<char>,
>
    decreases binds.len(),
{
    if binds.len() == 0 {
        Ok(seen)
    } else {
        match with_binds(seen, binds.subrange(0, binds.len() - 1)) {
            Ok(more) => with_bind(more, binds[binds.len() - 1]),
            Err(message) => Err(message),
        }
    }
}

/// The view of the address of an inbound.
pub open spec fn resolved_view(resolved: Result<SocketAddress, CoreError>) -> Result<
    SocketModel,
    ErrorModel,
> {
    match resolved {
        Ok(addr) => Ok(addr@),
        Err(e) => Err(e@),
    }
}

/// The sockets of inbounds, or the message about the first problem.
pub open spec fn accepted(
    inbounds: Seq<InboundConfig>,
    resolved: Seq<Result<SocketAddress, CoreError>>,
) -> Result<Seq<BindModel>, Seq<char>>
    decreases inbounds.len(),
{
    if inbounds.len() == 0 {
        Ok(Seq::empty())
    } else {
        let n = inbounds.len() - 1;
        match accepted(inbounds.subrange(0, n), resolved) {
            Err(message) => Err(message),
            Ok(seen) => match resolved_view(resolved[n]) {
                Err(e) => Err(unresolved_message(inbounds[n], e)),
                Ok(addr) => with_binds(seen, binds_of(inbounds[n], addr)),
            },
        }
    }
}

/// Adds the sockets of an inbound to those that were accepted.
fn accept_binds(seen: &mut Vec<ListenerBindSpec>, binds: Vec<ListenerBindSpec>) -> (r: Result<
    (),
    ValidationError,
>)
    ensures
        match with_binds(old(seen)@.map_values(bind_view()), binds@.map_values(bind_view())) {
            Ok(more) => r is Ok && final(seen)@.map_values(bind_view()) == more,
            Err(message) => r is Err && r->Err_0.message@ == message,
        },
{
    let ghost first = seen@.map_values(bind_view());
    let ghost models = binds@.map_values(bind_view());
    let ghost whole = binds@;
    let mut rest = binds;
    let ghost mut done: int = 0;
    assert(models.subrange(0, 0) =~= Seq::<BindModel>::empty());
    while rest.len() > 0
        invariant
            0 <= done <= whole.len(),
            rest@ == whole.subrange(done, whole.len() as int),
            models == whole.map_values(bind_view()),
            whole == binds@,
            first == old(seen)@.map_values(bind_view()),
            with_binds(first, models.subrange(0, done)) == Ok::<Seq<BindModel>, Seq<char>>(
                seen@.map_values(bind_view()),
            ),
        decreases rest.len(),
    {
        let bind = rest.remove(0);
        let ghost before = seen@.map_values(bind_view());
        let ghost longer = models.subrange(0, done + 1);
        proof {
            assert(longer.subrange(0, longer.len() - 1) =~= models.subrange(0, done));
            assert(bind == whole[done]);
            assert(longer[done] == bind@);
            assert(rest@ =~= whole.subrange(done + 1, whole.len() as int));
        }
        match accept_bind(seen, bind) {
            Ok(_) => {
                assert(seen@.map_values(bind_view()) =~= before.push(longer[done]));
            },
            Err(e) => {
                proof {
                    let at = choose|at: int|
                        first_conflict(before, longer[done], at) && e.message@
                            == duplicate_message(longer[done], #[trigger] before[at]);
                    let chosen = choose|at: int| first_conflict(before, longer[done], at);
                    lemma_first_conflict_unique(before, longer[done], at, chosen);
                    assert(!fits(before, longer[done]));
                    lemma_with_binds_fails(first, models, done + 1);
                }
                return Err(e);
            },
        }
        proof {
            done = done + 1;
        }
    }
    assert(models.subrange(0, models.len() as int) =~= models);
    Ok(())
}

/// A problem with some of the sockets is the problem with all of them.
proof fn lemma_with_binds_fails(seen: Seq<BindModel>, binds: Seq<BindModel>, n: int)
    requires
        0 <= n <= binds.len(),
        with_binds(seen, binds.subrange(0, n)) is Err,
    ensures
        with_binds(seen, binds) == with_binds(seen, binds.subrange(0, n)),
    decreases binds.len() - n,
{
    if n < binds.len() {
        let longer = binds.subrange(0, n + 1);
        assert(longer.subrange(0, longer.len() - 1) =~= binds.subrange(0, n));
        lemma_with_binds_fails(seen, binds, n + 1);
    } else {
        assert(binds.subrange(0, n) =~= binds);
    }
}

/// A problem with some of the inbounds is the problem with all of them.
proof fn lemma_accepted_fails(
    inbounds: Seq<InboundConfig>,
    resolved: Seq<Result<SocketAddress, CoreError>>,
    n: int,
)
    requires
        0 <= n <= inbounds.len(),
        accepted(inbounds.subrange(0, n), resolved) is Err,
    ensures
        accepted(inbounds, resolved) == accepted(inbounds.subrange(0, n), resolved),
    decreases inbounds.len() - n,
{
    if n < inbounds.len() {
        let longer = inbounds.subrange(0, n + 1);
        assert(longer.subrange(0, longer.len() - 1) =~= inbounds.subrange(0, n));
        lemma_accepted_fails(inbounds, resolved, n + 1);
    } else {
        assert(inbounds.subrange(0, n) =~= inbounds);
    }
}

/// Checks that every inbound has an address, and that no two of their sockets are in the way of
/// each other.
pub fn validate_unique_listener_binds(
    inbounds: &Vec<InboundConfig>,
    resolved: &Vec<Result<SocketAddress, CoreError>>,
) -> (r: Result<(), ValidationError>)
    requires
        inbounds@.len() == resolved@.len(),
    ensures
        match accepted(inbounds@, resolved@) {
            Ok(_) => r is Ok,
            Err(message) => r is Err && r->Err_0.message@ == message,
        },
{
    let mut seen: Vec<ListenerBindSpec> = Vec::new();
    let mut i: usize = 0;
    assert(seen@.map_values(bind_view()) =~= Seq::<BindModel>::empty());
    while i < inbounds.len()
        invariant
            i <= inbounds@.len(),
            inbounds@.len() == resolved@.len(),
            accepted(inbounds@.subrange(0, i as int), resolved@) == Ok::<
                Seq<BindModel>,
                Seq<char>,
            >(seen@.map_values(bind_view())),
        decreases inbounds.len() - i,
    {
        let ghost longer = inbounds@.subrange(0, i + 1);
        assert(longer.subrange(0, longer.len() - 1) =~= inbounds@.subrange(0, i as int));
        let specs = match listener_bind_specs(&inbounds[i], &resolved[i]) {
            Ok(specs) => specs,
            Err(e) => {
                proof {
                    lemma_accepted_fails(inbounds@, resolved@, i + 1);
                }
                return Err(e);
            },
        };
        match accept_binds(&mut seen, specs) {
            Ok(_) => {},
            Err(e) => {
                proof {
                    lemma_accepted_fails(inbounds@, resolved@, i + 1);
                }
                return Err(e);
            },
        }
        i += 1;
    }
    assert(inbounds@.subrange(0, inbounds@.len() as int) =~= inbounds@);
    Ok(())
}

/// The sockets of all inbounds.
pub open spec fn all_binds(
    inbounds: Seq<InboundConfig>,
    resolved: Seq<Result<SocketAddress, CoreError>>,
) -> Seq<BindModel>
    decreases inbounds.len(),
{
    if inbounds.len() == 0 {
        Seq::empty()
    } else {
        let n = inbounds.len() - 1;
        all_binds(inbounds.subrange(0, n), resolved) + match resolved_view(resolved[n]) {
            Ok(addr) => binds_of(inbounds[n], addr),
            Err(_) => Seq::empty(),
        }
    }
}

/// Whether no two sockets are in the way of each other.
pub open spec fn disjoint(binds: Seq<BindModel>) -> bool {
    forall|i: int, j: int|
        0 <= i < j < binds.len() ==> !binds_conflict(#[trigger] binds[i], #[trigger] binds[j])
}

/// Adding sockets succeeds exactly where none is in the way of another.
proof fn lemma_with_binds(seen: Seq<BindModel>, binds: Seq<BindModel>)
    requires
        disjoint(seen),
    ensures
        with_binds(seen, binds) is Ok <==> disjoint(seen + binds),
        with_binds(seen, binds) matches Ok(more) ==> more == seen + binds,
    decreases binds.len(),
{
    if binds.len() == 0 {
        assert(seen + binds =~= seen);
    } else {
        let init = binds.subrange(0, binds.len() - 1);
        let last = binds[binds.len() - 1];
        lemma_with_binds(seen, init);
        let all = seen + binds;
        let some = seen + init;
        assert(all =~= some.push(last));
        if disjoint(all) {
            assert forall|i: int, j: int| 0 <= i < j < some.len() implies !binds_conflict(
                #[trigger] some[i],
                #[trigger] some[j],
            ) by {
                assert(all[i] == some[i] && all[j] == some[j]);
            }
            assert forall|k: int| 0 <= k < some.len() implies !binds_conflict(
                #[trigger] some[k],
                last,
            ) by {
                assert(all[k] == some[k]);
                assert(all[some.len() as int] == last);
            }
        }
        if with_binds(seen, init) is Ok && fits(some, last) {
            assert forall|i: int, j: int| 0 <= i < j < all.len() implies !binds_conflict(
                #[trigger] all[i],
                #[trigger] all[j],
            ) by {
                assert(all[i] == some[i]);
                if j < some.len() {
                    assert(all[j] == some[j]);
                }
            }
        }
    }
}

/// A configuration is accepted exactly where every inbound has an address and no two sockets are
/// in the way of each other.
pub proof fn law_accepted_binds_are_disjoint(
    inbounds: Seq<InboundConfig>,
    resolved: Seq<Result<SocketAddress, CoreError>>,
)
    requires
        inbounds.len() <= resolved.len(),
    ensures
        accepted(inbounds, resolved) is Ok <==> disjoint(all_binds(inbounds, resolved)) && (
        forall|i: int| 0 <= i < inbounds.len() ==> (#[trigger] resolved[i]) is Ok),
        accepted(inbounds, resolved) matches Ok(seen) ==> seen == all_binds(inbounds, resolved),
    decreases inbounds.len(),
{
    if inbounds.len() > 0 {
        let n = inbounds.len() - 1;
        let init = inbounds.subrange(0, n);
        law_accepted_binds_are_disjoint(init, resolved);
        let before = all_binds(init, resolved);
        let all = all_binds(inbounds, resolved);
        if disjoint(all) {
            assert forall|i: int, j: int| 0 <= i < j < before.len() implies !binds_conflict(
                #[trigger] before[i],
                #[trigger] before[j],
            ) by {
                assert(all[i] == before[i] && all[j] == before[j]);
            }
        }
        if resolved[n] is Ok {
            let binds = binds_of(inbounds[n], resolved_view(resolved[n])->Ok_0);
            if disjoint(before) {
                lemma_with_binds(before, binds);
            }
        }
    }
}

} // verus!
