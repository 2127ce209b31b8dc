//! The Trojan client side: how the server of an outbound is reached.

use vstd::prelude::*;

use crate::config::{Header, OutboundConfig, OutboundTlsConfig};
use crate::error::{failure, fault, CoreError, ErrorKind, ErrorModel};
use crate::target::{target_result, SocksTarget, TargetModel};
use crate::text::{lower, lowered, same_text, trim, trimmed, unbracket, unbracketed};
use crate::tls::{is_tls_server_name, names_tls_server};

verus! {

/// A setting without white space around it; one that is blank counts as missing.
pub open spec fn set_text(value: Option<String>) -> Option<Seq<char>> {
    match value {
        Some(text) => if trim(text@).len() == 0 {
            None
        } else {
            Some(trim(text@))
        },
        None => None,
    }
}

/// The view of an optional text.
pub open spec fn text_option(value: Option<String>) -> Option<Seq<char>> {
    match value {
        Some(text) => Some(text@),
        None => None,
    }
}

/// A setting without white space around it; one that is blank counts as missing.
fn set_value(value: &Option<String>) -> (r: Option<String>)
    ensures
        text_option(r) == set_text(*value),
{
    match value {
        Some(text) => {
            let clean = trimmed(text.as_str());
            if clean.as_str().is_empty() {
                None
            } else {
                Some(clean)
            }
        },
        None => None,
    }
}

/// The server of an outbound: its address and its port, which both have to be set.
pub open spec fn outbound_server(outbound: OutboundConfig) -> Result<TargetModel, ErrorModel> {
    match set_text(outbound.address) {
        None => Err(fault(ErrorKind::InvalidInput, "outbound address is required"@)),
        Some(host) => match outbound.port {
            None => Err(fault(ErrorKind::InvalidInput, "outbound port is required"@)),
            Some(port) => Ok(TargetModel { host, port }),
        },
    }
}

/// The server of an outbound.
pub fn trojan_outbound_server(outbound: &OutboundConfig) -> (r: Result<SocksTarget, CoreError>)
    ensures
        target_result(r) == outbound_server(*outbound),
{
    let host = match set_value(&outbound.address) {
        Some(host) => host,
        None => {
            return Err(failure(ErrorKind::InvalidInput, "outbound address is required"));
        },
    };
    match outbound.port {
        Some(port) => Ok(SocksTarget { host, port }),
        None => Err(failure(ErrorKind::InvalidInput, "outbound port is required")),
    }
}

/// The path of the transport, where one is set.
pub fn outbound_transport_path(outbound: &OutboundConfig) -> (r: Option<String>)
    ensures
        text_option(r) == (match outbound.transport {
            Some(transport) => set_text(transport.path),
            None => None,
        }),
{
    match &outbound.transport {
        Some(transport) => set_value(&transport.path),
        None => None,
    }
}

/// The service name of the transport, where one is set.
pub fn outbound_transport_service_name(outbound: &OutboundConfig) -> (r: Option<String>)
    ensures
        text_option(r) == (match outbound.transport {
            Some(transport) => set_text(transport.service_name),
            None => None,
        }),
{
    match &outbound.transport {
        Some(transport) => set_value(&transport.service_name),
        None => None,
    }
}

/// The method of the transport, where one is set.
pub fn outbound_transport_method(outbound: &OutboundConfig) -> (r: Option<String>)
    ensures
        text_option(r) == (match outbound.transport {
            Some(transport) => set_text(transport.method),
            None => None,
        }),
{
    match &outbound.transport {
        Some(transport) => set_value(&transport.method),
        None => None,
    }
}

/// The headers of the transport, where there are any.
pub fn outbound_transport_headers(outbound: &OutboundConfig) -> (r: Option<&Vec<Header>>)
    ensures
        match r {
            Some(headers) => outbound.transport is Some && headers@.len() > 0 && *headers
                == outbound.transport->0.headers,
            None => outbound.transport is None || outbound.transport->0.headers@.len() == 0,
        },
{
    match &outbound.transport {
        Some(transport) => if transport.headers.len() == 0 {
            None
        } else {
            Some(&transport.headers)
        },
        None => None,
    }
}

/// The host that the transport asks for: the one of the transport, or else the name of the TLS
/// server, or else the server itself, without square brackets around it.
pub open spec fn transport_host(outbound: OutboundConfig, server: Seq<char>) -> Seq<char> {
    let named = match outbound.transport {
        Some(transport) => set_text(transport.host),
        None => None,
    };
    unbracket(
        match named {
            Some(host) => host,
            None => match outbound.tls {
                Some(tls) => if trim(tls.server_name@).len() > 0 {
                    trim(tls.server_name@)
                } else {
                    server
                },
                None => server,
            },
        },
    )
}

/// The host that the transport asks for.
pub fn outbound_transport_host(outbound: &OutboundConfig, server: &SocksTarget) -> (r: String)
    ensures
        r@ == transport_host(*outbound, server.host@),
{
    let named = match &outbound.transport {
        Some(transport) => set_value(&transport.host),
        None => None,
    };
    if let Some(host) = named {
        return unbracketed(host.as_str());
    }
    if let Some(tls) = &outbound.tls {
        let name = trimmed(tls.server_name.as_str());
        if !name.as_str().is_empty() {
            return unbracketed(name.as_str());
        }
    }
    unbracketed(server.host.as_str())
}

/// The name that the TLS server is checked against: the one of the settings, or else the server
/// itself, without white space and square brackets around it.
pub open spec fn wanted_server_name(tls: OutboundTlsConfig, server: Seq<char>) -> Seq<char> {
    let named = unbracket(trim(tls.server_name@));
    if named.len() > 0 {
        named
    } else {
        unbracket(trim(server))
    }
}

/// The name that the TLS server is checked against, where it is one.
pub fn check_server_name(value: String, valid: bool) -> (r: Result<String, CoreError>)
    ensures
        match r {
            Ok(name) => valid && name == value,
            Err(e) => !valid && e@ == fault(
                ErrorKind::InvalidInput,
                "trojan tls server_name is invalid"@,
            ),
        },
{
    if valid {
        Ok(value)
    } else {
        Err(failure(ErrorKind::InvalidInput, "trojan tls server_name is invalid"))
    }
}

/// The name that the TLS server is checked against.
pub fn trojan_tls_server_name(tls: &OutboundTlsConfig, server: &SocksTarget) -> (r: Result<
    String,
    CoreError,
>)
    ensures
        match r {
            Ok(name) => name@ == wanted_server_name(*tls, server.host@) && names_tls_server(
                wanted_server_name(*tls, server.host@),
            ),
            Err(e) => !names_tls_server(wanted_server_name(*tls, server.host@)) && e@ == fault(
                ErrorKind::InvalidInput,
                "trojan tls server_name is invalid"@,
            ),
        },
{
    let clean = trimmed(tls.server_name.as_str());
    let named = unbracketed(clean.as_str());
    let value = if named.as_str().is_empty() {
        let host = trimmed(server.host.as_str());
        unbracketed(host.as_str())
    } else {
        named
    };
    let valid = is_tls_server_name(value.as_str());
    check_server_name(value, valid)
}

/// How the server of an outbound is reached.
#[derive(Clone, Copy, Debug, PartialEq, Eq, Structural)]
pub enum TrojanTransport {
    WebSocket,
    TlsWebSocket,
    HttpUpgrade,
    TlsHttpUpgrade,
    Grpc,
    Http2,
    Quic,
    Tls,
    Tcp,
}

/// The transport of a network, with or without TLS.
pub open spec fn transport_of(network: Seq<char>, tls: bool) -> Option<TrojanTransport> {
    let name = lower(network);
    if name == "ws"@ {
        Some(
            if tls {
                TrojanTransport::TlsWebSocket
            } else {
                TrojanTransport::WebSocket
            },
        )
    } else if name == "httpupgrade"@ {
        Some(
            if tls {
                TrojanTransport::TlsHttpUpgrade
            } else {
                TrojanTransport::HttpUpgrade
            },
        )
    } else if name == "grpc"@ {
        Some(TrojanTransport::Grpc)
    } else if name == "h2"@ || name == "http"@ {
        Some(TrojanTransport::Http2)
    } else if name == "quic"@ {
        Some(TrojanTransport::Quic)
    } else if name == "tcp"@ {
        Some(
            if tls {
                TrojanTransport::Tls
            } else {
                TrojanTransport::Tcp
            },
        )
    } else {
        None
    }
}

/// A connection to the server of an outbound: where it is, the password, and the transport.
#[derive(Debug)]
pub struct TrojanOutboundPlan {
    pub server: SocksTarget,
    pub password: String,
    pub transport: TrojanTransport,
}

/// What a connection to the server of an outbound takes, from its settings and the network of
/// its transport.
pub open spec fn outbound_plan(outbound: OutboundConfig, network: Seq<char>) -> Result<
    (TargetModel, Seq<char>, TrojanTransport),
    ErrorModel,
> {
    match outbound_server(outbound) {
        Err(e) => Err(e),
        Ok(server) => match set_text(outbound.password) {
            None => Err(
                fault(ErrorKind::InvalidInput, "outbound password is required for trojan"@),
            ),
            Some(password) => match transport_of(network, outbound.tls is Some) {
                None => Err(
                    fault(
                        ErrorKind::Unsupported,
                        "trojan outbound transport "@ + lower(network)
                            + " is not supported yet"@,
                    ),
                ),
                Some(transport) => Ok((server, password, transport)),
            },
        },
    }
}

/// What a connection to the server of an outbound takes.
pub fn connect_trojan_tcp_outbound(outbound: &OutboundConfig, network: &str) -> (r: Result<
    TrojanOutboundPlan,
    CoreError,
>)
    ensures
        match r {
            Ok(plan) => outbound_plan(*outbound, network@) == Ok::<
                (TargetModel, Seq<char>, TrojanTransport),
                ErrorModel,
            >((plan.server@, plan.password@, plan.transport)),
            Err(e) => outbound_plan(*outbound, network@) == Err::<
                (TargetModel, Seq<char>, TrojanTransport),
                ErrorModel,
            >(e@),
        },
{
    let server = match trojan_outbound_server(outbound) {
        Ok(server) => server,
        Err(e) => {
            return Err(e);
        },
    };
    let password = match set_value(&outbound.password) {
        Some(password) => password,
        None => {
            return Err(
                failure(ErrorKind::InvalidInput, "outbound password is required for trojan"),
            );
        },
    };
    let tls = outbound.tls.is_some();
    let name_text = lowered(network);
    let name = name_text.as_str();
    let transport = if same_text(name, "ws") {
        if tls {
            TrojanTransport::TlsWebSocket
        } else {
            TrojanTransport::WebSocket
        }
    } else if same_text(name, "httpupgrade") {
        if tls {
            TrojanTransport::TlsHttpUpgrade
        } else {
            TrojanTransport::HttpUpgrade
        }
    } else if same_text(name, "grpc") {
        TrojanTransport::Grpc
    } else if same_text(name, "h2") || same_text(name, "http") {
        TrojanTransport::Http2
    } else if same_text(name, "quic") {
        TrojanTransport::Quic
    } else if same_text(name, "tcp") {
        if tls {
            TrojanTransport::Tls
        } else {
            TrojanTransport::Tcp
        }
    } else {
        let mut message = "trojan outbound transport ".to_owned();
        message.append(name);
        message.append(" is not supported yet");
        return Err(CoreError { kind: ErrorKind::Unsupported, message });
    };
    Ok(TrojanOutboundPlan { server, password, transport })
}

} // verus!
