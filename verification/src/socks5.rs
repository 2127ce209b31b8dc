//! The SOCKS5 server side: handshake, requests, UDP association.

use vstd::prelude::*;
use vstd::utf8::{decode_utf8, valid_utf8};

pub use crate::target::SocksTarget;

use crate::address::{IpAddress, IpModel, SocketAddress, SocketModel};
use crate::config::RouteRule;
use crate::error::{eof, failure, fault, CoreError, ErrorKind, ErrorModel};
use crate::relay::capped;
use crate::table::get;
use crate::target::{
    address_bytes, lemma_read_target_extended, push_address, read_target, take_target, TargetModel,
    ATYP_DOMAIN, ATYP_IPV4, ATYP_IPV6,
};
use crate::traffic::{ip_text, recorded, saturated, TrafficRegistry};
use crate::user::{keyed_users, CoreUser, UserStore};
use crate::wire::{
    arrived, be16, copy_bytes, decode_text, extended, four_bytes, join_be16, lemma_extended,
    push_bytes, read_text, sixteen_bytes, text_of, text_result, Exchange, Tape,
};

verus! {

pub const SOCKS5_VERSION: u8 = 0x05;

pub const AUTH_NONE: u8 = 0x00;

pub const AUTH_PASSWORD: u8 = 0x02;

pub const AUTH_NO_MATCHING_METHOD: u8 = 0xff;

pub const CMD_CONNECT: u8 = 0x01;

pub const CMD_UDP_ASSOCIATE: u8 = 0x03;

pub const STATUS_SUCCESS: u8 = 0x00;

pub const STATUS_CONNECTION_NOT_ALLOWED: u8 = 0x02;

pub const STATUS_COMMAND_NOT_SUPPORTED: u8 = 0x07;

pub const STATUS_ADDRESS_NOT_SUPPORTED: u8 = 0x08;

/// Settings of a SOCKS5 server.
#[derive(Debug)]
pub struct Socks5ServerConfig {
    pub node_tag: String,
    pub listen: SocketAddress,
    pub users: Vec<CoreUser>,
    pub routes: Vec<RouteRule>,
    pub connect_timeout_millis: u64,
}

/// A SOCKS5 server: its settings, and its users under their uuids.
pub struct Socks5Server {
    pub config: Socks5ServerConfig,
    pub users: UserStore,
}

/// What a client asks for.
#[derive(Clone, Copy, Debug, PartialEq, Eq, Structural)]
pub enum SocksCommand {
    Connect,
    UdpAssociate,
}

/// A request of a client.
#[derive(Debug, PartialEq, Eq)]
pub struct SocksRequest {
    pub command: SocksCommand,
    pub user_uuid: Option<String>,
    pub target: SocksTarget,
    pub client_ip: Option<IpAddress>,
}

/// The mathematical value of a request that was just read.
#[verifier::ext_equal]
pub struct RequestModel {
    pub command: SocksCommand,
    pub user_uuid: Option<Seq<char>>,
    pub target: TargetModel,
}

impl View for SocksRequest {
    type V = RequestModel;

    open spec fn view(&self) -> RequestModel {
        RequestModel {
            command: self.command,
            user_uuid: match self.user_uuid {
                Some(uuid) => Some(uuid@),
                None => None,
            },
            target: self.target@,
        }
    }
}

/// The view of a result whose value is a request.
pub open spec fn request_result(r: Result<SocksRequest, CoreError>) -> Result<
    RequestModel,
    ErrorModel,
> {
    match r {
        Ok(q) => Ok(q@),
        Err(e) => Err(e@),
    }
}

/// The method that is asked for: none without users, else the password.
pub open spec fn required_method(without_users: bool) -> u8 {
    if without_users {
        AUTH_NONE
    } else {
        AUTH_PASSWORD
    }
}

/// The required method where it is offered.
pub open spec fn selected_method(without_users: bool, methods: Seq<u8>) -> u8 {
    if methods.contains(required_method(without_users)) {
        required_method(without_users)
    } else {
        AUTH_NO_MATCHING_METHOD
    }
}

/// A reply to a request: the status, and the address that the server bound.
pub open spec fn reply_bytes(status: u8, bind: SocketModel) -> Seq<u8> {
    seq![SOCKS5_VERSION, status, 0x00] + address_bytes(bind)
}

/// The IPv4 wildcard with port zero.
pub open spec fn no_address() -> SocketModel {
    SocketModel::plain(IpModel::V4(seq![0u8, 0u8, 0u8, 0u8]), 0)
}

/// Reading the user name and the password, and answering them.
pub open spec fn password_auth(users: Seq<(Seq<char>, CoreUser)>, t: Tape) -> (
    Result<Seq<char>, ErrorModel>,
    Tape,
) {
    if !t.offers(2) {
        (Err(eof()), t)
    } else if t.next(2)[0] != 0x01 {
        (
            Err(fault(ErrorKind::InvalidData, "unsupported username/password auth version"@)),
            t.skip(2).send(seq![0x01, 0xff]),
        )
    } else {
        let (username, t1) = read_text(t.skip(2), t.next(2)[1] as nat);
        match username {
            Err(e) => (Err(e), t1),
            Ok(username) => if !t1.offers(1) {
                (Err(eof()), t1)
            } else {
                let (password, t2) = read_text(t1.skip(1), t1.next(1)[0] as nat);
                match password {
                    Err(e) => (Err(e), t2),
                    Ok(password) => match get(users, username) {
                        Some(user) if user.credential_text() == password => (
                            Ok(user.uuid@),
                            t2.send(seq![0x01, 0x00]),
                        ),
                        _ => (
                            Err(fault(ErrorKind::PermissionDenied, "invalid username or password"@)),
                            t2.send(seq![0x01, 0xff]),
                        ),
                    },
                }
            },
        }
    }
}

/// Reading the command and its target, and answering what is not supported.
pub open spec fn command_request(t: Tape, user_uuid: Option<Seq<char>>) -> (
    Result<RequestModel, ErrorModel>,
    Tape,
) {
    if !t.offers(4) {
        (Err(eof()), t)
    } else {
        let header = t.next(4);
        let t1 = t.skip(4);
        if header[0] != SOCKS5_VERSION {
            (Err(fault(ErrorKind::InvalidData, "unsupported request version"@)), t1)
        } else if header[1] != CMD_CONNECT && header[1] != CMD_UDP_ASSOCIATE {
            (
                Err(
                    fault(
                        ErrorKind::Unsupported,
                        "only socks connect and udp associate are supported"@,
                    ),
                ),
                t1.send(reply_bytes(STATUS_COMMAND_NOT_SUPPORTED, no_address())),
            )
        } else if header[1] == CMD_UDP_ASSOCIATE && header[2] != 0x00 {
            (
                Err(
                    fault(
                        ErrorKind::Unsupported,
                        "socks udp associate request has invalid reserved byte"@,
                    ),
                ),
                t1.send(reply_bytes(STATUS_COMMAND_NOT_SUPPORTED, no_address())),
            )
        } else if header[3] != ATYP_IPV4 && header[3] != ATYP_IPV6 && header[3] != ATYP_DOMAIN {
            (
                Err(fault(ErrorKind::InvalidData, "unsupported socks address type"@)),
                t1.send(reply_bytes(STATUS_ADDRESS_NOT_SUPPORTED, no_address())),
            )
        } else {
            let (target, t2) = read_target(
                t1,
                header[3],
                fault(ErrorKind::InvalidData, "unsupported socks address type"@),
            );
            match target {
                Err(e) => (Err(e), t2),
                Ok(target) => (
                    Ok(
                        RequestModel {
                            command: if header[1] == CMD_CONNECT {
                                SocksCommand::Connect
                            } else {
                                SocksCommand::UdpAssociate
                            },
                            user_uuid,
                            target,
                        },
                    ),
                    t2,
                ),
            }
        }
    }
}

/// Reading a whole request: the offered methods, the password where users are known, and the
/// command with its target, with the answers in between.
pub open spec fn request(users: Seq<(Seq<char>, CoreUser)>, t: Tape) -> (
    Result<RequestModel, ErrorModel>,
    Tape,
) {
    if !t.offers(2) {
        (Err(eof()), t)
    } else if t.next(2)[0] != SOCKS5_VERSION {
        (Err(fault(ErrorKind::InvalidData, "unsupported socks version"@)), t.skip(2))
    } else {
        let count = t.next(2)[1] as nat;
        let t1 = t.skip(2);
        if !t1.offers(count) {
            (Err(eof()), t1)
        } else {
            let method = selected_method(users.len() == 0, t1.next(count));
            let t2 = t1.skip(count).send(seq![SOCKS5_VERSION, method]);
            if method == AUTH_NONE {
                command_request(t2, None)
            } else if method == AUTH_PASSWORD {
                let (uuid, t3) = password_auth(users, t2);
                match uuid {
                    Err(e) => (Err(e), t3),
                    Ok(uuid) => command_request(t3, Some(uuid)),
                }
            } else {
                (Err(fault(ErrorKind::PermissionDenied, "no matching socks auth method"@)), t2)
            }
        }
    }
}

/// A reply to a request.
pub fn socks5_response_with_bind(status: u8, bind: &SocketAddress) -> (r: Vec<u8>)
    ensures
        r@ == reply_bytes(status, bind@),
{
    let mut response: Vec<u8> = Vec::new();
    response.push(SOCKS5_VERSION);
    response.push(status);
    response.push(0x00);
    assert(response@ =~= seq![SOCKS5_VERSION, status, 0x00]);
    push_address(&mut response, bind);
    response
}

/// A reply to a request without a bound address.
pub fn socks5_response(status: u8) -> (r: Vec<u8>)
    ensures
        r@ == reply_bytes(status, no_address()),
{
    let none = SocketAddress::new(IpAddress::V4([0u8, 0u8, 0u8, 0u8]), 0);
    assert(none@ =~= no_address()) by {
        assert([0u8, 0u8, 0u8, 0u8]@ =~= seq![0u8, 0u8, 0u8, 0u8]);
    }
    socks5_response_with_bind(status, &none)
}

impl Socks5Server {
    /// The users under their uuids.
    pub open spec fn users(&self) -> Seq<(Seq<char>, CoreUser)> {
        self.users@
    }

    /// No two users have the same uuid.
    pub open spec fn wf(&self) -> bool {
        self.users.wf()
    }

    /// A server with the users of its settings; blank users are left out.
    pub fn new(config: Socks5ServerConfig) -> (r: Socks5Server)
        ensures
            r.wf(),
            r.config == config,
            r.users() == keyed_users(config.users@, |u: CoreUser| u.uuid@),
    {
        let users = UserStore::from_uuid_users(config.users.as_slice());
        Socks5Server { config, users }
    }

    /// Selects the authentication method from those that the client offers.
    pub fn select_auth_method(&self, methods: &[u8]) -> (r: u8)
        ensures
            r == selected_method(self.users().len() == 0, methods@),
    {
        let required: u8 = if self.users.is_empty() {
            AUTH_NONE
        } else {
            AUTH_PASSWORD
        };
        let mut i: usize = 0;
        while i < methods.len()
            invariant
                i <= methods@.len(),
                required == required_method(self.users().len() == 0),
                forall|k: int| 0 <= k < i ==> #[trigger] methods@[k] != required,
            decreases methods.len() - i,
        {
            if methods[i] == required {
                assert(methods@.contains(required));
                return required;
            }
            i += 1;
        }
        AUTH_NO_MATCHING_METHOD
    }

    /// Reads the user name and the password, and answers them.
    pub fn read_password_auth(&self, stream: &mut Exchange) -> (r: Result<String, CoreError>)
        requires
            old(stream).wf(),
        ensures
            final(stream).wf(),
            (text_result(r), final(stream)@) == password_auth(self.users(), old(stream)@),
    {
        let header = match stream.take(2) {
            Ok(header) => header,
            Err(e) => {
                return Err(e);
            },
        };
        if header[0] != 0x01 {
            let refusal: [u8; 2] = [0x01, 0xff];
            assert(refusal@ =~= seq![0x01u8, 0xffu8]);
            stream.send(refusal.as_slice());
            return Err(
                failure(ErrorKind::InvalidData, "unsupported username/password auth version"),
            );
        }
        let username = match stream.take_text(header[1] as usize) {
            Ok(username) => username,
            Err(e) => {
                return Err(e);
            },
        };
        let password_len = match stream.take(1) {
            Ok(password_len) => password_len,
            Err(e) => {
                return Err(e);
            },
        };
        let password = match stream.take_text(password_len[0] as usize) {
            Ok(password) => password,
            Err(e) => {
                return Err(e);
            },
        };
        let answer: [u8; 2] = [0x01, 0x00];
        let refusal: [u8; 2] = [0x01, 0xff];
        assert(answer@ =~= seq![0x01u8, 0x00u8]);
        assert(refusal@ =~= seq![0x01u8, 0xffu8]);
        match self.users.get(username.as_str()) {
            Some(user) => {
                if crate::text::same_text(user.credential(), password.as_str()) {
                    stream.send(answer.as_slice());
                    Ok(user.uuid)
                } else {
                    stream.send(refusal.as_slice());
                    Err(failure(ErrorKind::PermissionDenied, "invalid username or password"))
                }
            },
            None => {
                stream.send(refusal.as_slice());
                Err(failure(ErrorKind::PermissionDenied, "invalid username or password"))
            },
        }
    }

    /// Reads the command and its target, and answers what is not supported.
    pub fn read_command_request(
        &self,
        stream: &mut Exchange,
        user_uuid: Option<String>,
    ) -> (r: Result<SocksRequest, CoreError>)
        requires
            old(stream).wf(),
        ensures
            final(stream).wf(),
            (request_result(r), final(stream)@) == command_request(
                old(stream)@,
                match user_uuid {
                    Some(uuid) => Some(uuid@),
                    None => None,
                },
            ),
            r is Ok ==> r->Ok_0.client_ip is None,
    {
        let header = match stream.take(4) {
            Ok(header) => header,
            Err(e) => {
                return Err(e);
            },
        };
        if header[0] != SOCKS5_VERSION {
            return Err(failure(ErrorKind::InvalidData, "unsupported request version"));
        }
        if header[1] != CMD_CONNECT && header[1] != CMD_UDP_ASSOCIATE {
            let response = socks5_response(STATUS_COMMAND_NOT_SUPPORTED);
            stream.send(response.as_slice());
            return Err(
                failure(
                    ErrorKind::Unsupported,
                    "only socks connect and udp associate are supported",
                ),
            );
        }
        let command = if header[1] == CMD_CONNECT {
            SocksCommand::Connect
        } else {
            SocksCommand::UdpAssociate
        };
        if command == SocksCommand::UdpAssociate && header[2] != 0x00 {
            let response = socks5_response(STATUS_COMMAND_NOT_SUPPORTED);
            stream.send(response.as_slice());
            return Err(
                failure(
                    ErrorKind::Unsupported,
                    "socks udp associate request has invalid reserved byte",
                ),
            );
        }
        if header[3] != ATYP_IPV4 && header[3] != ATYP_IPV6 && header[3] != ATYP_DOMAIN {
            let response = socks5_response(STATUS_ADDRESS_NOT_SUPPORTED);
            stream.send(response.as_slice());
            return Err(failure(ErrorKind::InvalidData, "unsupported socks address type"));
        }
        match take_target(stream, header[3], "unsupported socks address type") {
            Ok(target) => Ok(SocksRequest { command, user_uuid, target, client_ip: None }),
            Err(e) => Err(e),
        }
    }

    /// Reads a whole request, with the answers in between.
    pub fn read_request(&self, stream: &mut Exchange) -> (r: Result<SocksRequest, CoreError>)
        requires
            old(stream).wf(),
        ensures
            final(stream).wf(),
            (request_result(r), final(stream)@) == request(self.users(), old(stream)@),
            r is Ok ==> r->Ok_0.client_ip is None,
    {
        let header = match stream.take(2) {
            Ok(header) => header,
            Err(e) => {
                return Err(e);
            },
        };
        if header[0] != SOCKS5_VERSION {
            return Err(failure(ErrorKind::InvalidData, "unsupported socks version"));
        }
        let methods = match stream.take(header[1] as usize) {
            Ok(methods) => methods,
            Err(e) => {
                return Err(e);
            },
        };
        let method = self.select_auth_method(methods.as_slice());
        let answer: [u8; 2] = [SOCKS5_VERSION, method];
        assert(answer@ =~= seq![SOCKS5_VERSION, method]);
        stream.send(answer.as_slice());
        if method == AUTH_NONE {
            self.read_command_request(stream, None)
        } else if method == AUTH_PASSWORD {
            match self.read_password_auth(stream) {
                Ok(uuid) => self.read_command_request(stream, Some(uuid)),
                Err(e) => Err(e),
            }
        } else {
            Err(failure(ErrorKind::PermissionDenied, "no matching socks auth method"))
        }
    }

    /// The user of a request.
    pub fn request_user(&self, request: &SocksRequest) -> (r: Option<CoreUser>)
        ensures
            r == (match request@.user_uuid {
                Some(uuid) => get(self.users(), uuid),
                None => None,
            }),
    {
        match &request.user_uuid {
            Some(uuid) => self.users.get(uuid.as_str()),
            None => None,
        }
    }
}

/// A target and the payload behind it.
pub open spec fn target_and_payload(r: Result<(SocksTarget, &[u8]), CoreError>) -> Result<
    (TargetModel, Seq<u8>),
    ErrorModel,
> {
    match r {
        Ok((target, payload)) => Ok((target@, payload@)),
        Err(e) => Err(e@),
    }
}

/// The port at `at`, and the payload behind it.
pub open spec fn udp_tail(input: Seq<u8>, host: Seq<char>, at: int) -> Result<
    (TargetModel, Seq<u8>),
    ErrorModel,
> {
    if input.len() < at + 2 {
        Err(fault(ErrorKind::UnexpectedEof, "truncated socks udp port"@))
    } else {
        Ok(
            (
                TargetModel { host, port: be16(input[at], input[at + 1]) },
                input.subrange(at + 2, input.len() as int),
            ),
        )
    }
}

/// The target and the payload of a datagram of a client.
pub open spec fn udp_request(input: Seq<u8>) -> Result<(TargetModel, Seq<u8>), ErrorModel> {
    if input.len() < 4 || input[0] != 0 || input[1] != 0 {
        Err(fault(ErrorKind::InvalidData, "invalid socks udp request header"@))
    } else if input[2] != 0 {
        Err(fault(ErrorKind::Unsupported, "fragmented socks udp packets are not supported"@))
    } else if input[3] == ATYP_IPV4 {
        if input.len() < 8 {
            Err(fault(ErrorKind::UnexpectedEof, "truncated socks udp ipv4 address"@))
        } else {
            udp_tail(input, IpModel::V4(input.subrange(4, 8)).text(), 8)
        }
    } else if input[3] == ATYP_IPV6 {
        if input.len() < 20 {
            Err(fault(ErrorKind::UnexpectedEof, "truncated socks udp ipv6 address"@))
        } else {
            udp_tail(input, IpModel::V6(input.subrange(4, 20)).text(), 20)
        }
    } else if input[3] == ATYP_DOMAIN {
        if input.len() < 5 {
            Err(fault(ErrorKind::UnexpectedEof, "truncated socks udp domain length"@))
        } else if input.len() < 5 + input[4] {
            Err(fault(ErrorKind::UnexpectedEof, "truncated socks udp domain"@))
        } else {
            match text_of(input.subrange(5, 5 + input[4])) {
                Ok(host) => udp_tail(input, host, 5 + input[4]),
                Err(e) => Err(e),
            }
        }
    } else {
        Err(fault(ErrorKind::InvalidData, "unsupported socks udp address type"@))
    }
}

/// A datagram to a client: where it came from, and its payload.
pub open spec fn udp_response(source: SocketModel, payload: Seq<u8>) -> Seq<u8> {
    seq![0u8, 0u8, 0u8] + address_bytes(source) + payload
}

/// Reads the port at `at`, and splits off the payload behind it.
fn parse_udp_tail<'a>(input: &'a [u8], host: String, at: usize) -> (r: Result<
    (SocksTarget, &'a [u8]),
    CoreError,
>)
    requires
        at <= input@.len(),
    ensures
        target_and_payload(r) == udp_tail(input@, host@, at as int),
{
    if input.len() - at < 2 {
        return Err(failure(ErrorKind::UnexpectedEof, "truncated socks udp port"));
    }
    let port = join_be16(input[at], input[at + 1]);
    Ok((SocksTarget { host, port }, vstd::slice::slice_subrange(input, at + 2, input.len())))
}

/// The target and the payload of a datagram of a client.
pub fn parse_udp_request<'a>(input: &'a [u8]) -> (r: Result<(SocksTarget, &'a [u8]), CoreError>)
    ensures
        target_and_payload(r) == udp_request(input@),
{
    if input.len() < 4 || input[0] != 0 || input[1] != 0 {
        return Err(failure(ErrorKind::InvalidData, "invalid socks udp request header"));
    }
    if input[2] != 0 {
        return Err(
            failure(ErrorKind::Unsupported, "fragmented socks udp packets are not supported"),
        );
    }
    if input[3] == ATYP_IPV4 {
        if input.len() < 8 {
            return Err(failure(ErrorKind::UnexpectedEof, "truncated socks udp ipv4 address"));
        }
        let host = IpAddress::V4(four_bytes(input, 4)).to_text();
        parse_udp_tail(input, host, 8)
    } else if input[3] == ATYP_IPV6 {
        if input.len() < 20 {
            return Err(failure(ErrorKind::UnexpectedEof, "truncated socks udp ipv6 address"));
        }
        let host = IpAddress::V6(sixteen_bytes(input, 4)).to_text();
        parse_udp_tail(input, host, 20)
    } else if input[3] == ATYP_DOMAIN {
        if input.len() < 5 {
            return Err(failure(ErrorKind::UnexpectedEof, "truncated socks udp domain length"));
        }
        let len: usize = input[4] as usize;
        if input.len() - 5 < len {
            return Err(failure(ErrorKind::UnexpectedEof, "truncated socks udp domain"));
        }
        match decode_text(copy_bytes(input, 5, 5 + len)) {
            Ok(host) => parse_udp_tail(input, host, 5 + len),
            Err(e) => Err(e),
        }
    } else {
        Err(failure(ErrorKind::InvalidData, "unsupported socks udp address type"))
    }
}

/// A datagram to a client: where it came from, and its payload.
pub fn encode_udp_response(source: &SocketAddress, payload: &[u8]) -> (r: Vec<u8>)
    ensures
        r@ == udp_response(source@, payload@),
{
    let mut output: Vec<u8> = Vec::new();
    output.push(0);
    output.push(0);
    output.push(0);
    assert(output@ =~= seq![0u8, 0u8, 0u8]);
    push_address(&mut output, source);
    push_bytes(&mut output, payload);
    output
}

/// The address to bind for datagrams: that of the control connection, with any port.
pub fn udp_bind_addr(control: &SocketAddress) -> (r: SocketAddress)
    ensures
        r@ == SocketModel::plain(control@.ip, 0),
{
    SocketAddress::new(control.ip, 0)
}

/// What the router decides about a target of a SOCKS client.
#[derive(Debug)]
pub enum SocksRoute {
    Direct,
    Block,
    UnsupportedOutbound(String),
}

/// What to do for a client that wants to connect.
#[derive(Debug)]
pub enum ConnectStep {
    /// Connect to the target; answer success once connected.
    Connect,
    /// Send the reply, then fail.
    Refuse(Vec<u8>, CoreError),
    /// Fail without a reply.
    Fail(CoreError),
}

/// What to do for a client that wants to connect, given the route.
pub fn connect_step(route: &SocksRoute) -> (r: ConnectStep)
    ensures
        match route {
            SocksRoute::Direct => r is Connect,
            SocksRoute::Block => r matches ConnectStep::Refuse(reply, e) && reply@ == reply_bytes(
                STATUS_CONNECTION_NOT_ALLOWED,
                no_address(),
            ) && e@ == crate::route::blocked(),
            SocksRoute::UnsupportedOutbound(tag) => r matches ConnectStep::Fail(e) && e@
                == crate::route::unsupported(tag@),
        },
{
    match route {
        SocksRoute::Direct => ConnectStep::Connect,
        SocksRoute::Block => ConnectStep::Refuse(
            socks5_response(STATUS_CONNECTION_NOT_ALLOWED),
            crate::route::blocked_failure(),
        ),
        SocksRoute::UnsupportedOutbound(tag) => ConnectStep::Fail(
            crate::route::unsupported_failure(tag.as_str()),
        ),
    }
}

/// Which address of a target is tried next, by how many were tried and what the last of them
/// failed with: the next one, and where there is none, that failure.
pub open spec fn next_attempt(found: nat, tried: nat, last: Option<ErrorModel>) -> Result<
    nat,
    ErrorModel,
> {
    if tried < found {
        Ok(tried)
    } else {
        match last {
            Some(e) => Err(e),
            None => Err(
                fault(
                    ErrorKind::AddrNotAvailable,
                    "target did not resolve to any socket address"@,
                ),
            ),
        }
    }
}

/// The view of an optional error.
pub open spec fn failure_view(e: Option<CoreError>) -> Option<ErrorModel> {
    match e {
        Some(e) => Some(e@),
        None => None,
    }
}

/// The address of a target that is tried next.
pub fn connect_next(found: &Vec<SocketAddress>, tried: usize, last: Option<CoreError>) -> (r: Result<
    SocketAddress,
    CoreError,
>)
    ensures
        match next_attempt(found@.len(), tried as nat, failure_view(last)) {
            Ok(i) => r == Ok::<SocketAddress, CoreError>(found@[i as int]),
            Err(e) => r is Err && r->Err_0@ == e,
        },
        tried >= found@.len() && last is Some ==> r == Err::<SocketAddress, CoreError>(last->0),
{
    if tried < found.len() {
        return Ok(found[tried]);
    }
    match last {
        Some(e) => Err(e),
        None => Err(
            failure(
                ErrorKind::AddrNotAvailable,
                "target did not resolve to any socket address",
            ),
        ),
    }
}

/// What trying the addresses of a target comes to, from where the trying stands; an attempt gives
/// no error where it connects.
pub open spec fn attempts(
    outcomes: Seq<Option<ErrorModel>>,
    tried: nat,
    last: Option<ErrorModel>,
) -> Result<nat, ErrorModel>
    decreases outcomes.len() - tried,
{
    match next_attempt(outcomes.len(), tried, last) {
        Err(e) => Err(e),
        Ok(i) => if tried < outcomes.len() && outcomes[i as int] is Some {
            attempts(outcomes, tried + 1, outcomes[i as int])
        } else {
            Ok(i)
        },
    }
}

/// Where attempts that are still to be made have come to.
proof fn lemma_attempts(outcomes: Seq<Option<ErrorModel>>, tried: nat, last: Option<ErrorModel>)
    requires
        tried <= outcomes.len(),
        tried > 0 ==> last == outcomes[tried - 1],
        tried == 0 ==> last is None,
        forall|i: int| 0 <= i < tried ==> (#[trigger] outcomes[i]) is Some,
    ensures
        match attempts(outcomes, tried, last) {
            Ok(i) => {
                &&& i < outcomes.len()
                &&& outcomes[i as int] is None
                &&& forall|j: int| 0 <= j < i ==> (#[trigger] outcomes[j]) is Some
            },
            Err(e) => {
                &&& forall|j: int| 0 <= j < outcomes.len() ==> (#[trigger] outcomes[j]) is Some
                &&& outcomes.len() > 0 ==> outcomes.last() == Some(e)
                &&& outcomes.len() == 0 ==> e == fault(
                    ErrorKind::AddrNotAvailable,
                    "target did not resolve to any socket address"@,
                )
            },
        },
    decreases outcomes.len() - tried,
{
    if tried < outcomes.len() && outcomes[tried as int] is Some {
        lemma_attempts(outcomes, tried + 1, outcomes[tried as int]);
    }
}

/// A target is connected at the first of its addresses that connects. Where none does, the error
/// is that of the last one; where there is none, it says so.
pub proof fn law_first_address_that_connects(outcomes: Seq<Option<ErrorModel>>)
    ensures
        match attempts(outcomes, 0, None) {
            Ok(i) => {
                &&& i < outcomes.len()
                &&& outcomes[i as int] is None
                &&& forall|j: int| 0 <= j < i ==> (#[trigger] outcomes[j]) is Some
            },
            Err(e) => {
                &&& forall|j: int| 0 <= j < outcomes.len() ==> (#[trigger] outcomes[j]) is Some
                &&& outcomes.len() > 0 ==> outcomes.last() == Some(e)
                &&& outcomes.len() == 0 ==> e == fault(
                    ErrorKind::AddrNotAvailable,
                    "target did not resolve to any socket address"@,
                )
            },
        },
{
    lemma_attempts(outcomes, 0, None);
}

/// The address that datagrams to a target go to: the first that was found.
pub fn resolve_udp_target(found: &Vec<SocketAddress>) -> (r: Result<SocketAddress, CoreError>)
    ensures
        if found@.len() > 0 {
            r == Ok::<SocketAddress, CoreError>(found@[0])
        } else {
            r is Err && r->Err_0@ == fault(
                ErrorKind::AddrNotAvailable,
                "udp target did not resolve to any socket address"@,
            )
        },
{
    if found.len() > 0 {
        Ok(found[0])
    } else {
        Err(
            failure(
                ErrorKind::AddrNotAvailable,
                "udp target did not resolve to any socket address",
            ),
        )
    }
}

/// The answer to a client whose session is refused, and the error that it ends with.
pub fn refuse_session(message: &str) -> (r: (Vec<u8>, CoreError))
    ensures
        r.0@ == reply_bytes(STATUS_CONNECTION_NOT_ALLOWED, no_address()),
        r.1@ == fault(ErrorKind::PermissionDenied, message@),
{
    (
        socks5_response(STATUS_CONNECTION_NOT_ALLOWED),
        failure(ErrorKind::PermissionDenied, message),
    )
}

/// Whether the control connection is still open, from what a peek at it gave.
pub fn control_is_open(peeked: Result<usize, ErrorKind>) -> (r: Result<bool, ErrorKind>)
    ensures
        r == (match peeked {
            Ok(n) => Ok::<bool, ErrorKind>(n != 0),
            Err(kind) => if kind == ErrorKind::WouldBlock || kind == ErrorKind::TimedOut {
                Ok(true)
            } else {
                Err(kind)
            },
        }),
{
    match peeked {
        Ok(n) => Ok(n != 0),
        Err(kind) => if kind == ErrorKind::WouldBlock || kind == ErrorKind::TimedOut {
            Ok(true)
        } else {
            Err(kind)
        },
    }
}

/// A UDP association: the client's address once it is known, and what was relayed.
#[derive(Debug)]
pub struct UdpAssociation {
    pub client: Option<SocketAddress>,
    pub upload: u64,
    pub download: u64,
}

/// What to do with a datagram.
#[derive(Debug)]
pub enum UdpStep {
    /// Route the payload to the target.
    Forward(SocksTarget, Vec<u8>),
    /// Send the datagram to the client.
    Reply(SocketAddress, Vec<u8>),
    /// Nothing.
    Ignore,
}

/// The mathematical value of a step.
#[verifier::ext_equal]
pub enum UdpStepModel {
    Forward(TargetModel, Seq<u8>),
    Reply(SocketModel, Seq<u8>),
    Ignore,
}

impl View for UdpStep {
    type V = UdpStepModel;

    open spec fn view(&self) -> UdpStepModel {
        match self {
            UdpStep::Forward(target, payload) => UdpStepModel::Forward(target@, payload@),
            UdpStep::Reply(client, datagram) => UdpStepModel::Reply(client@, datagram@),
            UdpStep::Ignore => UdpStepModel::Ignore,
        }
    }
}

/// The view of an optional socket address.
pub open spec fn client_view(client: Option<SocketAddress>) -> Option<SocketModel> {
    match client {
        Some(a) => Some(a@),
        None => None,
    }
}

/// The client's address after a datagram: the first source with the address of the control
/// connection's peer.
pub open spec fn client_after(
    client: Option<SocketModel>,
    source: SocketModel,
    peer: IpModel,
) -> Option<SocketModel> {
    if client is None && source.ip == peer {
        Some(source)
    } else {
        client
    }
}

/// What to do with a datagram: from the client it is a request, from elsewhere a reply to it.
pub open spec fn datagram_step(
    client: Option<SocketModel>,
    source: SocketModel,
    data: Seq<u8>,
) -> Result<UdpStepModel, ErrorModel> {
    if client == Some(source) {
        match udp_request(data) {
            Ok((target, payload)) => Ok(UdpStepModel::Forward(target, payload)),
            Err(e) => Err(e),
        }
    } else if client is Some {
        Ok(UdpStepModel::Reply(client->0, udp_response(source, data)))
    } else {
        Ok(UdpStepModel::Ignore)
    }
}

/// The mathematical value of an association.
#[verifier::ext_equal]
pub struct AssociationModel {
    pub client: Option<SocketModel>,
    pub upload: u64,
    pub download: u64,
}

impl View for UdpAssociation {
    type V = AssociationModel;

    open spec fn view(&self) -> AssociationModel {
        AssociationModel {
            client: client_view(self.client),
            upload: self.upload,
            download: self.download,
        }
    }
}

impl AssociationModel {
    /// One whose client is not known yet.
    pub open spec fn fresh() -> AssociationModel {
        AssociationModel { client: None, upload: 0, download: 0 }
    }

    /// After a datagram came, before anything is done with it.
    pub open spec fn met(self, source: SocketModel, peer: IpModel) -> AssociationModel {
        AssociationModel { client: client_after(self.client, source, peer), ..self }
    }

    /// After a payload was sent to its target.
    pub open spec fn sent(self, len: u64) -> AssociationModel {
        AssociationModel { upload: saturated(self.upload, len), ..self }
    }

    /// After a payload was sent to the client.
    pub open spec fn answered(self, len: u64) -> AssociationModel {
        AssociationModel { download: saturated(self.download, len), ..self }
    }
}

impl UdpAssociation {
    /// An association whose client is not known yet.
    pub fn new() -> (r: UdpAssociation)
        ensures
            r@ == AssociationModel::fresh(),
    {
        UdpAssociation { client: None, upload: 0, download: 0 }
    }

    /// What to do with a datagram that arrived from `source`.
    pub fn on_datagram(
        &mut self,
        source: SocketAddress,
        peer: &IpAddress,
        data: &[u8],
    ) -> (r: Result<UdpStep, CoreError>)
        ensures
            final(self)@ == old(self)@.met(source@, peer@),
            (match r {
                Ok(step) => Ok::<UdpStepModel, ErrorModel>(step@),
                Err(e) => Err(e@),
            }) == datagram_step(final(self)@.client, source@, data@),
    {
        if self.client.is_none() && source.ip.same(peer) {
            self.client = Some(source);
        }
        match &self.client {
            Some(client) => {
                if client.same(&source) {
                    match parse_udp_request(data) {
                        Ok((target, payload)) => Ok(
                            UdpStep::Forward(target, vstd::slice::slice_to_vec(payload)),
                        ),
                        Err(e) => Err(e),
                    }
                } else {
                    Ok(UdpStep::Reply(*client, encode_udp_response(&source, data)))
                }
            },
            None => Ok(UdpStep::Ignore),
        }
    }

    /// Whether to send a routed payload.
    pub fn route(route: &SocksRoute) -> (r: Result<bool, CoreError>)
        ensures
            match route {
                SocksRoute::Direct => r == Ok::<bool, CoreError>(true),
                SocksRoute::Block => r == Ok::<bool, CoreError>(false),
                SocksRoute::UnsupportedOutbound(tag) => r is Err && r->Err_0@
                    == crate::route::unsupported(tag@),
            },
    {
        match route {
            SocksRoute::Direct => Ok(true),
            SocksRoute::Block => Ok(false),
            SocksRoute::UnsupportedOutbound(tag) => Err(
                crate::route::unsupported_failure(tag.as_str()),
            ),
        }
    }

    /// Counts a payload that was sent to its target.
    pub fn forwarded(&mut self, len: u64)
        ensures
            final(self)@ == old(self)@.sent(len),
            final(self).client == old(self).client,
    {
        self.upload = self.upload.saturating_add(len);
    }

    /// Counts a payload that was sent to the client.
    pub fn replied(&mut self, len: u64)
        ensures
            final(self)@ == old(self)@.answered(len),
            final(self).client == old(self).client,
    {
        self.download = self.download.saturating_add(len);
    }
}

impl Socks5Server {
    /// Counts the traffic of a finished request; a request without a user is not counted.
    pub fn record(
        &self,
        traffic: &mut TrafficRegistry,
        request: &SocksRequest,
        upload: u64,
        download: u64,
    )
        requires
            old(traffic).wf(),
        ensures
            final(traffic).wf(),
            final(traffic)@ == (match request@.user_uuid {
                Some(uuid) => recorded(
                    old(traffic)@,
                    (self.config.node_tag@, uuid),
                    None,
                    upload,
                    download,
                    ip_text(request.client_ip),
                ),
                None => old(traffic)@,
            }),
    {
        if let Some(uuid) = &request.user_uuid {
            traffic.add_with_ip(
                self.config.node_tag.as_str(),
                uuid.as_str(),
                upload,
                download,
                request.client_ip,
            );
        }
    }
}

/// A datagram that the server encodes reads back as its source and its payload.
pub proof fn law_udp_response_reads_back(source: SocketModel, payload: Seq<u8>)
    requires
        source.ip.well_formed(),
    ensures
        udp_request(udp_response(source, payload)) == Ok::<(TargetModel, Seq<u8>), ErrorModel>(
            (TargetModel { host: source.ip.text(), port: source.port }, payload),
        ),
{
    let input = udp_response(source, payload);
    match source.ip {
        IpModel::V4(o) => {
            assert(input.subrange(4, 8) =~= o);
            assert(input.subrange(10, input.len() as int) =~= payload);
        },
        IpModel::V6(o) => {
            assert(input.subrange(4, 20) =~= o);
            assert(input.subrange(22, input.len() as int) =~= payload);
        },
    }
}

/// Once the client of an association is known it stays the same, and it is the first source
/// with the address of the control connection's peer.
pub proof fn law_client_is_learned_once(
    client: Option<SocketModel>,
    source: SocketModel,
    peer: IpModel,
)
    ensures
        client is Some ==> client_after(client, source, peer) == client,
        client is None && client_after(client, source, peer) is Some ==> client_after(
            client,
            source,
            peer,
        )->0 == source && source.ip == peer,
{
}

/// A datagram that arrives in an association, and whether its payload is sent where it is a
/// request: the route must allow it.
pub struct Arrival {
    pub source: SocketModel,
    pub data: Seq<u8>,
    pub allowed: bool,
}

/// How many bytes of a datagram go to a target, and how many to the client, given the client.
pub open spec fn passed_on(client: Option<SocketModel>, arrival: Arrival) -> (nat, nat) {
    match datagram_step(client, arrival.source, arrival.data) {
        Ok(UdpStepModel::Forward(_, payload)) => if arrival.allowed {
            (payload.len(), 0)
        } else {
            (0, 0)
        },
        Ok(UdpStepModel::Reply(_, _)) => (0, arrival.data.len()),
        _ => (0, 0),
    }
}

/// The association after a datagram was dealt with.
pub open spec fn after_arrival(s: AssociationModel, peer: IpModel, arrival: Arrival) -> AssociationModel {
    let t = s.met(arrival.source, peer);
    match datagram_step(t.client, arrival.source, arrival.data) {
        Ok(UdpStepModel::Forward(_, payload)) => if arrival.allowed {
            t.sent(payload.len() as u64)
        } else {
            t
        },
        Ok(UdpStepModel::Reply(_, _)) => t.answered(arrival.data.len() as u64),
        _ => t,
    }
}

/// An association after datagrams were dealt with.
pub open spec fn after_arrivals(peer: IpModel, arrivals: Seq<Arrival>) -> AssociationModel
    decreases arrivals.len(),
{
    if arrivals.len() == 0 {
        AssociationModel::fresh()
    } else {
        after_arrival(
            after_arrivals(peer, arrivals.subrange(0, arrivals.len() - 1)),
            peer,
            arrivals[arrivals.len() - 1],
        )
    }
}

/// How many bytes of datagrams go to targets, and how many to the client.
pub open spec fn all_passed_on(peer: IpModel, arrivals: Seq<Arrival>) -> (nat, nat)
    decreases arrivals.len(),
{
    if arrivals.len() == 0 {
        (0, 0)
    } else {
        let earlier = arrivals.subrange(0, arrivals.len() - 1);
        let last = arrivals[arrivals.len() - 1];
        let before = all_passed_on(peer, earlier);
        let client = after_arrivals(peer, earlier).met(last.source, peer).client;
        let now = passed_on(client, last);
        (before.0 + now.0, before.1 + now.1)
    }
}

/// An association counts exactly the bytes that it sends to targets, and those that it sends to
/// the client, up to the largest count.
pub proof fn law_association_counts_what_it_passes_on(peer: IpModel, arrivals: Seq<Arrival>)
    requires
        forall|i: int| 0 <= i < arrivals.len() ==> (#[trigger] arrivals[i]).data.len() <= u64::MAX,
    ensures
        after_arrivals(peer, arrivals).upload == capped(all_passed_on(peer, arrivals).0),
        after_arrivals(peer, arrivals).download == capped(all_passed_on(peer, arrivals).1),
    decreases arrivals.len(),
{
    if arrivals.len() > 0 {
        let earlier = arrivals.subrange(0, arrivals.len() - 1);
        let last = arrivals[arrivals.len() - 1];
        assert forall|i: int| 0 <= i < earlier.len() implies (#[trigger] earlier[i]).data.len()
            <= u64::MAX by {
            assert(earlier[i] == arrivals[i]);
        }
        law_association_counts_what_it_passes_on(peer, earlier);
        assert(last.data.len() <= u64::MAX);
        let client = after_arrivals(peer, earlier).met(last.source, peer).client;
        if let Ok(UdpStepModel::Forward(_, payload)) = datagram_step(
            client,
            last.source,
            last.data,
        ) {
            assert(payload.len() <= last.data.len());
        }
    }
}

/// The bytes of the user name and of the password that a client sends behind the methods that it
/// offers: each has its length before it.
pub open spec fn presented(input: Seq<u8>) -> (Seq<u8>, Seq<u8>) {
    let name_at = 4 + input[1] as int;
    let password_at = name_at + input[name_at - 1] as int + 1;
    (
        input.subrange(name_at, password_at - 1),
        input.subrange(password_at, password_at + input[password_at - 1] as int),
    )
}

/// Authentication is never skipped: with users known, a request is only accepted where the name
/// that the client sends is that of a user and the password is the credential of that user, and
/// the request is then held to be of that user.
pub proof fn law_request_is_authenticated(users: Seq<(Seq<char>, CoreUser)>, input: Seq<u8>)
    requires
        users.len() > 0,
        request(users, arrived(input)).0 is Ok,
    ensures
        ({
            let (name, password) = presented(input);
            &&& valid_utf8(name)
            &&& valid_utf8(password)
            &&& get(users, decode_utf8(name)) is Some
            &&& get(users, decode_utf8(name))->0.credential_text() == decode_utf8(password)
            &&& request(users, arrived(input)).0->Ok_0.user_uuid == Some(
                get(users, decode_utf8(name))->0.uuid@,
            )
        }),
{
    let t = arrived(input);
    let count = t.next(2)[1] as nat;
    let t2 = t.skip(2).skip(count).send(seq![SOCKS5_VERSION, AUTH_PASSWORD]);
    let n = t2.next(2)[1] as nat;
    let t3 = t2.skip(2).skip(n);
    let m = t3.next(1)[0] as nat;
    let (name, password) = presented(input);
    assert(t.next(2)[1] == input[1]);
    assert(t2.next(2)[1] == input[3 + count as int]);
    assert(t2.skip(2).next(n) =~= name);
    assert(t3.next(1)[0] == input[4 + count as int + n as int]);
    assert(t3.skip(1).next(m) =~= password);
}

/// Reading the password is not changed by bytes that arrive later.
proof fn lemma_password_auth_extended(
    users: Seq<(Seq<char>, CoreUser)>,
    t: Tape,
    more: Seq<u8>,
)
    requires
        t.wf(),
        password_auth(users, t).0 != Err::<Seq<char>, ErrorModel>(eof()),
    ensures
        password_auth(users, t).1.wf(),
        password_auth(users, extended(t, more)) == (
            password_auth(users, t).0,
            extended(password_auth(users, t).1, more),
        ),
{
    lemma_extended(t, more);
    assert(t.offers(2));
    lemma_extended(t.skip(2), more);
    if t.next(2)[0] == 0x01 {
        let n = t.next(2)[1] as nat;
        assert(t.skip(2).offers(n));
        let t1 = read_text(t.skip(2), n).1;
        lemma_extended(t1, more);
        if read_text(t.skip(2), n).0 is Ok {
            assert(t1.offers(1));
            lemma_extended(t1.skip(1), more);
            let m = t1.next(1)[0] as nat;
            assert(t1.skip(1).offers(m));
            lemma_extended(read_text(t1.skip(1), m).1, more);
        }
    }
}

/// Reading the command is not changed by bytes that arrive later.
proof fn lemma_command_request_extended(t: Tape, uuid: Option<Seq<char>>, more: Seq<u8>)
    requires
        t.wf(),
        command_request(t, uuid).0 != Err::<RequestModel, ErrorModel>(eof()),
    ensures
        command_request(extended(t, more), uuid) == (
            command_request(t, uuid).0,
            extended(command_request(t, uuid).1, more),
        ),
{
    lemma_extended(t, more);
    assert(t.offers(4));
    let header = t.next(4);
    let t1 = t.skip(4);
    lemma_extended(t1, more);
    let unknown = fault(ErrorKind::InvalidData, "unsupported socks address type"@);
    if header[0] == SOCKS5_VERSION && (header[1] == CMD_CONNECT || header[1] == CMD_UDP_ASSOCIATE)
        && !(header[1] == CMD_UDP_ASSOCIATE && header[2] != 0x00) && (header[3] == ATYP_IPV4
        || header[3] == ATYP_IPV6 || header[3] == ATYP_DOMAIN) {
        lemma_read_target_extended(t1, header[3], unknown, more);
    }
}

/// What a server decides about a request does not depend on how the bytes arrive: once it is
/// decided, bytes that arrive later change neither the outcome, nor the replies, nor how far
/// was read.
pub proof fn law_request_is_incremental(
    users: Seq<(Seq<char>, CoreUser)>,
    t: Tape,
    more: Seq<u8>,
)
    requires
        t.wf(),
        request(users, t).0 != Err::<RequestModel, ErrorModel>(eof()),
    ensures
        request(users, extended(t, more)) == (
            request(users, t).0,
            extended(request(users, t).1, more),
        ),
{
    lemma_extended(t, more);
    assert(t.offers(2));
    lemma_extended(t.skip(2), more);
    if t.next(2)[0] == SOCKS5_VERSION {
        let count = t.next(2)[1] as nat;
        let t1 = t.skip(2);
        assert(t1.offers(count));
        lemma_extended(t1.skip(count), more);
        let method = selected_method(users.len() == 0, t1.next(count));
        let t2 = t1.skip(count).send(seq![SOCKS5_VERSION, method]);
        if method == AUTH_NONE {
            lemma_command_request_extended(t2, None, more);
        } else if method == AUTH_PASSWORD {
            lemma_password_auth_extended(users, t2, more);
            let (uuid, t3) = password_auth(users, t2);
            if uuid is Ok {
                lemma_command_request_extended(t3, Some(uuid->Ok_0), more);
            }
        }
    }
}

} // verus!
