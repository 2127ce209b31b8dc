//! The Trojan server side: requests of known users, and UDP relays.

use vstd::prelude::*;
use vstd::utf8::{decode_utf8, encode_utf8};

use crate::address::{IpAddress, SocketAddress, SocketModel};
use crate::config::RouteRule;
use crate::error::{eof, failure, fault, CoreError, ErrorKind, ErrorModel};
use crate::relay::{capped, idle_wait, more_idle, udp_waits, websocket_udp_relay_idle_timeout};
use crate::route::{udp_way, unsupported, RouteDecision, Way};
use crate::table::get;
use crate::target::{SocksTarget, TargetModel};
use crate::text::same_text;
use crate::traffic::{ip_text, recorded, saturated, TrafficRegistry};
use crate::trojan::{
    carried, crlf, is_hash, law_target_reads_back, lemma_read_trojan_target_extended, packet_in,
    parse_trojan_udp_packet_from_buffer, password_hash, read_crlf, read_trojan_target,
    request_head, take_crlf, take_trojan_target, target_bytes, trojan_password_hash,
    udp_bind_addr_for_remote, COMMAND_TCP, COMMAND_UDP_ASSOCIATE, TROJAN_PASSWORD_HEX_LEN,
};
use crate::user::{
    follows, keyed_users, replaced, store_delta, tally, CoreUser, CoreUserDelta,
    CoreUserDeltaResult, UserStore,
};
use crate::wire::{
    arrived, decode_or, extended, lemma_extended, push_bytes, text_or, Exchange, Tape,
};

verus! {

/// How often a client is looked at while its connection is being made, in milliseconds.
pub const CLIENT_CLOSE_CONNECT_POLL_MILLIS: u64 = 10;

/// Settings of a Trojan server.
#[derive(Debug)]
pub struct TrojanServerConfig {
    pub node_tag: String,
    pub listen: SocketAddress,
    pub users: Vec<CoreUser>,
    pub routes: Vec<RouteRule>,
    pub connect_timeout_millis: u64,
}

/// A Trojan server: its settings without users and routes, its routes, and its users under the
/// hashes of their credentials.
pub struct TrojanServer {
    pub config: TrojanServerConfig,
    pub routes: Vec<RouteRule>,
    pub users: UserStore,
}

/// What a client asks for.
#[derive(Clone, Copy, Debug, PartialEq, Eq, Structural)]
pub enum TrojanCommand {
    Tcp,
    UdpAssociate,
}

/// A request of a known user.
#[derive(Debug)]
pub struct TrojanRequest {
    pub command: TrojanCommand,
    pub password_hash: String,
    pub user_uuid: String,
    pub user_id: u64,
    pub target: SocksTarget,
    pub client_ip: Option<IpAddress>,
}

/// The mathematical value of what a request says.
#[verifier::ext_equal]
pub struct RequestModel {
    pub command: TrojanCommand,
    pub password_hash: Seq<char>,
    pub user_uuid: Seq<char>,
    pub user_id: u64,
    pub target: TargetModel,
}

/// The key of a user: the hash of the credential.
pub open spec fn hash_rule() -> spec_fn(CoreUser) -> Seq<char> {
    |user: CoreUser| password_hash(user.credential_text())
}

/// The hash of the credential of a user.
fn hash_key(user: &CoreUser) -> (r: String)
    ensures
        r@ == hash_rule()(*user),
{
    trojan_password_hash(user.credential())
}

/// Reading what follows the password hash of a user.
pub open spec fn command_request(t: Tape, hash: Seq<char>, user: CoreUser) -> (
    Result<RequestModel, ErrorModel>,
    Tape,
) {
    if !t.offers(1) {
        (Err(eof()), t)
    } else if t.next(1)[0] != COMMAND_TCP && t.next(1)[0] != COMMAND_UDP_ASSOCIATE {
        (
            Err(
                fault(
                    ErrorKind::Unsupported,
                    "only trojan tcp and udp associate commands are supported"@,
                ),
            ),
            t.skip(1),
        )
    } else {
        let (target, t1) = read_trojan_target(t.skip(1));
        match target {
            Err(e) => (Err(e), t1),
            Ok(target) => match read_crlf(t1) {
                (Err(e), t2) => (Err(e), t2),
                (Ok(_), t2) => (
                    Ok(
                        RequestModel {
                            command: if t.next(1)[0] == COMMAND_TCP {
                                TrojanCommand::Tcp
                            } else {
                                TrojanCommand::UdpAssociate
                            },
                            password_hash: hash,
                            user_uuid: user.uuid@,
                            user_id: user.id,
                            target,
                        },
                    ),
                    t2,
                ),
            },
        }
    }
}

/// Reading a request: the password hash, by which the user is found, the command and the target.
pub open spec fn request(users: Seq<(Seq<char>, CoreUser)>, t: Tape) -> (
    Result<RequestModel, ErrorModel>,
    Tape,
) {
    if !t.offers(56) {
        (Err(eof()), t)
    } else {
        let t1 = t.skip(56);
        match text_or(t.next(56), "invalid trojan password hash"@) {
            Err(e) => (Err(e), t1),
            Ok(hash) => match read_crlf(t1) {
                (Err(e), t2) => (Err(e), t2),
                (Ok(_), t2) => match get(users, hash) {
                    None => (Err(fault(ErrorKind::PermissionDenied, "unknown trojan user"@)), t2),
                    Some(user) => command_request(t2, hash, user),
                },
            },
        }
    }
}

/// The view of a result whose value is a request.
pub open spec fn request_result(r: Result<TrojanRequest, CoreError>) -> Result<
    RequestModel,
    ErrorModel,
> {
    match r {
        Ok(q) => Ok(
            RequestModel {
                command: q.command,
                password_hash: q.password_hash@,
                user_uuid: q.user_uuid@,
                user_id: q.user_id,
                target: q.target@,
            },
        ),
        Err(e) => Err(e@),
    }
}

impl TrojanServer {
    /// No two users have the same hash.
    pub open spec fn wf(&self) -> bool {
        self.users.wf()
    }

    /// A server with the users of its settings; the settings keep neither users nor routes.
    pub fn new(config: TrojanServerConfig) -> (r: TrojanServer)
        ensures
            r.wf(),
            r.users@ == keyed_users(config.users@, hash_rule()),
            r.routes == config.routes,
            r.config.node_tag == config.node_tag,
            r.config.listen == config.listen,
            r.config.connect_timeout_millis == config.connect_timeout_millis,
            r.config.users@.len() == 0,
            r.config.routes@.len() == 0,
    {
        let users = UserStore::from_keyed_users(config.users.as_slice(), hash_key);
        assert(follows(hash_key, hash_rule()));
        TrojanServer {
            config: TrojanServerConfig {
                node_tag: config.node_tag,
                listen: config.listen,
                users: Vec::new(),
                routes: Vec::new(),
                connect_timeout_millis: config.connect_timeout_millis,
            },
            routes: config.routes,
            users,
        }
    }

    /// Makes the users of a list the users of the server.
    pub fn replace_users(&mut self, users: &[CoreUser])
        ensures
            final(self).wf(),
            final(self).config == old(self).config,
            final(self).routes == old(self).routes,
            final(self).users@ == keyed_users(users@, hash_rule()),
    {
        self.users.replace_keyed_users(users, hash_key);
        assert(follows(hash_key, hash_rule()));
    }

    /// Applies a change to the users.
    pub fn apply_user_delta(&mut self, delta: &CoreUserDelta) -> (r: CoreUserDeltaResult)
        requires
            old(self).wf(),
        ensures
            final(self).wf(),
            final(self).config == old(self).config,
            final(self).routes == old(self).routes,
            match delta.full {
                Some(full) => {
                    &&& final(self).users@ == keyed_users(full@, hash_rule())
                    &&& replaced(final(self).users@.len(), r)
                },
                None => {
                    &&& final(self).users@ == store_delta(
                        old(self).users@,
                        *delta,
                        hash_rule(),
                    ).users
                    &&& tally(store_delta(old(self).users@, *delta, hash_rule()), r)
                },
            },
    {
        assert(follows(hash_key, hash_rule()));
        self.users.apply_keyed_delta(delta, hash_key)
    }

    /// Reads a request from the beginning of a stream.
    pub fn read_request(&self, stream: &mut Exchange) -> (r: Result<TrojanRequest, CoreError>)
        requires
            old(stream).wf(),
        ensures
            final(stream).wf(),
            (request_result(r), final(stream)@) == request(self.users@, old(stream)@),
            r is Ok ==> r->Ok_0.client_ip is None,
    {
        let password_hash = match stream.take(TROJAN_PASSWORD_HEX_LEN) {
            Ok(hash) => match decode_or(hash, "invalid trojan password hash") {
                Ok(text) => text,
                Err(e) => {
                    return Err(e);
                },
            },
            Err(e) => {
                return Err(e);
            },
        };
        match take_crlf(stream) {
            Ok(_) => {},
            Err(e) => {
                return Err(e);
            },
        }
        let user = match self.users.get(password_hash.as_str()) {
            Some(user) => user,
            None => {
                return Err(failure(ErrorKind::PermissionDenied, "unknown trojan user"));
            },
        };
        let command = match stream.take(1) {
            Ok(command) => command[0],
            Err(e) => {
                return Err(e);
            },
        };
        let command = if command == COMMAND_TCP {
            TrojanCommand::Tcp
        } else if command == COMMAND_UDP_ASSOCIATE {
            TrojanCommand::UdpAssociate
        } else {
            return Err(
                failure(
                    ErrorKind::Unsupported,
                    "only trojan tcp and udp associate commands are supported",
                ),
            );
        };
        let target = match take_trojan_target(stream) {
            Ok(target) => target,
            Err(e) => {
                return Err(e);
            },
        };
        match take_crlf(stream) {
            Ok(_) => {},
            Err(e) => {
                return Err(e);
            },
        }
        Ok(
            TrojanRequest {
                command,
                password_hash,
                user_uuid: user.uuid,
                user_id: user.id,
                target,
                client_ip: None,
            },
        )
    }

    /// The user of a request, where the server still knows the user.
    pub fn request_user(&self, request: &TrojanRequest) -> (r: Option<CoreUser>)
        ensures
            r == get(self.users@, request.password_hash@),
    {
        self.users.get(request.password_hash.as_str())
    }

    /// Counts the traffic of a relay that ended.
    pub fn record_traffic(
        &self,
        traffic: &mut TrafficRegistry,
        request: &TrojanRequest,
        upload: u64,
        download: u64,
    )
        requires
            old(traffic).wf(),
        ensures
            final(traffic).wf(),
            final(traffic)@ == recorded(
                old(traffic)@,
                (self.config.node_tag@, request.user_uuid@),
                Some(request.user_id),
                upload,
                download,
                ip_text(request.client_ip),
            ),
    {
        traffic.add_with_user_id(
            self.config.node_tag.as_str(),
            request.user_uuid.as_str(),
            Some(request.user_id),
            upload,
            download,
            request.client_ip,
        );
    }
}

/// The address that a client is counted under: the one that a proxy in front names, or else the
/// one of the connection.
pub fn client_address(forwarded: Option<IpAddress>, peer: Option<IpAddress>) -> (r: Option<
    IpAddress,
>)
    ensures
        r == (if forwarded is Some {
            forwarded
        } else {
            peer
        }),
{
    if forwarded.is_some() {
        forwarded
    } else {
        peer
    }
}

/// The error of a client whose session is refused.
pub fn session_refused(message: &str) -> (r: CoreError)
    ensures
        r@ == fault(ErrorKind::PermissionDenied, message@),
{
    failure(ErrorKind::PermissionDenied, message)
}

/// What a connection attempt in the background has come to.
#[derive(Clone, Copy, Debug, PartialEq, Eq, Structural)]
pub enum ConnectPoll {
    Ready,
    Pending,
    Lost,
}

/// What is to be done about a connection attempt in the background.
#[derive(Clone, Copy, Debug, PartialEq, Eq, Structural)]
pub enum ConnectStep {
    /// Take its result.
    Take,
    /// Wait a moment, and look again.
    Wait,
    /// The client is gone: give up.
    Abandon,
}

/// Looks at a connection attempt that is made for a client over plain WebSocket.
pub fn poll_websocket_connect(poll: ConnectPoll, peer_closed: bool) -> (r: Result<
    ConnectStep,
    CoreError,
>)
    ensures
        match poll {
            ConnectPoll::Ready => r == Ok::<ConnectStep, CoreError>(ConnectStep::Take),
            ConnectPoll::Pending => r == Ok::<ConnectStep, CoreError>(
                if peer_closed {
                    ConnectStep::Abandon
                } else {
                    ConnectStep::Wait
                },
            ),
            ConnectPoll::Lost => r is Err && r->Err_0@ == fault(
                ErrorKind::Other,
                "trojan websocket connect worker stopped before sending result"@,
            ),
        },
{
    match poll {
        ConnectPoll::Ready => Ok(ConnectStep::Take),
        ConnectPoll::Pending => if peer_closed {
            Ok(ConnectStep::Abandon)
        } else {
            Ok(ConnectStep::Wait)
        },
        ConnectPoll::Lost => Err(
            failure(
                ErrorKind::Other,
                "trojan websocket connect worker stopped before sending result",
            ),
        ),
    }
}

/// Looks at a connection attempt that is made for a client over WebSocket in TLS.
pub fn poll_tls_websocket_connect(poll: ConnectPoll, peer_closed: bool) -> (r: Result<
    ConnectStep,
    CoreError,
>)
    ensures
        match poll {
            ConnectPoll::Ready => r == Ok::<ConnectStep, CoreError>(ConnectStep::Take),
            ConnectPoll::Pending => r == Ok::<ConnectStep, CoreError>(
                if peer_closed {
                    ConnectStep::Abandon
                } else {
                    ConnectStep::Wait
                },
            ),
            ConnectPoll::Lost => r is Err && r->Err_0@ == fault(
                ErrorKind::BrokenPipe,
                "trojan outbound connector exited without result"@,
            ),
        },
{
    match poll {
        ConnectPoll::Ready => Ok(ConnectStep::Take),
        ConnectPoll::Pending => if peer_closed {
            Ok(ConnectStep::Abandon)
        } else {
            Ok(ConnectStep::Wait)
        },
        ConnectPoll::Lost => Err(
            failure(ErrorKind::BrokenPipe, "trojan outbound connector exited without result"),
        ),
    }
}

/// Whether an error says that the stream was closed.
pub open spec fn closed_kind(kind: ErrorKind) -> bool {
    kind == ErrorKind::UnexpectedEof || kind == ErrorKind::ConnectionAborted || kind
        == ErrorKind::ConnectionReset || kind == ErrorKind::BrokenPipe
}

/// Whether an error says that the stream was closed.
pub fn is_stream_closed(kind: ErrorKind) -> (r: bool)
    ensures
        r == closed_kind(kind),
{
    kind == ErrorKind::UnexpectedEof || kind == ErrorKind::ConnectionAborted || kind
        == ErrorKind::ConnectionReset || kind == ErrorKind::BrokenPipe
}

/// Whether an error says that nothing came in time.
pub open spec fn late_kind(kind: ErrorKind) -> bool {
    kind == ErrorKind::WouldBlock || kind == ErrorKind::TimedOut
}

/// What a socket has to give: nothing where it has nothing yet, or where an earlier packet was
/// rejected.
pub fn recv_available_from_socket(received: Result<(SocketAddress, Vec<u8>), CoreError>) -> (r:
    Result<Option<(SocketAddress, Vec<u8>)>, CoreError>)
    ensures
        r == (match received {
            Ok(packet) => Ok::<Option<(SocketAddress, Vec<u8>)>, CoreError>(Some(packet)),
            Err(e) => if late_kind(e.kind) || e.kind == ErrorKind::ConnectionReset {
                Ok(None)
            } else {
                Err(e)
            },
        }),
{
    match received {
        Ok(packet) => Ok(Some(packet)),
        Err(e) => if e.kind == ErrorKind::WouldBlock || e.kind == ErrorKind::TimedOut || e.kind
            == ErrorKind::ConnectionReset {
            Ok(None)
        } else {
            Err(e)
        },
    }
}

/// The UDP side of a relay: which sockets are bound, and the address of the last target.
#[derive(Debug)]
pub struct TrojanUdpRelayState {
    pub ipv4: bool,
    pub ipv6: bool,
    pub target: Option<SocksTarget>,
    pub target_addr: Option<SocketAddress>,
}

impl TrojanUdpRelayState {
    /// The address that is known for a target.
    pub open spec fn known(&self, target: TargetModel) -> Option<SocketAddress> {
        if self.target is Some && self.target->0@ == target {
            self.target_addr
        } else {
            None
        }
    }

    /// Whether a socket is bound for the version of an address.
    pub open spec fn bound(&self, remote: SocketAddress) -> bool {
        match remote.ip {
            IpAddress::V4(_) => self.ipv4,
            IpAddress::V6(_) => self.ipv6,
        }
    }

    /// No sockets, and no target.
    pub fn new() -> (r: TrojanUdpRelayState)
        ensures
            !r.ipv4,
            !r.ipv6,
            r.target is None,
            r.target_addr is None,
    {
        TrojanUdpRelayState { ipv4: false, ipv6: false, target: None, target_addr: None }
    }

    /// The address of a target, where it is the last one that was resolved.
    pub fn known_addr(&self, target: &SocksTarget) -> (r: Option<SocketAddress>)
        ensures
            r == self.known(target@),
    {
        match &self.target {
            Some(last) => if last.port == target.port && same_text(
                last.host.as_str(),
                target.host.as_str(),
            ) {
                self.target_addr
            } else {
                None
            },
            None => None,
        }
    }

    /// Keeps the address that a target was resolved to.
    pub fn resolved(&mut self, target: &SocksTarget, address: SocketAddress)
        ensures
            final(self).known(target@) == Some(address),
            forall|other: TargetModel|
                other != target@ ==> #[trigger] final(self).known(other) is None,
            final(self).ipv4 == old(self).ipv4,
            final(self).ipv6 == old(self).ipv6,
    {
        self.target = Some(target.clone());
        self.target_addr = Some(address);
    }

    /// The address to bind a socket to before a remote address can be reached; none where there
    /// is such a socket.
    pub fn missing_socket(&self, remote: &SocketAddress) -> (r: Option<SocketAddress>)
        ensures
            r is None == self.bound(*remote),
            r matches Some(local) ==> {
                &&& local@ == SocketModel::plain(local@.ip, 0)
                &&& local@.ip.unspecified()
                &&& local@.ip.well_formed()
                &&& local.ip is V4 == remote.ip is V4
            },
    {
        let bound = match remote.ip {
            IpAddress::V4(_) => self.ipv4,
            IpAddress::V6(_) => self.ipv6,
        };
        if bound {
            None
        } else {
            Some(udp_bind_addr_for_remote(remote))
        }
    }

    /// Keeps that a socket is bound for the version of an address.
    pub fn socket_bound(&mut self, remote: &SocketAddress)
        ensures
            final(self).bound(*remote),
            final(self).ipv4 == (old(self).ipv4 || remote.ip is V4),
            final(self).ipv6 == (old(self).ipv6 || remote.ip is V6),
            final(self).target == old(self).target,
            final(self).target_addr == old(self).target_addr,
    {
        match remote.ip {
            IpAddress::V4(_) => {
                self.ipv4 = true;
            },
            IpAddress::V6(_) => {
                self.ipv6 = true;
            },
        }
    }
}

/// What is to be done next with a packet of a client.
#[derive(Clone, Copy, Debug, PartialEq, Eq, Structural)]
pub enum UdpAction {
    /// Nothing: the packet is dropped.
    Drop,
    /// Wait until the bandwidth of the user has room, and then send it that way.
    Charge(Way),
    /// Send it that way.
    Send(Way),
}

/// Decides about a packet of a client from what the router says about its target.
pub fn route_udp_packet(decision: &RouteDecision, limited: bool) -> (r: Result<
    UdpAction,
    CoreError,
>)
    ensures
        match decision {
            RouteDecision::Direct => r == Ok::<UdpAction, CoreError>(
                if limited {
                    UdpAction::Charge(Way::Direct)
                } else {
                    UdpAction::Send(Way::Direct)
                },
            ),
            RouteDecision::Outbound(_) => r == Ok::<UdpAction, CoreError>(
                if limited {
                    UdpAction::Charge(Way::Outbound)
                } else {
                    UdpAction::Send(Way::Outbound)
                },
            ),
            RouteDecision::Block => r == Ok::<UdpAction, CoreError>(UdpAction::Drop),
            RouteDecision::UnsupportedOutbound(tag) => r is Err && r->Err_0@ == unsupported(tag@),
        },
{
    match udp_way(decision) {
        Ok(Some(way)) => if limited {
            Ok(UdpAction::Charge(way))
        } else {
            Ok(UdpAction::Send(way))
        },
        Ok(None) => Ok(UdpAction::Drop),
        Err(e) => Err(e),
    }
}

/// Decides about a packet once its bandwidth was granted, or the user was revoked.
pub fn charge_udp_packet(way: Way, granted: bool) -> (r: UdpAction)
    ensures
        r == (if granted {
            UdpAction::Send(way)
        } else {
            UdpAction::Drop
        }),
{
    if granted {
        UdpAction::Send(way)
    } else {
        UdpAction::Drop
    }
}

/// What a packet of a client comes to once an answer was waited for: how much was sent, and the
/// answer, which may be missing.
pub fn udp_packet_answered(
    payload_len: usize,
    answer: Result<(SocketAddress, Vec<u8>), CoreError>,
) -> (r: Result<(u64, Option<(SocketAddress, Vec<u8>)>), CoreError>)
    ensures
        r == (match answer {
            Ok(response) => Ok::<(u64, Option<(SocketAddress, Vec<u8>)>), CoreError>(
                (payload_len as u64, Some(response)),
            ),
            Err(e) => if late_kind(e.kind) {
                Ok((payload_len as u64, None))
            } else {
                Err(e)
            },
        }),
{
    match answer {
        Ok(response) => Ok((payload_len as u64, Some(response))),
        Err(e) => if e.kind == ErrorKind::WouldBlock || e.kind == ErrorKind::TimedOut {
            Ok((payload_len as u64, None))
        } else {
            Err(e)
        },
    }
}

/// A UDP relay over a stream: what arrived of the next packets, and what was relayed.
#[derive(Debug)]
pub struct UdpTunnel {
    pub pending: Vec<u8>,
    pub upload: u64,
    pub download: u64,
    pub progressed: bool,
    pub idle_rounds: u8,
}

impl UdpTunnel {
    /// The relay with more sent for the client.
    pub open spec fn with_sent(self, bytes: u64) -> UdpTunnel {
        UdpTunnel { upload: saturated(self.upload, bytes), ..self }
    }

    /// The relay with an answer more.
    pub open spec fn with_answer(self, len: usize) -> UdpTunnel {
        UdpTunnel { download: saturated(self.download, len as u64), ..self }
    }

    /// The relay with a packet more that came by itself.
    pub open spec fn with_received(self, len: usize) -> UdpTunnel {
        UdpTunnel { download: saturated(self.download, len as u64), progressed: true, ..self }
    }

    /// A relay that begins.
    pub fn new() -> (r: UdpTunnel)
        ensures
            r.pending@.len() == 0,
            r.upload == 0,
            r.download == 0,
            !r.progressed,
            r.idle_rounds == 0,
    {
        UdpTunnel { pending: Vec::new(), upload: 0, download: 0, progressed: false, idle_rounds: 0 }
    }

    /// Begins a round.
    pub fn begin_round(&mut self)
        ensures
            *final(self) == (UdpTunnel { progressed: false, ..*old(self) }),
    {
        self.progressed = false;
    }

    /// Takes what was read from the client; where the relay ends with it, how.
    pub fn client_read(&mut self, read: Result<Vec<u8>, CoreError>) -> (r: Option<
        Result<(), CoreError>,
    >)
        ensures
            final(self).upload == old(self).upload,
            final(self).download == old(self).download,
            final(self).idle_rounds == old(self).idle_rounds,
            match read {
                Ok(bytes) => {
                    &&& final(self).pending@ == old(self).pending@ + bytes@
                    &&& final(self).progressed == (old(self).progressed || bytes@.len() > 0)
                    &&& r == (if bytes@.len() == 0 {
                        Some(Ok::<(), CoreError>(()))
                    } else {
                        None
                    })
                },
                Err(e) => {
                    &&& final(self).pending@ == old(self).pending@
                    &&& final(self).progressed == old(self).progressed
                    &&& r == (if e.kind == ErrorKind::WouldBlock {
                        None
                    } else if closed_kind(e.kind) {
                        Some(Ok::<(), CoreError>(()))
                    } else {
                        Some(Err(e))
                    })
                },
            },
    {
        match read {
            Ok(bytes) => {
                if bytes.len() == 0 {
                    assert(self.pending@ =~= old(self).pending@ + bytes@);
                    return Some(Ok(()));
                }
                push_bytes(&mut self.pending, bytes.as_slice());
                self.progressed = true;
                None
            },
            Err(e) => if e.kind == ErrorKind::WouldBlock {
                None
            } else if is_stream_closed(e.kind) {
                Some(Ok(()))
            } else {
                Some(Err(e))
            },
        }
    }

    /// The next packet of the client that has arrived as a whole.
    pub fn next_packet(&mut self) -> (r: Result<Option<(SocksTarget, Vec<u8>)>, CoreError>)
        ensures
            final(self).upload == old(self).upload,
            final(self).download == old(self).download,
            final(self).progressed == old(self).progressed,
            final(self).idle_rounds == old(self).idle_rounds,
            match packet_in(old(self).pending@) {
                Ok(Some((target, payload, end))) => {
                    &&& r matches Ok(Some((t, p))) && t@ == target && p@ == payload
                    &&& final(self).pending@ == old(self).pending@.subrange(
                        end,
                        old(self).pending@.len() as int,
                    )
                },
                Ok(None) => {
                    &&& r == Ok::<Option<(SocksTarget, Vec<u8>)>, CoreError>(None)
                    &&& final(self).pending@ == old(self).pending@
                },
                Err(e) => {
                    &&& r is Err && r->Err_0@ == e
                    &&& final(self).pending@ == old(self).pending@
                },
            },
    {
        parse_trojan_udp_packet_from_buffer(&mut self.pending)
    }

    /// Counts what was sent for the client.
    pub fn sent(&mut self, bytes: u64)
        ensures
            *final(self) == old(self).with_sent(bytes),
    {
        self.upload = self.upload.saturating_add(bytes);
    }

    /// Counts an answer to a packet.
    pub fn answered(&mut self, len: usize)
        ensures
            *final(self) == old(self).with_answer(len),
    {
        self.download = self.download.saturating_add(len as u64);
    }

    /// Counts a packet that came by itself.
    pub fn received(&mut self, len: usize)
        ensures
            *final(self) == old(self).with_received(len),
    {
        self.download = self.download.saturating_add(len as u64);
        self.progressed = true;
    }

    /// Ends a round; how long the relay is to wait where nothing happened in it, in milliseconds.
    pub fn end_round(&mut self) -> (r: Option<u64>)
        ensures
            r == (if old(self).progressed {
                None
            } else {
                Some(idle_wait(udp_waits(), old(self).idle_rounds))
            }),
            *final(self) == (UdpTunnel {
                idle_rounds: if old(self).progressed {
                    0
                } else {
                    more_idle(udp_waits(), old(self).idle_rounds)
                },
                ..*old(self)
            }),
    {
        if self.progressed {
            self.idle_rounds = 0;
            None
        } else {
            Some(websocket_udp_relay_idle_timeout(&mut self.idle_rounds))
        }
    }
}

/// What happens in a UDP relay over a stream.
pub enum TunnelEvent {
    /// A packet of the client was dealt with: how long it is, whether it was sent, and how long
    /// the answer is that was waited for and passed on, where there was one.
    Packet { len: usize, sent: bool, answer: Option<usize> },
    /// A packet came by itself and was passed on.
    Arrived(usize),
}

/// The relay after an event.
pub open spec fn after_event(s: UdpTunnel, event: TunnelEvent) -> UdpTunnel {
    match event {
        TunnelEvent::Packet { len, sent, answer } => {
            let t = s.with_sent(
                if sent {
                    len as u64
                } else {
                    0
                },
            );
            match answer {
                Some(n) => t.with_answer(n),
                None => t,
            }
        },
        TunnelEvent::Arrived(n) => s.with_received(n),
    }
}

/// The relay after events.
pub open spec fn after_events(s: UdpTunnel, events: Seq<TunnelEvent>) -> UdpTunnel
    decreases events.len(),
{
    if events.len() == 0 {
        s
    } else {
        after_event(
            after_events(s, events.subrange(0, events.len() - 1)),
            events[events.len() - 1],
        )
    }
}

/// How many bytes of the client's packets are sent.
pub open spec fn bytes_sent(events: Seq<TunnelEvent>) -> nat
    decreases events.len(),
{
    if events.len() == 0 {
        0
    } else {
        bytes_sent(events.subrange(0, events.len() - 1)) + (match events[events.len() - 1] {
            TunnelEvent::Packet { len, sent: true, .. } => len as nat,
            _ => 0,
        })
    }
}

/// How many bytes are passed on to the client.
pub open spec fn bytes_passed_on(events: Seq<TunnelEvent>) -> nat
    decreases events.len(),
{
    if events.len() == 0 {
        0
    } else {
        bytes_passed_on(events.subrange(0, events.len() - 1)) + (match events[events.len() - 1] {
            TunnelEvent::Packet { answer: Some(n), .. } => n as nat,
            TunnelEvent::Arrived(n) => n as nat,
            _ => 0,
        })
    }
}

/// A UDP relay over a stream counts exactly the bytes that it sends for the client, and those that
/// it passes on to the client, up to the largest count.
pub proof fn law_tunnel_counts_what_it_passes_on(s: UdpTunnel, events: Seq<TunnelEvent>)
    requires
        s.upload == 0,
        s.download == 0,
    ensures
        after_events(s, events).upload == capped(bytes_sent(events)),
        after_events(s, events).download == capped(bytes_passed_on(events)),
    decreases events.len(),
{
    if events.len() > 0 {
        law_tunnel_counts_what_it_passes_on(s, events.subrange(0, events.len() - 1));
    }
}

/// The download half of a UDP relay over plain WebSocket, whose upload runs beside it.
#[derive(Debug)]
pub struct UdpDownload {
    pub download: u64,
    pub stopped: bool,
    pub failed: Option<CoreError>,
    pub progressed: bool,
    pub idle_rounds: u8,
}

impl UdpDownload {
    /// A relay that begins.
    pub fn new() -> (r: UdpDownload)
        ensures
            r == (UdpDownload {
                download: 0,
                stopped: false,
                failed: None,
                progressed: false,
                idle_rounds: 0,
            }),
    {
        UdpDownload {
            download: 0,
            stopped: false,
            failed: None,
            progressed: false,
            idle_rounds: 0,
        }
    }

    /// Begins a round, unless the relay is over.
    pub fn begin_round(&mut self, upload_stopped: bool) -> (r: bool)
        ensures
            r == !(old(self).stopped || upload_stopped),
            *final(self) == (UdpDownload {
                stopped: old(self).stopped || upload_stopped,
                progressed: if r {
                    false
                } else {
                    old(self).progressed
                },
                ..*old(self)
            }),
    {
        self.stopped = self.stopped || upload_stopped;
        if self.stopped {
            return false;
        }
        self.progressed = false;
        true
    }

    /// The relay after writing a packet to the client.
    pub open spec fn after_write(self, len: usize, outcome: Result<(), CoreError>) -> UdpDownload {
        match outcome {
            Ok(_) => UdpDownload {
                download: ((self.download + len) % 0x1_0000_0000_0000_0000) as u64,
                progressed: true,
                ..self
            },
            Err(e) => UdpDownload {
                stopped: true,
                failed: if closed_kind(e.kind) {
                    self.failed
                } else {
                    Some(e)
                },
                ..self
            },
        }
    }

    /// Takes the outcome of writing a packet to the client; whether more packets are looked for
    /// in this round. The count wraps around, as that of an atomic counter does.
    pub fn written(&mut self, len: usize, outcome: Result<(), CoreError>) -> (r: bool)
        ensures
            r == outcome is Ok,
            *final(self) == old(self).after_write(len, outcome),
    {
        match outcome {
            Ok(_) => {
                self.download = self.download.wrapping_add(len as u64);
                self.progressed = true;
                true
            },
            Err(e) => {
                self.stopped = true;
                if !is_stream_closed(e.kind) {
                    self.failed = Some(e);
                }
                false
            },
        }
    }

    /// Ends a round; how long the relay is to wait where nothing happened in it, in milliseconds.
    pub fn end_round(&mut self) -> (r: Option<u64>)
        ensures
            r == (if old(self).progressed {
                None
            } else {
                Some(idle_wait(udp_waits(), old(self).idle_rounds))
            }),
            *final(self) == (UdpDownload {
                idle_rounds: if old(self).progressed {
                    0
                } else {
                    more_idle(udp_waits(), old(self).idle_rounds)
                },
                ..*old(self)
            }),
    {
        if self.progressed {
            self.idle_rounds = 0;
            None
        } else {
            Some(websocket_udp_relay_idle_timeout(&mut self.idle_rounds))
        }
    }

    /// How the relay ends: with its own failure, or else as the upload did.
    pub fn outcome(self, upload: Result<(), CoreError>) -> (r: Result<(), CoreError>)
        ensures
            r == (match self.failed {
                Some(e) => Err::<(), CoreError>(e),
                None => upload,
            }),
    {
        match self.failed {
            Some(e) => Err(e),
            None => upload,
        }
    }
}

/// The download half of a relay after packets were written to the client.
pub open spec fn after_writes(
    s: UdpDownload,
    writes: Seq<(usize, Result<(), CoreError>)>,
) -> UdpDownload
    decreases writes.len(),
{
    if writes.len() == 0 {
        s
    } else {
        let last = writes[writes.len() - 1];
        after_writes(s, writes.subrange(0, writes.len() - 1)).after_write(last.0, last.1)
    }
}

/// How many bytes reach the client.
pub open spec fn bytes_written(writes: Seq<(usize, Result<(), CoreError>)>) -> nat
    decreases writes.len(),
{
    if writes.len() == 0 {
        0
    } else {
        let last = writes[writes.len() - 1];
        bytes_written(writes.subrange(0, writes.len() - 1)) + if last.1 is Ok {
            last.0 as nat
        } else {
            0
        }
    }
}

/// The download half of a relay counts exactly the bytes that reach the client; the count wraps
/// around.
pub proof fn law_download_counts_what_it_writes(
    s: UdpDownload,
    writes: Seq<(usize, Result<(), CoreError>)>,
)
    requires
        s.download == 0,
    ensures
        after_writes(s, writes).download == bytes_written(writes) % 0x1_0000_0000_0000_0000,
    decreases writes.len(),
{
    if writes.len() > 0 {
        law_download_counts_what_it_writes(s, writes.subrange(0, writes.len() - 1));
    }
}

/// A request that a client writes is understood by every server that knows the password hash:
/// it finds the user with the hash, and the target.
pub proof fn law_request_reads_back(
    users: Seq<(Seq<char>, CoreUser)>,
    hash: Seq<char>,
    target: TargetModel,
    rest: Seq<u8>,
)
    requires
        is_hash(hash),
        get(users, hash) is Some,
        target_bytes(target) is Ok,
    ensures
        request(
            users,
            arrived(request_head(hash) + target_bytes(target)->Ok_0 + crlf() + rest),
        ) == (
            Ok::<RequestModel, ErrorModel>(
                RequestModel {
                    command: TrojanCommand::Tcp,
                    password_hash: hash,
                    user_uuid: get(users, hash)->0.uuid@,
                    user_id: get(users, hash)->0.id,
                    target: carried(target),
                },
            ),
            arrived(request_head(hash) + target_bytes(target)->Ok_0 + crlf() + rest).skip(
                (request_head(hash) + target_bytes(target)->Ok_0 + crlf()).len(),
            ),
        ),
{
    let head = request_head(hash);
    let bytes = target_bytes(target)->Ok_0;
    let input = head + bytes + crlf() + rest;
    let t = arrived(input);
    vstd::utf8::is_ascii_chars_encode_utf8(hash);
    vstd::utf8::encode_utf8_valid_utf8(hash);
    vstd::utf8::encode_utf8_decode_utf8(hash);
    assert(t.next(56) =~= encode_utf8(hash));
    let t1 = t.skip(56);
    assert(t1.next(2) =~= crlf());
    let t2 = t1.skip(2);
    assert(t2.next(1) =~= seq![COMMAND_TCP]);
    assert(input =~= head + bytes + (crlf() + rest));
    law_target_reads_back(target, head, crlf() + rest);
    let t3 = t.skip((head + bytes).len());
    assert(t2.skip(1) == t.skip(head.len()));
    assert(t3.next(2) =~= crlf());
}

/// Authentication is never skipped: a request is only accepted where its first bytes are the
/// password hash under which a user is known, and it is then held to be of that user.
pub proof fn law_request_is_authenticated(users: Seq<(Seq<char>, CoreUser)>, input: Seq<u8>)
    requires
        request(users, arrived(input)).0 is Ok,
    ensures
        input.len() >= 56,
        ({
            let hash = decode_utf8(input.subrange(0, 56));
            let accepted = request(users, arrived(input)).0->Ok_0;
            &&& get(users, hash) is Some
            &&& accepted.password_hash == hash
            &&& accepted.user_uuid == get(users, hash)->0.uuid@
            &&& accepted.user_id == get(users, hash)->0.id
        }),
{
    assert(arrived(input).next(56) =~= input.subrange(0, 56));
}

/// Bytes that arrive later do not change what was read of the end of a line, nor a refusal that
/// is not for want of bytes.
proof fn lemma_read_crlf_extended(t: Tape, more: Seq<u8>)
    requires
        t.wf(),
        read_crlf(t).0 != Err::<(), ErrorModel>(eof()),
    ensures
        read_crlf(extended(t, more)) == (read_crlf(t).0, extended(read_crlf(t).1, more)),
        read_crlf(t).1.wf(),
{
    lemma_extended(t, more);
    assert(t.offers(2));
}

/// Bytes that arrive later do not change what was read of a request, nor a refusal that is not
/// for want of bytes.
pub proof fn law_request_is_incremental(
    users: Seq<(Seq<char>, CoreUser)>,
    t: Tape,
    more: Seq<u8>,
)
    requires
        t.wf(),
        request(users, t).0 != Err::<RequestModel, ErrorModel>(eof()),
    ensures
        request(users, extended(t, more)) == (
            request(users, t).0,
            extended(request(users, t).1, more),
        ),
{
    lemma_extended(t, more);
    assert(t.offers(56));
    let t1 = t.skip(56);
    if let Ok(hash) = text_or(t.next(56), "invalid trojan password hash"@) {
        lemma_read_crlf_extended(t1, more);
        let (end, t2) = read_crlf(t1);
        if end is Ok && get(users, hash) is Some {
            lemma_extended(t2, more);
            assert(t2.offers(1));
            let command = t2.next(1)[0];
            if command == COMMAND_TCP || command == COMMAND_UDP_ASSOCIATE {
                lemma_read_trojan_target_extended(t2.skip(1), more);
                let (target, t3) = read_trojan_target(t2.skip(1));
                if target is Ok {
                    lemma_read_crlf_extended(t3, more);
                }
            }
        }
    }
}

} // verus!
