//! The TUIC server side: users, authentication, and UDP sessions.

use vstd::prelude::*;

use crate::address::{law_ip_text_parses, same_octets, IpAddress, SocketAddress, SocketModel};
use crate::config::RouteRule;
use crate::delta::{
    apply_user_delta_to_keyed_map, follows_rule, key_view, keyed_full, keyed_outcome,
};
use crate::error::{eof, failure, fault, CoreError, ErrorKind, ErrorModel};
use crate::route::{udp_way, unsupported, RouteDecision, Way};
use crate::table::{cut, distinct, get, lemma_cut, lemma_put, put, Table, TableKey};
use crate::target::{target_result, SocksTarget, TargetModel};
use crate::numeral::is_digit;
use crate::text::{is_space, lemma_trimmed_to_nothing};
use crate::traffic::{recorded, TrafficRegistry};
use crate::tuic::{
    command_of, encode_udp_packet, encoded_packet, invalid, law_packet_reads_back, pair_value,
    parse_uuid_bytes, read_address, read_host, read_target, socket_addr_to_target, uuid_bytes,
    without_hyphens, CommandModel, PacketModel, UdpCommand, UdpPacket, ATYP_DOMAIN, ATYP_IPV4,
    ATYP_IPV6, COMMAND_AUTHENTICATE, COMMAND_CONNECT, VERSION,
};
use crate::tuic_fragments::{pushed, UdpFragmentStore};
use crate::user::{roster, CoreUser, CoreUserDelta, CoreUserDeltaResult};
use crate::wire::{extended, lemma_extended, same_bytes, sixteen_bytes, Exchange, Tape};

verus! {

/// How much a connection buffers of the datagrams of either direction.
pub const UDP_DATAGRAM_BUFFER_SIZE: usize = 1_048_576;

/// How long a packet may be that is received.
pub const UDP_PACKET_BUFFER_SIZE: usize = 65_536;

impl TableKey for [u8; 16] {
    fn same_key(&self, other: &[u8; 16]) -> (r: bool) {
        same_octets(self, other)
    }

    fn copy_key(&self) -> (r: [u8; 16]) {
        *self
    }
}

impl TableKey for u16 {
    fn same_key(&self, other: &u16) -> (r: bool) {
        *self == *other
    }

    fn copy_key(&self) -> (r: u16) {
        *self
    }
}

/// Settings of a TUIC server.
#[derive(Debug)]
pub struct TuicServerConfig {
    pub node_tag: String,
    pub listen: SocketAddress,
    pub users: Vec<CoreUser>,
    pub routes: Vec<RouteRule>,
    pub cert_file: String,
    pub key_file: String,
    pub server_name: String,
    pub alpn: Vec<String>,
    pub reject_unknown_sni: bool,
    pub congestion_control: String,
    pub connect_timeout_millis: u64,
}

/// A TUIC server: its settings, and its users under the bytes of their uuids.
#[derive(Debug)]
pub struct TuicServer {
    pub config: TuicServerConfig,
    pub users: Table<[u8; 16], CoreUser>,
}

/// The key of a user: the bytes of the uuid.
pub open spec fn uuid_rule() -> spec_fn(CoreUser) -> Option<Seq<u8>> {
    |user: CoreUser|
        match uuid_bytes(user.uuid@) {
            Ok(bytes) => Some(bytes),
            Err(_) => None,
        }
}

/// The users of a list under the bytes of their uuids; users whose uuid has none are left out.
pub open spec fn users_by_uuid(users: Seq<CoreUser>) -> Seq<(Seq<u8>, CoreUser)>
    decreases users.len(),
{
    if users.len() == 0 {
        Seq::empty()
    } else {
        let rest = users_by_uuid(users.subrange(0, users.len() - 1));
        let last = users[users.len() - 1];
        match uuid_rule()(last) {
            Some(bytes) => put(rest, bytes, last),
            None => rest,
        }
    }
}

/// The bytes of the uuid of a user.
fn uuid_of(user: &CoreUser) -> (r: Option<[u8; 16]>)
    ensures
        key_view(r) == uuid_rule()(*user),
{
    match parse_uuid_bytes(user.uuid.as_str()) {
        Ok(bytes) => Some(bytes),
        Err(_) => None,
    }
}

/// The users of a list under the bytes of their uuids.
pub fn tuic_user_map(users: &[CoreUser]) -> (r: Table<[u8; 16], CoreUser>)
    ensures
        r.wf(),
        r@ == users_by_uuid(users@),
{
    let mut map: Table<[u8; 16], CoreUser> = Table::new();
    let mut i: usize = 0;
    while i < users.len()
        invariant
            i <= users@.len(),
            map.wf(),
            map@ == users_by_uuid(users@.subrange(0, i as int)),
        decreases users.len() - i,
    {
        let ghost longer = users@.subrange(0, i + 1);
        assert(longer.subrange(0, longer.len() - 1) == users@.subrange(0, i as int));
        if let Some(key) = uuid_of(&users[i]) {
            map.insert(key, users[i].clone());
        }
        i += 1;
    }
    assert(users@.subrange(0, users@.len() as int) == users@);
    map
}

/// What a client presents to be authenticated, and the user that it claims to be.
#[derive(Debug)]
pub struct Authentication {
    pub uuid: Vec<u8>,
    pub token: Vec<u8>,
    pub user: CoreUser,
}

/// Reading an authentication command: the uuid, the token, and the user with the uuid.
pub open spec fn authentication(users: Seq<(Seq<u8>, CoreUser)>, t: Tape) -> (
    Result<(Seq<u8>, Seq<u8>, CoreUser), ErrorModel>,
    Tape,
) {
    if !t.offers(2) {
        (Err(eof()), t)
    } else if t.next(2) != seq![VERSION, COMMAND_AUTHENTICATE] {
        (
            Err(fault(ErrorKind::PermissionDenied, "invalid tuic authentication command"@)),
            t.skip(2),
        )
    } else {
        let t1 = t.skip(2);
        if !t1.offers(16) {
            (Err(eof()), t1)
        } else {
            let t2 = t1.skip(16);
            if !t2.offers(32) {
                (Err(eof()), t2)
            } else {
                match get(users, t1.next(16)) {
                    Some(user) => (Ok((t1.next(16), t2.next(32), user)), t2.skip(32)),
                    None => (
                        Err(fault(ErrorKind::PermissionDenied, "unknown tuic user"@)),
                        t2.skip(32),
                    ),
                }
            }
        }
    }
}

/// The view of a result whose value is an authentication.
pub open spec fn authentication_result(r: Result<Authentication, CoreError>) -> Result<
    (Seq<u8>, Seq<u8>, CoreUser),
    ErrorModel,
> {
    match r {
        Ok(a) => Ok((a.uuid@, a.token@, a.user)),
        Err(e) => Err(e@),
    }
}

impl Authentication {
    /// The user, where the token is the keying material that the connection exports for the uuid
    /// and the credential of the user.
    pub fn finish(self, expected: &[u8]) -> (r: Result<CoreUser, CoreError>)
        ensures
            match r {
                Ok(user) => expected@ == self.token@ && user == self.user,
                Err(e) => expected@ != self.token@ && e@ == fault(
                    ErrorKind::PermissionDenied,
                    "invalid tuic token"@,
                ),
            },
    {
        if same_bytes(expected, self.token.as_slice()) {
            Ok(self.user)
        } else {
            Err(failure(ErrorKind::PermissionDenied, "invalid tuic token"))
        }
    }
}

/// Reading a connect command: its target.
pub open spec fn connect_request(t: Tape) -> (Result<TargetModel, ErrorModel>, Tape) {
    if !t.offers(2) {
        (Err(eof()), t)
    } else if t.next(2) != seq![VERSION, COMMAND_CONNECT] {
        (Err(invalid("invalid tuic connect command"@)), t.skip(2))
    } else {
        read_target(t.skip(2))
    }
}

/// Reads the target of a connect command.
pub fn read_connect(stream: &mut Exchange) -> (r: Result<SocksTarget, CoreError>)
    requires
        old(stream).wf(),
    ensures
        final(stream).wf(),
        (target_result(r), final(stream)@) == connect_request(old(stream)@),
{
    let header = match stream.take(2) {
        Ok(header) => header,
        Err(e) => {
            return Err(e);
        },
    };
    if header[0] != VERSION || header[1] != COMMAND_CONNECT {
        return Err(failure(ErrorKind::InvalidData, "invalid tuic connect command"));
    }
    assert(header@ =~= seq![VERSION, COMMAND_CONNECT]);
    read_address(stream)
}

impl TuicServer {
    /// The users are under distinct keys.
    pub open spec fn wf(&self) -> bool {
        self.users.wf()
    }

    /// A server with the users of its settings.
    pub fn new(config: TuicServerConfig) -> (r: TuicServer)
        ensures
            r.wf(),
            r.config == config,
            r.users@ == users_by_uuid(config.users@),
    {
        let users = tuic_user_map(config.users.as_slice());
        TuicServer { config, users }
    }

    /// The application protocols that are negotiated: those of the settings, or else `h3`.
    pub fn alpn(&self) -> (r: Vec<String>)
        ensures
            self.config.alpn@.len() > 0 ==> r@ == self.config.alpn@,
            self.config.alpn@.len() == 0 ==> r@.len() == 1 && r@[0]@ == "h3"@,
    {
        let mut names: Vec<String> = Vec::new();
        if self.config.alpn.len() == 0 {
            names.push("h3".to_owned());
            return names;
        }
        let mut i: usize = 0;
        while i < self.config.alpn.len()
            invariant
                i <= self.config.alpn@.len(),
                names@ == self.config.alpn@.subrange(0, i as int),
            decreases self.config.alpn.len() - i,
        {
            names.push(self.config.alpn[i].clone());
            i += 1;
            assert(names@ =~= self.config.alpn@.subrange(0, i as int));
        }
        assert(names@ =~= self.config.alpn@);
        names
    }

    /// Makes the users of a list the users of the server.
    pub fn replace_users(&mut self, users: &[CoreUser])
        ensures
            final(self).wf(),
            final(self).config == old(self).config,
            final(self).users@ == users_by_uuid(users@),
    {
        self.users = tuic_user_map(users);
    }

    /// Applies a change to the users.
    pub fn apply_user_delta(&mut self, delta: &CoreUserDelta) -> (r: CoreUserDeltaResult)
        requires
            old(self).wf(),
        ensures
            final(self).wf(),
            final(self).config == old(self).config,
            keyed_outcome(old(self).users@, final(self).users@, *delta, uuid_rule(), r),
    {
        let r = apply_user_delta_to_keyed_map(&mut self.users, delta, uuid_of);
        proof {
            assert(follows_rule(uuid_of, uuid_rule()));
            assert(roster(old(self).users@) =~= old(self).users@);
            assert(roster(self.users@) =~= self.users@);
        }
        r
    }

    /// The user with the uuid.
    pub fn user_for_uuid(&self, uuid: &[u8; 16]) -> (r: Option<CoreUser>)
        ensures
            r == get(self.users@, uuid@),
    {
        match self.users.get(uuid) {
            Some(user) => Some(user.clone()),
            None => None,
        }
    }

    /// Reads an authentication command, and finds the user that it names.
    pub fn read_authentication(&self, stream: &mut Exchange) -> (r: Result<
        Authentication,
        CoreError,
    >)
        requires
            old(stream).wf(),
        ensures
            final(stream).wf(),
            (authentication_result(r), final(stream)@) == authentication(
                self.users@,
                old(stream)@,
            ),
    {
        let header = match stream.take(2) {
            Ok(header) => header,
            Err(e) => {
                return Err(e);
            },
        };
        if header[0] != VERSION || header[1] != COMMAND_AUTHENTICATE {
            return Err(
                failure(ErrorKind::PermissionDenied, "invalid tuic authentication command"),
            );
        }
        assert(header@ =~= seq![VERSION, COMMAND_AUTHENTICATE]);
        let uuid = match stream.take(16) {
            Ok(uuid) => uuid,
            Err(e) => {
                return Err(e);
            },
        };
        let token = match stream.take(32) {
            Ok(token) => token,
            Err(e) => {
                return Err(e);
            },
        };
        let key = sixteen_bytes(uuid.as_slice(), 0);
        assert(key@ =~= uuid@);
        match self.user_for_uuid(&key) {
            Some(user) => Ok(Authentication { uuid, token, user }),
            None => Err(failure(ErrorKind::PermissionDenied, "unknown tuic user")),
        }
    }

    /// Counts traffic of a user.
    pub fn record(
        &self,
        traffic: &mut TrafficRegistry,
        user_uuid: &str,
        user_id: u64,
        upload: u64,
        download: u64,
        client_ip: IpAddress,
    )
        requires
            old(traffic).wf(),
        ensures
            final(traffic).wf(),
            final(traffic)@ == recorded(
                old(traffic)@,
                (self.config.node_tag@, user_uuid@),
                Some(user_id),
                upload,
                download,
                Some(client_ip@.text()),
            ),
    {
        traffic.add_with_user_id(
            self.config.node_tag.as_str(),
            user_uuid,
            Some(user_id),
            upload,
            download,
            Some(client_ip),
        );
    }
}

/// How replies reach the client.
#[derive(Clone, Copy, Debug, PartialEq, Eq, Structural)]
pub enum UdpReplyMode {
    Datagram,
    UniStream,
}

/// Whether a reply can be sent: a datagram may not exceed what the connection carries, if it
/// carries datagrams at all.
pub open spec fn carries(mode: UdpReplyMode, max_datagram: Option<usize>, len: nat) -> bool {
    match mode {
        UdpReplyMode::UniStream => true,
        UdpReplyMode::Datagram => max_datagram is Some && len <= max_datagram->0,
    }
}

/// Whether a reply can be sent.
fn can_carry(mode: UdpReplyMode, max_datagram: Option<usize>, len: usize) -> (r: bool)
    ensures
        r == carries(mode, max_datagram, len as nat),
{
    match mode {
        UdpReplyMode::UniStream => true,
        UdpReplyMode::Datagram => match max_datagram {
            Some(max_size) => len <= max_size,
            None => false,
        },
    }
}

/// The sessions of a connection: for each association the socket that it relays over.
#[derive(Debug)]
pub struct UdpRelaySessions {
    pub sockets: Table<u16, u64>,
}

impl UdpRelaySessions {
    /// One session per association.
    pub open spec fn wf(&self) -> bool {
        self.sockets.wf()
    }

    /// No sessions.
    pub fn new() -> (r: UdpRelaySessions)
        ensures
            r.wf(),
            r.sockets@ == Seq::<(u16, u64)>::empty(),
    {
        UdpRelaySessions { sockets: Table::new() }
    }

    /// The socket of an association.
    pub fn socket(&self, assoc_id: u16) -> (r: Option<u64>)
        ensures
            r == get(self.sockets@, assoc_id),
    {
        match self.sockets.get(&assoc_id) {
            Some(socket) => Some(*socket),
            None => None,
        }
    }

    /// Whether a socket still relays for an association.
    pub fn is_open(&self, assoc_id: u16, socket: u64) -> (r: bool)
        ensures
            r == (get(self.sockets@, assoc_id) == Some(socket)),
    {
        match self.sockets.get(&assoc_id) {
            Some(open) => *open == socket,
            None => false,
        }
    }

    /// Begins a session over a socket, unless the association has one; gives the socket of the
    /// session that there is in the end.
    pub fn open(&mut self, assoc_id: u16, socket: u64) -> (r: u64)
        requires
            old(self).wf(),
        ensures
            final(self).wf(),
            match get(old(self).sockets@, assoc_id) {
                Some(open) => r == open && final(self).sockets@ == old(self).sockets@,
                None => r == socket && final(self).sockets@ == put(
                    old(self).sockets@,
                    assoc_id,
                    socket,
                ),
            },
    {
        if let Some(open) = self.socket(assoc_id) {
            return open;
        }
        self.sockets.insert(assoc_id, socket);
        socket
    }

    /// Ends the session of an association, and gives its socket.
    pub fn close(&mut self, assoc_id: u16) -> (r: Option<u64>)
        requires
            old(self).wf(),
        ensures
            final(self).wf(),
            r == get(old(self).sockets@, assoc_id),
            final(self).sockets@ == cut(old(self).sockets@, assoc_id),
    {
        self.sockets.remove(&assoc_id)
    }
}

/// A session that was begun is the one of its association until it is ended; the sessions of
/// other associations do not change.
pub proof fn law_session_lasts_until_closed(
    sockets: Seq<(u16, u64)>,
    assoc_id: u16,
    socket: u64,
    other: u16,
)
    requires
        distinct(sockets),
        other != assoc_id,
    ensures
        get(put(sockets, assoc_id, socket), assoc_id) == Some(socket),
        get(put(sockets, assoc_id, socket), other) == get(sockets, other),
        get(cut(put(sockets, assoc_id, socket), other), assoc_id) == Some(socket),
        get(cut(put(sockets, assoc_id, socket), assoc_id), assoc_id) is None,
        get(cut(put(sockets, assoc_id, socket), assoc_id), other) == get(sockets, other),
{
    let begun = put(sockets, assoc_id, socket);
    lemma_put(sockets, assoc_id, socket);
    lemma_cut(begun, assoc_id);
    lemma_cut(begun, other);
}

/// What a command asks for.
#[derive(Debug)]
pub enum CommandAction {
    Nothing,
    Packet(UdpPacket),
    Close(u64),
}

/// Takes a command: a packet, once it is whole, is to be relayed, and a session that is
/// dissociated is to be closed.
pub fn handle_udp_command(
    fragments: &mut UdpFragmentStore,
    sessions: &mut UdpRelaySessions,
    command: UdpCommand,
) -> (r: Result<CommandAction, CoreError>)
    requires
        old(fragments).wf(),
        old(sessions).wf(),
    ensures
        final(fragments).wf(),
        final(sessions).wf(),
        match command@ {
            CommandModel::Packet(p) => {
                &&& final(fragments)@ == pushed(old(fragments)@, p).1
                &&& final(sessions).sockets@ == old(sessions).sockets@
                &&& match pushed(old(fragments)@, p).0 {
                    Ok(Some(whole)) => r matches Ok(CommandAction::Packet(q)) && q@ == whole,
                    Ok(None) => r == Ok::<CommandAction, CoreError>(CommandAction::Nothing),
                    Err(e) => r is Err && r->Err_0@ == e,
                }
            },
            CommandModel::Dissociate(id) => {
                &&& final(fragments)@ == old(fragments)@
                &&& final(sessions).sockets@ == cut(old(sessions).sockets@, id)
                &&& r == Ok::<CommandAction, CoreError>(
                    match get(old(sessions).sockets@, id) {
                        Some(socket) => CommandAction::Close(socket),
                        None => CommandAction::Nothing,
                    },
                )
            },
            CommandModel::Heartbeat => {
                &&& final(fragments)@ == old(fragments)@
                &&& final(sessions).sockets@ == old(sessions).sockets@
                &&& r == Ok::<CommandAction, CoreError>(CommandAction::Nothing)
            },
        },
{
    match command {
        UdpCommand::Packet(packet) => match fragments.push(packet) {
            Ok(Some(whole)) => Ok(CommandAction::Packet(whole)),
            Ok(None) => Ok(CommandAction::Nothing),
            Err(e) => Err(e),
        },
        UdpCommand::Dissociate(id) => match sessions.close(id) {
            Some(socket) => Ok(CommandAction::Close(socket)),
            None => Ok(CommandAction::Nothing),
        },
        UdpCommand::Heartbeat => Ok(CommandAction::Nothing),
    }
}

/// A whole packet that is being relayed.
#[derive(Debug)]
pub struct PacketJob {
    pub assoc_id: u16,
    pub packet_id: u16,
    pub target: SocksTarget,
    pub payload: Vec<u8>,
}

/// What is to be done next with a packet.
#[derive(Clone, Copy, Debug, PartialEq, Eq, Structural)]
pub enum PacketAction {
    /// Nothing: the packet is dropped.
    Stop,
    /// Wait until the bandwidth of the user has room for the payload.
    Charge,
    /// Send the payload to the target through the outbound, and wait for the response.
    SendOutbound,
    /// Resolve the target, and find or open the session of the association.
    Resolve,
    /// Send the payload to the target from the socket of the session.
    SendDirect,
}

/// What a packet ends with: the reply to send, if any, and then the traffic to count.
#[derive(Debug)]
pub struct PacketReport {
    pub reply: Option<Vec<u8>>,
    pub upload: u64,
    pub download: u64,
}

/// The notation of the response to a packet.
pub open spec fn response_bytes(
    assoc_id: u16,
    packet_id: u16,
    source: SocketModel,
    response: Seq<u8>,
) -> Result<Seq<u8>, ErrorModel> {
    encoded_packet(
        PacketModel {
            assoc_id,
            packet_id,
            fragment_total: 1,
            fragment_id: 0,
            target: Some(TargetModel { host: source.ip.text(), port: source.port }),
            payload: response,
        },
    )
}

/// Begins to relay a packet; one that is not whole, or has no target, is dropped.
pub fn handle_udp_packet(packet: UdpPacket) -> (r: Option<PacketJob>)
    ensures
        match r {
            Some(job) => {
                &&& packet@.single()
                &&& packet.target == Some(job.target)
                &&& job.assoc_id == packet.assoc_id
                &&& job.packet_id == packet.packet_id
                &&& job.payload == packet.payload
            },
            None => !packet@.single() || packet.target is None,
        },
{
    if !packet.is_single_fragment() {
        return None;
    }
    match packet.target {
        Some(target) => Some(
            PacketJob {
                assoc_id: packet.assoc_id,
                packet_id: packet.packet_id,
                target,
                payload: packet.payload,
            },
        ),
        None => None,
    }
}

impl PacketJob {
    /// Goes on once the router has decided about the target.
    pub fn routed(&self, decision: &RouteDecision, limited: bool) -> (r: Result<
        PacketAction,
        CoreError,
    >)
        ensures
            match decision {
                RouteDecision::Direct => r == Ok::<PacketAction, CoreError>(PacketAction::Resolve),
                RouteDecision::Outbound(_) => r == Ok::<PacketAction, CoreError>(
                    if limited {
                        PacketAction::Charge
                    } else {
                        PacketAction::SendOutbound
                    },
                ),
                RouteDecision::Block => r == Ok::<PacketAction, CoreError>(PacketAction::Stop),
                RouteDecision::UnsupportedOutbound(tag) => r is Err && r->Err_0@ == unsupported(
                    tag@,
                ),
            },
    {
        match udp_way(decision) {
            Ok(Some(Way::Direct)) => Ok(PacketAction::Resolve),
            Ok(Some(Way::Outbound)) => if limited {
                Ok(PacketAction::Charge)
            } else {
                Ok(PacketAction::SendOutbound)
            },
            Ok(None) => Ok(PacketAction::Stop),
            Err(e) => Err(e),
        }
    }

    /// Goes on once the session of the association is known.
    pub fn opened(&self, sessions: &UdpRelaySessions, socket: u64, limited: bool) -> (r: PacketAction)
        ensures
            r == (if get(sessions.sockets@, self.assoc_id) != Some(socket) {
                PacketAction::Stop
            } else if limited {
                PacketAction::Charge
            } else {
                PacketAction::SendDirect
            }),
    {
        if !sessions.is_open(self.assoc_id, socket) {
            PacketAction::Stop
        } else if limited {
            PacketAction::Charge
        } else {
            PacketAction::SendDirect
        }
    }

    /// Goes on once the bandwidth of the user has room, or the user was revoked.
    pub fn charged(&self, way: Way, granted: bool) -> (r: PacketAction)
        ensures
            r == (if !granted {
                PacketAction::Stop
            } else {
                match way {
                    Way::Direct => PacketAction::SendDirect,
                    Way::Outbound => PacketAction::SendOutbound,
                }
            }),
    {
        if !granted {
            return PacketAction::Stop;
        }
        match way {
            Way::Direct => PacketAction::SendDirect,
            Way::Outbound => PacketAction::SendOutbound,
        }
    }

    /// Ends once the outbound has answered: the response is sent to the client where it can be,
    /// and the payload counts also where no response came in time.
    pub fn answered(
        &self,
        answer: Result<(SocketAddress, Vec<u8>), CoreError>,
        mode: UdpReplyMode,
        max_datagram: Option<usize>,
    ) -> (r: Result<PacketReport, CoreError>)
        ensures
            match answer {
                Ok((source, response)) => match response_bytes(
                    self.assoc_id,
                    self.packet_id,
                    source@,
                    response@,
                ) {
                    Ok(command) => {
                        &&& r is Ok
                        &&& r->Ok_0.upload == self.payload@.len()
                        &&& r->Ok_0.download == response@.len()
                        &&& match r->Ok_0.reply {
                            Some(reply) => reply@ == command && carries(
                                mode,
                                max_datagram,
                                command.len(),
                            ),
                            None => !carries(mode, max_datagram, command.len()),
                        }
                    },
                    Err(e) => r is Err && r->Err_0@ == e,
                },
                Err(e) => if e.kind == ErrorKind::WouldBlock || e.kind == ErrorKind::TimedOut {
                    &&& r is Ok
                    &&& r->Ok_0.upload == self.payload@.len()
                    &&& r->Ok_0.download == 0
                    &&& r->Ok_0.reply is None
                } else {
                    r == Err::<PacketReport, CoreError>(e)
                },
            },
    {
        let upload: u64 = self.payload.len() as u64;
        match answer {
            Ok((source, response)) => {
                let target = socket_addr_to_target(&source);
                let command = match encode_udp_packet(
                    self.assoc_id,
                    self.packet_id,
                    1,
                    0,
                    Some(&target),
                    response.as_slice(),
                ) {
                    Ok(command) => command,
                    Err(e) => {
                        return Err(e);
                    },
                };
                let download: u64 = response.len() as u64;
                let reply = if can_carry(mode, max_datagram, command.len()) {
                    Some(command)
                } else {
                    None
                };
                Ok(PacketReport { reply, upload, download })
            },
            Err(e) => {
                if e.kind == ErrorKind::WouldBlock || e.kind == ErrorKind::TimedOut {
                    Ok(PacketReport { reply: None, upload, download: 0 })
                } else {
                    Err(e)
                }
            },
        }
    }

    /// Ends once the payload was sent from the socket of the session.
    pub fn sent(&self) -> (r: PacketReport)
        ensures
            r.reply is None,
            r.upload == self.payload@.len(),
            r.download == 0,
    {
        PacketReport { reply: None, upload: self.payload.len() as u64, download: 0 }
    }
}

/// The replies of one session on their way to the client.
#[derive(Debug)]
pub struct UdpReplies {
    pub assoc_id: u16,
    pub next_packet_id: u16,
    pub mode: UdpReplyMode,
}

/// What is to be done with a reply.
#[derive(Debug)]
pub enum ReplyAction {
    /// Send the command, and then count the download.
    Send { command: Vec<u8>, download: u64 },
    /// The reply does not fit in a datagram: drop it, and go on.
    Skip,
    /// The connection carries no datagrams: end the session.
    Stop,
}

impl UdpReplies {
    /// The replies of a session that begins.
    pub fn new(assoc_id: u16, mode: UdpReplyMode) -> (r: UdpReplies)
        ensures
            r == (UdpReplies { assoc_id, next_packet_id: 0, mode }),
    {
        UdpReplies { assoc_id, next_packet_id: 0, mode }
    }

    /// Takes a reply from a peer; it gets the next packet id, also where it is not sent.
    pub fn reply(&mut self, peer: &SocketAddress, payload: &[u8], max_datagram: Option<usize>) -> (r:
        Result<ReplyAction, CoreError>)
        ensures
            final(self).assoc_id == old(self).assoc_id,
            final(self).mode == old(self).mode,
            final(self).next_packet_id == (old(self).next_packet_id + 1) % 65536,
            match response_bytes(old(self).assoc_id, old(self).next_packet_id, peer@, payload@) {
                Ok(bytes) => if carries(old(self).mode, max_datagram, bytes.len()) {
                    r matches Ok(ReplyAction::Send { command, download }) && command@ == bytes
                        && download == payload@.len()
                } else if max_datagram is None {
                    r == Ok::<ReplyAction, CoreError>(ReplyAction::Stop)
                } else {
                    r == Ok::<ReplyAction, CoreError>(ReplyAction::Skip)
                },
                Err(e) => r is Err && r->Err_0@ == e,
            },
    {
        let packet_id: u16 = self.next_packet_id;
        self.next_packet_id = if packet_id == 65535 {
            0
        } else {
            packet_id + 1
        };
        let target = socket_addr_to_target(peer);
        let command = match encode_udp_packet(
            self.assoc_id,
            packet_id,
            1,
            0,
            Some(&target),
            payload,
        ) {
            Ok(command) => command,
            Err(e) => {
                return Err(e);
            },
        };
        if can_carry(self.mode, max_datagram, command.len()) {
            return Ok(ReplyAction::Send { command, download: payload.len() as u64 });
        }
        if max_datagram.is_none() {
            Ok(ReplyAction::Stop)
        } else {
            Ok(ReplyAction::Skip)
        }
    }
}

/// A reply that could be written names its peer, its association and its packet id, and carries
/// its payload.
pub proof fn law_reply_reads_back(
    assoc_id: u16,
    packet_id: u16,
    source: SocketModel,
    response: Seq<u8>,
)
    requires
        source.ip.well_formed(),
        response.len() <= 65535,
    ensures
        response_bytes(assoc_id, packet_id, source, response) is Ok,
        command_of(response_bytes(assoc_id, packet_id, source, response)->Ok_0) == Ok::<
            CommandModel,
            ErrorModel,
        >(
            CommandModel::Packet(
                PacketModel {
                    assoc_id,
                    packet_id,
                    fragment_total: 1,
                    fragment_id: 0,
                    target: Some(TargetModel { host: source.ip.text(), port: source.port }),
                    payload: response,
                },
            ),
        ),
{
    law_ip_text_parses(source.ip);
    law_packet_reads_back(
        PacketModel {
            assoc_id,
            packet_id,
            fragment_total: 1,
            fragment_id: 0,
            target: Some(TargetModel { host: source.ip.text(), port: source.port }),
            payload: response,
        },
    );
}

/// A text without hyphens has only characters of the text.
proof fn lemma_without_hyphens(s: Seq<char>, i: int)
    requires
        0 <= i < without_hyphens(s).len(),
    ensures
        s.contains(without_hyphens(s)[i]),
    decreases s.len(),
{
    let init = s.subrange(0, s.len() - 1);
    if i < without_hyphens(init).len() {
        lemma_without_hyphens(init, i);
        let k = choose|k: int| 0 <= k < init.len() && init[k] == without_hyphens(init)[i];
        assert(s[k] == without_hyphens(s)[i]);
    } else {
        assert(s[s.len() - 1] == without_hyphens(s)[i]);
    }
}

/// A blank user has no key.
proof fn lemma_blank_has_no_key(user: CoreUser)
    requires
        user.blank(),
    ensures
        uuid_rule()(user) is None,
{
    let s = user.uuid@;
    let compact = without_hyphens(s);
    lemma_trimmed_to_nothing(s);
    if compact.len() == 32 {
        lemma_without_hyphens(s, 0);
        let k = choose|k: int| 0 <= k < s.len() && s[k] == compact[0];
        assert(is_space(s[k]));
        let pair = compact.subrange(0, 2);
        assert(pair[0] == compact[0]);
        assert(!is_digit(pair[0], 16));
        assert(pair_value(compact, 0) is None);
    }
}

/// Replacing the users leaves what a change with the full list leaves.
pub proof fn law_replacing_agrees_with_full_change(users: Seq<CoreUser>)
    ensures
        users_by_uuid(users) == keyed_full(users, uuid_rule()),
    decreases users.len(),
{
    if users.len() > 0 {
        law_replacing_agrees_with_full_change(users.subrange(0, users.len() - 1));
        let last = users[users.len() - 1];
        if last.blank() {
            lemma_blank_has_no_key(last);
        }
    }
}

/// Bytes that arrive later do not change what was read of an address, nor a refusal that is not
/// for want of bytes.
proof fn lemma_read_target_extended(t: Tape, more: Seq<u8>)
    requires
        t.wf(),
        read_target(t).0 != Err::<TargetModel, ErrorModel>(eof()),
    ensures
        read_target(extended(t, more)) == (read_target(t).0, extended(read_target(t).1, more)),
{
    lemma_extended(t, more);
    assert(t.offers(1));
    let kind = t.next(1)[0];
    let t1 = t.skip(1);
    lemma_extended(t1, more);
    if kind == ATYP_DOMAIN {
        assert(t1.offers(1));
        let n = t1.next(1)[0] as nat;
        lemma_extended(t1.skip(1), more);
        assert(t1.skip(1).offers(n));
    } else if kind == ATYP_IPV4 {
        assert(t1.offers(4));
    } else if kind == ATYP_IPV6 {
        assert(t1.offers(16));
    }
    let (host, t2) = read_host(t1, kind);
    if host is Ok {
        lemma_extended(t2, more);
        assert(t2.offers(2));
    }
}

/// Bytes that arrive later do not change what was read of a connect command, nor a refusal that
/// is not for want of bytes.
pub proof fn law_connect_is_incremental(t: Tape, more: Seq<u8>)
    requires
        t.wf(),
        connect_request(t).0 != Err::<TargetModel, ErrorModel>(eof()),
    ensures
        connect_request(extended(t, more)) == (
            connect_request(t).0,
            extended(connect_request(t).1, more),
        ),
{
    lemma_extended(t, more);
    assert(t.offers(2));
    if t.next(2) == seq![VERSION, COMMAND_CONNECT] {
        lemma_read_target_extended(t.skip(2), more);
    }
}

/// Bytes that arrive later do not change what was read of an authentication command, nor a
/// refusal that is not for want of bytes.
pub proof fn law_authentication_is_incremental(
    users: Seq<(Seq<u8>, CoreUser)>,
    t: Tape,
    more: Seq<u8>,
)
    requires
        t.wf(),
        authentication(users, t).0 != Err::<(Seq<u8>, Seq<u8>, CoreUser), ErrorModel>(eof()),
    ensures
        authentication(users, extended(t, more)) == (
            authentication(users, t).0,
            extended(authentication(users, t).1, more),
        ),
{
    lemma_extended(t, more);
    assert(t.offers(2));
    if t.next(2) == seq![VERSION, COMMAND_AUTHENTICATE] {
        let t1 = t.skip(2);
        lemma_extended(t1, more);
        assert(t1.offers(16));
        let t2 = t1.skip(16);
        lemma_extended(t2, more);
        assert(t2.offers(32));
    }
}

} // verus!
