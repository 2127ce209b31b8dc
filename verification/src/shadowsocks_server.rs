//! The Shadowsocks server side: finding the user of a request, and UDP sessions.

use vstd::prelude::*;

use crate::address::{IpAddress, SocketAddress, SocketModel};
use crate::config::RouteRule;
use crate::crypto::TAG_LEN;
use crate::delta::{active_user_list, active_users};
use crate::error::{eof, failure, fault, CoreError, ErrorKind, ErrorModel};
use crate::route::{udp_way, unsupported, RouteDecision, Way};
use crate::shadowsocks::{
    announced_length, cannot_open, chunk_length, law_request_reads_back, no_salt,
    parse_request_payload, random_salt, request_payload, session_cipher, CipherModel, ShadowsocksCipher,
    ShadowsocksMethod, ShadowsocksReader,
};
use crate::table::{cut, distinct, get, lemma_find, put, Table};
use crate::target::{address_bytes, push_address, SocksTarget, TargetModel};
use crate::traffic::{ip_text, recorded, saturated, TrafficRegistry};
use crate::user::CoreUser;
use crate::wire::{copy_bytes, extended, lemma_extended, push_bytes, Exchange, Tape};

verus! {

/// How long a UDP client is remembered after its last packet, in milliseconds.
pub const UDP_SESSION_TTL_MILLIS: u64 = 300_000;

/// Settings of a Shadowsocks server.
#[derive(Debug)]
pub struct ShadowsocksServerConfig {
    pub node_tag: String,
    pub listen: SocketAddress,
    pub method: String,
    pub users: Vec<CoreUser>,
    pub routes: Vec<RouteRule>,
    pub connect_timeout_millis: u64,
}

/// A Shadowsocks server: its settings, and its users.
#[derive(Debug)]
pub struct ShadowsocksServer {
    pub config: ShadowsocksServerConfig,
    pub users: Vec<CoreUser>,
}

/// A request over TCP: who asks for what, and the rest of the stream.
#[derive(Debug)]
pub struct ShadowsocksRequest {
    pub user: CoreUser,
    pub target: SocksTarget,
    pub initial_payload: Vec<u8>,
    pub client_reader: ShadowsocksReader,
    pub client_ip: Option<IpAddress>,
}

/// A request over UDP.
#[derive(Debug)]
pub struct ShadowsocksUdpRequest {
    pub user: CoreUser,
    pub target: SocksTarget,
    pub payload: Vec<u8>,
}

/// The payload length that a sealed head announces under the credential of a user, where that
/// credential opens it.
pub open spec fn length_for(
    user: CoreUser,
    method: ShadowsocksMethod,
    salt: Seq<u8>,
    sealed: Seq<u8>,
) -> Option<nat> {
    match session_cipher(method, user.credential_text(), salt).open_next(sealed) {
        Some(head) => match announced_length(head) {
            Ok(len) => Some(len),
            Err(_) => None,
        },
        None => None,
    }
}

/// The position of the first user whose credential opens a sealed head, or -1.
pub open spec fn owner_of_head(
    users: Seq<CoreUser>,
    method: ShadowsocksMethod,
    salt: Seq<u8>,
    sealed: Seq<u8>,
) -> int
    decreases users.len(),
{
    if users.len() == 0 {
        -1
    } else {
        let earlier = owner_of_head(users.subrange(0, users.len() - 1), method, salt, sealed);
        if earlier >= 0 {
            earlier
        } else if length_for(users[users.len() - 1], method, salt, sealed) is Some {
            users.len() - 1
        } else {
            -1
        }
    }
}

/// What a stream that begins asks for.
#[verifier::ext_equal]
pub struct RequestModel {
    pub user: CoreUser,
    pub target: TargetModel,
    pub initial_payload: Seq<u8>,
    pub cipher: CipherModel,
}

/// Reading a request: the salt, the head of the first chunk, which tells the user, and its
/// payload, which begins with the target.
pub open spec fn request(users: Seq<CoreUser>, method: ShadowsocksMethod, t: Tape) -> (
    Result<RequestModel, ErrorModel>,
    Tape,
) {
    let n = method.key_size();
    if !t.offers(n) {
        (Err(eof()), t)
    } else {
        let salt = t.next(n);
        let t1 = t.skip(n);
        if !t1.offers(18) {
            (Err(eof()), t1)
        } else {
            let sealed = t1.next(18);
            let t2 = t1.skip(18);
            let owner = owner_of_head(users, method, salt, sealed);
            if owner < 0 {
                (Err(fault(ErrorKind::PermissionDenied, "unknown shadowsocks user"@)), t2)
            } else {
                let user = users[owner];
                let len = length_for(user, method, salt, sealed)->0;
                let c = session_cipher(method, user.credential_text(), salt).advanced();
                if !t2.offers(len + 16) {
                    (Err(eof()), t2)
                } else {
                    let t3 = t2.skip(len + 16);
                    match c.open_next(t2.next(len + 16)) {
                        None => (Err(cannot_open()), t3),
                        Some(payload) => match request_payload(payload) {
                            Err(e) => (Err(e), t3),
                            Ok((target, initial_payload)) => (
                                Ok(
                                    RequestModel {
                                        user,
                                        target,
                                        initial_payload,
                                        cipher: c.advanced(),
                                    },
                                ),
                                t3,
                            ),
                        },
                    }
                }
            }
        }
    }
}

/// The view of a result whose value is a request.
pub open spec fn request_result(r: Result<ShadowsocksRequest, CoreError>) -> Result<
    RequestModel,
    ErrorModel,
> {
    match r {
        Ok(q) => Ok(
            RequestModel {
                user: q.user,
                target: q.target@,
                initial_payload: q.initial_payload@,
                cipher: q.client_reader.cipher@,
            },
        ),
        Err(e) => Err(e@),
    }
}

/// The position of the first user whose credential opens a packet, or -1.
pub open spec fn owner_of_packet(
    users: Seq<CoreUser>,
    method: ShadowsocksMethod,
    salt: Seq<u8>,
    sealed: Seq<u8>,
) -> int
    decreases users.len(),
{
    if users.len() == 0 {
        -1
    } else {
        let earlier = owner_of_packet(users.subrange(0, users.len() - 1), method, salt, sealed);
        if earlier >= 0 {
            earlier
        } else if session_cipher(
            method,
            users[users.len() - 1].credential_text(),
            salt,
        ).open_next(sealed) is Some {
            users.len() - 1
        } else {
            -1
        }
    }
}

/// The user, the target and the payload of a packet.
pub open spec fn udp_request(users: Seq<CoreUser>, method: ShadowsocksMethod, packet: Seq<u8>) -> Result<
    (CoreUser, TargetModel, Seq<u8>),
    ErrorModel,
> {
    let n = method.key_size() as int;
    if packet.len() <= n + TAG_LEN {
        Err(fault(ErrorKind::UnexpectedEof, "shadowsocks udp packet too short"@))
    } else {
        let salt = packet.subrange(0, n);
        let sealed = packet.subrange(n, packet.len() as int);
        let owner = owner_of_packet(users, method, salt, sealed);
        if owner < 0 {
            Err(fault(ErrorKind::PermissionDenied, "unknown shadowsocks udp user"@))
        } else {
            let user = users[owner];
            let opened = session_cipher(method, user.credential_text(), salt).open_next(sealed)->0;
            match request_payload(opened) {
                Ok((target, payload)) => Ok((user, target, payload)),
                Err(e) => Err(e),
            }
        }
    }
}

/// The view of a result whose value is a UDP request.
pub open spec fn udp_request_result(r: Result<ShadowsocksUdpRequest, CoreError>) -> Result<
    (CoreUser, TargetModel, Seq<u8>),
    ErrorModel,
> {
    match r {
        Ok(q) => Ok((q.user, q.target@, q.payload@)),
        Err(e) => Err(e@),
    }
}

/// A packet to a client: a salt, and sealed under it where the payload came from and the
/// payload.
pub open spec fn udp_packet(
    method: ShadowsocksMethod,
    credential: Seq<char>,
    salt: Seq<u8>,
    source: SocketModel,
    payload: Seq<u8>,
) -> Seq<u8> {
    salt + session_cipher(method, credential, salt).seal(address_bytes(source) + payload)
}

impl ShadowsocksServer {
    /// A server with the users of its settings; blank users are left out.
    pub fn new(config: ShadowsocksServerConfig) -> (r: ShadowsocksServer)
        ensures
            r.config == config,
            r.users@ == active_users(config.users@),
    {
        let users = active_user_list(config.users.as_slice());
        ShadowsocksServer { config, users }
    }

    /// Makes the users of a list the users of the server; blank users are left out.
    pub fn replace_users(&mut self, users: &[CoreUser])
        ensures
            final(self).config == old(self).config,
            final(self).users@ == active_users(users@),
    {
        self.users = active_user_list(users);
    }

    /// Finds the user whose credential opens a sealed head, the cipher, and the announced length.
    fn find_owner(&self, method: ShadowsocksMethod, salt: &[u8], sealed: &[u8]) -> (r: Option<
        (usize, ShadowsocksCipher, usize),
    >)
        ensures
            match r {
                Some((i, cipher, len)) => {
                    &&& i < self.users@.len()
                    &&& i == owner_of_head(self.users@, method, salt@, sealed@)
                    &&& cipher.wf()
                    &&& cipher@ == session_cipher(
                        method,
                        self.users@[i as int].credential_text(),
                        salt@,
                    ).advanced()
                    &&& length_for(self.users@[i as int], method, salt@, sealed@) == Some(len as nat)
                },
                None => owner_of_head(self.users@, method, salt@, sealed@) < 0,
            },
    {
        let mut i: usize = 0;
        while i < self.users.len()
            invariant
                i <= self.users@.len(),
                owner_of_head(self.users@.subrange(0, i as int), method, salt@, sealed@) < 0,
            decreases self.users.len() - i,
        {
            let ghost longer = self.users@.subrange(0, i + 1);
            assert(longer.subrange(0, longer.len() - 1) == self.users@.subrange(0, i as int));
            let user = &self.users[i];
            if let Ok(mut cipher) = ShadowsocksCipher::new(method, user.credential(), salt) {
                let mut head = copy_bytes(sealed, 0, sealed.len());
                assert(head@ =~= sealed@);
                if cipher.decrypt(&mut head).is_ok() {
                    if let Ok(len) = chunk_length(head.as_slice()) {
                        proof {
                            lemma_owner_prefix(self.users@, method, salt@, sealed@, i as int);
                        }
                        return Some((i, cipher, len));
                    }
                }
            }
            i += 1;
        }
        assert(self.users@.subrange(0, self.users@.len() as int) == self.users@);
        None
    }

    /// Reads a request from the beginning of a stream.
    pub fn read_request(&self, stream: &mut Exchange, method: ShadowsocksMethod) -> (r: Result<
        ShadowsocksRequest,
        CoreError,
    >)
        requires
            old(stream).wf(),
        ensures
            final(stream).wf(),
            (request_result(r), final(stream)@) == request(self.users@, method, old(stream)@),
            r is Ok ==> r->Ok_0.client_reader.cipher.wf() && r->Ok_0.client_reader.buffer@.len()
                == 0 && r->Ok_0.client_ip is None,
    {
        let salt = match stream.take(method.salt_len()) {
            Ok(salt) => salt,
            Err(e) => {
                return Err(e);
            },
        };
        let sealed = match stream.take(2 + TAG_LEN) {
            Ok(sealed) => sealed,
            Err(e) => {
                return Err(e);
            },
        };
        match self.find_owner(method, salt.as_slice(), sealed.as_slice()) {
            Some((i, mut cipher, len)) => {
                let mut payload = match stream.take(len + TAG_LEN) {
                    Ok(payload) => payload,
                    Err(e) => {
                        return Err(e);
                    },
                };
                match cipher.decrypt(&mut payload) {
                    Ok(()) => {},
                    Err(e) => {
                        return Err(e);
                    },
                }
                match parse_request_payload(payload) {
                    Ok((target, initial_payload)) => Ok(
                        ShadowsocksRequest {
                            user: self.users[i].clone(),
                            target,
                            initial_payload,
                            client_reader: ShadowsocksReader::with_cipher(cipher),
                            client_ip: None,
                        },
                    ),
                    Err(e) => Err(e),
                }
            },
            None => Err(failure(ErrorKind::PermissionDenied, "unknown shadowsocks user")),
        }
    }

    /// Reads a request from a packet.
    pub fn read_udp_request(&self, packet: &[u8], method: ShadowsocksMethod) -> (r: Result<
        ShadowsocksUdpRequest,
        CoreError,
    >)
        ensures
            udp_request_result(r) == udp_request(self.users@, method, packet@),
    {
        let n: usize = method.salt_len();
        if packet.len() <= n + TAG_LEN {
            return Err(failure(ErrorKind::UnexpectedEof, "shadowsocks udp packet too short"));
        }
        let salt = vstd::slice::slice_subrange(packet, 0, n);
        let sealed = vstd::slice::slice_subrange(packet, n, packet.len());
        let mut i: usize = 0;
        while i < self.users.len()
            invariant
                i <= self.users@.len(),
                n == method.key_size(),
                packet@.len() > n + TAG_LEN,
                salt@ == packet@.subrange(0, n as int),
                sealed@ == packet@.subrange(n as int, packet@.len() as int),
                owner_of_packet(self.users@.subrange(0, i as int), method, salt@, sealed@) < 0,
            decreases self.users.len() - i,
        {
            let ghost longer = self.users@.subrange(0, i + 1);
            assert(longer.subrange(0, longer.len() - 1) == self.users@.subrange(0, i as int));
            let user = &self.users[i];
            if let Ok(mut cipher) = ShadowsocksCipher::new(method, user.credential(), salt) {
                let mut payload = copy_bytes(sealed, 0, sealed.len());
                assert(payload@ =~= sealed@);
                if cipher.decrypt(&mut payload).is_ok() {
                    proof {
                        lemma_packet_owner_prefix(self.users@, method, salt@, sealed@, i as int);
                    }
                    return match parse_request_payload(payload) {
                        Ok((target, payload)) => Ok(
                            ShadowsocksUdpRequest { user: user.clone(), target, payload },
                        ),
                        Err(e) => Err(e),
                    };
                }
            }
            i += 1;
        }
        assert(self.users@.subrange(0, self.users@.len() as int) == self.users@);
        Err(failure(ErrorKind::PermissionDenied, "unknown shadowsocks udp user"))
    }
}

/// The first user that opens a head is found in every list that begins with these users.
pub proof fn lemma_owner_prefix(
    users: Seq<CoreUser>,
    method: ShadowsocksMethod,
    salt: Seq<u8>,
    sealed: Seq<u8>,
    i: int,
)
    requires
        0 <= i < users.len(),
        owner_of_head(users.subrange(0, i), method, salt, sealed) < 0,
        length_for(users[i], method, salt, sealed) is Some,
    ensures
        owner_of_head(users, method, salt, sealed) == i,
    decreases users.len(),
{
    if i == users.len() - 1 {
    } else {
        let init = users.subrange(0, users.len() - 1);
        assert(init.subrange(0, i) == users.subrange(0, i));
        lemma_owner_prefix(init, method, salt, sealed, i);
    }
}

/// The first user that opens a packet is found in every list that begins with these users.
pub proof fn lemma_packet_owner_prefix(
    users: Seq<CoreUser>,
    method: ShadowsocksMethod,
    salt: Seq<u8>,
    sealed: Seq<u8>,
    i: int,
)
    requires
        0 <= i < users.len(),
        owner_of_packet(users.subrange(0, i), method, salt, sealed) < 0,
        session_cipher(method, users[i].credential_text(), salt).open_next(sealed) is Some,
    ensures
        owner_of_packet(users, method, salt, sealed) == i,
    decreases users.len(),
{
    if i == users.len() - 1 {
    } else {
        let init = users.subrange(0, users.len() - 1);
        assert(init.subrange(0, i) == users.subrange(0, i));
        lemma_packet_owner_prefix(init, method, salt, sealed, i);
    }
}

/// Seals a packet to a client under the given salt. The credential opens it again to the source
/// and the payload.
pub fn seal_udp_packet(
    method: ShadowsocksMethod,
    user: &CoreUser,
    salt: &[u8],
    source: &SocketAddress,
    payload: &[u8],
) -> (r: Result<Vec<u8>, CoreError>)
    ensures
        match r {
            Ok(packet) => {
                &&& address_bytes(source@).len() + payload@.len() <= method.limit()
                &&& packet@ == udp_packet(
                    method,
                    user.credential_text(),
                    salt@,
                    source@,
                    payload@,
                )
                &&& packet@.len() == salt@.len() + address_bytes(source@).len() + payload@.len()
                    + TAG_LEN
                &&& session_cipher(method, user.credential_text(), salt@).open_next(
                    packet@.subrange(salt@.len() as int, packet@.len() as int),
                ) == Some(address_bytes(source@) + payload@)
            },
            Err(e) => {
                &&& address_bytes(source@).len() + payload@.len() > method.limit()
                &&& e@ == fault(ErrorKind::InvalidData, "encrypt chunk"@)
            },
        },
{
    let mut cipher = match ShadowsocksCipher::new(method, user.credential(), salt) {
        Ok(cipher) => cipher,
        Err(e) => {
            return Err(e);
        },
    };
    let mut body: Vec<u8> = Vec::new();
    push_address(&mut body, source);
    push_bytes(&mut body, payload);
    assert(body@ =~= address_bytes(source@) + payload@);
    match cipher.encrypt(&mut body) {
        Ok(()) => {},
        Err(e) => {
            return Err(e);
        },
    }
    let mut output: Vec<u8> = Vec::new();
    push_bytes(&mut output, salt);
    push_bytes(&mut output, body.as_slice());
    assert(output@ =~= salt@ + body@);
    assert(output@.subrange(salt@.len() as int, output@.len() as int) =~= body@);
    Ok(output)
}

/// Seals a packet to a client under a random salt. It fails where the system gives no random
/// bytes, and where the packet is too long for the cipher.
pub fn encode_udp_packet(
    method: ShadowsocksMethod,
    user: &CoreUser,
    source: &SocketAddress,
    payload: &[u8],
) -> (r: Result<Vec<u8>, CoreError>)
    ensures
        r matches Ok(packet) ==> {
            let n = method.key_size() as int;
            &&& packet@.len() == n + address_bytes(source@).len() + payload@.len() + TAG_LEN
            &&& packet@ == udp_packet(
                method,
                user.credential_text(),
                packet@.subrange(0, n),
                source@,
                payload@,
            )
            &&& session_cipher(method, user.credential_text(), packet@.subrange(0, n)).open_next(
                packet@.subrange(n, packet@.len() as int),
            ) == Some(address_bytes(source@) + payload@)
            &&& address_bytes(source@).len() + payload@.len() <= method.limit()
        },
        r matches Err(e) ==> no_salt(e) || (address_bytes(source@).len()
            + payload@.len() > method.limit() && e@ == fault(
            ErrorKind::InvalidData,
            "encrypt chunk"@,
        )),
{
    match random_salt(method) {
        Ok(salt) => {
            let r = seal_udp_packet(method, user, salt.as_slice(), source, payload);
            proof {
                if r is Ok {
                    assert(r->Ok_0@.subrange(0, method.key_size() as int) =~= salt@);
                }
            }
            r
        },
        Err(e) => Err(e),
    }
}

/// A packet that the credential of a user opens to an address and a payload is that user's
/// request, unless the credential of an earlier user opens it too.
pub proof fn law_sealed_packet_is_read(
    users: Seq<CoreUser>,
    i: int,
    method: ShadowsocksMethod,
    packet: Seq<u8>,
    source: SocketModel,
    payload: Seq<u8>,
)
    requires
        source.ip.well_formed(),
        packet.len() > method.key_size() + TAG_LEN,
        0 <= i < users.len(),
        ({
            let n = method.key_size() as int;
            let salt = packet.subrange(0, n);
            let sealed = packet.subrange(n, packet.len() as int);
            &&& session_cipher(method, users[i].credential_text(), salt).open_next(sealed) == Some(
                address_bytes(source) + payload,
            )
            &&& forall|j: int|
                0 <= j < i ==> session_cipher(
                    method,
                    (#[trigger] users[j]).credential_text(),
                    salt,
                ).open_next(sealed) is None
        }),
    ensures
        udp_request(users, method, packet) == Ok::<(CoreUser, TargetModel, Seq<u8>), ErrorModel>(
            (users[i], TargetModel { host: source.ip.text(), port: source.port }, payload),
        ),
{
    let n = method.key_size() as int;
    let salt = packet.subrange(0, n);
    let sealed = packet.subrange(n, packet.len() as int);
    lemma_no_packet_owner(users.subrange(0, i), method, salt, sealed);
    lemma_packet_owner_prefix(users, method, salt, sealed, i);
    law_request_reads_back(source, payload);
}

/// A packet that no credential opens has no owner.
pub proof fn lemma_no_packet_owner(
    users: Seq<CoreUser>,
    method: ShadowsocksMethod,
    salt: Seq<u8>,
    sealed: Seq<u8>,
)
    requires
        forall|j: int|
            0 <= j < users.len() ==> session_cipher(
                method,
                (#[trigger] users[j]).credential_text(),
                salt,
            ).open_next(sealed) is None,
    ensures
        owner_of_packet(users, method, salt, sealed) < 0,
    decreases users.len(),
{
    if users.len() > 0 {
        let init = users.subrange(0, users.len() - 1);
        assert forall|j: int| 0 <= j < init.len() implies session_cipher(
            method,
            (#[trigger] init[j]).credential_text(),
            salt,
        ).open_next(sealed) is None by {
            assert(init[j] == users[j]);
        }
        lemma_no_packet_owner(init, method, salt, sealed);
    }
}

/// Bytes that arrive later do not change a request that was read, nor a refusal that is not for
/// want of bytes. A first chunk that has arrived as a whole is refused once and for all, also
/// where its target is cut short.
pub proof fn law_request_is_incremental(
    users: Seq<CoreUser>,
    method: ShadowsocksMethod,
    t: Tape,
    more: Seq<u8>,
)
    requires
        t.wf(),
        request(users, method, t).0 == Err::<RequestModel, ErrorModel>(eof()) ==> request(
            users,
            method,
            t,
        ).1.position > t.position + method.key_size() + 18,
    ensures
        request(users, method, extended(t, more)) == (
            request(users, method, t).0,
            extended(request(users, method, t).1, more),
        ),
{
    let n = method.key_size();
    lemma_extended(t, more);
    assert(t.offers(n));
    let t1 = t.skip(n);
    lemma_extended(t1, more);
    assert(t1.offers(18));
    let t2 = t1.skip(18);
    lemma_extended(t2, more);
    let owner = owner_of_head(users, method, t.next(n), t1.next(18));
    if owner >= 0 {
        let len = length_for(users[owner], method, t.next(n), t1.next(18))->0;
        assert(t2.offers(len + 16));
    }
}

/// A UDP client: its user, and when it was last seen, in milliseconds of a running clock.
#[derive(Debug)]
pub struct UdpClientSession {
    pub user_uuid: String,
    pub last_seen: u64,
}

/// Whom packets from a remote address belong to.
#[derive(Debug)]
pub struct UdpClientContext {
    pub client_addr: SocketAddress,
    pub user: CoreUser,
}

impl Clone for UdpClientContext {
    fn clone(&self) -> (r: UdpClientContext)
        ensures
            r == *self,
    {
        UdpClientContext { client_addr: self.client_addr, user: self.user.clone() }
    }
}

/// The clients of a UDP listener, and the remote addresses that they sent to.
#[derive(Debug)]
pub struct UdpSessions {
    pub clients: Table<SocketAddress, UdpClientSession>,
    pub remotes: Table<SocketAddress, UdpClientContext>,
}

/// Whether a client was last seen too long ago.
pub open spec fn is_stale(session: UdpClientSession, now: u64) -> bool {
    now - session.last_seen > UDP_SESSION_TTL_MILLIS
}

/// Whether the client at an address is known and was last seen too long ago.
pub open spec fn is_gone(
    clients: Seq<(SocketModel, UdpClientSession)>,
    client: SocketModel,
    now: u64,
) -> bool {
    match get(clients, client) {
        Some(session) => is_stale(session, now),
        None => false,
    }
}

/// The clients that were seen lately.
pub open spec fn live_clients(s: Seq<(SocketModel, UdpClientSession)>, now: u64) -> Seq<
    (SocketModel, UdpClientSession),
>
    decreases s.len(),
{
    if s.len() == 0 {
        Seq::empty()
    } else {
        let rest = live_clients(s.subrange(0, s.len() - 1), now);
        let last = s[s.len() - 1];
        if is_stale(last.1, now) {
            rest
        } else {
            rest.push(last)
        }
    }
}

/// The remote addresses whose clients are not gone.
pub open spec fn live_remotes(
    s: Seq<(SocketModel, UdpClientContext)>,
    clients: Seq<(SocketModel, UdpClientSession)>,
    now: u64,
) -> Seq<(SocketModel, UdpClientContext)>
    decreases s.len(),
{
    if s.len() == 0 {
        Seq::empty()
    } else {
        let rest = live_remotes(s.subrange(0, s.len() - 1), clients, now);
        let last = s[s.len() - 1];
        if is_gone(clients, last.1.client_addr@, now) {
            rest
        } else {
            rest.push(last)
        }
    }
}

/// The clients after a packet of a user came from an address: the client is seen now where it
/// is the same user, and forgotten where it is another.
pub open spec fn touched(
    s: Seq<(SocketModel, UdpClientSession)>,
    client: SocketModel,
    user_uuid: Seq<char>,
) -> Seq<(SocketModel, UdpClientSession)> {
    match get(s, client) {
        Some(session) => if session.user_uuid@ == user_uuid {
            s
        } else {
            cut(s, client)
        },
        None => s,
    }
}

impl UdpSessions {
    /// At most one entry per address.
    pub open spec fn wf(&self) -> bool {
        self.clients.wf() && self.remotes.wf()
    }

    /// No clients.
    pub fn new() -> (r: UdpSessions)
        ensures
            r.wf(),
            r.clients@.len() == 0,
            r.remotes@.len() == 0,
    {
        UdpSessions { clients: Table::new(), remotes: Table::new() }
    }

    /// Whether the client at an address is known and was last seen too long ago.
    fn gone(&self, client: &SocketAddress, now: u64) -> (r: bool)
        ensures
            r == is_gone(self.clients@, client@, now),
    {
        match self.clients.get(client) {
            Some(session) => session.last_seen < now && now - session.last_seen
                > UDP_SESSION_TTL_MILLIS,
            None => false,
        }
    }

    /// Forgets the clients that were last seen too long ago, and the remote addresses that they
    /// sent to.
    pub fn prune(&mut self, now: u64)
        requires
            old(self).wf(),
        ensures
            final(self).wf(),
            final(self).clients@ == live_clients(old(self).clients@, now),
            final(self).remotes@ == live_remotes(old(self).remotes@, old(self).clients@, now),
    {
        let ghost clients = self.clients@;
        let ghost remotes = self.remotes@;
        let mut i: usize = 0;
        let ghost mut seen: int = 0;
        assert(self.remotes@ =~= live_remotes(remotes.subrange(0, 0), clients, now)
            + remotes.subrange(0, remotes.len() as int));
        while i < self.remotes.len()
            invariant
                self.wf(),
                self.clients@ == clients,
                0 <= seen <= remotes.len(),
                i <= self.remotes@.len(),
                i == live_remotes(remotes.subrange(0, seen), clients, now).len(),
                self.remotes@ == live_remotes(remotes.subrange(0, seen), clients, now)
                    + remotes.subrange(seen, remotes.len() as int),
            decreases remotes.len() - seen,
        {
            let ghost head = live_remotes(remotes.subrange(0, seen), clients, now);
            proof {
                let longer = remotes.subrange(0, seen + 1);
                assert(longer.subrange(0, longer.len() - 1) == remotes.subrange(0, seen));
                assert(self.remotes@[i as int] == remotes[seen]);
            }
            let client = self.remotes.value_at(i).client_addr;
            if self.gone(&client, now) {
                let removed = self.remotes.remove_at(i);
                assert(self.remotes@ =~= head + remotes.subrange(seen + 1, remotes.len() as int));
            } else {
                i += 1;
                assert(self.remotes@ =~= head.push(remotes[seen]) + remotes.subrange(
                    seen + 1,
                    remotes.len() as int,
                ));
            }
            proof {
                seen = seen + 1;
            }
        }
        assert(self.remotes@ =~= live_remotes(remotes, clients, now)) by {
            assert(remotes.subrange(0, seen) =~= remotes);
        }
        let mut j: usize = 0;
        let ghost mut done: int = 0;
        assert(self.clients@ =~= live_clients(clients.subrange(0, 0), now) + clients.subrange(
            0,
            clients.len() as int,
        ));
        while j < self.clients.len()
            invariant
                self.wf(),
                self.remotes@ == live_remotes(remotes, clients, now),
                0 <= done <= clients.len(),
                j <= self.clients@.len(),
                j == live_clients(clients.subrange(0, done), now).len(),
                self.clients@ == live_clients(clients.subrange(0, done), now) + clients.subrange(
                    done,
                    clients.len() as int,
                ),
            decreases clients.len() - done,
        {
            let ghost head = live_clients(clients.subrange(0, done), now);
            proof {
                let longer = clients.subrange(0, done + 1);
                assert(longer.subrange(0, longer.len() - 1) == clients.subrange(0, done));
                assert(self.clients@[j as int] == clients[done]);
            }
            let last_seen: u64 = self.clients.value_at(j).last_seen;
            if last_seen < now && now - last_seen > UDP_SESSION_TTL_MILLIS {
                let removed = self.clients.remove_at(j);
                assert(self.clients@ =~= head + clients.subrange(done + 1, clients.len() as int));
            } else {
                j += 1;
                assert(self.clients@ =~= head.push(clients[done]) + clients.subrange(
                    done + 1,
                    clients.len() as int,
                ));
            }
            proof {
                done = done + 1;
            }
        }
        assert(self.clients@ =~= live_clients(clients, now)) by {
            assert(clients.subrange(0, done) =~= clients);
        }
    }

    /// Whether the client at an address is known for a user, who is then seen now. A client of
    /// another user is forgotten.
    pub fn touch(&mut self, client: &SocketAddress, user_uuid: &str, now: u64) -> (known: bool)
        requires
            old(self).wf(),
        ensures
            final(self).wf(),
            final(self).remotes == old(self).remotes,
            known == (match get(old(self).clients@, client@) {
                Some(session) => session.user_uuid@ == user_uuid@,
                None => false,
            }),
            known ==> {
                &&& final(self).clients@.len() == old(self).clients@.len()
                &&& get(final(self).clients@, client@) is Some
                &&& get(final(self).clients@, client@)->0.user_uuid@ == user_uuid@
                &&& get(final(self).clients@, client@)->0.last_seen == now
                &&& forall|other: SocketModel|
                    other != client@ ==> #[trigger] get(final(self).clients@, other) == get(
                        old(self).clients@,
                        other,
                    )
            },
            !known ==> final(self).clients@ == touched(old(self).clients@, client@, user_uuid@),
    {
        let ghost before = self.clients@;
        proof {
            lemma_find(before, client@);
        }
        let wanted = user_uuid.to_owned();
        match self.clients.position(client) {
            Some(i) => {
                if self.clients.value_at(i).user_uuid == wanted {
                    let session = self.clients.value_mut(i);
                    session.last_seen = now;
                    proof {
                        let value = self.clients@[i as int].1;
                        assert(self.clients@ =~= put(before, client@, value));
                        crate::table::lemma_put(before, client@, value);
                    }
                    true
                } else {
                    let removed = self.clients.remove_at(i);
                    false
                }
            },
            None => false,
        }
    }

    /// A client, where it is known, is seen now, since an answer went to it.
    pub fn seen(&mut self, client: &SocketAddress, now: u64)
        requires
            old(self).wf(),
        ensures
            final(self).wf(),
            final(self).remotes == old(self).remotes,
            match get(old(self).clients@, client@) {
                Some(session) => final(self).clients@ == put(
                    old(self).clients@,
                    client@,
                    UdpClientSession { last_seen: now, ..session },
                ),
                None => final(self).clients@ == old(self).clients@,
            },
    {
        let ghost before = self.clients@;
        proof {
            lemma_find(before, client@);
        }
        if let Some(i) = self.clients.position(client) {
            let session = self.clients.value_mut(i);
            session.last_seen = now;
            proof {
                let value = self.clients@[i as int].1;
                assert(self.clients@ =~= put(before, client@, value));
                crate::table::lemma_put(before, client@, value);
            }
        }
    }

    /// Remembers a client of a user, seen now.
    pub fn establish(&mut self, client: SocketAddress, user_uuid: &str, now: u64)
        requires
            old(self).wf(),
        ensures
            final(self).wf(),
            final(self).remotes == old(self).remotes,
            get(final(self).clients@, client@) is Some,
            get(final(self).clients@, client@)->0.user_uuid@ == user_uuid@,
            get(final(self).clients@, client@)->0.last_seen == now,
            forall|other: SocketModel|
                other != client@ ==> #[trigger] get(final(self).clients@, other) == get(
                    old(self).clients@,
                    other,
                ),
    {
        let session = UdpClientSession { user_uuid: user_uuid.to_owned(), last_seen: now };
        proof {
            crate::table::lemma_put(self.clients@, client@, session);
        }
        let old_session = self.clients.insert(client, session);
    }

    /// Remembers that a client sent to a remote address.
    pub fn remember_remote(&mut self, remote: SocketAddress, client: SocketAddress, user: &CoreUser)
        requires
            old(self).wf(),
        ensures
            final(self).wf(),
            final(self).clients == old(self).clients,
            final(self).remotes@ == put(
                old(self).remotes@,
                remote@,
                UdpClientContext { client_addr: client, user: *user },
            ),
    {
        let context = UdpClientContext { client_addr: client, user: user.clone() };
        let old_context = self.remotes.insert(remote, context);
    }
}

/// What to do with a packet that arrived.
#[derive(Debug)]
pub enum UdpPacketStep {
    /// It is a request of a client.
    Request(ShadowsocksUdpRequest),
    /// It is an answer to a client.
    Response(UdpClientContext),
    /// Neither.
    Ignore,
}

impl ShadowsocksServer {
    /// What to do with a packet: a request where a user's credential opens it and it reads as
    /// one, else an answer where a client sent to its source.
    pub fn udp_step(
        &self,
        sessions: &UdpSessions,
        method: ShadowsocksMethod,
        source: &SocketAddress,
        packet: &[u8],
    ) -> (r: UdpPacketStep)
        ensures
            match udp_request(self.users@, method, packet@) {
                Ok((user, target, payload)) => r matches UdpPacketStep::Request(q) && q.user == user
                    && q.target@ == target && q.payload@ == payload,
                Err(_) => match get(sessions.remotes@, source@) {
                    Some(context) => r == UdpPacketStep::Response(context),
                    None => r is Ignore,
                },
            },
    {
        match self.read_udp_request(packet, method) {
            Ok(request) => UdpPacketStep::Request(request),
            Err(_) => match sessions.remotes.get(source) {
                Some(context) => UdpPacketStep::Response(context.clone()),
                None => UdpPacketStep::Ignore,
            },
        }
    }

    /// Counts the UDP traffic of a user, where there is any.
    pub fn record_udp_traffic(
        &self,
        traffic: &mut TrafficRegistry,
        user_uuid: &str,
        upload: u64,
        download: u64,
        client_ip: Option<IpAddress>,
    )
        requires
            old(traffic).wf(),
        ensures
            final(traffic).wf(),
            final(traffic)@ == (if upload > 0 || download > 0 {
                recorded(
                    old(traffic)@,
                    (self.config.node_tag@, user_uuid@),
                    None,
                    upload,
                    download,
                    ip_text(client_ip),
                )
            } else {
                old(traffic)@
            }),
    {
        if upload > 0 || download > 0 {
            traffic.add_with_ip(
                self.config.node_tag.as_str(),
                user_uuid,
                upload,
                download,
                client_ip,
            );
        }
    }

    /// Counts the traffic of a finished TCP connection: what the request brought along, what was
    /// uploaded after it, and what was downloaded.
    pub fn record_relay(
        &self,
        traffic: &mut TrafficRegistry,
        user_uuid: &str,
        initial: u64,
        upload: u64,
        download: u64,
        client_ip: Option<IpAddress>,
    )
        requires
            old(traffic).wf(),
        ensures
            final(traffic).wf(),
            final(traffic)@ == recorded(
                old(traffic)@,
                (self.config.node_tag@, user_uuid@),
                None,
                saturated(initial, upload),
                download,
                ip_text(client_ip),
            ),
    {
        let total: u64 = initial.saturating_add(upload);
        traffic.add_with_ip(self.config.node_tag.as_str(), user_uuid, total, download, client_ip);
    }
}

/// What is to be done with a request over UDP.
#[derive(Clone, Copy, Debug, PartialEq, Eq, Structural)]
pub enum UdpRequestStep {
    /// Nothing: the request is dropped.
    Drop,
    /// Open a session for the user, and then go on that way.
    OpenSession(Way),
    /// Wait for the bandwidth of the user, and send the payload that way.
    Send(Way),
}

/// Begins with a request, given the route of its target: one that is blocked is dropped, and one
/// of a client that is not known for the user needs a session first.
pub fn handle_udp_request(
    sessions: &mut UdpSessions,
    client: &SocketAddress,
    request: &ShadowsocksUdpRequest,
    decision: &RouteDecision,
    now: u64,
) -> (r: Result<UdpRequestStep, CoreError>)
    requires
        old(sessions).wf(),
    ensures
        final(sessions).wf(),
        final(sessions).remotes == old(sessions).remotes,
        match decision {
            RouteDecision::Block => r == Ok::<UdpRequestStep, CoreError>(UdpRequestStep::Drop)
                && final(sessions).clients == old(sessions).clients,
            RouteDecision::UnsupportedOutbound(tag) => r is Err && r->Err_0@ == unsupported(tag@)
                && final(sessions).clients == old(sessions).clients,
            _ => {
                let way = if decision is Direct {
                    Way::Direct
                } else {
                    Way::Outbound
                };
                let uuid = request.user.uuid@;
                if known_client(old(sessions).clients@, client@, uuid) {
                    &&& r == Ok::<UdpRequestStep, CoreError>(UdpRequestStep::Send(way))
                    &&& known_client(final(sessions).clients@, client@, uuid)
                    &&& get(final(sessions).clients@, client@)->0.last_seen == now
                    &&& forall|other: SocketModel|
                        other != client@ ==> #[trigger] get(final(sessions).clients@, other)
                            == get(old(sessions).clients@, other)
                } else {
                    &&& r == Ok::<UdpRequestStep, CoreError>(UdpRequestStep::OpenSession(way))
                    &&& final(sessions).clients@ == touched(
                        old(sessions).clients@,
                        client@,
                        uuid,
                    )
                }
            },
        },
{
    let way = match udp_way(decision) {
        Ok(Some(way)) => way,
        Ok(None) => {
            return Ok(UdpRequestStep::Drop);
        },
        Err(e) => {
            return Err(e);
        },
    };
    if sessions.touch(client, request.user.uuid.as_str(), now) {
        Ok(UdpRequestStep::Send(way))
    } else {
        Ok(UdpRequestStep::OpenSession(way))
    }
}

/// Whether a client is known for a user.
pub open spec fn known_client(
    clients: Seq<(SocketModel, UdpClientSession)>,
    client: SocketModel,
    user_uuid: Seq<char>,
) -> bool {
    match get(clients, client) {
        Some(session) => session.user_uuid@ == user_uuid,
        None => false,
    }
}

/// Goes on with a request once a session was asked for: a client that is refused one is dropped
/// without an error.
pub fn udp_session_opened(
    sessions: &mut UdpSessions,
    client: SocketAddress,
    request: &ShadowsocksUdpRequest,
    way: Way,
    opened: Result<(), CoreError>,
    now: u64,
) -> (r: Result<UdpRequestStep, CoreError>)
    requires
        old(sessions).wf(),
    ensures
        final(sessions).wf(),
        final(sessions).remotes == old(sessions).remotes,
        match opened {
            Ok(_) => {
                &&& r == Ok::<UdpRequestStep, CoreError>(UdpRequestStep::Send(way))
                &&& known_client(final(sessions).clients@, client@, request.user.uuid@)
                &&& get(final(sessions).clients@, client@)->0.last_seen == now
                &&& forall|other: SocketModel|
                    other != client@ ==> #[trigger] get(final(sessions).clients@, other) == get(
                        old(sessions).clients@,
                        other,
                    )
            },
            Err(e) => {
                &&& final(sessions).clients == old(sessions).clients
                &&& r == (if e.kind == ErrorKind::PermissionDenied {
                    Ok::<UdpRequestStep, CoreError>(UdpRequestStep::Drop)
                } else {
                    Err(e)
                })
            },
        },
{
    match opened {
        Ok(_) => {
            sessions.establish(client, request.user.uuid.as_str(), now);
            Ok(UdpRequestStep::Send(way))
        },
        Err(e) => if e.kind == ErrorKind::PermissionDenied {
            Ok(UdpRequestStep::Drop)
        } else {
            Err(e)
        },
    }
}

/// What a request comes to once the outbound was waited for: the answer, which is missing where
/// it did not come in time.
pub fn udp_request_answered(answer: Result<(SocketAddress, Vec<u8>), CoreError>) -> (r: Result<
    Option<(SocketAddress, Vec<u8>)>,
    CoreError,
>)
    ensures
        r == (match answer {
            Ok(response) => Ok::<Option<(SocketAddress, Vec<u8>)>, CoreError>(Some(response)),
            Err(e) => if e.kind == ErrorKind::WouldBlock || e.kind == ErrorKind::TimedOut {
                Ok(None)
            } else {
                Err(e)
            },
        }),
{
    match answer {
        Ok(response) => Ok(Some(response)),
        Err(e) => if e.kind == ErrorKind::WouldBlock || e.kind == ErrorKind::TimedOut {
            Ok(None)
        } else {
            Err(e)
        },
    }
}

/// A request of a client whose user has just sent another one needs no session again.
pub proof fn law_known_client_needs_no_session(
    clients: Seq<(SocketModel, UdpClientSession)>,
    client: SocketModel,
    user_uuid: Seq<char>,
)
    requires
        known_client(clients, client, user_uuid),
    ensures
        touched(clients, client, user_uuid) == clients,
{
}

/// After pruning, every client that is left was seen lately, those that were are unchanged, and
/// no remote address leads to a client that was forgotten.
pub proof fn law_prune_forgets_exactly_the_stale(
    clients: Seq<(SocketModel, UdpClientSession)>,
    remotes: Seq<(SocketModel, UdpClientContext)>,
    now: u64,
)
    requires
        distinct(clients),
    ensures
        forall|client: SocketModel|
            #[trigger] get(live_clients(clients, now), client) == (match get(clients, client) {
                Some(session) => if is_stale(session, now) {
                    None
                } else {
                    Some(session)
                },
                None => None,
            }),
        forall|i: int|
            0 <= i < live_remotes(remotes, clients, now).len() ==> !is_gone(
                clients,
                (#[trigger] live_remotes(remotes, clients, now)[i]).1.client_addr@,
                now,
            ),
    decreases clients.len() + remotes.len(),
{
    if clients.len() > 0 {
        let init = clients.subrange(0, clients.len() - 1);
        let last = clients[clients.len() - 1];
        assert(distinct(init)) by {
            assert forall|i: int, j: int| 0 <= i < j < init.len() implies #[trigger] init[i].0
                != #[trigger] init[j].0 by {
                assert(init[i] == clients[i] && init[j] == clients[j]);
            }
        }
        law_prune_forgets_exactly_the_stale(init, Seq::empty(), now);
        let rest = live_clients(init, now);
        let all = live_clients(clients, now);
        assert forall|client: SocketModel| #[trigger] get(all, client) == (match get(clients, client) {
            Some(session) => if is_stale(session, now) {
                None
            } else {
                Some(session)
            },
            None => None,
        }) by {
            lemma_find(clients, client);
            lemma_find(init, client);
            lemma_find(rest, client);
            lemma_find(all, client);
            assert(get(rest, client) == (match get(init, client) {
                Some(session) => if is_stale(session, now) {
                    None
                } else {
                    Some(session)
                },
                None => None,
            }));
            if client == last.0 {
                assert(find_none(init, client)) by {
                    if crate::table::find(init, client) >= 0 {
                        let f = crate::table::find(init, client);
                        assert(init[f] == clients[f]);
                        assert(clients[clients.len() - 1].0 == last.0);
                    }
                }
            }
            if !is_stale(last.1, now) {
                assert(all.subrange(0, all.len() - 1) == rest);
            }
        }
    }
    if remotes.len() > 0 {
        law_remotes_of_live_clients(remotes, clients, now);
    }
}

/// Whether a client is not among the known ones.
spec fn find_none(s: Seq<(SocketModel, UdpClientSession)>, client: SocketModel) -> bool {
    crate::table::find(s, client) < 0
}

/// No remote address that stays leads to a client that is gone.
pub proof fn law_remotes_of_live_clients(
    remotes: Seq<(SocketModel, UdpClientContext)>,
    clients: Seq<(SocketModel, UdpClientSession)>,
    now: u64,
)
    ensures
        forall|i: int|
            0 <= i < live_remotes(remotes, clients, now).len() ==> !is_gone(
                clients,
                (#[trigger] live_remotes(remotes, clients, now)[i]).1.client_addr@,
                now,
            ),
    decreases remotes.len(),
{
    if remotes.len() > 0 {
        law_remotes_of_live_clients(remotes.subrange(0, remotes.len() - 1), clients, now);
    }
}

} // verus!
