//! The configuration of a node, and when two configurations are the same.

use vstd::prelude::*;

use crate::user::CoreUser;

verus! {

/// A value that can be compared and copied.
pub trait Alike: Sized {
    /// Whether two values are the same.
    spec fn alike(self, other: Self) -> bool;

    /// Being the same is an equivalence.
    proof fn lemma_alike(a: Self, b: Self, c: Self)
        ensures
            a.alike(a),
            a.alike(b) ==> b.alike(a),
            a.alike(b) && b.alike(c) ==> a.alike(c),
    ;

    /// Whether two values are the same.
    fn same(&self, other: &Self) -> (r: bool)
        ensures
            r == self.alike(*other),
    ;

    /// A value that is the same.
    fn copied(&self) -> (r: Self)
        ensures
            self.alike(r),
    ;
}

impl Alike for String {
    open spec fn alike(self, other: String) -> bool {
        self@ == other@
    }

    proof fn lemma_alike(a: String, b: String, c: String) {
    }

    fn same(&self, other: &String) -> (r: bool) {
        *self == *other
    }

    fn copied(&self) -> (r: String) {
        self.clone()
    }
}

impl<T: Alike> Alike for Option<T> {
    open spec fn alike(self, other: Option<T>) -> bool {
        match (self, other) {
            (Some(a), Some(b)) => a.alike(b),
            (None, None) => true,
            _ => false,
        }
    }

    proof fn lemma_alike(a: Option<T>, b: Option<T>, c: Option<T>) {
        if a is Some {
            T::lemma_alike(a->0, a->0, a->0);
            if b is Some {
                T::lemma_alike(a->0, b->0, b->0);
                if c is Some {
                    T::lemma_alike(a->0, b->0, c->0);
                }
            }
        }
    }

    fn same(&self, other: &Option<T>) -> (r: bool) {
        match (self, other) {
            (Some(a), Some(b)) => a.same(b),
            (None, None) => true,
            _ => false,
        }
    }

    fn copied(&self) -> (r: Option<T>) {
        match self {
            Some(a) => Some(a.copied()),
            None => None,
        }
    }
}

/// Whether two lists are the same, place by place.
pub open spec fn all_alike<T: Alike>(a: Seq<T>, b: Seq<T>) -> bool {
    a.len() == b.len() && forall|i: int| 0 <= i < a.len() ==> (#[trigger] a[i]).alike(b[i])
}

impl<T: Alike> Alike for Vec<T> {
    open spec fn alike(self, other: Vec<T>) -> bool {
        all_alike(self@, other@)
    }

    proof fn lemma_alike(a: Vec<T>, b: Vec<T>, c: Vec<T>) {
        assert forall|i: int| 0 <= i < a@.len() implies (#[trigger] a@[i]).alike(a@[i]) by {
            T::lemma_alike(a@[i], a@[i], a@[i]);
        }
        if a.alike(b) {
            assert forall|i: int| 0 <= i < b@.len() implies (#[trigger] b@[i]).alike(a@[i]) by {
                assert(a@[i].alike(b@[i]));
                T::lemma_alike(a@[i], b@[i], b@[i]);
            }
            if b.alike(c) {
                assert forall|i: int| 0 <= i < a@.len() implies (#[trigger] a@[i]).alike(c@[i]) by {
                    assert(a@[i].alike(b@[i]));
                    assert(b@[i].alike(c@[i]));
                    T::lemma_alike(a@[i], b@[i], c@[i]);
                }
            }
        }
    }

    fn same(&self, other: &Vec<T>) -> (r: bool) {
        if self.len() != other.len() {
            return false;
        }
        let mut i: usize = 0;
        while i < self.len()
            invariant
                i <= self@.len(),
                self@.len() == other@.len(),
                forall|k: int| 0 <= k < i ==> (#[trigger] self@[k]).alike(other@[k]),
            decreases self.len() - i,
        {
            if !self[i].same(&other[i]) {
                assert(!self@[i as int].alike(other@[i as int]));
                return false;
            }
            i += 1;
        }
        true
    }

    fn copied(&self) -> (r: Vec<T>) {
        let mut out: Vec<T> = Vec::new();
        let mut i: usize = 0;
        while i < self.len()
            invariant
                i <= self@.len(),
                out@.len() == i,
                forall|k: int| 0 <= k < i ==> (#[trigger] self@[k]).alike(out@[k]),
            decreases self.len() - i,
        {
            out.push(self[i].copied());
            i += 1;
        }
        out
    }
}

/// The protocol of an inbound.
#[derive(Clone, Copy, Debug, PartialEq, Eq, Structural)]
pub enum Protocol {
    Socks,
    Http,
    Vless,
    Vmess,
    Trojan,
    Shadowsocks,
    AnyTls,
    Tuic,
    Hysteria2,
    Mieru,
    Naive,
}

impl Alike for bool {
    open spec fn alike(self, other: bool) -> bool {
        self == other
    }

    proof fn lemma_alike(a: bool, b: bool, c: bool) {
    }

    fn same(&self, other: &bool) -> (r: bool) {
        *self == *other
    }

    fn copied(&self) -> (r: bool) {
        *self
    }
}

impl Alike for u16 {
    open spec fn alike(self, other: u16) -> bool {
        self == other
    }

    proof fn lemma_alike(a: u16, b: u16, c: u16) {
    }

    fn same(&self, other: &u16) -> (r: bool) {
        *self == *other
    }

    fn copied(&self) -> (r: u16) {
        *self
    }
}

impl Alike for u32 {
    open spec fn alike(self, other: u32) -> bool {
        self == other
    }

    proof fn lemma_alike(a: u32, b: u32, c: u32) {
    }

    fn same(&self, other: &u32) -> (r: bool) {
        *self == *other
    }

    fn copied(&self) -> (r: u32) {
        *self
    }
}

impl Alike for u64 {
    open spec fn alike(self, other: u64) -> bool {
        self == other
    }

    proof fn lemma_alike(a: u64, b: u64, c: u64) {
    }

    fn same(&self, other: &u64) -> (r: bool) {
        *self == *other
    }

    fn copied(&self) -> (r: u64) {
        *self
    }
}

impl Alike for Protocol {
    open spec fn alike(self, other: Protocol) -> bool {
        self == other
    }

    proof fn lemma_alike(a: Protocol, b: Protocol, c: Protocol) {
    }

    fn same(&self, other: &Protocol) -> (r: bool) {
        *self == *other
    }

    fn copied(&self) -> (r: Protocol) {
        *self
    }
}

impl Alike for CoreUser {
    open spec fn alike(self, other: CoreUser) -> bool {
        &&& self.id.alike(other.id)
        &&& self.uuid.alike(other.uuid)
        &&& self.password.alike(other.password)
        &&& self.email.alike(other.email)
        &&& self.speed_limit.alike(other.speed_limit)
        &&& self.device_limit.alike(other.device_limit)
    }

    proof fn lemma_alike(a: CoreUser, b: CoreUser, c: CoreUser) {
        u64::lemma_alike(a.id, b.id, c.id);
        String::lemma_alike(a.uuid, b.uuid, c.uuid);
        Option::<String>::lemma_alike(a.password, b.password, c.password);
        Option::<String>::lemma_alike(a.email, b.email, c.email);
        u64::lemma_alike(a.speed_limit, b.speed_limit, c.speed_limit);
        u32::lemma_alike(a.device_limit, b.device_limit, c.device_limit);
    }

    fn same(&self, other: &CoreUser) -> (r: bool) {
        self.id.same(&other.id)
            && self.uuid.same(&other.uuid)
            && self.password.same(&other.password)
            && self.email.same(&other.email)
            && self.speed_limit.same(&other.speed_limit)
            && self.device_limit.same(&other.device_limit)
    }

    fn copied(&self) -> (r: CoreUser) {
        CoreUser {
            id: self.id.copied(),
            uuid: self.uuid.copied(),
            password: self.password.copied(),
            email: self.email.copied(),
            speed_limit: self.speed_limit.copied(),
            device_limit: self.device_limit.copied(),
        }
    }
}

/// A part of the configuration that is carried and compared as text.
#[derive(Debug, PartialEq, Eq)]
pub struct Section {
    pub text: String,
}

impl Alike for Section {
    open spec fn alike(self, other: Section) -> bool {
        &&& self.text.alike(other.text)
    }

    proof fn lemma_alike(a: Section, b: Section, c: Section) {
        String::lemma_alike(a.text, b.text, c.text);
    }

    fn same(&self, other: &Section) -> (r: bool) {
        self.text.same(&other.text)
    }

    fn copied(&self) -> (r: Section) {
        Section {
            text: self.text.copied(),
        }
    }
}

impl Clone for Section {
    fn clone(&self) -> (r: Section)
        ensures
            self.alike(r),
    {
        self.copied()
    }
}

/// A routing rule, carried and compared as text.
#[derive(Debug, PartialEq, Eq)]
pub struct RouteRule {
    pub text: String,
}

impl Alike for RouteRule {
    open spec fn alike(self, other: RouteRule) -> bool {
        &&& self.text.alike(other.text)
    }

    proof fn lemma_alike(a: RouteRule, b: RouteRule, c: RouteRule) {
        String::lemma_alike(a.text, b.text, c.text);
    }

    fn same(&self, other: &RouteRule) -> (r: bool) {
        self.text.same(&other.text)
    }

    fn copied(&self) -> (r: RouteRule) {
        RouteRule {
            text: self.text.copied(),
        }
    }
}

impl Clone for RouteRule {
    fn clone(&self) -> (r: RouteRule)
        ensures
            self.alike(r),
    {
        self.copied()
    }
}

/// Time limits of connections.
#[derive(Debug, PartialEq, Eq)]
pub struct PolicyConfig {
    pub connect_timeout_secs: u64,
    pub connection_idle_secs: u64,
    pub uplink_only_secs: u64,
    pub downlink_only_secs: u64,
    pub sniffing_cache_millis: u64,
}

impl Alike for PolicyConfig {
    open spec fn alike(self, other: PolicyConfig) -> bool {
        &&& self.connect_timeout_secs.alike(other.connect_timeout_secs)
        &&& self.connection_idle_secs.alike(other.connection_idle_secs)
        &&& self.uplink_only_secs.alike(other.uplink_only_secs)
        &&& self.downlink_only_secs.alike(other.downlink_only_secs)
        &&& self.sniffing_cache_millis.alike(other.sniffing_cache_millis)
    }

    proof fn lemma_alike(a: PolicyConfig, b: PolicyConfig, c: PolicyConfig) {
        u64::lemma_alike(a.connect_timeout_secs, b.connect_timeout_secs, c.connect_timeout_secs);
        u64::lemma_alike(a.connection_idle_secs, b.connection_idle_secs, c.connection_idle_secs);
        u64::lemma_alike(a.uplink_only_secs, b.uplink_only_secs, c.uplink_only_secs);
        u64::lemma_alike(a.downlink_only_secs, b.downlink_only_secs, c.downlink_only_secs);
        u64::lemma_alike(a.sniffing_cache_millis, b.sniffing_cache_millis, c.sniffing_cache_millis);
    }

    fn same(&self, other: &PolicyConfig) -> (r: bool) {
        self.connect_timeout_secs.same(&other.connect_timeout_secs)
            && self.connection_idle_secs.same(&other.connection_idle_secs)
            && self.uplink_only_secs.same(&other.uplink_only_secs)
            && self.downlink_only_secs.same(&other.downlink_only_secs)
            && self.sniffing_cache_millis.same(&other.sniffing_cache_millis)
    }

    fn copied(&self) -> (r: PolicyConfig) {
        PolicyConfig {
            connect_timeout_secs: self.connect_timeout_secs.copied(),
            connection_idle_secs: self.connection_idle_secs.copied(),
            uplink_only_secs: self.uplink_only_secs.copied(),
            downlink_only_secs: self.downlink_only_secs.copied(),
            sniffing_cache_millis: self.sniffing_cache_millis.copied(),
        }
    }
}

impl Clone for PolicyConfig {
    fn clone(&self) -> (r: PolicyConfig)
        ensures
            self.alike(r),
    {
        self.copied()
    }
}

/// Settings of a REALITY inbound.
#[derive(Debug, PartialEq, Eq)]
pub struct RealityConfig {
    pub dest: String,
    pub server_port: Option<u16>,
    pub private_key: String,
    pub short_id: String,
    pub xver: u64,
    pub mldsa65_seed: Option<String>,
}

impl Alike for RealityConfig {
    open spec fn alike(self, other: RealityConfig) -> bool {
        &&& self.dest.alike(other.dest)
        &&& self.server_port.alike(other.server_port)
        &&& self.private_key.alike(other.private_key)
        &&& self.short_id.alike(other.short_id)
        &&& self.xver.alike(other.xver)
        &&& self.mldsa65_seed.alike(other.mldsa65_seed)
    }

    proof fn lemma_alike(a: RealityConfig, b: RealityConfig, c: RealityConfig) {
        String::lemma_alike(a.dest, b.dest, c.dest);
        Option::<u16>::lemma_alike(a.server_port, b.server_port, c.server_port);
        String::lemma_alike(a.private_key, b.private_key, c.private_key);
        String::lemma_alike(a.short_id, b.short_id, c.short_id);
        u64::lemma_alike(a.xver, b.xver, c.xver);
        Option::<String>::lemma_alike(a.mldsa65_seed, b.mldsa65_seed, c.mldsa65_seed);
    }

    fn same(&self, other: &RealityConfig) -> (r: bool) {
        self.dest.same(&other.dest)
            && self.server_port.same(&other.server_port)
            && self.private_key.same(&other.private_key)
            && self.short_id.same(&other.short_id)
            && self.xver.same(&other.xver)
            && self.mldsa65_seed.same(&other.mldsa65_seed)
    }

    fn copied(&self) -> (r: RealityConfig) {
        RealityConfig {
            dest: self.dest.copied(),
            server_port: self.server_port.copied(),
            private_key: self.private_key.copied(),
            short_id: self.short_id.copied(),
            xver: self.xver.copied(),
            mldsa65_seed: self.mldsa65_seed.copied(),
        }
    }
}

impl Clone for RealityConfig {
    fn clone(&self) -> (r: RealityConfig)
        ensures
            self.alike(r),
    {
        self.copied()
    }
}

/// TLS settings of an inbound.
#[derive(Debug, PartialEq, Eq)]
pub struct TlsConfig {
    pub server_name: String,
    pub cert_file: Option<String>,
    pub key_file: Option<String>,
    pub alpn: Vec<String>,
    pub reject_unknown_sni: bool,
    pub reality: Option<RealityConfig>,
}

impl Alike for TlsConfig {
    open spec fn alike(self, other: TlsConfig) -> bool {
        &&& self.server_name.alike(other.server_name)
        &&& self.cert_file.alike(other.cert_file)
        &&& self.key_file.alike(other.key_file)
        &&& self.alpn.alike(other.alpn)
        &&& self.reject_unknown_sni.alike(other.reject_unknown_sni)
        &&& self.reality.alike(other.reality)
    }

    proof fn lemma_alike(a: TlsConfig, b: TlsConfig, c: TlsConfig) {
        String::lemma_alike(a.server_name, b.server_name, c.server_name);
        Option::<String>::lemma_alike(a.cert_file, b.cert_file, c.cert_file);
        Option::<String>::lemma_alike(a.key_file, b.key_file, c.key_file);
        Vec::<String>::lemma_alike(a.alpn, b.alpn, c.alpn);
        bool::lemma_alike(a.reject_unknown_sni, b.reject_unknown_sni, c.reject_unknown_sni);
        Option::<RealityConfig>::lemma_alike(a.reality, b.reality, c.reality);
    }

    fn same(&self, other: &TlsConfig) -> (r: bool) {
        self.server_name.same(&other.server_name)
            && self.cert_file.same(&other.cert_file)
            && self.key_file.same(&other.key_file)
            && self.alpn.same(&other.alpn)
            && self.reject_unknown_sni.same(&other.reject_unknown_sni)
            && self.reality.same(&other.reality)
    }

    fn copied(&self) -> (r: TlsConfig) {
        TlsConfig {
            server_name: self.server_name.copied(),
            cert_file: self.cert_file.copied(),
            key_file: self.key_file.copied(),
            alpn: self.alpn.copied(),
            reject_unknown_sni: self.reject_unknown_sni.copied(),
            reality: self.reality.copied(),
        }
    }
}

impl Clone for TlsConfig {
    fn clone(&self) -> (r: TlsConfig)
        ensures
            self.alike(r),
    {
        self.copied()
    }
}

/// Transport settings of an inbound.
#[derive(Debug, PartialEq, Eq)]
pub struct TransportConfig {
    pub network: String,
    pub path: Option<String>,
    pub host: Option<String>,
    pub service_name: Option<String>,
    pub up_mbps: u64,
    pub down_mbps: u64,
    pub ignore_client_bandwidth: bool,
    pub congestion_control: String,
    pub obfs: Option<String>,
    pub obfs_password: Option<String>,
}

impl Alike for TransportConfig {
    open spec fn alike(self, other: TransportConfig) -> bool {
        &&& self.network.alike(other.network)
        &&& self.path.alike(other.path)
        &&& self.host.alike(other.host)
        &&& self.service_name.alike(other.service_name)
        &&& self.up_mbps.alike(other.up_mbps)
        &&& self.down_mbps.alike(other.down_mbps)
        &&& self.ignore_client_bandwidth.alike(other.ignore_client_bandwidth)
        &&& self.congestion_control.alike(other.congestion_control)
        &&& self.obfs.alike(other.obfs)
        &&& self.obfs_password.alike(other.obfs_password)
    }

    proof fn lemma_alike(a: TransportConfig, b: TransportConfig, c: TransportConfig) {
        String::lemma_alike(a.network, b.network, c.network);
        Option::<String>::lemma_alike(a.path, b.path, c.path);
        Option::<String>::lemma_alike(a.host, b.host, c.host);
        Option::<String>::lemma_alike(a.service_name, b.service_name, c.service_name);
        u64::lemma_alike(a.up_mbps, b.up_mbps, c.up_mbps);
        u64::lemma_alike(a.down_mbps, b.down_mbps, c.down_mbps);
        bool::lemma_alike(a.ignore_client_bandwidth, b.ignore_client_bandwidth, c.ignore_client_bandwidth);
        String::lemma_alike(a.congestion_control, b.congestion_control, c.congestion_control);
        Option::<String>::lemma_alike(a.obfs, b.obfs, c.obfs);
        Option::<String>::lemma_alike(a.obfs_password, b.obfs_password, c.obfs_password);
    }

    fn same(&self, other: &TransportConfig) -> (r: bool) {
        self.network.same(&other.network)
            && self.path.same(&other.path)
            && self.host.same(&other.host)
            && self.service_name.same(&other.service_name)
            && self.up_mbps.same(&other.up_mbps)
            && self.down_mbps.same(&other.down_mbps)
            && self.ignore_client_bandwidth.same(&other.ignore_client_bandwidth)
            && self.congestion_control.same(&other.congestion_control)
            && self.obfs.same(&other.obfs)
            && self.obfs_password.same(&other.obfs_password)
    }

    fn copied(&self) -> (r: TransportConfig) {
        TransportConfig {
            network: self.network.copied(),
            path: self.path.copied(),
            host: self.host.copied(),
            service_name: self.service_name.copied(),
            up_mbps: self.up_mbps.copied(),
            down_mbps: self.down_mbps.copied(),
            ignore_client_bandwidth: self.ignore_client_bandwidth.copied(),
            congestion_control: self.congestion_control.copied(),
            obfs: self.obfs.copied(),
            obfs_password: self.obfs_password.copied(),
        }
    }
}

impl Clone for TransportConfig {
    fn clone(&self) -> (r: TransportConfig)
        ensures
            self.alike(r),
    {
        self.copied()
    }
}

/// TLS settings of an outbound.
#[derive(Debug, PartialEq, Eq)]
pub struct OutboundTlsConfig {
    pub server_name: String,
    pub allow_insecure: bool,
    pub alpn: Vec<String>,
}

impl Alike for OutboundTlsConfig {
    open spec fn alike(self, other: OutboundTlsConfig) -> bool {
        &&& self.server_name.alike(other.server_name)
        &&& self.allow_insecure.alike(other.allow_insecure)
        &&& self.alpn.alike(other.alpn)
    }

    proof fn lemma_alike(a: OutboundTlsConfig, b: OutboundTlsConfig, c: OutboundTlsConfig) {
        String::lemma_alike(a.server_name, b.server_name, c.server_name);
        bool::lemma_alike(a.allow_insecure, b.allow_insecure, c.allow_insecure);
        Vec::<String>::lemma_alike(a.alpn, b.alpn, c.alpn);
    }

    fn same(&self, other: &OutboundTlsConfig) -> (r: bool) {
        self.server_name.same(&other.server_name)
            && self.allow_insecure.same(&other.allow_insecure)
            && self.alpn.same(&other.alpn)
    }

    fn copied(&self) -> (r: OutboundTlsConfig) {
        OutboundTlsConfig {
            server_name: self.server_name.copied(),
            allow_insecure: self.allow_insecure.copied(),
            alpn: self.alpn.copied(),
        }
    }
}

impl Clone for OutboundTlsConfig {
    fn clone(&self) -> (r: OutboundTlsConfig)
        ensures
            self.alike(r),
    {
        self.copied()
    }
}

/// A header of an outbound transport.
#[derive(Debug, PartialEq, Eq)]
pub struct Header {
    pub name: String,
    pub value: String,
}

impl Alike for Header {
    open spec fn alike(self, other: Header) -> bool {
        &&& self.name.alike(other.name)
        &&& self.value.alike(other.value)
    }

    proof fn lemma_alike(a: Header, b: Header, c: Header) {
        String::lemma_alike(a.name, b.name, c.name);
        String::lemma_alike(a.value, b.value, c.value);
    }

    fn same(&self, other: &Header) -> (r: bool) {
        self.name.same(&other.name) && self.value.same(&other.value)
    }

    fn copied(&self) -> (r: Header) {
        Header {
            name: self.name.copied(),
            value: self.value.copied(),
        }
    }
}

impl Clone for Header {
    fn clone(&self) -> (r: Header)
        ensures
            self.alike(r),
    {
        self.copied()
    }
}

/// Transport settings of an outbound.
#[derive(Debug, PartialEq, Eq)]
pub struct OutboundTransportConfig {
    pub network: String,
    pub path: Option<String>,
    pub host: Option<String>,
    pub service_name: Option<String>,
    pub method: Option<String>,
    pub headers: Vec<Header>,
}

impl Alike for OutboundTransportConfig {
    open spec fn alike(self, other: OutboundTransportConfig) -> bool {
        &&& self.network.alike(other.network)
        &&& self.path.alike(other.path)
        &&& self.host.alike(other.host)
        &&& self.service_name.alike(other.service_name)
        &&& self.method.alike(other.method)
        &&& self.headers.alike(other.headers)
    }

    proof fn lemma_alike(a: OutboundTransportConfig, b: OutboundTransportConfig, c: OutboundTransportConfig) {
        String::lemma_alike(a.network, b.network, c.network);
        Option::<String>::lemma_alike(a.path, b.path, c.path);
        Option::<String>::lemma_alike(a.host, b.host, c.host);
        Option::<String>::lemma_alike(a.service_name, b.service_name, c.service_name);
        Option::<String>::lemma_alike(a.method, b.method, c.method);
        Vec::<Header>::lemma_alike(a.headers, b.headers, c.headers);
    }

    fn same(&self, other: &OutboundTransportConfig) -> (r: bool) {
        self.network.same(&other.network)
            && self.path.same(&other.path)
            && self.host.same(&other.host)
            && self.service_name.same(&other.service_name)
            && self.method.same(&other.method)
            && self.headers.same(&other.headers)
    }

    fn copied(&self) -> (r: OutboundTransportConfig) {
        OutboundTransportConfig {
            network: self.network.copied(),
            path: self.path.copied(),
            host: self.host.copied(),
            service_name: self.service_name.copied(),
            method: self.method.copied(),
            headers: self.headers.copied(),
        }
    }
}

impl Clone for OutboundTransportConfig {
    fn clone(&self) -> (r: OutboundTransportConfig)
        ensures
            self.alike(r),
    {
        self.copied()
    }
}

/// An outbound.
#[derive(Debug, PartialEq, Eq)]
pub struct OutboundConfig {
    pub tag: String,
    pub protocol: String,
    pub method: Option<String>,
    pub alter_id: Option<u64>,
    pub address: Option<String>,
    pub port: Option<u16>,
    pub username: Option<String>,
    pub password: Option<String>,
    pub tls: Option<OutboundTlsConfig>,
    pub transport: Option<OutboundTransportConfig>,
}

impl Alike for OutboundConfig {
    open spec fn alike(self, other: OutboundConfig) -> bool {
        &&& self.tag.alike(other.tag)
        &&& self.protocol.alike(other.protocol)
        &&& self.method.alike(other.method)
        &&& self.alter_id.alike(other.alter_id)
        &&& self.address.alike(other.address)
        &&& self.port.alike(other.port)
        &&& self.username.alike(other.username)
        &&& self.password.alike(other.password)
        &&& self.tls.alike(other.tls)
        &&& self.transport.alike(other.transport)
    }

    proof fn lemma_alike(a: OutboundConfig, b: OutboundConfig, c: OutboundConfig) {
        String::lemma_alike(a.tag, b.tag, c.tag);
        String::lemma_alike(a.protocol, b.protocol, c.protocol);
        Option::<String>::lemma_alike(a.method, b.method, c.method);
        Option::<u64>::lemma_alike(a.alter_id, b.alter_id, c.alter_id);
        Option::<String>::lemma_alike(a.address, b.address, c.address);
        Option::<u16>::lemma_alike(a.port, b.port, c.port);
        Option::<String>::lemma_alike(a.username, b.username, c.username);
        Option::<String>::lemma_alike(a.password, b.password, c.password);
        Option::<OutboundTlsConfig>::lemma_alike(a.tls, b.tls, c.tls);
        Option::<OutboundTransportConfig>::lemma_alike(a.transport, b.transport, c.transport);
    }

    fn same(&self, other: &OutboundConfig) -> (r: bool) {
        self.tag.same(&other.tag)
            && self.protocol.same(&other.protocol)
            && self.method.same(&other.method)
            && self.alter_id.same(&other.alter_id)
            && self.address.same(&other.address)
            && self.port.same(&other.port)
            && self.username.same(&other.username)
            && self.password.same(&other.password)
            && self.tls.same(&other.tls)
            && self.transport.same(&other.transport)
    }

    fn copied(&self) -> (r: OutboundConfig) {
        OutboundConfig {
            tag: self.tag.copied(),
            protocol: self.protocol.copied(),
            method: self.method.copied(),
            alter_id: self.alter_id.copied(),
            address: self.address.copied(),
            port: self.port.copied(),
            username: self.username.copied(),
            password: self.password.copied(),
            tls: self.tls.copied(),
            transport: self.transport.copied(),
        }
    }
}

impl Clone for OutboundConfig {
    fn clone(&self) -> (r: OutboundConfig)
        ensures
            self.alike(r),
    {
        self.copied()
    }
}

/// An inbound: where and how the node listens, and for whom.
#[derive(Debug, PartialEq, Eq)]
pub struct InboundConfig {
    pub tag: String,
    pub protocol: Protocol,
    pub listen: String,
    pub port: u16,
    pub users: Vec<CoreUser>,
    pub cipher: Option<String>,
    pub flow: String,
    pub padding_scheme: Vec<String>,
    pub transport: TransportConfig,
    pub tls: Option<TlsConfig>,
    pub sniffing: Section,
    pub routes: Vec<RouteRule>,
}

impl Alike for InboundConfig {
    open spec fn alike(self, other: InboundConfig) -> bool {
        &&& self.tag.alike(other.tag)
        &&& self.protocol.alike(other.protocol)
        &&& self.listen.alike(other.listen)
        &&& self.port.alike(other.port)
        &&& self.users.alike(other.users)
        &&& self.cipher.alike(other.cipher)
        &&& self.flow.alike(other.flow)
        &&& self.padding_scheme.alike(other.padding_scheme)
        &&& self.transport.alike(other.transport)
        &&& self.tls.alike(other.tls)
        &&& self.sniffing.alike(other.sniffing)
        &&& self.routes.alike(other.routes)
    }

    proof fn lemma_alike(a: InboundConfig, b: InboundConfig, c: InboundConfig) {
        String::lemma_alike(a.tag, b.tag, c.tag);
        Protocol::lemma_alike(a.protocol, b.protocol, c.protocol);
        String::lemma_alike(a.listen, b.listen, c.listen);
        u16::lemma_alike(a.port, b.port, c.port);
        Vec::<CoreUser>::lemma_alike(a.users, b.users, c.users);
        Option::<String>::lemma_alike(a.cipher, b.cipher, c.cipher);
        String::lemma_alike(a.flow, b.flow, c.flow);
        Vec::<String>::lemma_alike(a.padding_scheme, b.padding_scheme, c.padding_scheme);
        TransportConfig::lemma_alike(a.transport, b.transport, c.transport);
        Option::<TlsConfig>::lemma_alike(a.tls, b.tls, c.tls);
        Section::lemma_alike(a.sniffing, b.sniffing, c.sniffing);
        Vec::<RouteRule>::lemma_alike(a.routes, b.routes, c.routes);
    }

    fn same(&self, other: &InboundConfig) -> (r: bool) {
        self.tag.same(&other.tag)
            && self.protocol.same(&other.protocol)
            && self.listen.same(&other.listen)
            && self.port.same(&other.port)
            && self.users.same(&other.users)
            && self.cipher.same(&other.cipher)
            && self.flow.same(&other.flow)
            && self.padding_scheme.same(&other.padding_scheme)
            && self.transport.same(&other.transport)
            && self.tls.same(&other.tls)
            && self.sniffing.same(&other.sniffing)
            && self.routes.same(&other.routes)
    }

    fn copied(&self) -> (r: InboundConfig) {
        InboundConfig {
            tag: self.tag.copied(),
            protocol: self.protocol.copied(),
            listen: self.listen.copied(),
            port: self.port.copied(),
            users: self.users.copied(),
            cipher: self.cipher.copied(),
            flow: self.flow.copied(),
            padding_scheme: self.padding_scheme.copied(),
            transport: self.transport.copied(),
            tls: self.tls.copied(),
            sniffing: self.sniffing.copied(),
            routes: self.routes.copied(),
        }
    }
}

impl Clone for InboundConfig {
    fn clone(&self) -> (r: InboundConfig)
        ensures
            self.alike(r),
    {
        self.copied()
    }
}

/// The configuration of a node.
#[derive(Debug, PartialEq, Eq)]
pub struct CoreConfig {
    pub instance_id: String,
    pub log_level: String,
    pub dns: Section,
    pub policy: PolicyConfig,
    pub inbounds: Vec<InboundConfig>,
    pub outbounds: Vec<OutboundConfig>,
    pub routes: Vec<RouteRule>,
    pub stats: Section,
}

impl Alike for CoreConfig {
    open spec fn alike(self, other: CoreConfig) -> bool {
        &&& self.instance_id.alike(other.instance_id)
        &&& self.log_level.alike(other.log_level)
        &&& self.dns.alike(other.dns)
        &&& self.policy.alike(other.policy)
        &&& self.inbounds.alike(other.inbounds)
        &&& self.outbounds.alike(other.outbounds)
        &&& self.routes.alike(other.routes)
        &&& self.stats.alike(other.stats)
    }

    proof fn lemma_alike(a: CoreConfig, b: CoreConfig, c: CoreConfig) {
        String::lemma_alike(a.instance_id, b.instance_id, c.instance_id);
        String::lemma_alike(a.log_level, b.log_level, c.log_level);
        Section::lemma_alike(a.dns, b.dns, c.dns);
        PolicyConfig::lemma_alike(a.policy, b.policy, c.policy);
        Vec::<InboundConfig>::lemma_alike(a.inbounds, b.inbounds, c.inbounds);
        Vec::<OutboundConfig>::lemma_alike(a.outbounds, b.outbounds, c.outbounds);
        Vec::<RouteRule>::lemma_alike(a.routes, b.routes, c.routes);
        Section::lemma_alike(a.stats, b.stats, c.stats);
    }

    fn same(&self, other: &CoreConfig) -> (r: bool) {
        self.instance_id.same(&other.instance_id)
            && self.log_level.same(&other.log_level)
            && self.dns.same(&other.dns)
            && self.policy.same(&other.policy)
            && self.inbounds.same(&other.inbounds)
            && self.outbounds.same(&other.outbounds)
            && self.routes.same(&other.routes)
            && self.stats.same(&other.stats)
    }

    fn copied(&self) -> (r: CoreConfig) {
        CoreConfig {
            instance_id: self.instance_id.copied(),
            log_level: self.log_level.copied(),
            dns: self.dns.copied(),
            policy: self.policy.copied(),
            inbounds: self.inbounds.copied(),
            outbounds: self.outbounds.copied(),
            routes: self.routes.copied(),
            stats: self.stats.copied(),
        }
    }
}

impl Clone for CoreConfig {
    fn clone(&self) -> (r: CoreConfig)
        ensures
            self.alike(r),
    {
        self.copied()
    }
}

} // verus!
