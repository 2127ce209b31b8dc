//! What of a configuration can change while a node runs, and the time limits that it sets.

use vstd::prelude::*;

use crate::config::{
    Alike, CoreConfig, InboundConfig, OutboundConfig, PolicyConfig, Protocol, RouteRule, Section,
    TlsConfig, TransportConfig,
};
use crate::numeral::{parse_trimmed, parse_unsigned};
use crate::text::trim;

verus! {

/// Whether two inbounds are the same but for their users and routes.
pub open spec fn inbound_rest_alike(a: InboundConfig, b: InboundConfig) -> bool {
    &&& a.tag.alike(b.tag)
    &&& a.protocol.alike(b.protocol)
    &&& a.listen.alike(b.listen)
    &&& a.port.alike(b.port)
    &&& a.cipher.alike(b.cipher)
    &&& a.flow.alike(b.flow)
    &&& a.padding_scheme.alike(b.padding_scheme)
    &&& a.transport.alike(b.transport)
    &&& a.tls.alike(b.tls)
    &&& a.sniffing.alike(b.sniffing)
}

/// Whether two inbounds are the same but for their users.
pub open spec fn inbound_alike_but_users(a: InboundConfig, b: InboundConfig) -> bool {
    inbound_rest_alike(a, b) && a.routes.alike(b.routes)
}

/// Whether two configurations are the same but for users, routes and outbounds.
pub open spec fn config_rest_alike(a: CoreConfig, b: CoreConfig) -> bool {
    &&& a.instance_id.alike(b.instance_id)
    &&& a.log_level.alike(b.log_level)
    &&& a.dns.alike(b.dns)
    &&& a.policy.alike(b.policy)
    &&& a.stats.alike(b.stats)
    &&& a.inbounds@.len() == b.inbounds@.len()
    &&& forall|i: int|
        0 <= i < a.inbounds@.len() ==> inbound_rest_alike(#[trigger] a.inbounds@[i], b.inbounds@[i])
}

/// Whether two configurations are the same but for users.
pub open spec fn config_alike_but_users(a: CoreConfig, b: CoreConfig) -> bool {
    &&& a.instance_id.alike(b.instance_id)
    &&& a.log_level.alike(b.log_level)
    &&& a.dns.alike(b.dns)
    &&& a.policy.alike(b.policy)
    &&& a.outbounds.alike(b.outbounds)
    &&& a.routes.alike(b.routes)
    &&& a.stats.alike(b.stats)
    &&& a.inbounds@.len() == b.inbounds@.len()
    &&& forall|i: int|
        0 <= i < a.inbounds@.len() ==> inbound_alike_but_users(
            #[trigger] a.inbounds@[i],
            b.inbounds@[i],
        )
}

/// Whether two inbounds are the same but for their users and routes.
pub fn inbound_eq_without_users_routes(left: &InboundConfig, right: &InboundConfig) -> (r: bool)
    ensures
        r == inbound_rest_alike(*left, *right),
{
    left.tag.same(&right.tag) && left.protocol.same(&right.protocol) && left.listen.same(
        &right.listen,
    ) && left.port.same(&right.port) && left.cipher.same(&right.cipher) && left.flow.same(
        &right.flow,
    ) && left.padding_scheme.same(&right.padding_scheme) && left.transport.same(
        &right.transport,
    ) && left.tls.same(&right.tls) && left.sniffing.same(&right.sniffing)
}

/// Whether two inbounds are the same but for their users.
pub fn inbound_eq_without_users(left: &InboundConfig, right: &InboundConfig) -> (r: bool)
    ensures
        r == inbound_alike_but_users(*left, *right),
{
    inbound_eq_without_users_routes(left, right) && left.routes.same(&right.routes)
}

/// Whether inbounds are the same but for their users, place by place.
pub fn inbounds_eq_without_users(left: &Vec<InboundConfig>, right: &Vec<InboundConfig>) -> (r: bool)
    ensures
        r == (left@.len() == right@.len() && forall|i: int|
            0 <= i < left@.len() ==> inbound_alike_but_users(#[trigger] left@[i], right@[i])),
{
    if left.len() != right.len() {
        return false;
    }
    let mut i: usize = 0;
    while i < left.len()
        invariant
            i <= left@.len(),
            left@.len() == right@.len(),
            forall|k: int|
                0 <= k < i ==> inbound_alike_but_users(#[trigger] left@[k], right@[k]),
        decreases left.len() - i,
    {
        if !inbound_eq_without_users(&left[i], &right[i]) {
            assert(!inbound_alike_but_users(left@[i as int], right@[i as int]));
            return false;
        }
        i += 1;
    }
    true
}

/// Whether inbounds are the same but for their users and routes, place by place.
pub fn inbounds_eq_without_users_routes(left: &Vec<InboundConfig>, right: &Vec<InboundConfig>) -> (r:
    bool)
    ensures
        r == (left@.len() == right@.len() && forall|i: int|
            0 <= i < left@.len() ==> inbound_rest_alike(#[trigger] left@[i], right@[i])),
{
    if left.len() != right.len() {
        return false;
    }
    let mut i: usize = 0;
    while i < left.len()
        invariant
            i <= left@.len(),
            left@.len() == right@.len(),
            forall|k: int| 0 <= k < i ==> inbound_rest_alike(#[trigger] left@[k], right@[k]),
        decreases left.len() - i,
    {
        if !inbound_eq_without_users_routes(&left[i], &right[i]) {
            assert(!inbound_rest_alike(left@[i as int], right@[i as int]));
            return false;
        }
        i += 1;
    }
    true
}

/// Whether two configurations are the same but for users.
pub fn config_eq_without_users(left: &CoreConfig, right: &CoreConfig) -> (r: bool)
    ensures
        r == config_alike_but_users(*left, *right),
{
    left.instance_id.same(&right.instance_id) && left.log_level.same(&right.log_level)
        && left.dns.same(&right.dns) && left.policy.same(&right.policy) && left.outbounds.same(
        &right.outbounds,
    ) && left.routes.same(&right.routes) && left.stats.same(&right.stats)
        && inbounds_eq_without_users(&left.inbounds, &right.inbounds)
}

/// Whether two configurations are the same but for users, routes and outbounds.
pub fn config_eq_without_users_routes_and_outbounds(left: &CoreConfig, right: &CoreConfig) -> (r:
    bool)
    ensures
        r == config_rest_alike(*left, *right),
{
    left.instance_id.same(&right.instance_id) && left.log_level.same(&right.log_level)
        && left.dns.same(&right.dns) && left.policy.same(&right.policy) && left.stats.same(
        &right.stats,
    ) && inbounds_eq_without_users_routes(&left.inbounds, &right.inbounds)
}

/// The inbound without its users.
pub fn inbound_without_users(inbound: &InboundConfig) -> (r: InboundConfig)
    ensures
        inbound_alike_but_users(*inbound, r),
        r.users@.len() == 0,
{
    InboundConfig {
        tag: inbound.tag.copied(),
        protocol: inbound.protocol.copied(),
        listen: inbound.listen.copied(),
        port: inbound.port.copied(),
        users: Vec::new(),
        cipher: inbound.cipher.copied(),
        flow: inbound.flow.copied(),
        padding_scheme: inbound.padding_scheme.copied(),
        transport: inbound.transport.copied(),
        tls: inbound.tls.copied(),
        sniffing: inbound.sniffing.copied(),
        routes: inbound.routes.copied(),
    }
}

/// Whether no inbound has users.
pub open spec fn has_no_users(config: CoreConfig) -> bool {
    forall|i: int|
        0 <= i < config.inbounds@.len() ==> (#[trigger] config.inbounds@[i]).users@.len() == 0
}

/// The configuration without users.
pub fn config_without_users(config: &CoreConfig) -> (r: CoreConfig)
    ensures
        config_alike_but_users(*config, r),
        has_no_users(r),
{
    let mut inbounds: Vec<InboundConfig> = Vec::new();
    let mut i: usize = 0;
    while i < config.inbounds.len()
        invariant
            i <= config.inbounds@.len(),
            inbounds@.len() == i,
            forall|k: int|
                0 <= k < i ==> inbound_alike_but_users(
                    #[trigger] config.inbounds@[k],
                    inbounds@[k],
                ),
            forall|k: int| 0 <= k < i ==> (#[trigger] inbounds@[k]).users@.len() == 0,
        decreases config.inbounds.len() - i,
    {
        inbounds.push(inbound_without_users(&config.inbounds[i]));
        i += 1;
    }
    CoreConfig {
        instance_id: config.instance_id.copied(),
        log_level: config.log_level.copied(),
        dns: config.dns.copied(),
        policy: config.policy.copied(),
        inbounds,
        outbounds: config.outbounds.copied(),
        routes: config.routes.copied(),
        stats: config.stats.copied(),
    }
}

/// Being the same inbound but for users and routes is an equivalence.
proof fn lemma_inbound_rest(a: InboundConfig, b: InboundConfig, c: InboundConfig)
    ensures
        inbound_rest_alike(a, a),
        inbound_rest_alike(a, b) ==> inbound_rest_alike(b, a),
        inbound_rest_alike(a, b) && inbound_rest_alike(b, c) ==> inbound_rest_alike(a, c),
{
    String::lemma_alike(a.tag, b.tag, c.tag);
    Protocol::lemma_alike(a.protocol, b.protocol, c.protocol);
    String::lemma_alike(a.listen, b.listen, c.listen);
    u16::lemma_alike(a.port, b.port, c.port);
    Option::<String>::lemma_alike(a.cipher, b.cipher, c.cipher);
    String::lemma_alike(a.flow, b.flow, c.flow);
    Vec::<String>::lemma_alike(a.padding_scheme, b.padding_scheme, c.padding_scheme);
    TransportConfig::lemma_alike(a.transport, b.transport, c.transport);
    Option::<TlsConfig>::lemma_alike(a.tls, b.tls, c.tls);
    Section::lemma_alike(a.sniffing, b.sniffing, c.sniffing);
}

/// Being the same inbound but for users is an equivalence.
proof fn lemma_inbound_but_users(a: InboundConfig, b: InboundConfig, c: InboundConfig)
    ensures
        inbound_alike_but_users(a, a),
        inbound_alike_but_users(a, b) ==> inbound_alike_but_users(b, a),
        inbound_alike_but_users(a, b) && inbound_alike_but_users(b, c) ==> inbound_alike_but_users(
            a,
            c,
        ),
{
    lemma_inbound_rest(a, b, c);
    Vec::<RouteRule>::lemma_alike(a.routes, b.routes, c.routes);
}

/// Being the same configuration but for users, routes and outbounds is an equivalence.
pub proof fn law_same_but_routes_is_an_equivalence(a: CoreConfig, b: CoreConfig, c: CoreConfig)
    ensures
        config_rest_alike(a, a),
        config_rest_alike(a, b) ==> config_rest_alike(b, a),
        config_rest_alike(a, b) && config_rest_alike(b, c) ==> config_rest_alike(a, c),
{
    String::lemma_alike(a.instance_id, b.instance_id, c.instance_id);
    String::lemma_alike(a.log_level, b.log_level, c.log_level);
    Section::lemma_alike(a.dns, b.dns, c.dns);
    PolicyConfig::lemma_alike(a.policy, b.policy, c.policy);
    Section::lemma_alike(a.stats, b.stats, c.stats);
    assert forall|i: int| 0 <= i < a.inbounds@.len() implies inbound_rest_alike(
        #[trigger] a.inbounds@[i],
        a.inbounds@[i],
    ) by {
        lemma_inbound_rest(a.inbounds@[i], a.inbounds@[i], a.inbounds@[i]);
    }
    if config_rest_alike(a, b) {
        assert forall|i: int| 0 <= i < b.inbounds@.len() implies inbound_rest_alike(
            #[trigger] b.inbounds@[i],
            a.inbounds@[i],
        ) by {
            assert(inbound_rest_alike(a.inbounds@[i], b.inbounds@[i]));
            lemma_inbound_rest(a.inbounds@[i], b.inbounds@[i], b.inbounds@[i]);
        }
        if config_rest_alike(b, c) {
            assert forall|i: int| 0 <= i < a.inbounds@.len() implies inbound_rest_alike(
                #[trigger] a.inbounds@[i],
                c.inbounds@[i],
            ) by {
                assert(inbound_rest_alike(a.inbounds@[i], b.inbounds@[i]));
                assert(inbound_rest_alike(b.inbounds@[i], c.inbounds@[i]));
                lemma_inbound_rest(a.inbounds@[i], b.inbounds@[i], c.inbounds@[i]);
            }
        }
    }
}

/// Being the same configuration but for users is an equivalence.
pub proof fn law_same_but_users_is_an_equivalence(a: CoreConfig, b: CoreConfig, c: CoreConfig)
    ensures
        config_alike_but_users(a, a),
        config_alike_but_users(a, b) ==> config_alike_but_users(b, a),
        config_alike_but_users(a, b) && config_alike_but_users(b, c) ==> config_alike_but_users(
            a,
            c,
        ),
{
    String::lemma_alike(a.instance_id, b.instance_id, c.instance_id);
    String::lemma_alike(a.log_level, b.log_level, c.log_level);
    Section::lemma_alike(a.dns, b.dns, c.dns);
    PolicyConfig::lemma_alike(a.policy, b.policy, c.policy);
    Vec::<OutboundConfig>::lemma_alike(a.outbounds, b.outbounds, c.outbounds);
    Vec::<RouteRule>::lemma_alike(a.routes, b.routes, c.routes);
    Section::lemma_alike(a.stats, b.stats, c.stats);
    assert forall|i: int| 0 <= i < a.inbounds@.len() implies inbound_alike_but_users(
        #[trigger] a.inbounds@[i],
        a.inbounds@[i],
    ) by {
        lemma_inbound_but_users(a.inbounds@[i], a.inbounds@[i], a.inbounds@[i]);
    }
    if config_alike_but_users(a, b) {
        assert forall|i: int| 0 <= i < b.inbounds@.len() implies inbound_alike_but_users(
            #[trigger] b.inbounds@[i],
            a.inbounds@[i],
        ) by {
            assert(inbound_alike_but_users(a.inbounds@[i], b.inbounds@[i]));
            lemma_inbound_but_users(a.inbounds@[i], b.inbounds@[i], b.inbounds@[i]);
        }
        if config_alike_but_users(b, c) {
            assert forall|i: int| 0 <= i < a.inbounds@.len() implies inbound_alike_but_users(
                #[trigger] a.inbounds@[i],
                c.inbounds@[i],
            ) by {
                assert(inbound_alike_but_users(a.inbounds@[i], b.inbounds@[i]));
                assert(inbound_alike_but_users(b.inbounds@[i], c.inbounds@[i]));
                lemma_inbound_but_users(a.inbounds@[i], b.inbounds@[i], c.inbounds@[i]);
            }
        }
    }
}

/// Where only users may change, only users, routes and outbounds may.
pub proof fn law_same_but_users_is_same_but_routes(a: CoreConfig, b: CoreConfig)
    requires
        config_alike_but_users(a, b),
    ensures
        config_rest_alike(a, b),
{
    assert forall|i: int| 0 <= i < a.inbounds@.len() implies inbound_rest_alike(
        #[trigger] a.inbounds@[i],
        b.inbounds@[i],
    ) by {
        assert(inbound_alike_but_users(a.inbounds@[i], b.inbounds@[i]));
    }
}

/// A number, but at least one.
pub open spec fn positive(n: u64) -> u64 {
    if n == 0 {
        1
    } else {
        n
    }
}

/// A number of seconds brought into the range from one to sixty.
pub open spec fn within_a_minute(n: nat) -> nat {
    if n < 1 {
        1
    } else if n > 60 {
        60
    } else {
        n
    }
}

/// How long a connection to a target may take to be made: what the setting says where it is a
/// positive number, or else the default, within a minute.
pub open spec fn connect_timeout(value: Option<String>, default_secs: u64) -> nat {
    match value {
        Some(text) => match parse_unsigned(trim(text@), 10, u64::MAX as nat) {
            Some(n) => if n > 0 {
                within_a_minute(n)
            } else {
                within_a_minute(default_secs as nat)
            },
            None => within_a_minute(default_secs as nat),
        },
        None => within_a_minute(default_secs as nat),
    }
}

/// How long a connection to a target may take to be made, in seconds.
pub fn outbound_connect_timeout_from_env(value: Option<String>, default_secs: u64) -> (r: u64)
    ensures
        r == connect_timeout(value, default_secs),
        1 <= r <= 60,
{
    let wanted: u64 = match value {
        Some(text) => match parse_trimmed(text.as_str(), u64::MAX) {
            Some(n) => if n > 0 {
                n
            } else {
                default_secs
            },
            None => default_secs,
        },
        None => default_secs,
    };
    if wanted < 1 {
        1
    } else if wanted > 60 {
        60
    } else {
        wanted
    }
}

/// The time limits of a node.
#[derive(Clone, Copy, Debug, PartialEq, Eq, Structural)]
pub struct Timeouts {
    pub connect_secs: u64,
    pub connection_idle_secs: u64,
    pub uplink_only_secs: u64,
    pub downlink_only_secs: u64,
    pub sniffing_cache_millis: u64,
}

/// At least one.
fn at_least_one(n: u64) -> (r: u64)
    ensures
        r == positive(n),
{
    if n == 0 {
        1
    } else {
        n
    }
}

/// The time limits that a policy sets; the setting of the environment overrides the one for
/// making connections.
pub fn timeouts(policy: &PolicyConfig, connect_setting: Option<String>) -> (r: Timeouts)
    ensures
        r.connect_secs == connect_timeout(connect_setting, policy.connect_timeout_secs),
        1 <= r.connect_secs <= 60,
        r.connection_idle_secs == positive(policy.connection_idle_secs),
        r.uplink_only_secs == positive(policy.uplink_only_secs),
        r.downlink_only_secs == positive(policy.downlink_only_secs),
        r.sniffing_cache_millis == positive(policy.sniffing_cache_millis),
{
    Timeouts {
        connect_secs: outbound_connect_timeout_from_env(
            connect_setting,
            policy.connect_timeout_secs,
        ),
        connection_idle_secs: at_least_one(policy.connection_idle_secs),
        uplink_only_secs: at_least_one(policy.uplink_only_secs),
        downlink_only_secs: at_least_one(policy.downlink_only_secs),
        sniffing_cache_millis: at_least_one(policy.sniffing_cache_millis),
    }
}

} // verus!
