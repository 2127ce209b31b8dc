//! When two configurations are the same.

use vstd::prelude::*;

use crate::config::{
    Alike, CoreConfig, Header, InboundConfig, OutboundConfig, OutboundTlsConfig,
    OutboundTransportConfig, PolicyConfig, RealityConfig, RouteRule, Section, TlsConfig,
    TransportConfig,
};
use crate::service_config::{
    config_alike_but_users, config_rest_alike, inbound_alike_but_users, inbound_rest_alike,
};
use crate::text::texts;
use crate::user::CoreUser;

verus! {

/// The view of an optional text.
pub open spec fn written(text: Option<String>) -> Option<Seq<char>> {
    match text {
        Some(text) => Some(text@),
        None => None,
    }
}

/// Lists are the same where they have one length and the same values at all places.
pub proof fn law_same_lists<T: Alike>(a: Vec<T>, b: Vec<T>)
    ensures
        a.alike(b) <==> a@.len() == b@.len() && forall|i: int|
            0 <= i < a@.len() ==> (#[trigger] a@[i]).alike(b@[i]),
{
}

/// Lists of texts are the same where their texts are.
proof fn lemma_same_texts(a: Vec<String>, b: Vec<String>)
    ensures
        a.alike(b) <==> texts(a@) == texts(b@),
{
    if a.alike(b) {
        assert(texts(a@) =~= texts(b@)) by {
            assert forall|i: int| 0 <= i < a@.len() implies texts(a@)[i] == texts(b@)[i] by {
                assert(a@[i].alike(b@[i]));
            }
        }
    }
    if texts(a@) == texts(b@) {
        assert(texts(a@).len() == a@.len() && texts(b@).len() == b@.len());
        assert forall|i: int| 0 <= i < a@.len() implies (#[trigger] a@[i]).alike(b@[i]) by {
            assert(texts(a@)[i] == texts(b@)[i]);
        }
    }
}

/// Users are the same exactly where all of their parts are.
pub proof fn law_same_user(a: CoreUser, b: CoreUser)
    ensures
        a.alike(b) <==> {
            &&& a.id == b.id
            &&& a.uuid@ == b.uuid@
            &&& written(a.password) == written(b.password)
            &&& written(a.email) == written(b.email)
            &&& a.speed_limit == b.speed_limit
            &&& a.device_limit == b.device_limit
        },
{
}

/// Sections are the same exactly where all of their parts are.
pub proof fn law_same_section(a: Section, b: Section)
    ensures
        a.alike(b) <==> {
            &&& a.text@ == b.text@
        },
{
}

/// Rules of a route are the same exactly where all of their parts are.
pub proof fn law_same_rule(a: RouteRule, b: RouteRule)
    ensures
        a.alike(b) <==> {
            &&& a.text@ == b.text@
        },
{
}

/// Policies are the same exactly where all of their parts are.
pub proof fn law_same_policy(a: PolicyConfig, b: PolicyConfig)
    ensures
        a.alike(b) <==> {
            &&& a.connect_timeout_secs == b.connect_timeout_secs
            &&& a.connection_idle_secs == b.connection_idle_secs
            &&& a.uplink_only_secs == b.uplink_only_secs
            &&& a.downlink_only_secs == b.downlink_only_secs
            &&& a.sniffing_cache_millis == b.sniffing_cache_millis
        },
{
}

/// Settings of REALITY are the same exactly where all of their parts are.
pub proof fn law_same_reality(a: RealityConfig, b: RealityConfig)
    ensures
        a.alike(b) <==> {
            &&& a.dest@ == b.dest@
            &&& a.server_port == b.server_port
            &&& a.private_key@ == b.private_key@
            &&& a.short_id@ == b.short_id@
            &&& a.xver == b.xver
            &&& written(a.mldsa65_seed) == written(b.mldsa65_seed)
        },
{
}

/// Settings of TLS are the same exactly where all of their parts are.
pub proof fn law_same_tls(a: TlsConfig, b: TlsConfig)
    ensures
        a.alike(b) <==> {
            &&& a.server_name@ == b.server_name@
            &&& written(a.cert_file) == written(b.cert_file)
            &&& written(a.key_file) == written(b.key_file)
            &&& texts(a.alpn@) == texts(b.alpn@)
            &&& a.reject_unknown_sni == b.reject_unknown_sni
            &&& a.reality.alike(b.reality)
        },
{
    lemma_same_texts(a.alpn, b.alpn);
}

/// Transports are the same exactly where all of their parts are.
pub proof fn law_same_transport(a: TransportConfig, b: TransportConfig)
    ensures
        a.alike(b) <==> {
            &&& a.network@ == b.network@
            &&& written(a.path) == written(b.path)
            &&& written(a.host) == written(b.host)
            &&& written(a.service_name) == written(b.service_name)
            &&& a.up_mbps == b.up_mbps
            &&& a.down_mbps == b.down_mbps
            &&& a.ignore_client_bandwidth == b.ignore_client_bandwidth
            &&& a.congestion_control@ == b.congestion_control@
            &&& written(a.obfs) == written(b.obfs)
            &&& written(a.obfs_password) == written(b.obfs_password)
        },
{
}

/// Settings of TLS of outbounds are the same exactly where all of their parts are.
pub proof fn law_same_outbound_tls(a: OutboundTlsConfig, b: OutboundTlsConfig)
    ensures
        a.alike(b) <==> {
            &&& a.server_name@ == b.server_name@
            &&& a.allow_insecure == b.allow_insecure
            &&& texts(a.alpn@) == texts(b.alpn@)
        },
{
    lemma_same_texts(a.alpn, b.alpn);
}

/// Headers are the same exactly where all of their parts are.
pub proof fn law_same_header(a: Header, b: Header)
    ensures
        a.alike(b) <==> {
            &&& a.name@ == b.name@
            &&& a.value@ == b.value@
        },
{
}

/// Transports of outbounds are the same exactly where all of their parts are.
pub proof fn law_same_outbound_transport(a: OutboundTransportConfig, b: OutboundTransportConfig)
    ensures
        a.alike(b) <==> {
            &&& a.network@ == b.network@
            &&& written(a.path) == written(b.path)
            &&& written(a.host) == written(b.host)
            &&& written(a.service_name) == written(b.service_name)
            &&& written(a.method) == written(b.method)
            &&& a.headers.alike(b.headers)
        },
{
}

/// Outbounds are the same exactly where all of their parts are.
pub proof fn law_same_outbound(a: OutboundConfig, b: OutboundConfig)
    ensures
        a.alike(b) <==> {
            &&& a.tag@ == b.tag@
            &&& a.protocol@ == b.protocol@
            &&& written(a.method) == written(b.method)
            &&& a.alter_id == b.alter_id
            &&& written(a.address) == written(b.address)
            &&& a.port == b.port
            &&& written(a.username) == written(b.username)
            &&& written(a.password) == written(b.password)
            &&& a.tls.alike(b.tls)
            &&& a.transport.alike(b.transport)
        },
{
}

/// Inbounds are the same exactly where all of their parts are.
pub proof fn law_same_inbound(a: InboundConfig, b: InboundConfig)
    ensures
        a.alike(b) <==> {
            &&& a.tag@ == b.tag@
            &&& a.protocol == b.protocol
            &&& a.listen@ == b.listen@
            &&& a.port == b.port
            &&& a.users.alike(b.users)
            &&& written(a.cipher) == written(b.cipher)
            &&& a.flow@ == b.flow@
            &&& texts(a.padding_scheme@) == texts(b.padding_scheme@)
            &&& a.transport.alike(b.transport)
            &&& a.tls.alike(b.tls)
            &&& a.sniffing.alike(b.sniffing)
            &&& a.routes.alike(b.routes)
        },
{
    lemma_same_texts(a.padding_scheme, b.padding_scheme);
}

/// Configurations are the same exactly where all of their parts are.
pub proof fn law_same_config(a: CoreConfig, b: CoreConfig)
    ensures
        a.alike(b) <==> {
            &&& a.instance_id@ == b.instance_id@
            &&& a.log_level@ == b.log_level@
            &&& a.dns.alike(b.dns)
            &&& a.policy.alike(b.policy)
            &&& a.inbounds.alike(b.inbounds)
            &&& a.outbounds.alike(b.outbounds)
            &&& a.routes.alike(b.routes)
            &&& a.stats.alike(b.stats)
        },
{
}

/// Two inbounds are the same but for their users where they are the same once they have the same
/// users; and likewise for users and routes.
pub proof fn law_inbounds_but_for_users(a: InboundConfig, b: InboundConfig)
    ensures
        inbound_alike_but_users(a, b) <==> a.alike((InboundConfig { users: a.users, ..b })),
        inbound_rest_alike(a, b) <==> a.alike(
            (InboundConfig { users: a.users, routes: a.routes, ..b }),
        ),
{
    Vec::<CoreUser>::lemma_alike(a.users, a.users, a.users);
    Vec::<RouteRule>::lemma_alike(a.routes, a.routes, a.routes);
}

/// Two configurations are the same but for their users where they are the same apart from their
/// inbounds, and those are the same one by one but for their users; and likewise for users, routes
/// and outbounds.
pub proof fn law_configs_but_for_users(a: CoreConfig, b: CoreConfig)
    ensures
        config_alike_but_users(a, b) <==> a.alike((CoreConfig { inbounds: a.inbounds, ..b }))
            && a.inbounds@.len() == b.inbounds@.len() && forall|i: int|
            0 <= i < a.inbounds@.len() ==> inbound_alike_but_users(
                #[trigger] a.inbounds@[i],
                b.inbounds@[i],
            ),
        config_rest_alike(a, b) <==> a.alike(
            (CoreConfig {
                inbounds: a.inbounds,
                outbounds: a.outbounds,
                routes: a.routes,
                ..b
            }),
        ) && a.inbounds@.len() == b.inbounds@.len() && forall|i: int|
            0 <= i < a.inbounds@.len() ==> inbound_rest_alike(
                #[trigger] a.inbounds@[i],
                b.inbounds@[i],
            ),
{
    Vec::<InboundConfig>::lemma_alike(a.inbounds, a.inbounds, a.inbounds);
    Vec::<OutboundConfig>::lemma_alike(a.outbounds, a.outbounds, a.outbounds);
    Vec::<RouteRule>::lemma_alike(a.routes, a.routes, a.routes);
}

} // verus!
