use keli_core::address::{IpAddress, SocketAddress};
use keli_core::backoff::{
    accept_tls_connection, admit_tcp_client, admit_tls_client,
    handle_tcp_connection_with_failure_backoff, should_record_tcp_auth_failure, ClientNote,
    HandshakeEnd,
};
use keli_core::config::{
    Alike, CoreConfig, InboundConfig, OutboundConfig, PolicyConfig, Protocol, RealityConfig,
    RouteRule, Section, TlsConfig, TransportConfig,
};
use keli_core::connection_workers::{
    connection_worker_stack_size_from_env, format_connection_worker_snapshot,
    quic_runtime_worker_threads, tcp_accept_worker_threads, ConnectionWorkerGroup,
    ConnectionWorkerGroupSnapshot, ConnectionWorkerKind, IdleWait,
};
use keli_core::error::{CoreError, ErrorKind};
use keli_core::fingerprints::user_fingerprint;
use keli_core::listener_binds::{
    listener_bind_specs, quic_listener_count, resolve_listen_addr, validate_unique_listener_binds,
    ValidationError,
};
use keli_core::listener_plan::{
    client_handling, grpc_plan, hysteria2_obfs_config, plan_listener, uses_failure_backoff,
    vless_transport_is_tcp, AcceptMode, ClientHandling, PlannedListener,
};
use keli_core::reality::{has_explicit_port, reality_dest, reality_gateway_config};
use keli_core::service::{CoreService, StartedService, UpdateAction};
use keli_core::service_config::{config_without_users, outbound_connect_timeout_from_env, timeouts};
use keli_core::service_error::CoreServiceError;
use keli_core::socks5::{Socks5Server, Socks5ServerConfig};
use keli_core::tls::TlsHandshakeErrorClass;
use keli_core::user::{CoreUser, CoreUserDelta, UserStore};

fn user() -> CoreUser {
    CoreUser {
        id: 1,
        uuid: "user-a".to_string(),
        password: None,
        email: None,
        speed_limit: 0,
        device_limit: 0,
    }
}

fn transport(network: &str) -> TransportConfig {
    TransportConfig {
        network: network.to_string(),
        path: None,
        host: None,
        service_name: None,
        up_mbps: 0,
        down_mbps: 0,
        ignore_client_bandwidth: false,
        congestion_control: String::new(),
        obfs: None,
        obfs_password: None,
    }
}

fn section() -> Section {
    Section {
        text: String::new(),
    }
}

fn bind_validation_inbound(
    tag: &str,
    protocol: Protocol,
    listen: &str,
    port: u16,
    network: &str,
) -> InboundConfig {
    InboundConfig {
        tag: tag.to_string(),
        protocol,
        listen: listen.to_string(),
        port,
        users: vec![user()],
        cipher: None,
        flow: String::new(),
        padding_scheme: Vec::new(),
        transport: transport(network),
        tls: None,
        sniffing: section(),
        routes: Vec::new(),
    }
}

fn tls(alpn: Vec<String>) -> TlsConfig {
    TlsConfig {
        server_name: "localhost".to_string(),
        cert_file: Some("cert.pem".to_string()),
        key_file: Some("key.pem".to_string()),
        alpn,
        reject_unknown_sni: false,
        reality: None,
    }
}

fn policy() -> PolicyConfig {
    PolicyConfig {
        connect_timeout_secs: 4,
        connection_idle_secs: 300,
        uplink_only_secs: 2,
        downlink_only_secs: 0,
        sniffing_cache_millis: 0,
    }
}

fn direct() -> OutboundConfig {
    OutboundConfig {
        tag: "direct".to_string(),
        protocol: "freedom".to_string(),
        method: None,
        alter_id: None,
        address: None,
        port: None,
        username: None,
        password: None,
        tls: None,
        transport: None,
    }
}

fn config(port: u16) -> CoreConfig {
    CoreConfig {
        instance_id: "node-a".to_string(),
        log_level: "info".to_string(),
        dns: section(),
        policy: policy(),
        inbounds: vec![bind_validation_inbound(
            "panel|socks|1",
            Protocol::Socks,
            "127.0.0.1",
            port,
            "",
        )],
        outbounds: vec![direct()],
        routes: Vec::new(),
        stats: section(),
    }
}

fn resolve(inbounds: &[InboundConfig]) -> Vec<Result<SocketAddress, CoreError>> {
    inbounds
        .iter()
        .map(|inbound| resolve_listen_addr(&inbound.listen, inbound.port, Ok(Vec::new())))
        .collect()
}

fn validate(inbounds: Vec<InboundConfig>) -> Result<(), String> {
    let resolved = resolve(&inbounds);
    validate_unique_listener_binds(&inbounds, &resolved).map_err(|error| error.message)
}

fn address(port: u16) -> SocketAddress {
    SocketAddress::new(IpAddress::V4([127, 0, 0, 1]), port)
}

fn start(config: &CoreConfig) -> Result<StartedService, CoreServiceError> {
    let resolved = resolve(&config.inbounds);
    let mut begun = CoreService::start(config, Ok(()), &resolved, None)?;
    for inbound in &config.inbounds {
        let listen = resolve_listen_addr(&inbound.listen, inbound.port, Ok(Vec::new()));
        plan_listener(inbound, listen, Vec::new(), &begun.timeouts)?;
        begun.service.listener_started(inbound, address(inbound.port));
    }
    Ok(begun)
}

fn plan(inbound: &InboundConfig) -> Result<PlannedListener, CoreServiceError> {
    plan_listener(
        inbound,
        Ok(address(inbound.port)),
        Vec::new(),
        &timeouts(&policy(), None),
    )
}

fn permission_denied(message: &str) -> CoreError {
    CoreError {
        kind: ErrorKind::PermissionDenied,
        message: message.to_string(),
    }
}

#[test]
fn wildcard_listen_defaults_to_dual_stack_ipv6_unspecified() {
    let unspecified = SocketAddress::new(IpAddress::V6([0; 16]), 443);
    assert_eq!(
        resolve_listen_addr("", 443, Ok(Vec::new())).expect("empty listen"),
        unspecified
    );
    assert_eq!(
        resolve_listen_addr("0.0.0.0", 443, Ok(Vec::new())).expect("ipv4 wildcard"),
        unspecified
    );
    assert_eq!(
        resolve_listen_addr("[::]", 443, Ok(Vec::new())).expect("bracketed ipv6 wildcard"),
        unspecified
    );
    assert_eq!(
        resolve_listen_addr("127.0.0.1", 443, Ok(Vec::new())).expect("explicit ipv4"),
        address(443)
    );
}

#[test]
fn names_are_looked_up() {
    let found = resolve_listen_addr("node.example.test", 443, Ok(vec![address(443), address(1)]));
    assert_eq!(found.expect("found"), address(443));
    let missing = resolve_listen_addr("node.example.test", 443, Ok(Vec::new()));
    assert_eq!(
        missing.expect_err("nothing found"),
        CoreError {
            kind: ErrorKind::AddrNotAvailable,
            message: "listen address did not resolve".to_string(),
        }
    );
    let failed = resolve_listen_addr("node.example.test", 443, Err(permission_denied("no dns")));
    assert_eq!(failed.expect_err("no dns"), permission_denied("no dns"));
}

#[test]
fn vless_empty_transport_defaults_to_tcp() {
    assert!(vless_transport_is_tcp(""));
    assert!(vless_transport_is_tcp("tcp"));
    assert!(vless_transport_is_tcp(" tcp "));
    assert!(!vless_transport_is_tcp("ws"));
    assert!(!vless_transport_is_tcp("httpupgrade"));
}

#[test]
fn outbound_connect_timeout_defaults_and_clamps_env_value() {
    assert_eq!(outbound_connect_timeout_from_env(None, 15), 15);
    assert_eq!(
        outbound_connect_timeout_from_env(Some("0".to_string()), 15),
        15
    );
    assert_eq!(
        outbound_connect_timeout_from_env(Some("2".to_string()), 15),
        2
    );
    assert_eq!(
        outbound_connect_timeout_from_env(Some("999".to_string()), 15),
        60
    );
    assert_eq!(outbound_connect_timeout_from_env(None, 4), 4);
}

#[test]
fn policy_times_are_at_least_one() {
    let limits = timeouts(&policy(), Some(" 7 ".to_string()));
    assert_eq!(limits.connect_secs, 7);
    assert_eq!(limits.connection_idle_secs, 300);
    assert_eq!(limits.uplink_only_secs, 2);
    assert_eq!(limits.downlink_only_secs, 1);
    assert_eq!(limits.sniffing_cache_millis, 1);
    assert_eq!(outbound_connect_timeout_from_env(None, 0), 1);
    assert_eq!(outbound_connect_timeout_from_env(None, 100), 60);
}

#[test]
fn connection_worker_stack_defaults_and_clamps_env_value() {
    assert_eq!(connection_worker_stack_size_from_env(None), 2048 * 1024);
    assert_eq!(
        connection_worker_stack_size_from_env(Some("128".to_string())),
        256 * 1024
    );
    assert_eq!(
        connection_worker_stack_size_from_env(Some("2048".to_string())),
        2048 * 1024
    );
    assert_eq!(
        connection_worker_stack_size_from_env(Some("99999".to_string())),
        8192 * 1024
    );
}

#[test]
fn worker_threads_follow_the_machine() {
    assert_eq!(tcp_accept_worker_threads(None), 4);
    assert_eq!(tcp_accept_worker_threads(Some(1)), 2);
    assert_eq!(tcp_accept_worker_threads(Some(64)), 8);
    assert_eq!(quic_runtime_worker_threads(None, None), 2);
    assert_eq!(quic_runtime_worker_threads(None, Some(7)), 4);
    assert_eq!(quic_runtime_worker_threads(None, Some(64)), 8);
    assert_eq!(
        quic_runtime_worker_threads(Some(" 100 ".to_string()), Some(7)),
        64
    );
    assert_eq!(quic_runtime_worker_threads(Some("0".to_string()), None), 1);
    assert_eq!(
        quic_runtime_worker_threads(Some("many".to_string()), Some(8)),
        4
    );
}

#[test]
fn listener_bind_validation_rejects_duplicate_tcp_port() {
    let inbounds = vec![
        bind_validation_inbound("node-a|vless", Protocol::Vless, "127.0.0.1", 25001, "tcp"),
        bind_validation_inbound("node-b|trojan", Protocol::Trojan, "127.0.0.1", 25001, "tcp"),
    ];

    let error = validate(inbounds).expect_err("duplicate tcp bind should fail");

    assert!(error.contains("duplicate tcp listen"));
    assert!(error.contains("25001"));
    assert!(error.contains("node-a|vless"));
    assert!(error.contains("node-b|trojan"));
    assert_eq!(
        error,
        "duplicate tcp listen 127.0.0.1:25001 for inbound node-b|trojan (Trojan) conflicts with \
         node-a|vless (Vless); change one node server port or listen address"
    );
}

#[test]
fn listener_bind_validation_rejects_duplicate_naive_tcp_port() {
    let inbounds = vec![
        bind_validation_inbound("node-a|vless", Protocol::Vless, "127.0.0.1", 25005, "tcp"),
        bind_validation_inbound("node-b|naive", Protocol::Naive, "127.0.0.1", 25005, "tcp"),
    ];

    let error = validate(inbounds).expect_err("duplicate naive tcp bind should fail");

    assert!(error.contains("duplicate tcp listen"));
    assert!(error.contains("25005"));
    assert!(error.contains("node-a|vless"));
    assert!(error.contains("node-b|naive"));
}

#[test]
fn listener_bind_validation_treats_wildcard_as_conflicting_with_explicit_ip() {
    let inbounds = vec![
        bind_validation_inbound("node-a|vless", Protocol::Vless, "0.0.0.0", 25002, "tcp"),
        bind_validation_inbound("node-b|socks", Protocol::Socks, "127.0.0.1", 25002, "tcp"),
    ];

    let error = validate(inbounds).expect_err("wildcard and explicit tcp bind should conflict");

    assert!(error.contains("duplicate tcp listen"));
    assert!(error.contains("25002"));
}

#[test]
fn listener_bind_validation_allows_same_port_for_tcp_and_udp() {
    let inbounds = vec![
        bind_validation_inbound("node-a|vless", Protocol::Vless, "127.0.0.1", 25003, "tcp"),
        bind_validation_inbound(
            "node-a|hysteria2",
            Protocol::Hysteria2,
            "127.0.0.1",
            25003,
            "udp",
        ),
    ];

    validate(inbounds).expect("tcp and udp listeners may share a numeric port");
}

#[test]
fn listener_bind_validation_rejects_duplicate_udp_port() {
    let inbounds = vec![
        bind_validation_inbound(
            "node-a|shadowsocks",
            Protocol::Shadowsocks,
            "127.0.0.1",
            25004,
            "tcp,udp",
        ),
        bind_validation_inbound(
            "node-b|hysteria2",
            Protocol::Hysteria2,
            "127.0.0.1",
            25004,
            "udp",
        ),
    ];

    let error = validate(inbounds).expect_err("duplicate udp bind should fail");

    assert!(error.contains("duplicate udp listen"));
    assert!(error.contains("25004"));
}

#[test]
fn listener_bind_validation_treats_naive_h3_as_udp() {
    let naive_h3 = || {
        let mut inbound = bind_validation_inbound(
            "node-a|naive-h3",
            Protocol::Naive,
            "127.0.0.1",
            25006,
            "tcp",
        );
        inbound.tls = Some(tls(vec!["h3".to_string()]));
        inbound
    };

    validate(vec![
        bind_validation_inbound("node-b|vless", Protocol::Vless, "127.0.0.1", 25006, "tcp"),
        naive_h3(),
    ])
    .expect("naive h3 udp and vless tcp may share a numeric port");

    let error = validate(vec![
        bind_validation_inbound(
            "node-b|hysteria2",
            Protocol::Hysteria2,
            "127.0.0.1",
            25006,
            "udp",
        ),
        naive_h3(),
    ])
    .expect_err("naive h3 should conflict with another udp listener");

    assert!(error.contains("duplicate udp listen"));
    assert!(error.contains("25006"));
}

#[test]
fn unresolved_listeners_are_named() {
    let inbounds = vec![bind_validation_inbound(
        "node-a|vless",
        Protocol::Vless,
        "node.example.test",
        25007,
        "tcp",
    )];
    assert_eq!(
        validate(inbounds).expect_err("name without address"),
        "inbound node-a|vless listen node.example.test:25007 did not resolve: \
         listen address did not resolve"
    );
}

#[test]
fn shadowsocks_binds_both_networks() {
    let inbound = bind_validation_inbound("ss", Protocol::Shadowsocks, "127.0.0.1", 1, "udp");
    let specs = listener_bind_specs(&inbound, &Ok(address(1))).expect("specs");
    assert_eq!(specs.len(), 2);
    let inbound = bind_validation_inbound("t", Protocol::Tuic, "127.0.0.1", 1, "tcp");
    let specs = listener_bind_specs(&inbound, &Ok(address(1))).expect("specs");
    assert_eq!(specs.len(), 1);
}

#[test]
fn quic_listeners_are_counted() {
    let inbounds = vec![
        bind_validation_inbound("a", Protocol::Tuic, "127.0.0.1", 1, ""),
        bind_validation_inbound("b", Protocol::Vless, "127.0.0.1", 2, ""),
        bind_validation_inbound("c", Protocol::Hysteria2, "127.0.0.1", 3, ""),
        bind_validation_inbound("d", Protocol::Naive, "127.0.0.1", 4, " QUIC "),
    ];
    assert_eq!(quic_listener_count(&inbounds), 3);
}

#[test]
fn connection_worker_snapshot_formats_low_cardinality_fields() {
    let snapshot = ConnectionWorkerGroupSnapshot {
        active_total: 3,
        active_blocking: 1,
        active_async: 2,
    };
    assert_eq!(
        format_connection_worker_snapshot(snapshot),
        "connection_active_total=3 connection_active_blocking=1 connection_active_async=2"
    );
}

#[test]
fn connection_worker_group_timeout_does_not_block_shutdown() {
    let mut group = ConnectionWorkerGroup::new();

    assert!(group.acquire(ConnectionWorkerKind::Blocking));

    assert_eq!(
        group.wait_until_idle_timeout(1_000, 1_050, false),
        IdleWait::Wait(50)
    );
    assert_eq!(
        group.wait_until_idle_timeout(1_050, 1_050, true),
        IdleWait::TimedOut
    );

    assert!(group.release(ConnectionWorkerKind::Blocking));
    assert_eq!(
        group.wait_until_idle_timeout(1_050, 3_050, false),
        IdleWait::Idle
    );
}

#[test]
fn wait_ends_with_the_last_connection() {
    let mut group = ConnectionWorkerGroup::new();
    group.acquire(ConnectionWorkerKind::Blocking);
    group.acquire(ConnectionWorkerKind::Async);
    assert_eq!(
        group.wait_until_idle_timeout(0, 2_000, false),
        IdleWait::Wait(2_000)
    );
    assert!(!group.release(ConnectionWorkerKind::Async));
    assert_eq!(
        group.wait_until_idle_timeout(300, 2_000, false),
        IdleWait::Wait(1_700)
    );
    assert!(group.release(ConnectionWorkerKind::Blocking));
    assert_eq!(
        group.wait_until_idle_timeout(2_000, 2_000, true),
        IdleWait::Idle
    );
    assert_eq!(group.snapshot().active_total, 0);
}

#[test]
fn fingerprint_is_taken_of_every_field() {
    let user = CoreUser {
        id: 3,
        uuid: "user-a".to_string(),
        password: Some("secret".to_string()),
        email: None,
        speed_limit: 5,
        device_limit: 7,
    };
    let print = user_fingerprint(&user);
    assert_eq!(user_fingerprint(&user.clone()), print);
    let change = |edit: fn(&mut CoreUser)| {
        let mut other = user.clone();
        edit(&mut other);
        user_fingerprint(&other)
    };
    let others = [
        change(|user| user.id = 4),
        change(|user| user.uuid = "user-b".to_string()),
        change(|user| user.password = None),
        change(|user| user.password = Some("other".to_string())),
        change(|user| user.email = Some(String::new())),
        change(|user| user.speed_limit = 6),
        change(|user| user.device_limit = 8),
    ];
    for other in others {
        assert_ne!(other, print);
    }
}

#[test]
fn connection_worker_group_reports_async_and_blocking_activity() {
    let mut group = ConnectionWorkerGroup::new();
    assert!(group.acquire(ConnectionWorkerKind::Blocking));
    assert!(group.acquire(ConnectionWorkerKind::Async));

    let snapshot = group.snapshot();
    assert_eq!(snapshot.active_blocking, 1);
    assert_eq!(snapshot.active_async, 1);
    assert_eq!(snapshot.active_total, 2);

    assert!(!group.release(ConnectionWorkerKind::Blocking));
    assert!(group.release(ConnectionWorkerKind::Async));
    let snapshot = group.snapshot();
    assert_eq!(snapshot.active_total, 0);
    assert_eq!(snapshot.active_blocking, 0);
    assert_eq!(snapshot.active_async, 0);
}

#[test]
fn ended_connection_leaves_no_trace() {
    let mut group = ConnectionWorkerGroup::new();
    group.acquire(ConnectionWorkerKind::Blocking);
    let before = group;
    group.acquire(ConnectionWorkerKind::Async);
    group.release(ConnectionWorkerKind::Async);
    assert_eq!(group, before);
    group.release(ConnectionWorkerKind::Async);
    assert_eq!(group, before);
}

#[test]
fn service_does_not_retain_full_users_in_static_config() {
    let mut config = config(25100);
    config.inbounds[0].users = (0..1024)
        .map(|index| CoreUser {
            id: index,
            uuid: format!("user-{index:04}"),
            password: None,
            email: Some(format!("user-{index:04}@example.test")),
            speed_limit: 0,
            device_limit: 0,
        })
        .collect();

    let mut service = start(&config).expect("service start").service;
    let mut users = UserStore::from_uuid_users(&config.inbounds[0].users);

    assert!(service.config.inbounds[0].users.is_empty());
    let delta = CoreUserDelta {
        added: vec![CoreUser {
            id: 2048,
            uuid: "new-user".to_string(),
            password: None,
            email: Some("new-user@example.test".to_string()),
            speed_limit: 0,
            device_limit: 0,
        }],
        revision: Some("rev-2".to_string()),
        ..CoreUserDelta::default()
    };
    let listener = service
        .apply_user_delta("panel|socks|1", &delta)
        .expect("delta apply");
    assert_eq!(listener, 0);
    let result = users.apply_uuid_delta(&delta);

    assert_eq!(result.added, 1);
    assert_eq!(result.active_users, 1025);
    assert!(service.config.inbounds[0].users.is_empty());
    service.stop();
}

#[test]
fn tcp_auth_backoff_only_records_auth_like_permission_failures() {
    assert!(should_record_tcp_auth_failure(&permission_denied(
        "unknown vless user"
    )));
    assert!(should_record_tcp_auth_failure(&permission_denied(
        "invalid vmess auth id"
    )));
    assert!(should_record_tcp_auth_failure(&permission_denied(
        "proxy authentication required"
    )));
    assert!(!should_record_tcp_auth_failure(&permission_denied(
        "target blocked by route"
    )));
    assert!(!should_record_tcp_auth_failure(&permission_denied(
        "device limit reached for user"
    )));
    assert!(!should_record_tcp_auth_failure(&CoreError {
        kind: ErrorKind::InvalidData,
        message: "invalid request".to_string(),
    }));
}

#[test]
fn blocked_clients_are_refused() {
    let error = admit_tls_client(true, true).expect_err("blocked peer");
    assert_eq!(error, permission_denied("tls handshake backoff active"));
    let error = admit_tcp_client(true, true).expect_err("blocked peer");
    assert_eq!(error, permission_denied("tcp auth backoff active"));
    assert!(admit_tls_client(true, false).is_ok());
    assert!(admit_tls_client(false, true).is_ok());
    assert!(admit_tcp_client(false, true).is_ok());
}

#[test]
fn only_failures_of_a_known_client_count() {
    let auth = Err(permission_denied("unknown vless user"));
    assert_eq!(
        handle_tcp_connection_with_failure_backoff(true, &auth),
        ClientNote::Failure
    );
    assert_eq!(
        handle_tcp_connection_with_failure_backoff(false, &auth),
        ClientNote::Nothing
    );
    assert_eq!(
        handle_tcp_connection_with_failure_backoff(true, &Ok(())),
        ClientNote::Success
    );
    assert_eq!(
        handle_tcp_connection_with_failure_backoff(
            true,
            &Err(permission_denied("target blocked by route"))
        ),
        ClientNote::Nothing
    );
}

#[test]
fn handshakes_are_judged_by_how_they_end() {
    let report = accept_tls_connection(true, HandshakeEnd::Accepted);
    assert_eq!(report.note, ClientNote::Success);
    assert!(report.result.is_ok());

    let report = accept_tls_connection(
        true,
        HandshakeEnd::Failed(CoreError {
            kind: ErrorKind::ConnectionReset,
            message: "reset".to_string(),
        }),
    );
    assert_eq!(report.note, ClientNote::Nothing);
    assert_eq!(report.logged, None);

    let report = accept_tls_connection(
        true,
        HandshakeEnd::Failed(CoreError {
            kind: ErrorKind::InvalidData,
            message: "bad record".to_string(),
        }),
    );
    assert_eq!(report.note, ClientNote::Failure);
    assert_eq!(report.logged, Some(TlsHandshakeErrorClass::InvalidHandshake));

    let report = accept_tls_connection(false, HandshakeEnd::RanOut);
    assert_eq!(report.note, ClientNote::Nothing);
    assert_eq!(report.logged, Some(TlsHandshakeErrorClass::Io));
    assert_eq!(
        report.result.expect_err("ran out"),
        CoreError {
            kind: ErrorKind::TimedOut,
            message: "tls handshake timed out".to_string(),
        }
    );
}

#[test]
fn starts_mieru_listener_from_core_config() {
    let mut config = config(25101);
    config.inbounds[0].tag = "panel|mieru|1".to_string();
    config.inbounds[0].protocol = Protocol::Mieru;
    config.inbounds[0].transport.network = "tcp".to_string();

    let mut service = start(&config).expect("service start").service;
    let listeners = service.listeners();

    assert_eq!(listeners.len(), 1);
    assert_eq!(listeners[0].protocol, Protocol::Mieru);
    service.stop();
}

#[test]
fn naive_requires_tls_config() {
    let mut config = config(25102);
    config.inbounds[0].protocol = Protocol::Naive;

    let error = start(&config).expect_err("naive without tls should fail");

    assert!(error.to_text().contains("tls"));
    assert_eq!(
        error.to_text(),
        "failed to bind inbound panel|socks|1: naive requires tls config"
    );
}

#[test]
fn quic_protocols_require_tls_config() {
    let inbound = bind_validation_inbound("t", Protocol::Tuic, "127.0.0.1", 1, "");
    assert_eq!(
        plan(&inbound).expect_err("no tls").to_text(),
        "failed to bind inbound t: tuic requires tls config"
    );
    let inbound = bind_validation_inbound("h", Protocol::Hysteria2, "127.0.0.1", 1, "");
    assert_eq!(
        plan(&inbound).expect_err("no tls").to_text(),
        "failed to bind inbound h: hysteria2 requires tls config"
    );
}

#[test]
fn starts_vmess_listener_from_core_config() {
    let mut config = config(25103);
    config.inbounds[0].tag = "panel|vmess|1".to_string();
    config.inbounds[0].protocol = Protocol::Vmess;
    config.inbounds[0].users[0].uuid = "11111111-1111-1111-1111-111111111111".to_string();

    let mut service = start(&config).expect("service start").service;
    let listeners = service.listeners();

    assert_eq!(listeners.len(), 1);
    assert_eq!(listeners[0].protocol, Protocol::Vmess);
    service.stop();
}

#[test]
fn starts_vless_listener_from_core_config() {
    let mut config = config(25104);
    config.inbounds[0].tag = "panel|vless|1".to_string();
    config.inbounds[0].protocol = Protocol::Vless;
    config.inbounds[0].users[0].uuid = "11111111-1111-1111-1111-111111111111".to_string();

    let mut service = start(&config).expect("service start").service;
    let listeners = service.listeners();

    assert_eq!(listeners.len(), 1);
    assert_eq!(listeners[0].protocol, Protocol::Vless);
    service.stop();
}

fn reality_inbound(port: u16) -> InboundConfig {
    let mut inbound = bind_validation_inbound(
        "panel|vless|reality|1",
        Protocol::Vless,
        "127.0.0.1",
        port,
        "",
    );
    inbound.flow = "xtls-rprx-vision".to_string();
    inbound.tls = Some(TlsConfig {
        server_name: "www.example.com".to_string(),
        cert_file: None,
        key_file: None,
        alpn: Vec::new(),
        reject_unknown_sni: false,
        reality: Some(RealityConfig {
            dest: "www.example.com:443".to_string(),
            server_port: None,
            private_key: "BwcHBwcHBwcHBwcHBwcHBwcHBwcHBwcHBwcHBwcHBwc".to_string(),
            short_id: "6ba85179e30d4fc2".to_string(),
            xver: 0,
            mldsa65_seed: None,
        }),
    });
    inbound
}

#[test]
fn starts_vless_reality_listener_from_core_config() {
    let mut config = config(25105);
    config.inbounds = vec![reality_inbound(25105)];

    let mut service = start(&config).expect("service start").service;
    let listeners = service.listeners();

    assert_eq!(listeners.len(), 1);
    assert_eq!(listeners[0].protocol, Protocol::Vless);
    service.stop();
}

#[test]
fn starts_vless_httpupgrade_listener_from_core_config() {
    let mut config = config(25106);
    config.inbounds[0].tag = "panel|vless|1".to_string();
    config.inbounds[0].protocol = Protocol::Vless;
    config.inbounds[0].users[0].uuid = "11111111-1111-1111-1111-111111111111".to_string();
    config.inbounds[0].transport.network = "httpupgrade".to_string();
    config.inbounds[0].transport.path = Some("/edge".to_string());
    config.inbounds[0].transport.host = Some("example.test".to_string());

    let mut service = start(&config).expect("service start").service;
    let listeners = service.listeners();

    assert_eq!(listeners.len(), 1);
    assert_eq!(listeners[0].protocol, Protocol::Vless);
    service.stop();
}

#[test]
fn starts_trojan_listener_from_core_config() {
    let mut config = config(25107);
    config.inbounds[0].tag = "panel|trojan|1".to_string();
    config.inbounds[0].protocol = Protocol::Trojan;

    let mut service = start(&config).expect("service start").service;
    let listeners = service.listeners();

    assert_eq!(listeners.len(), 1);
    assert_eq!(listeners[0].protocol, Protocol::Trojan);
    service.stop();
}

#[test]
fn starts_shadowsocks_listener_from_core_config() {
    let mut config = config(25108);
    config.inbounds[0].tag = "panel|shadowsocks|1".to_string();
    config.inbounds[0].protocol = Protocol::Shadowsocks;
    config.inbounds[0].cipher = Some("aes-128-gcm".to_string());

    let mut service = start(&config).expect("service start").service;
    let listeners = service.listeners();

    assert_eq!(listeners.len(), 1);
    assert_eq!(listeners[0].protocol, Protocol::Shadowsocks);
    service.stop();
}

#[test]
fn starts_anytls_listener_from_core_config() {
    let mut config = config(25109);
    config.inbounds[0].tag = "panel|anytls|1".to_string();
    config.inbounds[0].protocol = Protocol::AnyTls;

    let mut service = start(&config).expect("service start").service;
    let listeners = service.listeners();

    assert_eq!(listeners.len(), 1);
    assert_eq!(listeners[0].protocol, Protocol::AnyTls);
    service.stop();
}

#[test]
fn starts_naive_listener_from_core_config() {
    let mut config = config(25110);
    config.inbounds[0].tag = "panel|naive|1".to_string();
    config.inbounds[0].protocol = Protocol::Naive;
    config.inbounds[0].tls = Some(tls(Vec::new()));

    let mut service = start(&config).expect("service start").service;
    let listeners = service.listeners();

    assert_eq!(listeners.len(), 1);
    assert_eq!(listeners[0].protocol, Protocol::Naive);
    service.stop();
}

#[test]
fn starts_naive_h3_listener_from_core_config() {
    let mut config = config(25111);
    config.inbounds[0].tag = "panel|naive-h3|1".to_string();
    config.inbounds[0].protocol = Protocol::Naive;
    config.inbounds[0].transport = transport("quic");
    config.inbounds[0].tls = Some(tls(vec!["h3".to_string()]));

    let mut service = start(&config).expect("service start").service;
    let listeners = service.listeners();

    assert_eq!(listeners.len(), 1);
    assert_eq!(listeners[0].protocol, Protocol::Naive);
    service.stop();
}

#[test]
fn starts_http_listener_from_core_config() {
    let mut config = config(25112);
    config.inbounds[0].tag = "panel|http|1".to_string();
    config.inbounds[0].protocol = Protocol::Http;

    let mut service = start(&config).expect("service start").service;
    let listeners = service.listeners();

    assert_eq!(listeners.len(), 1);
    assert_eq!(listeners[0].protocol, Protocol::Http);
    service.stop();
}

#[test]
fn apply_user_delta_targets_one_inbound_without_rebinding_or_cross_affecting() {
    let old_vless_uuid = "11111111-1111-1111-1111-111111111111";
    let new_vless_uuid = "22222222-2222-2222-2222-222222222222";
    let mut vless_user = user();
    vless_user.uuid = old_vless_uuid.to_string();
    let mut trojan_user = user();
    trojan_user.id = 2;
    trojan_user.uuid = "trojan-password".to_string();

    let mut config = config(25113);
    config.inbounds[0].tag = "panel|vless|1".to_string();
    config.inbounds[0].protocol = Protocol::Vless;
    config.inbounds[0].users = vec![vless_user.clone()];
    let mut trojan_inbound =
        bind_validation_inbound("panel|trojan|1", Protocol::Trojan, "127.0.0.1", 25114, "");
    trojan_inbound.users = vec![trojan_user.clone()];
    config.inbounds.push(trojan_inbound);

    let mut service = start(&config).expect("service start").service;
    let mut vless_users = UserStore::from_uuid_users(&config.inbounds[0].users);
    let before = service.listeners();

    let mut added = vless_user.clone();
    added.id = 3;
    added.uuid = new_vless_uuid.to_string();
    added.speed_limit = 1024;
    added.device_limit = 2;
    let delta = CoreUserDelta {
        added: vec![added.clone()],
        deleted: vec![old_vless_uuid.to_string()],
        revision: Some("rev-2".to_string()),
        ..CoreUserDelta::default()
    };
    let listener = service
        .apply_user_delta("panel|vless|1", &delta)
        .expect("delta apply");
    assert_eq!(listener, 0);
    let result = vless_users.apply_uuid_delta(&delta);

    assert_eq!(result.added, 1);
    assert_eq!(result.deleted, 1);
    assert_eq!(result.active_users, 1);
    assert_eq!(service.listeners(), before);
    assert!(vless_users.get(old_vless_uuid).is_none());
    assert!(vless_users.get(new_vless_uuid).is_some());

    // The change is known, and the other inbound has not been touched.
    config.inbounds[0].users = vec![added];
    assert!(service.update_users(&config).is_empty());

    service.stop();
}

#[test]
fn invalid_configuration_is_not_started() {
    let config = config(25115);
    let resolved = resolve(&config.inbounds);
    let error = CoreService::start(
        &config,
        Err(ValidationError {
            message: "instance_id is required".to_string(),
        }),
        &resolved,
        None,
    )
    .expect_err("invalid");
    assert_eq!(
        error.to_text(),
        "invalid core config: instance_id is required"
    );

    let mut twice = config;
    let again = bind_validation_inbound("b", Protocol::Http, "127.0.0.1", 25115, "");
    twice.inbounds.push(again);
    let error = start(&twice).expect_err("conflict");
    assert!(error
        .to_text()
        .starts_with("invalid core config: duplicate tcp listen 127.0.0.1:25115"));
}

#[test]
fn errors_are_told_in_words() {
    let feature = CoreServiceError::UnsupportedFeature {
        tag: "a".to_string(),
        message: "no".to_string(),
    };
    assert_eq!(feature.to_text(), "inbound a unsupported feature: no");
    let protocol = CoreServiceError::UnsupportedProtocol {
        tag: "a".to_string(),
        protocol: Protocol::Hysteria2,
    };
    assert_eq!(
        protocol.to_text(),
        "inbound a protocol Hysteria2 is not implemented in keli-core-rs yet"
    );
}

#[test]
fn quic_resources_exist_where_they_are_needed() {
    let mut config = config(25116);
    assert_eq!(start(&config).expect("start").quic_listeners, None);
    config.inbounds[0].protocol = Protocol::Tuic;
    config.inbounds[0].tls = Some(tls(Vec::new()));
    assert_eq!(start(&config).expect("start").quic_listeners, Some(1));
}

#[test]
fn unchanged_users_are_not_replaced() {
    let mut config = config(25117);
    let second = bind_validation_inbound("panel|http|1", Protocol::Http, "127.0.0.1", 25118, "");
    config.inbounds.push(second);
    let mut service = start(&config).expect("start").service;

    assert!(service.update_users(&config).is_empty());

    config.inbounds[1].users[0].speed_limit = 10;
    assert_eq!(
        service.update_users(&config),
        vec![UpdateAction::ReplaceUsers {
            listener: 1,
            inbound: 1
        }]
    );
    assert!(service.update_users(&config).is_empty());

    config.inbounds[0].users.push(CoreUser {
        uuid: "user-b".to_string(),
        ..user()
    });
    assert_eq!(
        service.update_routes_and_users(&config),
        vec![
            UpdateAction::ReplaceUsers {
                listener: 0,
                inbound: 0
            },
            UpdateAction::ReplaceRoutes {
                listener: 0,
                inbound: 0
            },
            UpdateAction::ReplaceRoutes {
                listener: 1,
                inbound: 1
            },
        ]
    );
    assert_eq!(
        service.update_routes(&config),
        vec![
            UpdateAction::ReplaceRoutes {
                listener: 0,
                inbound: 0
            },
            UpdateAction::ReplaceRoutes {
                listener: 1,
                inbound: 1
            },
        ]
    );
    assert!(service.config.inbounds[0].users.is_empty());
}

#[test]
fn inbounds_without_a_listener_are_passed_over() {
    let mut config = config(25119);
    let mut service = start(&config).expect("start").service;
    config.inbounds[0].tag = "elsewhere".to_string();
    assert!(service.update_users(&config).is_empty());
    assert!(service.update_routes(&config).is_empty());
}

#[test]
fn updates_need_the_rest_to_be_the_same() {
    let mut changed = config(25120);
    let service = start(&changed).expect("start").service;
    assert!(service.can_update_users(&changed));
    changed.inbounds[0].users.clear();
    assert!(service.can_update_users(&changed));
    changed.inbounds[0].routes.push(RouteRule {
        text: "block".to_string(),
    });
    assert!(!service.can_update_users(&changed));
    assert!(service.can_update_routes(&changed));
    changed.outbounds.clear();
    assert!(service.can_update_routes(&changed));
    changed.inbounds[0].port = 1;
    assert!(!service.can_update_routes(&changed));
}

#[test]
fn configuration_without_users_is_the_same_but_for_users() {
    let full = config(25121);
    let bare = config_without_users(&full);
    assert!(bare.inbounds[0].users.is_empty());
    assert_eq!(bare.inbounds[0].tag, full.inbounds[0].tag);
    assert!(bare.outbounds.same(&full.outbounds));
}

#[test]
fn revisions_follow_each_other() {
    let config = config(25122);
    let tag = "panel|socks|1";
    let mut service = start(&config).expect("start").service;

    let based = |base: &str, revision: Option<&str>| CoreUserDelta {
        base_revision: Some(base.to_string()),
        revision: revision.map(str::to_string),
        ..CoreUserDelta::default()
    };

    assert_eq!(
        service
            .apply_user_delta("nowhere", &CoreUserDelta::default())
            .expect_err("unknown tag"),
        "unknown inbound node_tag nowhere"
    );
    assert_eq!(
        service
            .apply_user_delta(tag, &based("rev-1", None))
            .expect_err("no revision yet"),
        "revision mismatch for inbound panel|socks|1: current <missing>, base rev-1; \
         full snapshot required"
    );
    let named = CoreUserDelta {
        full: Some(vec![user()]),
        base_revision: Some("whatever".to_string()),
        revision: Some("rev-1".to_string()),
        ..CoreUserDelta::default()
    };
    assert_eq!(service.apply_user_delta(tag, &named), Ok(0));
    assert_eq!(
        service.apply_user_delta(tag, &based("rev-1", Some("rev-2"))),
        Ok(0)
    );
    assert_eq!(
        service
            .apply_user_delta(tag, &based("rev-1", Some("rev-3")))
            .expect_err("stale"),
        "revision mismatch for inbound panel|socks|1: current rev-2, base rev-1"
    );
    let unnamed = CoreUserDelta {
        full: Some(vec![user()]),
        ..CoreUserDelta::default()
    };
    assert_eq!(service.apply_user_delta(tag, &unnamed), Ok(0));
    assert!(service
        .apply_user_delta(tag, &based("rev-2", None))
        .is_err());
    assert!(service.update_users(&config).is_empty());
}

#[test]
fn node_stops_once() {
    let mut service = start(&config(25123)).expect("start").service;
    assert!(service.stop());
    assert!(!service.stop());
}

#[test]
fn vless_accepts_clients_by_its_settings() {
    let mode = |inbound: &InboundConfig| match plan(inbound).expect("plan") {
        PlannedListener::Vless(plan) => plan.mode,
        _ => panic!("not a vless plan"),
    };
    let vless = |network: &str| {
        bind_validation_inbound("v", Protocol::Vless, "127.0.0.1", 1, network)
    };
    assert_eq!(mode(&vless("")), AcceptMode::AsyncPlain);
    assert_eq!(mode(&vless(" grpc ")), AcceptMode::Grpc);
    assert_eq!(
        mode(&vless("ws")),
        AcceptMode::Threads(ClientHandling::WebSocket)
    );
    assert_eq!(
        mode(&vless("kcp")),
        AcceptMode::Threads(ClientHandling::Plain)
    );

    let mut secured = vless("tcp");
    secured.tls = Some(tls(Vec::new()));
    assert_eq!(mode(&secured), AcceptMode::Threads(ClientHandling::Tls));
    secured.flow = " xtls-rprx-vision ".to_string();
    assert_eq!(mode(&secured), AcceptMode::AsyncTls);
    secured.transport.network = "ws".to_string();
    assert_eq!(mode(&secured), AcceptMode::AsyncTlsWebSocket);
    secured.transport.network = "httpupgrade".to_string();
    assert_eq!(
        mode(&secured),
        AcceptMode::Threads(ClientHandling::TlsHttpUpgrade)
    );
    assert_eq!(mode(&reality_inbound(1)), AcceptMode::Reality);
}

#[test]
fn trojan_plan_has_its_settings() {
    let mut inbound = bind_validation_inbound("t", Protocol::Trojan, "127.0.0.1", 1, "ws");
    inbound.tls = Some(tls(Vec::new()));
    inbound.sniffing = Section {
        text: "on".to_string(),
    };
    match plan(&inbound).expect("plan") {
        PlannedListener::Trojan(plan) => {
            assert_eq!(plan.mode, AcceptMode::AsyncTlsWebSocket);
            assert_eq!(plan.settings.server.node_tag, "t");
            assert_eq!(plan.settings.server.users, vec![user()]);
            assert_eq!(plan.settings.server.connect_timeout_millis, 4000);
            assert_eq!(plan.settings.connection_idle_secs, 300);
            assert_eq!(plan.settings.sniffing.text, "on");
        }
        _ => panic!("not a trojan plan"),
    }
}

#[test]
fn shadowsocks_plan_says_whether_udp_is_taken() {
    let mut inbound = bind_validation_inbound("s", Protocol::Shadowsocks, "127.0.0.1", 1, "tcp");
    inbound.cipher = Some("aes-128-gcm".to_string());
    match plan(&inbound).expect("plan") {
        PlannedListener::Shadowsocks(plan, udp) => {
            assert_eq!(plan.settings.method, "aes-128-gcm");
            assert!(!udp);
        }
        _ => panic!("not a shadowsocks plan"),
    }
    inbound.transport.network = "tcp,udp".to_string();
    match plan(&inbound).expect("plan") {
        PlannedListener::Shadowsocks(_, udp) => assert!(udp),
        _ => panic!("not a shadowsocks plan"),
    }
}

#[test]
fn failures_are_counted_where_the_node_serves_clients() {
    assert!(uses_failure_backoff(AcceptMode::Threads(ClientHandling::Tls)));
    assert!(uses_failure_backoff(AcceptMode::AsyncTls));
    assert!(!uses_failure_backoff(AcceptMode::Quic));
    assert!(!uses_failure_backoff(AcceptMode::Reality));
    assert_eq!(client_handling(false, " ws "), ClientHandling::WebSocket);
}

#[test]
fn grpc_service_has_a_default_name() {
    let mut inbound = bind_validation_inbound("v", Protocol::Vless, "127.0.0.1", 1, "grpc");
    let plain = grpc_plan(&inbound);
    assert_eq!(plain.service_name, "GunService");
    assert!(plain.tls.is_none());
    inbound.transport.service_name = Some("edge".to_string());
    let mut files = tls(vec!["h2".to_string()]);
    files.key_file = None;
    inbound.tls = Some(files);
    let secured = grpc_plan(&inbound);
    assert_eq!(secured.service_name, "edge");
    let files = secured.tls.expect("tls");
    assert_eq!(files.cert_file, "cert.pem");
    assert_eq!(files.key_file, "");
    assert_eq!(files.alpn, vec!["h2"]);
}

#[test]
fn blank_disguise_is_none() {
    let mut settings = transport("");
    assert_eq!(hysteria2_obfs_config(&settings), None);
    settings.obfs = Some("  ".to_string());
    assert_eq!(hysteria2_obfs_config(&settings), None);
    settings.obfs_password = Some(" secret ".to_string());
    let obfs = hysteria2_obfs_config(&settings).expect("obfs");
    assert_eq!(obfs.kind, "");
    assert_eq!(obfs.password, "secret");
}

#[test]
fn destinations_get_a_port() {
    assert!(has_explicit_port("www.example.com:443"));
    assert!(has_explicit_port(" [::1]:443 "));
    assert!(!has_explicit_port("[::1]"));
    assert!(!has_explicit_port("::1"));
    assert!(!has_explicit_port("www.example.com"));
    assert!(!has_explicit_port("www.example.com:70000"));
    assert_eq!(
        reality_dest(" www.example.com:443 ", Some(8443)),
        "www.example.com:443"
    );
    assert_eq!(
        reality_dest("www.example.com", Some(8443)),
        "www.example.com:8443"
    );
    assert_eq!(reality_dest("::1", Some(8443)), "[::1]:8443");
    assert_eq!(reality_dest("www.example.com", None), "www.example.com");
    assert!(has_explicit_port(&reality_dest("::1", Some(8443))));
}

#[test]
fn vless_reality_uses_xray_default_without_time_diff_limit() {
    let inbound = reality_inbound(1);
    let short_id = vec![0x6b, 0xa8, 0x51, 0x79, 0xe3, 0x0d, 0x4f, 0xc2];
    let gateway = reality_gateway_config(&inbound, Ok(vec![7; 32]), Ok(short_id), 15)
        .expect("reality gateway config");

    assert!(gateway.max_time_diff_secs.is_none());
}

#[test]
fn gateway_needs_its_settings() {
    let inbound = reality_inbound(1);
    let gateway = reality_gateway_config(&inbound, Ok(vec![7; 32]), Ok(vec![1, 2]), 4)
        .expect("gateway");
    assert_eq!(gateway.dest, "www.example.com:443");
    assert_eq!(gateway.server_name, "www.example.com");
    assert_eq!(gateway.private_key, vec![7; 32]);
    assert_eq!(gateway.short_id, vec![1, 2]);
    assert_eq!(gateway.connect_timeout_secs, 4);
    assert!(!gateway.probe_dest_on_auth);

    let error = reality_gateway_config(&inbound, Err("bad key".to_string()), Ok(Vec::new()), 4)
        .expect_err("key");
    assert_eq!(
        error.to_text(),
        "failed to bind inbound panel|vless|reality|1: bad key"
    );
    let error = reality_gateway_config(&inbound, Ok(Vec::new()), Err("bad id".to_string()), 4)
        .expect_err("id");
    assert!(error.to_text().ends_with("bad id"));

    let mut without = reality_inbound(1);
    without.tls = Some(tls(Vec::new()));
    let error =
        reality_gateway_config(&without, Ok(Vec::new()), Ok(Vec::new()), 4).expect_err("reality");
    assert!(error
        .to_text()
        .ends_with("vless reality requires reality config"));
    without.tls = None;
    let error =
        reality_gateway_config(&without, Ok(Vec::new()), Ok(Vec::new()), 4).expect_err("tls");
    assert!(error.to_text().ends_with("vless reality requires tls"));
}

#[test]
fn listen_errors_name_the_inbound() {
    let inbound = bind_validation_inbound("h", Protocol::Http, "127.0.0.1", 1, "");
    let error = plan_listener(
        &inbound,
        Err(permission_denied("no")),
        Vec::new(),
        &timeouts(&policy(), None),
    )
    .expect_err("listen");
    assert_eq!(error.to_text(), "failed to bind inbound h: no");
}

#[test]
fn planned_settings_make_a_server() {
    let inbound = bind_validation_inbound("s", Protocol::Socks, "127.0.0.1", 1, "");
    match plan(&inbound).expect("plan") {
        PlannedListener::Socks(plan) => {
            let settings: Socks5ServerConfig = plan.settings;
            let server = Socks5Server::new(settings);
            assert_eq!(server.config.node_tag, "s");
        }
        _ => panic!("not a socks plan"),
    }
}
