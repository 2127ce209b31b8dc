use keli_core::address::{IpAddress, SocketAddress};
use keli_core::config::{Header, OutboundConfig, OutboundTlsConfig, OutboundTransportConfig};
use keli_core::error::{CoreError, ErrorKind};
use keli_core::route::RouteDecision;
use keli_core::target::SocksTarget;
use keli_core::traffic::TrafficRegistry;
use keli_core::trojan::{
    encode_trojan_udp_packet, parse_trojan_target_from_bytes, parse_trojan_udp_packet_from_buffer,
    read_trojan_udp_packet, trojan_password_hash, udp_bind_addr_for_remote,
    write_trojan_tcp_request,
};
use keli_core::trojan_outbound::{
    check_server_name, connect_trojan_tcp_outbound, outbound_transport_headers,
    outbound_transport_host, outbound_transport_path, trojan_outbound_server,
    trojan_tls_server_name, TrojanTransport,
};
use keli_core::trojan_server::{
    client_address, is_stream_closed, poll_tls_websocket_connect, poll_websocket_connect,
    recv_available_from_socket, route_udp_packet, udp_packet_answered, ConnectPoll, ConnectStep,
    TrojanCommand, TrojanServer, TrojanServerConfig, TrojanUdpRelayState, UdpAction, UdpDownload,
    UdpTunnel,
};
use keli_core::user::{CoreUser, CoreUserDelta};
use keli_core::wire::Exchange;

fn user() -> CoreUser {
    CoreUser {
        id: 1,
        uuid: "trojan-password".to_string(),
        password: None,
        email: None,
        speed_limit: 0,
        device_limit: 0,
    }
}

fn user_b() -> CoreUser {
    CoreUser {
        id: 2,
        uuid: "trojan-user-b".to_string(),
        password: Some("secret-b".to_string()),
        email: None,
        speed_limit: 0,
        device_limit: 0,
    }
}

fn address(port: u16) -> SocketAddress {
    SocketAddress::new(IpAddress::V4([127, 0, 0, 1]), port)
}

fn server() -> TrojanServer {
    TrojanServer::new(TrojanServerConfig {
        node_tag: "panel|trojan|1".to_string(),
        listen: address(0),
        users: vec![user()],
        routes: Vec::new(),
        connect_timeout_millis: 3000,
    })
}

fn trojan_request(password: &str, command: u8) -> Vec<u8> {
    let mut input = trojan_password_hash(password).into_bytes();
    input.extend_from_slice(b"\r\n");
    input.push(command);
    input.push(0x01);
    input.extend_from_slice(&[127, 0, 0, 1]);
    input.extend_from_slice(&443u16.to_be_bytes());
    input.extend_from_slice(b"\r\n");
    input
}

#[test]
fn apply_user_delta_updates_trojan_users() {
    let mut server = server();
    let mut updated = user();
    updated.password = Some("rotated-trojan".to_string());
    updated.speed_limit = 456;
    updated.device_limit = 5;

    let result = server.apply_user_delta(&CoreUserDelta {
        added: vec![user_b()],
        updated: vec![updated.clone()],
        ..CoreUserDelta::default()
    });

    assert_eq!(result.added, 1);
    assert_eq!(result.updated, 1);
    assert_eq!(result.active_users, 2);
    assert!(server
        .users
        .get(&trojan_password_hash("trojan-password"))
        .is_none());
    let user = server
        .users
        .get(&trojan_password_hash("rotated-trojan"))
        .expect("updated trojan user should authenticate");
    assert_eq!(user.speed_limit, 456);
    assert_eq!(user.device_limit, 5);
    assert!(server
        .users
        .get(&trojan_password_hash("secret-b"))
        .is_some());

    let result = server.apply_user_delta(&CoreUserDelta {
        deleted: vec![updated.uuid.clone()],
        ..CoreUserDelta::default()
    });

    assert_eq!(result.deleted, 1);
    assert_eq!(result.active_users, 1);
    assert!(server
        .users
        .get(&trojan_password_hash("rotated-trojan"))
        .is_none());
    assert!(server
        .users
        .get(&trojan_password_hash("secret-b"))
        .is_some());
}

#[test]
fn hashes_trojan_password_with_sha224_hex() {
    assert_eq!(
        trojan_password_hash(""),
        "d14a028c2a3a2bc9476102bb288234c415a2b01f828ea62ac5b3e42f"
    );
    assert_eq!(
        trojan_password_hash("trojan-password"),
        "d165d6725fa3eeb91851912bf3a943f31680c21af8fed026cddc8955"
    );
}

#[test]
fn parses_trojan_tcp_request() {
    let server = server();
    let mut input = trojan_password_hash("trojan-password").into_bytes();
    input.extend_from_slice(b"\r\n");
    input.push(0x01);
    input.push(0x03);
    input.push(11);
    input.extend_from_slice(b"example.com");
    input.extend_from_slice(&443u16.to_be_bytes());
    input.extend_from_slice(b"\r\n");
    let mut stream = Exchange::new(input);

    let request = server.read_request(&mut stream).expect("request");

    assert_eq!(request.user_uuid, "trojan-password");
    assert_eq!(request.target.host, "example.com");
    assert_eq!(request.target.port, 443);
    assert_eq!(request.command, TrojanCommand::Tcp);
}

#[test]
fn rejects_unknown_trojan_user() {
    let server = server();
    let mut input = trojan_password_hash("wrong-password").into_bytes();
    input.extend_from_slice(b"\r\n");
    let mut stream = Exchange::new(input);

    let error = server
        .read_request(&mut stream)
        .expect_err("unknown user should fail");

    assert_eq!(error.kind, ErrorKind::PermissionDenied);
}

#[test]
fn replaces_users_without_rebuilding_trojan_server() {
    let mut server = server();

    server.replace_users(&[user_b()]);

    let mut old_stream = Exchange::new(trojan_request("trojan-password", 0x01));
    let error = server
        .read_request(&mut old_stream)
        .expect_err("old user should fail after replacement");
    assert_eq!(error.kind, ErrorKind::PermissionDenied);

    let mut new_stream = Exchange::new(trojan_request("secret-b", 0x01));
    let request = server
        .read_request(&mut new_stream)
        .expect("new user should authenticate");
    assert_eq!(request.user_uuid, "trojan-user-b");
}

#[test]
fn requests_of_outbounds_read_back() {
    let mut bytes = Vec::new();
    let target = SocksTarget {
        host: "2001:db8::1".to_string(),
        port: 8443,
    };
    write_trojan_tcp_request(&mut bytes, "trojan-password", &target).expect("request");
    let request = server()
        .read_request(&mut Exchange::new(bytes))
        .expect("request");
    assert_eq!(request.target.host, "2001:db8::1");
    assert_eq!(request.target.port, 8443);
    assert_eq!(request.user_uuid, "trojan-password");

    let long = SocksTarget {
        host: "a".repeat(256),
        port: 1,
    };
    assert_eq!(
        write_trojan_tcp_request(&mut Vec::new(), "x", &long)
            .expect_err("long")
            .kind,
        ErrorKind::InvalidInput
    );
}

#[test]
fn unknown_commands_are_refused() {
    let error = server()
        .read_request(&mut Exchange::new(trojan_request("trojan-password", 0x09)))
        .expect_err("command");
    assert_eq!(error.kind, ErrorKind::Unsupported);
    let request = server()
        .read_request(&mut Exchange::new(trojan_request("trojan-password", 0x03)))
        .expect("udp");
    assert_eq!(request.command, TrojanCommand::UdpAssociate);
}

#[test]
fn udp_packets_in_a_buffer_read_back() {
    let first = encode_trojan_udp_packet(&address(53), b"one");
    let second = encode_trojan_udp_packet(&address(54), b"two");
    let mut buffer = first.clone();
    buffer.extend_from_slice(&second[..5]);
    let (target, payload) = parse_trojan_udp_packet_from_buffer(&mut buffer)
        .expect("packet")
        .expect("complete");
    assert_eq!(target.host, "127.0.0.1");
    assert_eq!(target.port, 53);
    assert_eq!(payload, b"one");
    assert_eq!(buffer, &second[..5]);
    assert_eq!(parse_trojan_udp_packet_from_buffer(&mut buffer), Ok(None));
    buffer.extend_from_slice(&second[5..]);
    let (target, payload) = parse_trojan_udp_packet_from_buffer(&mut buffer)
        .expect("packet")
        .expect("complete");
    assert_eq!(target.port, 54);
    assert_eq!(payload, b"two");
    assert!(buffer.is_empty());

    let (target, payload) =
        read_trojan_udp_packet(&mut Exchange::new(first)).expect("from a stream");
    assert_eq!(target.port, 53);
    assert_eq!(payload, b"one");
    assert!(parse_trojan_target_from_bytes(&[9, 9]).is_err());
    assert_eq!(parse_trojan_target_from_bytes(&[1, 127]), Ok(None));
}

fn outbound() -> OutboundConfig {
    OutboundConfig {
        tag: "proxy".to_string(),
        protocol: "trojan".to_string(),
        method: None,
        alter_id: None,
        address: Some(" proxy.example.test ".to_string()),
        port: Some(443),
        username: None,
        password: Some("secret".to_string()),
        tls: None,
        transport: None,
    }
}

#[test]
fn outbounds_need_a_server_and_a_password() {
    let plan = connect_trojan_tcp_outbound(&outbound(), "tcp").expect("plan");
    assert_eq!(plan.server.host, "proxy.example.test");
    assert_eq!(plan.server.port, 443);
    assert_eq!(plan.password, "secret");

    let mut without = outbound();
    without.address = Some("  ".to_string());
    assert_eq!(
        trojan_outbound_server(&without).expect_err("address").kind,
        ErrorKind::InvalidInput
    );
    let mut without = outbound();
    without.port = None;
    assert!(connect_trojan_tcp_outbound(&without, "tcp").is_err());
    let mut without = outbound();
    without.password = None;
    assert!(connect_trojan_tcp_outbound(&without, "tcp").is_err());
}

#[test]
fn outbound_transports_follow_network_and_tls() {
    let plan = connect_trojan_tcp_outbound(&outbound(), "ws").expect("plan");
    assert_eq!(plan.transport, TrojanTransport::WebSocket);
    let mut secured = outbound();
    secured.tls = Some(OutboundTlsConfig {
        server_name: String::new(),
        allow_insecure: false,
        alpn: Vec::new(),
    });
    let plan = connect_trojan_tcp_outbound(&secured, "ws").expect("plan");
    assert_eq!(plan.transport, TrojanTransport::TlsWebSocket);
    let plan = connect_trojan_tcp_outbound(&secured, "grpc").expect("plan");
    assert_eq!(plan.transport, TrojanTransport::Grpc);
}

#[test]
fn transport_hosts_have_defaults() {
    let mut config = outbound();
    let server = SocksTarget {
        host: "proxy.example.test".to_string(),
        port: 443,
    };
    assert_eq!(outbound_transport_host(&config, &server), server.host);
    assert_eq!(outbound_transport_path(&config), None);
    assert!(outbound_transport_headers(&config).is_none());
    config.transport = Some(OutboundTransportConfig {
        network: "ws".to_string(),
        path: Some("/edge".to_string()),
        host: Some("cdn.example.test".to_string()),
        service_name: None,
        method: None,
        headers: vec![Header {
            name: "X".to_string(),
            value: "y".to_string(),
        }],
    });
    assert_eq!(
        outbound_transport_host(&config, &server),
        "cdn.example.test"
    );
    assert_eq!(outbound_transport_path(&config).as_deref(), Some("/edge"));
    assert_eq!(outbound_transport_headers(&config).map(|h| h.len()), Some(1));
}

#[test]
fn tls_server_names_are_checked() {
    let server = SocksTarget {
        host: "proxy.example.test".to_string(),
        port: 443,
    };
    let mut tls = OutboundTlsConfig {
        server_name: " sni.example.test ".to_string(),
        allow_insecure: false,
        alpn: Vec::new(),
    };
    assert_eq!(
        trojan_tls_server_name(&tls, &server).expect("name"),
        "sni.example.test"
    );
    tls.server_name = String::new();
    assert_eq!(
        trojan_tls_server_name(&tls, &server).expect("name"),
        "proxy.example.test"
    );
    tls.server_name = "not a name".to_string();
    assert_eq!(
        trojan_tls_server_name(&tls, &server).expect_err("name"),
        CoreError {
            kind: ErrorKind::InvalidInput,
            message: "trojan tls server_name is invalid".to_string(),
        }
    );
    assert_eq!(check_server_name("a".to_string(), true).expect("name"), "a");
    assert!(check_server_name("a".to_string(), false).is_err());
}

#[test]
fn background_connects_are_given_up_with_the_client() {
    assert_eq!(
        poll_websocket_connect(ConnectPoll::Ready, false).expect("ready"),
        ConnectStep::Take
    );
    assert_eq!(
        poll_websocket_connect(ConnectPoll::Pending, false).expect("pending"),
        ConnectStep::Wait
    );
    assert_eq!(
        poll_tls_websocket_connect(ConnectPoll::Pending, true).expect("closed"),
        ConnectStep::Abandon
    );
    assert!(poll_websocket_connect(ConnectPoll::Lost, false).is_err());
}

#[test]
fn udp_relay_remembers_its_last_target() {
    let mut state = TrojanUdpRelayState::new();
    let target = SocksTarget {
        host: "dns.example.test".to_string(),
        port: 53,
    };
    assert_eq!(state.known_addr(&target), None);
    state.resolved(&target, address(53));
    assert_eq!(state.known_addr(&target), Some(address(53)));
    let other = SocksTarget {
        host: "dns.example.test".to_string(),
        port: 54,
    };
    assert_eq!(state.known_addr(&other), None);
    let bind = state.missing_socket(&address(53)).expect("no socket yet");
    assert_eq!(bind, udp_bind_addr_for_remote(&address(53)));
    state.socket_bound(&address(53));
    assert_eq!(state.missing_socket(&address(53)), None);
}

#[test]
fn udp_packets_are_routed() {
    assert_eq!(
        route_udp_packet(&RouteDecision::Block, false).expect("dropped"),
        UdpAction::Drop
    );
    assert!(route_udp_packet(
        &RouteDecision::UnsupportedOutbound("kcp".to_string()),
        false
    )
    .is_err());
    let (sent, answer) = udp_packet_answered(5, Ok((address(53), b"answer".to_vec())))
        .expect("answered");
    assert_eq!(sent, 5);
    assert_eq!(answer, Some((address(53), b"answer".to_vec())));
    let late = CoreError {
        kind: ErrorKind::TimedOut,
        message: "late".to_string(),
    };
    assert_eq!(udp_packet_answered(5, Err(late)).expect("late"), (5, None));
    let blocked = CoreError {
        kind: ErrorKind::WouldBlock,
        message: "none".to_string(),
    };
    assert_eq!(recv_available_from_socket(Err(blocked)), Ok(None));
    assert!(is_stream_closed(ErrorKind::BrokenPipe));
    assert!(!is_stream_closed(ErrorKind::InvalidData));
}

#[test]
fn udp_relays_count_what_they_pass_on() {
    let mut tunnel = UdpTunnel::new();
    tunnel.sent(5);
    tunnel.answered(7);
    tunnel.sent(0);
    tunnel.received(11);
    tunnel.sent(6);
    assert_eq!((tunnel.upload, tunnel.download), (11, 18));
    tunnel.sent(u64::MAX);
    assert_eq!(tunnel.upload, u64::MAX);

    let mut download = UdpDownload::new();
    assert!(download.written(3, Ok(())));
    assert!(download.written(4, Ok(())));
    let closed = CoreError {
        kind: ErrorKind::BrokenPipe,
        message: "closed".to_string(),
    };
    assert!(!download.written(9, Err(closed)));
    assert_eq!(download.download, 7);
    assert!(download.stopped);
    assert_eq!(download.outcome(Ok(())), Ok(()));
}

#[test]
fn udp_tunnels_take_packets_apart() {
    let mut tunnel = UdpTunnel::new();
    tunnel.begin_round();
    assert!(tunnel
        .client_read(Ok(encode_trojan_udp_packet(&address(53), b"query")))
        .is_none());
    let (target, payload) = tunnel.next_packet().expect("packet").expect("complete");
    assert_eq!(target.port, 53);
    assert_eq!(payload, b"query");
    assert_eq!(tunnel.next_packet(), Ok(None));
    tunnel.sent(5);
    tunnel.received(7);
    assert_eq!(tunnel.upload, 5);
    assert_eq!(tunnel.download, 7);
    assert_eq!(tunnel.end_round(), None);
    tunnel.begin_round();
    assert!(tunnel.end_round().is_some());
    assert!(tunnel.client_read(Ok(Vec::new())).is_some());
}

#[test]
fn traffic_of_requests_is_recorded() {
    let server = server();
    let mut request = server
        .read_request(&mut Exchange::new(trojan_request("trojan-password", 0x01)))
        .expect("request");
    request.client_ip = client_address(None, Some(IpAddress::V4([203, 0, 113, 9])));
    let mut traffic = TrafficRegistry::new();
    server.record_traffic(&mut traffic, &request, 1, 2);
    let records = traffic.drain_all();
    assert_eq!(records[0].user_id, Some(1));
    assert_eq!(records[0].node_tag, "panel|trojan|1");
    assert_eq!(records[0].online_ips, vec!["203.0.113.9"]);
    assert_eq!(server.request_user(&request).expect("user"), user());
}
