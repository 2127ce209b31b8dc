use keli_core::address::{IpAddress, SocketAddress};
use keli_core::error::{CoreError, ErrorKind};
use keli_core::socks5::{
    connect_next, connect_step, control_is_open, encode_udp_response, parse_udp_request,
    refuse_session, resolve_udp_target, socks5_response, socks5_response_with_bind, udp_bind_addr,
    ConnectStep, Socks5Server, Socks5ServerConfig, SocksCommand, SocksRoute, UdpAssociation,
    UdpStep,
};
use keli_core::traffic::TrafficRegistry;
use keli_core::user::CoreUser;
use keli_core::wire::Exchange;

fn address(last: u8, port: u16) -> SocketAddress {
    SocketAddress::new(IpAddress::V4([127, 0, 0, last]), port)
}

fn server_with(users: Vec<CoreUser>) -> Socks5Server {
    Socks5Server::new(Socks5ServerConfig {
        node_tag: "panel|socks|1".to_string(),
        listen: address(1, 0),
        users,
        routes: Vec::new(),
        connect_timeout_millis: 3000,
    })
}

fn server() -> Socks5Server {
    server_with(vec![CoreUser {
        id: 1,
        uuid: "user-a".to_string(),
        password: None,
        email: None,
        speed_limit: 0,
        device_limit: 0,
    }])
}

fn authenticated_input() -> Vec<u8> {
    let mut input = vec![
        0x05, 0x01, 0x02, 0x01, 0x06, b'u', b's', b'e', b'r', b'-', b'a', 0x06, b'u', b's', b'e',
        b'r', b'-', b'a', 0x05, 0x01, 0x00, 0x03, 0x0b, b'e', b'x', b'a', b'm', b'p', b'l', b'e',
        b'.', b'c', b'o', b'm',
    ];
    input.extend_from_slice(&443u16.to_be_bytes());
    input
}

#[test]
fn parses_authenticated_domain_connect() {
    let server = server();
    let mut stream = Exchange::new(authenticated_input());

    let request = server.read_request(&mut stream).expect("request");

    assert_eq!(request.user_uuid.as_deref(), Some("user-a"));
    assert_eq!(request.target.host, "example.com");
    assert_eq!(request.target.port, 443);
    assert_eq!(stream.output, vec![0x05, 0x02, 0x01, 0x00]);
    assert_eq!(request.command, SocksCommand::Connect);
    assert_eq!(server.request_user(&request).expect("user").id, 1);
}

#[test]
fn rejects_invalid_password() {
    let server = server();
    let input = vec![
        0x05, 0x01, 0x02, 0x01, 0x06, b'u', b's', b'e', b'r', b'-', b'a', 0x03, b'b', b'a', b'd',
    ];
    let mut stream = Exchange::new(input);

    let error = server
        .read_request(&mut stream)
        .expect_err("auth should fail");

    assert_eq!(error.kind, ErrorKind::PermissionDenied);
    assert_eq!(stream.output, vec![0x05, 0x02, 0x01, 0xff]);
}

#[test]
fn more_input_does_not_change_a_request() {
    let mut input = authenticated_input();
    input.extend_from_slice(b"more");
    let mut stream = Exchange::new(input);
    let request = server().read_request(&mut stream).expect("request");
    assert_eq!(request.target.host, "example.com");
    assert_eq!(stream.input.len() - stream.position, 4);
}

#[test]
fn short_input_is_an_early_end() {
    let mut input = authenticated_input();
    input.pop();
    let error = server()
        .read_request(&mut Exchange::new(input))
        .expect_err("short");
    assert_eq!(error.kind, ErrorKind::UnexpectedEof);
}

#[test]
fn servers_without_users_ask_for_nothing() {
    let open = server_with(Vec::new());
    let mut stream = Exchange::new(vec![
        0x05, 0x01, 0x00, 0x05, 0x03, 0x00, 0x01, 1, 2, 3, 4, 0, 53,
    ]);
    let request = open.read_request(&mut stream).expect("request");
    assert_eq!(request.user_uuid, None);
    assert_eq!(request.command, SocksCommand::UdpAssociate);
    assert_eq!(request.target.host, "1.2.3.4");
    assert_eq!(stream.output, vec![0x05, 0x00]);
    assert!(open.request_user(&request).is_none());
}

#[test]
fn unknown_methods_and_commands_are_refused() {
    let mut stream = Exchange::new(vec![0x05, 0x01, 0x00]);
    let error = server().read_request(&mut stream).expect_err("method");
    assert_eq!(error.kind, ErrorKind::PermissionDenied);
    assert_eq!(error.message, "no matching socks auth method");
    assert_eq!(stream.output, vec![0x05, 0xff]);

    let open = server_with(Vec::new());
    let mut stream = Exchange::new(vec![
        0x05, 0x01, 0x00, 0x05, 0x02, 0x00, 0x01, 1, 2, 3, 4, 0, 53,
    ]);
    assert!(open.read_request(&mut stream).is_err());
    assert_eq!(&stream.output[..4], &[0x05, 0x00, 0x05, 0x07]);
}

#[test]
fn responses_name_the_address() {
    assert_eq!(
        socks5_response(0x00),
        vec![0x05, 0x00, 0x00, 0x01, 0, 0, 0, 0, 0, 0]
    );
    assert_eq!(
        socks5_response_with_bind(0x00, &address(1, 0x1234)),
        vec![0x05, 0x00, 0x00, 0x01, 127, 0, 0, 1, 0x12, 0x34]
    );
    assert_eq!(udp_bind_addr(&address(1, 99)), address(1, 0));
}

#[test]
fn udp_packets_read_back() {
    let packet = encode_udp_response(&address(1, 53), b"dns");
    let (target, payload) = parse_udp_request(&packet).expect("packet");
    assert_eq!(target.host, "127.0.0.1");
    assert_eq!(target.port, 53);
    assert_eq!(payload, b"dns");

    let messages = [
        (vec![1, 0, 0, 1], "invalid socks udp request header"),
        (
            vec![0, 0, 1, 1],
            "fragmented socks udp packets are not supported",
        ),
        (vec![0, 0, 0, 1, 1], "truncated socks udp ipv4 address"),
        (vec![0, 0, 0, 4, 1], "truncated socks udp ipv6 address"),
        (vec![0, 0, 0, 3], "truncated socks udp domain length"),
        (vec![0, 0, 0, 3, 4, b'a'], "truncated socks udp domain"),
        (vec![0, 0, 0, 9], "unsupported socks udp address type"),
    ];
    for (packet, message) in messages {
        assert_eq!(parse_udp_request(&packet).expect_err(message).message, message);
    }
}

#[test]
fn association_counts_what_it_passes_on() {
    let peer = IpAddress::V4([127, 0, 0, 1]);
    let mut association = UdpAssociation::new();
    for (port, data) in [
        (1000, encode_udp_response(&address(9, 53), b"hello")),
        (2000, b"answer".to_vec()),
        (1000, encode_udp_response(&address(9, 53), b"ab")),
        (2000, b"more".to_vec()),
    ] {
        match association.on_datagram(address(1, port), &peer, &data) {
            Ok(UdpStep::Forward(_, payload)) => association.forwarded(payload.len() as u64),
            Ok(UdpStep::Reply(_, _)) => association.replied(data.len() as u64),
            _ => panic!("expected a step"),
        }
    }
    assert_eq!(association.upload, 7);
    assert_eq!(association.download, 10);
    association.forwarded(u64::MAX);
    assert_eq!(association.upload, u64::MAX);
}

#[test]
fn scope_makes_another_source() {
    let ip = IpAddress::V6([1; 16]);
    let known = SocketAddress::new(ip, 1000);
    let mut scoped = known;
    scoped.scope_id = 2;
    let mut association = UdpAssociation::new();
    let request = encode_udp_response(&address(9, 53), b"hello");
    assert!(matches!(
        association.on_datagram(known, &ip, &request),
        Ok(UdpStep::Forward(_, _))
    ));
    assert!(matches!(
        association.on_datagram(scoped, &ip, &request),
        Ok(UdpStep::Reply(_, _))
    ));
    assert_eq!(udp_bind_addr(&scoped).scope_id, 0);
}

#[test]
fn addresses_are_tried_in_order() {
    let found = vec![address(1, 1), address(2, 2)];
    let refused = |message: &str| CoreError {
        kind: ErrorKind::ConnectionRefused,
        message: message.to_string(),
    };
    assert_eq!(connect_next(&found, 0, None), Ok(address(1, 1)));
    assert_eq!(connect_next(&found, 1, Some(refused("a"))), Ok(address(2, 2)));
    assert_eq!(
        connect_next(&found, 2, Some(refused("b"))),
        Err(refused("b"))
    );
    let none = connect_next(&Vec::new(), 0, None).expect_err("nothing found");
    assert_eq!(none.kind, ErrorKind::AddrNotAvailable);
    assert_eq!(none.message, "target did not resolve to any socket address");

    assert_eq!(resolve_udp_target(&found), Ok(address(1, 1)));
    let none = resolve_udp_target(&Vec::new()).expect_err("nothing found");
    assert_eq!(none.kind, ErrorKind::AddrNotAvailable);
    assert_eq!(
        none.message,
        "udp target did not resolve to any socket address"
    );
}

#[test]
fn the_client_of_an_association_is_learned_once() {
    let peer = IpAddress::V4([127, 0, 0, 1]);
    let mut association = UdpAssociation::new();
    let request = encode_udp_response(&address(9, 53), b"query");

    assert!(matches!(
        association.on_datagram(address(2, 1), &peer, b"stray"),
        Ok(UdpStep::Ignore)
    ));
    match association.on_datagram(address(1, 1000), &peer, &request) {
        Ok(UdpStep::Forward(target, payload)) => {
            assert_eq!(target.host, "127.0.0.9");
            assert_eq!(payload, b"query");
            association.forwarded(5);
        }
        _ => panic!("not forwarded"),
    }
    match association.on_datagram(address(1, 2000), &peer, b"answer") {
        Ok(UdpStep::Reply(client, datagram)) => {
            assert_eq!(client, address(1, 1000));
            assert_eq!(datagram, encode_udp_response(&address(1, 2000), b"answer"));
            association.replied(6);
        }
        _ => panic!("not a reply"),
    }
    assert_eq!(association.upload, 5);
    assert_eq!(association.download, 6);
}

#[test]
fn routes_decide_about_requests() {
    assert!(matches!(
        connect_step(&SocksRoute::Direct),
        ConnectStep::Connect
    ));
    match connect_step(&SocksRoute::Block) {
        ConnectStep::Refuse(reply, error) => {
            assert_eq!(reply[1], 0x02);
            assert_eq!(error.kind, ErrorKind::PermissionDenied);
        }
        _ => panic!("not refused"),
    }
    match connect_step(&SocksRoute::UnsupportedOutbound("ws".to_string())) {
        ConnectStep::Fail(error) => assert!(error.message.contains("ws")),
        _ => panic!("not failed"),
    }
    assert_eq!(UdpAssociation::route(&SocksRoute::Block), Ok(false));
    assert_eq!(UdpAssociation::route(&SocksRoute::Direct), Ok(true));
    let (reply, error) = refuse_session("device limit reached");
    assert_eq!(reply[1], 0x02);
    assert_eq!(
        error,
        CoreError {
            kind: ErrorKind::PermissionDenied,
            message: "device limit reached".to_string(),
        }
    );
}

#[test]
fn control_connections_are_watched() {
    assert_eq!(control_is_open(Ok(1)), Ok(true));
    assert_eq!(control_is_open(Ok(0)), Ok(false));
    assert_eq!(control_is_open(Err(ErrorKind::WouldBlock)), Ok(true));
    assert_eq!(
        control_is_open(Err(ErrorKind::ConnectionReset)),
        Err(ErrorKind::ConnectionReset)
    );
}

#[test]
fn requests_are_counted_for_their_user() {
    let server = server();
    let mut traffic = TrafficRegistry::new();
    let mut request = server
        .read_request(&mut Exchange::new(authenticated_input()))
        .expect("request");
    request.client_ip = Some(IpAddress::V4([198, 51, 100, 7]));
    server.record(&mut traffic, &request, 3, 4);
    request.user_uuid = None;
    server.record(&mut traffic, &request, 3, 4);
    let records = traffic.drain_all();
    assert_eq!(records.len(), 1);
    assert_eq!(records[0].upload, 3);
    assert_eq!(records[0].online_ips, vec!["198.51.100.7"]);
}
