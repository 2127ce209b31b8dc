use keli_core::address::{IpAddress, SocketAddress};
use keli_core::error::{CoreError, ErrorKind};
use keli_core::shadowsocks::{
    chunk_length, evp_bytes_to_key, is_supported_shadowsocks_cipher, nonce_bytes,
    parse_request_payload, ShadowsocksCipher, ShadowsocksMethod, ShadowsocksReader,
    ShadowsocksWriter,
};
use keli_core::route::{RouteDecision, Way};
use keli_core::shadowsocks_server::{
    encode_udp_packet, handle_udp_request, seal_udp_packet, udp_request_answered,
    udp_session_opened, ShadowsocksServer, ShadowsocksServerConfig, UdpPacketStep, UdpRequestStep,
    UdpSessions,
};
use keli_core::traffic::TrafficRegistry;
use keli_core::user::CoreUser;
use keli_core::wire::Exchange;

fn user() -> CoreUser {
    CoreUser {
        id: 1,
        uuid: "ss-password".to_string(),
        password: None,
        email: None,
        speed_limit: 0,
        device_limit: 0,
    }
}

fn user_b() -> CoreUser {
    CoreUser {
        id: 2,
        uuid: "ss-user-b".to_string(),
        password: Some("secret-b".to_string()),
        email: None,
        speed_limit: 0,
        device_limit: 0,
    }
}

fn address(port: u16) -> SocketAddress {
    SocketAddress::new(IpAddress::V4([127, 0, 0, 1]), port)
}

fn server() -> ShadowsocksServer {
    ShadowsocksServer::new(ShadowsocksServerConfig {
        node_tag: "panel|shadowsocks|1".to_string(),
        listen: address(0),
        method: "aes-128-gcm".to_string(),
        users: vec![user()],
        routes: Vec::new(),
        connect_timeout_millis: 3000,
    })
}

fn shadowsocks_request(octets: [u8; 4], port: u16, payload: &[u8]) -> Vec<u8> {
    let mut request = vec![0x01];
    request.extend_from_slice(&octets);
    request.extend_from_slice(&port.to_be_bytes());
    request.extend_from_slice(payload);
    request
}

fn shadowsocks_udp_packet(
    method: ShadowsocksMethod,
    password: &str,
    port: u16,
    payload: &[u8],
) -> Vec<u8> {
    let mut salt = vec![0x11; method.salt_len()];
    let mut cipher = ShadowsocksCipher::new(method, password, &salt).expect("udp cipher");
    let mut body = shadowsocks_request([127, 0, 0, 1], port, payload);
    cipher.encrypt(&mut body).expect("udp encrypt");
    salt.extend_from_slice(&body);
    salt
}

fn hex(text: &str) -> Vec<u8> {
    (0..text.len() / 2)
        .map(|i| u8::from_str_radix(&text[2 * i..2 * i + 2], 16).expect("hex"))
        .collect()
}

#[test]
fn parses_supported_methods() {
    assert!(is_supported_shadowsocks_cipher("aes-128-gcm"));
    assert!(is_supported_shadowsocks_cipher("aes_256_gcm"));
    assert!(is_supported_shadowsocks_cipher("chacha20-ietf-poly1305"));
    assert!(!is_supported_shadowsocks_cipher("rc4-md5"));
}

#[test]
fn parses_request_payload_with_initial_data() {
    let (parsed, payload) =
        parse_request_payload(shadowsocks_request([127, 0, 0, 1], 443, b"hello")).expect("payload");

    assert_eq!(parsed.host, "127.0.0.1");
    assert_eq!(parsed.port, 443);
    assert_eq!(payload, b"hello");
}

#[test]
fn replaces_users_without_rebuilding_shadowsocks_server() {
    let mut server = server();
    let method = ShadowsocksMethod::parse("aes-128-gcm").expect("method");

    server.replace_users(&[user_b()]);

    let old_packet = shadowsocks_udp_packet(method, "ss-password", 443, b"old");
    let error = match server.read_udp_request(&old_packet, method) {
        Ok(_) => panic!("old user should fail after replacement"),
        Err(error) => error,
    };
    assert_eq!(error.kind, ErrorKind::PermissionDenied);

    let new_packet = shadowsocks_udp_packet(method, "secret-b", 443, b"new");
    let request = server
        .read_udp_request(&new_packet, method)
        .expect("new user should authenticate");
    assert_eq!(request.user.uuid, "ss-user-b");
    assert_eq!(request.payload, b"new");
}

#[test]
fn keys_follow_the_password() {
    assert_eq!(
        evp_bytes_to_key(b"password", 32),
        hex("5f4dcc3b5aa765d61d8327deb882cf992b95990a9151374abd8ff8c5a7a0fe08")
    );
    assert_eq!(
        evp_bytes_to_key(b"password", 16),
        hex("5f4dcc3b5aa765d61d8327deb882cf99")
    );
}

#[test]
fn ciphers_seal_as_they_should() {
    let sealed = [
        (
            "aes-128-gcm",
            "0499966f537172e2d1c6f4b213bf4eace8b18a6af4",
            "ca188f20d0fa04a281de9df98abd4caa0dc9171ff3",
        ),
        (
            "aes-256-gcm",
            "bbbfb2642a572e5cf16c202da289c7fa137caeae40",
            "202a72bb1fe80afa6386da76cba5c025b39d99dc38",
        ),
        (
            "chacha20-ietf-poly1305",
            "8b62b9a1e07b8750c543912b24f3d7d5544d3f8c85",
            "232f399a2fee8a8892a3c1fb671738e54082b41ab2",
        ),
    ];
    for (name, first, second) in sealed {
        let method = ShadowsocksMethod::parse(name).expect("method");
        let salt = vec![0x11; method.salt_len()];
        let mut cipher = ShadowsocksCipher::new(method, "ss-password", &salt).expect("cipher");
        let mut message = b"hello".to_vec();
        cipher.encrypt(&mut message).expect("seal");
        assert_eq!(message, hex(first), "{name}");
        let mut message = b"hello".to_vec();
        cipher.encrypt(&mut message).expect("seal");
        assert_eq!(message, hex(second), "{name}");

        let mut opener = ShadowsocksCipher::new(method, "ss-password", &salt).expect("cipher");
        let mut message = hex(first);
        opener.decrypt(&mut message).expect("open");
        assert_eq!(message, b"hello");
        let mut message = hex(first);
        let error = opener.decrypt(&mut message).expect_err("the nonce went on");
        assert_eq!(error.kind, ErrorKind::InvalidData);
    }
}

#[test]
fn nonces_count_in_little_endian() {
    assert_eq!(nonce_bytes(0), [0; 12]);
    assert_eq!(nonce_bytes(0x0102), [2, 1, 0, 0, 0, 0, 0, 0, 0, 0, 0, 0]);
    assert_ne!(nonce_bytes(1), nonce_bytes(256));
}

#[test]
fn chunk_heads_have_bounds() {
    assert_eq!(chunk_length(&[0x01, 0x00]).expect("length"), 256);
    assert_eq!(
        chunk_length(&[0x00, 0x00]).expect_err("empty").message,
        "invalid shadowsocks chunk size"
    );
    assert_eq!(
        chunk_length(&[0x40, 0x00]).expect_err("large").message,
        "invalid shadowsocks chunk size"
    );
    assert_eq!(
        chunk_length(&[0x01]).expect_err("short").message,
        "invalid shadowsocks chunk length"
    );
}

#[test]
fn chunk_streams_read_back() {
    let method = ShadowsocksMethod::parse("chacha20-ietf-poly1305").expect("method");
    let (mut writer, salt) =
        ShadowsocksWriter::new_response(method, "ss-password").expect("writer");
    let mut wire = salt;
    let long: Vec<u8> = (0..20_000u32).map(|n| n as u8).collect();
    let (bytes, taken) = writer.write(&long).expect("first");
    assert_eq!(taken, 0x3fff);
    wire.extend_from_slice(&bytes);
    let (bytes, rest) = writer.write(&long[taken..]).expect("second");
    assert_eq!(taken + rest, long.len());
    wire.extend_from_slice(&bytes);

    let mut stream = Exchange::new(wire);
    let mut reader = ShadowsocksReader::new(&mut stream, method, "ss-password").expect("reader");
    let mut back = reader.read_chunk(&mut stream).expect("first chunk");
    back.extend_from_slice(&reader.read(&mut stream, 1000).expect("a part"));
    assert_eq!(back.len(), 0x3fff + 1000);
    back.extend_from_slice(&reader.read(&mut stream, 100_000).expect("the rest"));
    assert_eq!(back, long);
    assert_eq!(
        reader.read_chunk(&mut stream).expect_err("the end").kind,
        ErrorKind::UnexpectedEof
    );
}

#[test]
fn requests_name_their_user() {
    let server = server();
    let method = ShadowsocksMethod::parse("aes-128-gcm").expect("method");
    let salt = vec![0x22; method.salt_len()];
    let mut writer = ShadowsocksWriter::with_salt(method, "ss-password", &salt).expect("writer");
    let mut wire = salt.clone();
    wire.extend_from_slice(
        &writer
            .write_chunk(&shadowsocks_request([1, 2, 3, 4], 80, b"GET"))
            .expect("chunk"),
    );
    let mut stream = Exchange::new(wire.clone());
    let request = server.read_request(&mut stream, method).expect("request");
    assert_eq!(request.user, user());
    assert_eq!(request.target.host, "1.2.3.4");
    assert_eq!(request.target.port, 80);
    assert_eq!(request.initial_payload, b"GET");

    wire.truncate(20);
    let mut short = Exchange::new(wire);
    assert_eq!(
        server
            .read_request(&mut short, method)
            .expect_err("too short")
            .kind,
        ErrorKind::UnexpectedEof
    );

    let mut writer = ShadowsocksWriter::with_salt(method, "wrong", &salt).expect("writer");
    let mut wire = salt;
    wire.extend_from_slice(
        &writer
            .write_chunk(&shadowsocks_request([1, 2, 3, 4], 80, b"GET"))
            .expect("chunk"),
    );
    let error = server
        .read_request(&mut Exchange::new(wire), method)
        .expect_err("unknown");
    assert_eq!(error.kind, ErrorKind::PermissionDenied);
    assert_eq!(error.message, "unknown shadowsocks user");
}

#[test]
fn unsupported_methods_are_refused() {
    let error = ShadowsocksMethod::parse("rc4-md5").expect_err("method");
    assert_eq!(error.kind, ErrorKind::Unsupported);
}

#[test]
fn udp_answers_read_back() {
    let method = ShadowsocksMethod::parse("aes-256-gcm").expect("method");
    let server = server();
    let salt = vec![0x33; method.salt_len()];
    let sealed = seal_udp_packet(method, &user(), &salt, &address(53), b"dns").expect("sealed");
    let request = server.read_udp_request(&sealed, method).expect("open");
    assert_eq!(request.target.host, "127.0.0.1");
    assert_eq!(request.target.port, 53);
    assert_eq!(request.payload, b"dns");

    let first = encode_udp_packet(method, &user(), &address(53), b"dns").expect("sealed");
    let second = encode_udp_packet(method, &user(), &address(53), b"dns").expect("sealed");
    assert_ne!(first, second);
    assert_eq!(
        server.read_udp_request(&first, method).expect("open").payload,
        b"dns"
    );
    assert_eq!(
        server
            .read_udp_request(&first[..10], method)
            .expect_err("short")
            .message,
        "shadowsocks udp packet too short"
    );
}

#[test]
fn udp_packets_are_requests_or_answers() {
    let method = ShadowsocksMethod::parse("aes-128-gcm").expect("method");
    let server = server();
    let mut sessions = UdpSessions::new();
    let packet = shadowsocks_udp_packet(method, "ss-password", 443, b"query");
    assert!(matches!(
        server.udp_step(&sessions, method, &address(1000), &packet),
        UdpPacketStep::Request(_)
    ));
    assert!(matches!(
        server.udp_step(&sessions, method, &address(443), b"answer"),
        UdpPacketStep::Ignore
    ));
    sessions.remember_remote(address(443), address(1000), &user());
    match server.udp_step(&sessions, method, &address(443), b"answer") {
        UdpPacketStep::Response(context) => {
            assert_eq!(context.client_addr, address(1000));
            assert_eq!(context.user, user());
        }
        _ => panic!("not an answer"),
    }
}

#[test]
fn udp_sessions_end_after_a_while() {
    let mut sessions = UdpSessions::new();
    assert!(!sessions.touch(&address(1), "user-a", 0));
    sessions.establish(address(1), "user-a", 0);
    sessions.establish(address(2), "user-b", 200_000);
    sessions.remember_remote(address(443), address(1), &user());
    sessions.remember_remote(address(53), address(2), &user_b());
    assert!(sessions.touch(&address(2), "user-b", 250_000));

    sessions.prune(300_000);
    assert_eq!(sessions.clients.len(), 2);
    sessions.prune(300_001);
    assert_eq!(sessions.clients.len(), 1);
    assert!(sessions.remotes.get(&address(443)).is_none());
    assert!(sessions.remotes.get(&address(53)).is_some());

    assert!(!sessions.touch(&address(2), "another", 300_001));
    assert_eq!(sessions.clients.len(), 0);
}

#[test]
fn traffic_is_recorded_under_the_node() {
    let server = server();
    let mut traffic = TrafficRegistry::new();
    server.record_udp_traffic(&mut traffic, "ss-password", 0, 0, None);
    assert!(traffic.is_empty());
    server.record_udp_traffic(&mut traffic, "ss-password", 3, 0, None);
    server.record_relay(&mut traffic, "ss-password", 5, 10, 20, None);
    let records = traffic.drain_all();
    assert_eq!(records[0].node_tag, "panel|shadowsocks|1");
    assert_eq!(records[0].upload, 18);
    assert_eq!(records[0].download, 20);
}

#[test]
fn udp_requests_need_a_session_once() {
    let method = ShadowsocksMethod::parse("aes-128-gcm").expect("method");
    let packet = shadowsocks_udp_packet(method, "ss-password", 443, b"query");
    let request = server().read_udp_request(&packet, method).expect("request");
    let mut sessions = UdpSessions::new();
    let client = address(1000);
    assert_eq!(
        handle_udp_request(&mut sessions, &client, &request, &RouteDecision::Block, 0),
        Ok(UdpRequestStep::Drop)
    );
    let unsupported = RouteDecision::UnsupportedOutbound("kcp".to_string());
    assert!(handle_udp_request(&mut sessions, &client, &request, &unsupported, 0).is_err());
    assert_eq!(
        handle_udp_request(&mut sessions, &client, &request, &RouteDecision::Direct, 0),
        Ok(UdpRequestStep::OpenSession(Way::Direct))
    );
    let refused = CoreError {
        kind: ErrorKind::PermissionDenied,
        message: "device limit reached".to_string(),
    };
    assert_eq!(
        udp_session_opened(&mut sessions, client, &request, Way::Direct, Err(refused), 1),
        Ok(UdpRequestStep::Drop)
    );
    assert_eq!(
        udp_session_opened(&mut sessions, client, &request, Way::Direct, Ok(()), 1),
        Ok(UdpRequestStep::Send(Way::Direct))
    );
    assert_eq!(
        handle_udp_request(&mut sessions, &client, &request, &RouteDecision::Direct, 2),
        Ok(UdpRequestStep::Send(Way::Direct))
    );
    sessions.seen(&client, 9);
    assert_eq!(sessions.clients.get(&client).expect("client").last_seen, 9);

    let late = CoreError {
        kind: ErrorKind::TimedOut,
        message: "late".to_string(),
    };
    assert_eq!(udp_request_answered(Err(late)), Ok(None));
    assert_eq!(
        udp_request_answered(Ok((address(53), vec![1]))),
        Ok(Some((address(53), vec![1])))
    );
}

#[test]
fn chunks_follow_each_other() {
    let method = ShadowsocksMethod::parse("chacha20-ietf-poly1305").expect("method");
    let salt = vec![0x42; method.salt_len()];
    let mut writer = ShadowsocksWriter::with_salt(method, "secret", &salt).expect("writer");
    let mut bytes = salt.clone();
    bytes.extend_from_slice(&writer.write_chunk(b"first").expect("chunk"));
    let first_end = bytes.len();
    bytes.extend_from_slice(&writer.write_chunk(b"second").expect("chunk"));

    let mut stream = Exchange::new(bytes);
    let mut reader = ShadowsocksReader::new(&mut stream, method, "secret").expect("reader");
    assert_eq!(reader.read_chunk(&mut stream).expect("chunk"), b"first");
    assert_eq!(stream.position, first_end);
    assert_eq!(reader.read_chunk(&mut stream).expect("chunk"), b"second");
    let end = reader.read_chunk(&mut stream).expect_err("the end");
    assert_eq!(end.kind, ErrorKind::UnexpectedEof);
}

#[test]
fn packet_is_read_for_its_user_among_others() {
    let mut server = server();
    server.replace_users(&[user(), user_b()]);
    let method = ShadowsocksMethod::parse("aes-256-gcm").expect("method");
    let packet = encode_udp_packet(method, &user_b(), &address(5353), b"query").expect("packet");
    assert_eq!(packet.len(), 32 + 7 + 5 + 16);
    let request = server.read_udp_request(&packet, method).expect("request");
    assert_eq!(request.user, user_b());
    assert_eq!(request.target.host, "127.0.0.1");
    assert_eq!(request.target.port, 5353);
    assert_eq!(request.payload, b"query");
}

#[test]
fn whole_chunk_with_a_short_target_is_refused_at_once() {
    let method = ShadowsocksMethod::parse("aes-128-gcm").expect("method");
    let mut bytes = vec![0x33; method.salt_len()];
    let mut writer = ShadowsocksWriter::with_salt(method, "ss-password", &bytes).expect("writer");
    bytes.extend_from_slice(&writer.write_chunk(&[0x01, 127, 0]).expect("chunk"));
    let head = method.salt_len() + 18;

    let mut cut = Exchange::new(bytes[..bytes.len() - 1].to_vec());
    let early = server().read_request(&mut cut, method).expect_err("cut");
    assert_eq!(early.kind, ErrorKind::UnexpectedEof);
    assert_eq!(cut.position, head);

    let whole_len = bytes.len();
    bytes.extend_from_slice(b"more");
    let mut whole = Exchange::new(bytes);
    let refused = server().read_request(&mut whole, method).expect_err("short");
    assert_eq!(refused.kind, ErrorKind::UnexpectedEof);
    assert_eq!(whole.position, whole_len);
}
