use keli_core::address::{IpAddress, SocketAddress};
use keli_core::error::{CoreError, ErrorKind};
use keli_core::route::{RouteDecision, Way};
use keli_core::target::SocksTarget;
use keli_core::traffic::TrafficRegistry;
use keli_core::tuic::{
    encode_udp_packet, parse_udp_command, parse_uuid_bytes, tuic_congestion_control,
    CongestionControl, UdpCommand, UdpPacket,
};
use keli_core::tuic_fragments::UdpFragmentStore;
use keli_core::tuic_server::{
    handle_udp_command, handle_udp_packet, read_connect, CommandAction, PacketAction, ReplyAction,
    TuicServer, TuicServerConfig, UdpRelaySessions, UdpReplies, UdpReplyMode,
};
use keli_core::user::{CoreUser, CoreUserDelta};
use keli_core::wire::Exchange;

fn user() -> CoreUser {
    CoreUser {
        id: 1,
        uuid: "11111111-1111-1111-1111-111111111111".to_string(),
        password: Some("tuic-password".to_string()),
        email: None,
        speed_limit: 0,
        device_limit: 0,
    }
}

fn user_b() -> CoreUser {
    CoreUser {
        id: 2,
        uuid: "22222222-2222-2222-2222-222222222222".to_string(),
        password: Some("secret-b".to_string()),
        email: None,
        speed_limit: 0,
        device_limit: 0,
    }
}

fn address(port: u16) -> SocketAddress {
    SocketAddress::new(IpAddress::V4([127, 0, 0, 1]), port)
}

fn tuic_server() -> TuicServer {
    TuicServer::new(TuicServerConfig {
        node_tag: "panel|tuic|1".to_string(),
        listen: address(0),
        users: vec![user()],
        routes: Vec::new(),
        cert_file: "cert.pem".to_string(),
        key_file: "key.pem".to_string(),
        server_name: "localhost".to_string(),
        alpn: vec!["h3".to_string()],
        reject_unknown_sni: false,
        congestion_control: String::new(),
        connect_timeout_millis: 3000,
    })
}

#[test]
fn accepts_supported_tuic_congestion_controls() {
    for value in ["", "cubic", "bbr", "new_reno", "new-reno", "reno"] {
        tuic_congestion_control(value)
            .unwrap_or_else(|error| panic!("{value} should be supported: {}", error.message));
    }
    assert_eq!(tuic_congestion_control(" BBR "), Ok(CongestionControl::Bbr));
    assert_eq!(
        tuic_congestion_control("New Reno"),
        Ok(CongestionControl::NewReno)
    );
}

#[test]
fn rejects_unsupported_tuic_congestion_control() {
    let error = tuic_congestion_control("brutal").unwrap_err();
    assert_eq!(error.kind, ErrorKind::InvalidInput);
    assert!(error
        .message
        .contains("unsupported tuic congestion_control"));
}

#[test]
fn replaces_users_without_rebuilding_tuic_server() {
    let mut server = tuic_server();
    let old_uuid = parse_uuid_bytes(&user().uuid).expect("old uuid");
    let new_user = user_b();
    let new_uuid = parse_uuid_bytes(&new_user.uuid).expect("new uuid");

    server.replace_users(&[new_user]);

    assert!(server.user_for_uuid(&old_uuid).is_none());
    let user = server
        .user_for_uuid(&new_uuid)
        .expect("new user should authenticate");
    assert_eq!(user.uuid, "22222222-2222-2222-2222-222222222222");
    assert_eq!(user.credential(), "secret-b");
}

#[test]
fn apply_user_delta_updates_tuic_users() {
    let mut server = tuic_server();
    let mut updated = user();
    updated.password = Some("rotated-tuic".to_string());
    updated.speed_limit = 234;
    updated.device_limit = 6;
    let old_uuid = parse_uuid_bytes(&updated.uuid).expect("old uuid");
    let new_uuid = parse_uuid_bytes(&user_b().uuid).expect("new uuid");

    let result = server.apply_user_delta(&CoreUserDelta {
        added: vec![user_b()],
        updated: vec![updated.clone()],
        ..CoreUserDelta::default()
    });

    assert_eq!(result.added, 1);
    assert_eq!(result.updated, 1);
    assert_eq!(result.active_users, 2);
    let user = server
        .user_for_uuid(&old_uuid)
        .expect("updated tuic user should remain active");
    assert_eq!(user.credential(), "rotated-tuic");
    assert_eq!(user.speed_limit, 234);
    assert_eq!(user.device_limit, 6);
    assert!(server.user_for_uuid(&new_uuid).is_some());

    let result = server.apply_user_delta(&CoreUserDelta {
        deleted: vec![updated.uuid.clone()],
        ..CoreUserDelta::default()
    });

    assert_eq!(result.deleted, 1);
    assert_eq!(result.active_users, 1);
    assert!(server.user_for_uuid(&old_uuid).is_none());
    assert!(server.user_for_uuid(&new_uuid).is_some());
}

#[test]
fn parses_uuid_bytes() {
    assert_eq!(
        parse_uuid_bytes("11111111-1111-1111-1111-111111111111").unwrap(),
        [0x11; 16]
    );
}

#[test]
fn invalid_uuids_are_refused() {
    for text in ["", "1111", "11111111-1111-1111-1111-11111111111111"] {
        let error = parse_uuid_bytes(text).unwrap_err();
        assert_eq!(error.kind, ErrorKind::InvalidInput);
        assert_eq!(error.message, "tuic user uuid must be 16 bytes");
    }
    let error = parse_uuid_bytes("g1111111-1111-1111-1111-111111111111").unwrap_err();
    assert_eq!(error.message, "tuic user uuid is invalid");
}

#[test]
fn parses_tuic_udp_packet_commands() {
    let target = SocksTarget {
        host: "::1".to_string(),
        port: 53,
    };
    let encoded = encode_udp_packet(7, 11, 1, 0, Some(&target), b"dns").unwrap();
    let parsed = parse_udp_command(&encoded).unwrap();

    assert_eq!(
        parsed,
        UdpCommand::Packet(UdpPacket {
            assoc_id: 7,
            packet_id: 11,
            fragment_total: 1,
            fragment_id: 0,
            target: Some(target),
            payload: b"dns".to_vec(),
        })
    );
}

#[test]
fn fragments_of_several_packets_may_be_mixed() {
    let target = SocksTarget {
        host: "127.0.0.1".to_string(),
        port: 53,
    };
    let piece = |packet_id: u16, total: u8, index: u8, payload: &[u8]| {
        let head = if index == 0 { Some(&target) } else { None };
        let bytes = encode_udp_packet(7, packet_id, total, index, head, payload).unwrap();
        match parse_udp_command(&bytes).unwrap() {
            UdpCommand::Packet(packet) => packet,
            _ => panic!("expected packet"),
        }
    };
    let mut fragments = UdpFragmentStore::new();
    assert!(fragments.push(piece(1, 3, 2, b"!")).unwrap().is_none());
    assert!(fragments.push(piece(2, 2, 0, b"ab")).unwrap().is_none());
    assert!(fragments.push(piece(1, 3, 0, b"he")).unwrap().is_none());
    let alone = fragments.push(piece(3, 1, 0, b"x")).unwrap();
    assert_eq!(alone.expect("whole packet").payload, b"x");
    let second = fragments.push(piece(2, 2, 1, b"cd")).unwrap();
    assert_eq!(second.expect("second packet").payload, b"abcd");
    let first = fragments.push(piece(1, 3, 1, b"llo")).unwrap().expect("first packet");
    assert_eq!(first.payload, b"hello!");
    assert_eq!(first.packet_id, 1);
    assert_eq!(first.target, Some(target.clone()));
}

#[test]
fn reassembles_tuic_udp_fragments() {
    let target = SocksTarget {
        host: "127.0.0.1".to_string(),
        port: 53,
    };
    let first =
        match parse_udp_command(&encode_udp_packet(7, 12, 2, 0, Some(&target), b"he").unwrap())
            .unwrap()
        {
            UdpCommand::Packet(packet) => packet,
            _ => panic!("expected packet"),
        };
    let second =
        match parse_udp_command(&encode_udp_packet(7, 12, 2, 1, None, b"llo").unwrap()).unwrap() {
            UdpCommand::Packet(packet) => packet,
            _ => panic!("expected packet"),
        };
    let mut fragments = UdpFragmentStore::default();

    assert!(fragments.push(second).unwrap().is_none());
    let packet = fragments
        .push(first)
        .unwrap()
        .expect("complete fragmented packet");

    assert_eq!(packet.assoc_id, 7);
    assert_eq!(packet.packet_id, 12);
    assert_eq!(packet.fragment_total, 1);
    assert_eq!(packet.fragment_id, 0);
    assert_eq!(packet.target, Some(target));
    assert_eq!(packet.payload, b"hello");
}

#[test]
fn short_commands_are_refused() {
    let target = SocksTarget {
        host: "example.test".to_string(),
        port: 53,
    };
    let encoded = encode_udp_packet(7, 11, 1, 0, Some(&target), b"dns").unwrap();
    for len in 0..encoded.len() {
        assert!(parse_udp_command(&encoded[..len]).is_err(), "{len}");
    }
    assert_eq!(
        parse_udp_command(&[0x05, 0x03, 0x00, 0x07]).unwrap(),
        UdpCommand::Dissociate(7)
    );
    assert_eq!(parse_udp_command(&[0x05, 0x04]).unwrap(), UdpCommand::Heartbeat);
    assert!(parse_udp_command(&[0x04, 0x04]).is_err());
    let long = SocksTarget {
        host: "a".repeat(256),
        port: 1,
    };
    assert!(encode_udp_packet(7, 11, 1, 0, Some(&long), b"dns").is_err());
}

#[test]
fn clients_prove_who_they_are() {
    let server = tuic_server();
    let mut bytes = vec![0x05, 0x00];
    bytes.extend_from_slice(&[0x11; 16]);
    bytes.extend_from_slice(&[0xab; 32]);
    let authentication = server
        .read_authentication(&mut Exchange::new(bytes.clone()))
        .expect("known user");
    assert_eq!(authentication.user, user());
    assert_eq!(authentication.finish(&[0xab; 32]).expect("token"), user());

    let authentication = server
        .read_authentication(&mut Exchange::new(bytes.clone()))
        .expect("known user");
    assert_eq!(
        authentication.finish(&[0xac; 32]).expect_err("token").kind,
        ErrorKind::PermissionDenied
    );

    bytes[2] = 0x99;
    assert_eq!(
        server
            .read_authentication(&mut Exchange::new(bytes))
            .expect_err("unknown")
            .kind,
        ErrorKind::PermissionDenied
    );
    assert_eq!(
        server
            .read_authentication(&mut Exchange::new(vec![0x05, 0x01, 0x00]))
            .expect_err("command")
            .message,
        "invalid tuic authentication command"
    );
}

#[test]
fn connect_streams_name_their_target() {
    let mut bytes = vec![0x05, 0x01, 0x00, 11];
    bytes.extend_from_slice(b"example.com");
    bytes.extend_from_slice(&443u16.to_be_bytes());
    bytes.extend_from_slice(b"more");
    let mut stream = Exchange::new(bytes);
    let target = read_connect(&mut stream).expect("target");
    assert_eq!(target.host, "example.com");
    assert_eq!(target.port, 443);
    assert_eq!(stream.input.len() - stream.position, 4);
    assert!(read_connect(&mut Exchange::new(vec![0x05, 0x02])).is_err());
}

#[test]
fn sessions_last_until_they_are_closed() {
    let mut fragments = UdpFragmentStore::new();
    let mut sessions = UdpRelaySessions::new();
    assert_eq!(sessions.open(7, 100), 100);
    assert_eq!(sessions.open(7, 200), 100);
    assert!(sessions.is_open(7, 100));
    assert!(matches!(
        handle_udp_command(&mut fragments, &mut sessions, UdpCommand::Dissociate(7)),
        Ok(CommandAction::Close(100))
    ));
    assert!(!sessions.is_open(7, 100));
    assert_eq!(sessions.socket(7), None);
    assert!(matches!(
        handle_udp_command(&mut fragments, &mut sessions, UdpCommand::Heartbeat),
        Ok(CommandAction::Nothing)
    ));
}

fn packet(total: u8, target: Option<SocksTarget>) -> UdpPacket {
    UdpPacket {
        assoc_id: 7,
        packet_id: 11,
        fragment_total: total,
        fragment_id: 0,
        target,
        payload: b"query".to_vec(),
    }
}

#[test]
fn packets_are_relayed_step_by_step() {
    let target = SocksTarget {
        host: "127.0.0.1".to_string(),
        port: 53,
    };
    assert!(handle_udp_packet(packet(2, Some(target.clone()))).is_none());
    assert!(handle_udp_packet(packet(1, None)).is_none());
    let job = handle_udp_packet(packet(1, Some(target))).expect("job");
    assert_eq!(
        job.routed(&RouteDecision::Direct, true).expect("direct"),
        PacketAction::Resolve
    );
    assert_eq!(
        job.routed(&RouteDecision::Block, true).expect("blocked"),
        PacketAction::Stop
    );
    let mut sessions = UdpRelaySessions::new();
    sessions.open(7, 100);
    assert_eq!(job.opened(&sessions, 100, false), PacketAction::SendDirect);
    assert_eq!(job.opened(&sessions, 100, true), PacketAction::Charge);
    assert_eq!(job.opened(&sessions, 101, true), PacketAction::Stop);
    assert_eq!(job.charged(Way::Outbound, true), PacketAction::SendOutbound);
    assert_eq!(job.charged(Way::Direct, false), PacketAction::Stop);
    assert_eq!(job.sent().upload, 5);

    let report = job
        .answered(
            Ok((address(53), b"answer".to_vec())),
            UdpReplyMode::Datagram,
            Some(1200),
        )
        .expect("answered");
    assert_eq!(report.upload, 5);
    assert_eq!(report.download, 6);
    match parse_udp_command(&report.reply.expect("reply")).expect("command") {
        UdpCommand::Packet(reply) => {
            assert_eq!(reply.assoc_id, 7);
            assert_eq!(reply.packet_id, 11);
            assert_eq!(reply.payload, b"answer");
        }
        _ => panic!("not a packet"),
    }
    let report = job
        .answered(
            Ok((address(53), b"answer".to_vec())),
            UdpReplyMode::Datagram,
            Some(3),
        )
        .expect("too large");
    assert!(report.reply.is_none());
    let late = CoreError {
        kind: ErrorKind::TimedOut,
        message: "late".to_string(),
    };
    let report = job
        .answered(Err(late), UdpReplyMode::UniStream, None)
        .expect("late");
    assert_eq!(report.upload, 5);
    assert_eq!(report.download, 0);
}

#[test]
fn replies_are_numbered() {
    let mut replies = UdpReplies::new(7, UdpReplyMode::Datagram);
    for id in 0..2u16 {
        match replies.reply(&address(53), b"a", Some(1200)).expect("reply") {
            ReplyAction::Send { command, download } => {
                assert_eq!(download, 1);
                match parse_udp_command(&command).expect("command") {
                    UdpCommand::Packet(packet) => assert_eq!(packet.packet_id, id),
                    _ => panic!("not a packet"),
                }
            }
            _ => panic!("not sent"),
        }
    }
    assert!(matches!(
        replies.reply(&address(53), b"a", Some(2)),
        Ok(ReplyAction::Skip)
    ));
    assert!(matches!(
        replies.reply(&address(53), b"a", None),
        Ok(ReplyAction::Stop)
    ));
    replies.next_packet_id = 65535;
    replies.reply(&address(53), b"a", None).expect("wraps");
    assert_eq!(replies.next_packet_id, 0);
}

#[test]
fn tuic_traffic_is_recorded_under_the_node() {
    let server = tuic_server();
    let mut traffic = TrafficRegistry::new();
    server.record(
        &mut traffic,
        &user().uuid,
        1,
        3,
        4,
        IpAddress::V4([203, 0, 113, 9]),
    );
    let records = traffic.drain_all();
    assert_eq!(records[0].node_tag, "panel|tuic|1");
    assert_eq!(records[0].upload, 3);
    assert_eq!(records[0].download, 4);
    assert_eq!(server.alpn(), vec!["h3"]);
}
