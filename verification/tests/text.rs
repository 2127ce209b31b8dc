use keli_core::address::{IpAddress, SocketAddress};
use keli_core::numeral::{decimal_text, parse_trimmed};
use keli_core::order::sort_ranked;
use keli_core::socket_bind::{bind_addr_error, bind_dual_stack, should_fallback_to_ipv4};
use keli_core::error::{CoreError, ErrorKind};
use keli_core::table::Table;
use keli_core::text::{contains_text, is_whitespace, lowered, replaced, trimmed, unbracketed};
use keli_core::user::CoreUser;

#[test]
fn white_space_is_that_of_unicode() {
    for c in '\0'..=char::MAX {
        assert_eq!(is_whitespace(c), c.is_whitespace(), "{:?}", c);
    }
}

#[test]
fn texts_are_trimmed_and_lowered() {
    for text in ["", " ", " a b ", "\u{3000}x\u{2003}", "abc"] {
        assert_eq!(trimmed(text), text.trim());
    }
    for text in ["ÄbC", "XYZ", "\u{212a}"] {
        assert_eq!(lowered(text), text.to_ascii_lowercase());
    }
    assert_eq!(replaced("a-b-c", '-', '_'), "a_b_c");
    assert_eq!(unbracketed("[[::1]"), "::1");
    assert!(contains_text("target blocked", "block"));
    assert!(contains_text("x", ""));
    assert!(!contains_text("route", "routes"));
}

#[test]
fn numbers_are_parsed_as_std_does() {
    for text in [
        "", "+", "+7", "-7", " 42 ", "007", "65535", "65536", "1_000", "+ 1", "12a",
    ] {
        assert_eq!(
            parse_trimmed(text, 65535),
            text.trim().parse::<u16>().ok().map(u64::from),
            "{text:?}"
        );
    }
    assert_eq!(
        parse_trimmed("18446744073709551616", u64::MAX),
        "18446744073709551616".parse::<u64>().ok()
    );
    for n in [0, 9, 10, 255, u64::MAX] {
        assert_eq!(decimal_text(n), n.to_string());
    }
}

#[test]
fn addresses_have_their_notation() {
    for text in [
        "0.0.0.0",
        "198.51.100.7",
        "::",
        "::1",
        "2001:db8::1",
        "2001:db8:0:1::",
        "1:2:3:4:5:6:7:8",
        "::ffff:1.2.3.4",
        "fe80::1:0:0:1",
    ] {
        let address = IpAddress::parse(text).expect(text);
        assert_eq!(address.to_text(), text);
    }
    for text in [
        "", "1.2.3", "1.2.3.4.5", "01.2.3.4", "256.1.1.1", ":::", "1::2::3", "g::", "[::1]",
        "1:2:3:4:5:6:7", "::1%eth0",
    ] {
        assert!(IpAddress::parse(text).is_none(), "{text}");
    }
    let v6 = SocketAddress::new(IpAddress::parse("::1").expect("address"), 443);
    assert_eq!(v6.to_text(), "[::1]:443");
}

#[test]
fn scopes_tell_addresses_apart() {
    let plain = SocketAddress::new(IpAddress::parse("fe80::1").expect("address"), 443);
    let mut scoped = plain;
    scoped.scope_id = 3;
    let mut flowing = plain;
    flowing.flow_info = 7;
    assert_eq!(scoped.to_text(), "[fe80::1%3]:443");
    assert_eq!(flowing.to_text(), "[fe80::1]:443");
    assert_ne!(plain, scoped);
    assert_ne!(plain, flowing);
    assert_eq!(bind_dual_stack(&scoped).address, scoped);

    let four = SocketAddress::new(IpAddress::V4([127, 0, 0, 1]), 443);
    let mut other = four;
    other.scope_id = 3;
    assert_eq!(four, other);
    assert_eq!(other.to_text(), "127.0.0.1:443");
}

#[test]
fn wildcards_listen_for_both_versions() {
    let wildcard = SocketAddress::new(IpAddress::V4([0; 4]), 443);
    let attempt = bind_dual_stack(&wildcard);
    assert!(attempt.dual_stack);
    assert_eq!(attempt.address.ip, IpAddress::V6([0; 16]));
    let refused = CoreError {
        kind: ErrorKind::Unsupported,
        message: "no".to_string(),
    };
    let next = attempt.failed(refused, None).expect("version four");
    assert_eq!(next.address, wildcard);
    let in_use = CoreError {
        kind: ErrorKind::AddrInUse,
        message: "in use".to_string(),
    };
    assert_eq!(
        next.failed(in_use, None).expect_err("in use").message,
        "at 0.0.0.0:443: in use"
    );
    assert!(should_fallback_to_ipv4(ErrorKind::Other, Some(97)));
    assert!(!should_fallback_to_ipv4(ErrorKind::Other, Some(98)));
    let named = bind_addr_error(
        &wildcard,
        CoreError {
            kind: ErrorKind::Other,
            message: "x".to_string(),
        },
    );
    assert_eq!(named.message, "at 0.0.0.0:443: x");
    let explicit = SocketAddress::new(IpAddress::V4([127, 0, 0, 1]), 1);
    assert_eq!(bind_dual_stack(&explicit).address, explicit);
}

#[test]
fn tables_hold_one_value_per_key() {
    let mut table: Table<String, u32> = Table::new();
    assert_eq!(table.insert("a".to_string(), 1), None);
    assert_eq!(table.insert("b".to_string(), 2), None);
    assert_eq!(table.insert("a".to_string(), 3), Some(1));
    assert_eq!(table.len(), 2);
    assert_eq!(table.get(&"a".to_string()), Some(&3));
    assert_eq!(table.remove(&"a".to_string()), Some(3));
    assert_eq!(table.remove(&"a".to_string()), None);
    table.clear();
    assert!(table.is_empty());
}

#[test]
fn sorting_is_by_code_points() {
    let named = |uuid: &str| CoreUser {
        id: 0,
        uuid: uuid.to_string(),
        password: None,
        email: None,
        speed_limit: 0,
        device_limit: 0,
    };
    let sorted = sort_ranked(vec![named("b"), named("\u{e9}"), named("a"), named("B"), named("ab")]);
    let names: Vec<String> = sorted.into_iter().map(|user| user.uuid).collect();
    assert_eq!(names, vec!["B", "a", "ab", "b", "\u{e9}"]);
}
