use keli_core::address::IpAddress;
use keli_core::traffic::TrafficRegistry;

fn ip(text: &str) -> Option<IpAddress> {
    Some(IpAddress::parse(text).expect("address"))
}

#[test]
fn accumulates_and_drains_traffic() {
    let mut registry = TrafficRegistry::default();

    registry.add("node-a", "user-a", 10, 20);
    registry.add("node-a", "user-a", 1, 2);
    registry.add("node-a", "user-b", 1, 1);

    let records = registry.drain_minimum(10);

    assert_eq!(records.len(), 1);
    assert_eq!(records[0].upload, 11);
    assert_eq!(records[0].download, 22);
    assert_eq!(registry.len(), 1);
}

#[test]
fn records_online_ips_without_duplicates() {
    let mut registry = TrafficRegistry::default();

    registry.add_with_ip("node-a", "user-a", 1, 1, ip("198.51.100.7"));
    registry.add_with_ip("node-a", "user-a", 1, 1, ip("198.51.100.7"));

    let records = registry.drain_minimum(1);

    assert_eq!(records[0].online_ips, vec!["198.51.100.7"]);
}

#[test]
fn preserves_user_id_for_deleted_user_reporting() {
    let mut registry = TrafficRegistry::default();

    registry.add_with_user_id("node-a", "user-a", Some(42), 10, 20, None);
    registry.add_with_user_id("node-a", "user-a", None, 1, 2, None);

    let records = registry.drain_all();

    assert_eq!(records[0].user_uuid, "user-a");
    assert_eq!(records[0].user_id, Some(42));
    assert_eq!(records[0].upload, 11);
    assert_eq!(records[0].download, 22);
}

#[test]
fn addresses_are_ordered() {
    let mut registry = TrafficRegistry::new();
    registry.add_with_ip("n", "u", 1, 1, ip("203.0.113.9"));
    registry.add_with_ip("n", "u", 1, 1, ip("2001:db8::1"));
    registry.add_with_ip("n", "u", 1, 1, ip("198.51.100.7"));
    let records = registry.drain_all();
    assert_eq!(
        records[0].online_ips,
        vec!["198.51.100.7", "2001:db8::1", "203.0.113.9"]
    );
}

#[test]
fn counters_saturate() {
    let mut registry = TrafficRegistry::new();
    registry.add("n", "u", u64::MAX, 1);
    registry.add("n", "u", 5, u64::MAX);
    let records = registry.drain_minimum(u64::MAX);
    assert_eq!(records[0].upload, u64::MAX);
    assert_eq!(records[0].download, u64::MAX);
    assert!(registry.is_empty());
}

#[test]
fn draining_splits_the_counters() {
    let mut registry = TrafficRegistry::new();
    registry.add("n", "b", 50, 0);
    registry.add("n", "a", 0, 60);
    registry.add("n", "c", 1, 1);
    let large = registry.drain_minimum(50);
    let names: Vec<&str> = large.iter().map(|record| record.user_uuid.as_str()).collect();
    assert_eq!(names, vec!["a", "b"]);
    let rest = registry.drain_all();
    assert_eq!(rest.len(), 1);
    assert_eq!(rest[0].user_uuid, "c");
    assert!(registry.drain_all().is_empty());
}

#[test]
fn counting_in_parts_is_counting_at_once() {
    let mut parts = TrafficRegistry::new();
    parts.add("n", "u", 3, 4);
    parts.add("n", "u", 5, 6);
    let mut once = TrafficRegistry::new();
    once.add("n", "u", 8, 10);
    assert_eq!(parts.drain_all(), once.drain_all());
}

#[test]
fn nodes_are_counted_apart() {
    let mut registry = TrafficRegistry::new();
    registry.add("node-a", "u", 1, 0);
    registry.add("node-b", "u", 2, 0);
    assert_eq!(registry.len(), 2);
    let records = registry.drain_all();
    assert_eq!(records[0].upload + records[1].upload, 3);
}
