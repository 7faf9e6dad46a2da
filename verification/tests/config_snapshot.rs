use veil_proxy::config::snapshot::{SnapshotHandle, SnapshotStore};
use veil_proxy::routing::cidr::IpAddress;
use veil_proxy::routing::table::{RequestFingerprint, RouteCondition, RoutingTable};

fn route(host: Option<&str>, path: Option<&str>) -> RouteCondition {
    RouteCondition {
        host: host.map(|s| s.to_string()),
        path: path.map(|s| s.to_string()),
        methods: vec![],
        headers: vec![],
        query: vec![],
        source_ip: None,
    }
}

fn request(host: &str, path: &str) -> RequestFingerprint {
    RequestFingerprint {
        host: host.to_string(),
        path: path.to_string(),
        method: "GET".to_string(),
        headers: vec![],
        query: vec![],
        source_ip: IpAddress::V4(0x7f00_0001),
        source_ip_text: "127.0.0.1".to_string(),
    }
}

#[test]
fn test_requests_keep_their_snapshot() {
    let mut store = SnapshotStore::new("one".to_string());
    let r1 = store.begin_request();
    assert_eq!(r1, SnapshotHandle { generation: 0 });
    assert_eq!(store.publish("two".to_string()), None);
    let r2 = store.begin_request();
    assert_eq!(store.publish("three".to_string()), None);
    assert_eq!(store.get(r1), Some(&"one".to_string()));
    assert_eq!(store.get(r2), Some(&"two".to_string()));
    assert_eq!(store.latest(), "three");
    assert_eq!(store.snapshot_count(), 3);
    store.end_request(r1);
    assert_eq!(store.get(r1), None);
    assert_eq!(store.get(r2), Some(&"two".to_string()));
    assert_eq!(store.snapshot_count(), 2);
    store.end_request(r2);
    store.end_request(r2);
    assert_eq!(store.snapshot_count(), 1);
    let r3 = store.begin_request();
    store.end_request(r3);
    assert_eq!(store.get(r3), Some(&"three".to_string()));
}

#[test]
fn test_unheld_snapshot_is_dropped_at_once() {
    let mut store = SnapshotStore::new(1u32);
    assert_eq!(store.publish(2), None);
    assert_eq!(store.snapshot_count(), 1);
    assert_eq!(store.get(SnapshotHandle { generation: 0 }), None);
    assert_eq!(store.get(SnapshotHandle { generation: 1 }), Some(&2));
    store.end_request(SnapshotHandle { generation: 9 });
    assert_eq!(*store.latest(), 2);
}

#[test]
fn test_failed_reload_changes_nothing() {
    let mut store = SnapshotStore::new(1u32);
    let held = store.begin_request();
    assert_eq!(store.reload::<String>(Err("parse error".to_string())), Err("parse error".to_string()));
    assert_eq!(*store.latest(), 1);
    assert_eq!(store.snapshot_count(), 1);
    assert_eq!(store.reload::<String>(Ok(2)), Ok(()));
    assert_eq!(*store.latest(), 2);
    assert_eq!(store.get(held), Some(&1));
}

#[test]
fn test_hot_reload_with_a_request_under_way() {
    let mut first = RoutingTable::new(16);
    first.add_route(route(Some("app.example"), Some("/long/*")));
    first.add_route(route(None, None));
    let mut store = SnapshotStore::new(first);
    let r1 = store.begin_request();

    let mut second = RoutingTable::new(16);
    second.add_route(route(None, None));
    assert!(store.publish(second).is_none());

    assert_eq!(store.get(r1).unwrap().route_count(), 2);
    assert_eq!(store.get(r1).unwrap().scan_route(&request("app.example", "/long/download")), Some(0));
    let r2 = store.begin_request();
    assert_eq!(store.get(r2).unwrap().route_count(), 1);
    assert_eq!(store.get(r2).unwrap().scan_route(&request("app.example", "/long/download")), Some(0));
    assert_eq!(store.latest().scan_route(&request("app.example", "/long/download")), Some(0));
    store.end_request(r1);
    assert!(store.get(r1).is_none());
    store.end_request(r2);
}
