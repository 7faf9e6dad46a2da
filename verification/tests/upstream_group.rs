use veil_proxy::routing::cidr::IpAddress;
use veil_proxy::upstream::group::{
    hash_address, LoadBalanceAlgorithm, ProxyTarget, Scheme, Server, UpstreamGroup,
};

fn target(host: &str) -> ProxyTarget {
    ProxyTarget { scheme: Scheme::Http, host: host.to_string(), port: 80, path_prefix: String::new() }
}

fn server(weight: u32, max: usize, active: usize, alive: bool) -> Server {
    let mut s = Server::new(target("s"), weight, max);
    s.active_connections = active;
    s.alive = alive;
    s
}

const IP: IpAddress = IpAddress::V4(0x0a00_0001);

#[test]
fn test_least_connections_selection() {
    let servers = vec![server(1, 0, 3, true), server(1, 0, 1, true), server(1, 0, 5, true)];
    let mut group = UpstreamGroup::new(servers, LoadBalanceAlgorithm::LeastConnections);
    let chosen = group.select(IP, 0);
    assert_eq!(chosen, Some(1));
    group.acquire(1);
    assert_eq!(group.servers[1].active_connections, 2);
    assert_eq!(group.counter, 0);
}

#[test]
fn test_least_connections_ties_and_limits() {
    let servers = vec![
        server(1, 2, 2, true),
        server(1, 0, 4, false),
        server(1, 0, 3, true),
        server(1, 0, 3, true),
    ];
    let mut group = UpstreamGroup::new(servers, LoadBalanceAlgorithm::LeastConnections);
    assert_eq!(group.select(IP, 0), Some(2));
    group.release(2);
    group.release(3);
    group.release(3);
    assert_eq!(group.select(IP, 0), Some(3));
    group.release(0);
    assert_eq!(group.select(IP, 0), Some(0));
}

#[test]
fn test_round_robin() {
    let servers = vec![server(1, 0, 0, true), server(1, 0, 0, false), server(1, 1, 0, true), server(1, 0, 0, true)];
    let mut group = UpstreamGroup::new(servers, LoadBalanceAlgorithm::RoundRobin);
    assert_eq!(group.select(IP, 0), Some(0));
    assert_eq!(group.select(IP, 0), Some(2));
    assert_eq!(group.select(IP, 0), Some(3));
    assert_eq!(group.select(IP, 0), Some(0));
    assert_eq!(group.counter, 4);
    group.acquire(2);
    assert_eq!(group.select(IP, 0), Some(3));
    assert_eq!(group.select(IP, 0), Some(3));
    assert_eq!(group.select(IP, 0), Some(0));
}

#[test]
fn test_no_server_can_take_the_request() {
    for algorithm in [
        LoadBalanceAlgorithm::RoundRobin,
        LoadBalanceAlgorithm::LeastConnections,
        LoadBalanceAlgorithm::IpHash,
        LoadBalanceAlgorithm::WeightedRoundRobin,
        LoadBalanceAlgorithm::WeightedRandom,
    ] {
        let mut group = UpstreamGroup::new(vec![], algorithm);
        assert_eq!(group.select(IP, 7), None);
        let mut group = UpstreamGroup::new(vec![server(1, 0, 0, false), server(2, 0, 0, false)], algorithm);
        assert_eq!(group.select(IP, 7), None);
        let mut group = UpstreamGroup::new(vec![server(1, 1, 1, true), server(2, 3, 3, true)], algorithm);
        assert_eq!(group.select(IP, 7), None);
    }
}

#[test]
fn test_ip_hash_is_stable() {
    let servers = vec![server(1, 0, 0, true), server(1, 0, 0, true), server(1, 0, 0, true)];
    let mut group = UpstreamGroup::new(servers, LoadBalanceAlgorithm::IpHash);
    let expected = (hash_address(IP) % 3) as usize;
    for _ in 0..5 {
        assert_eq!(group.select(IP, 0), Some(expected));
    }
    assert_eq!(group.counter, 0);
    group.servers[expected].max_connections = 1;
    group.acquire(expected);
    let other = group.select(IP, 0).unwrap();
    assert_ne!(other, expected);
    assert_eq!(group.counter, 1);
    group.probe_result(expected, false, 9);
    let live: Vec<usize> = (0..3).filter(|i| *i != expected).collect();
    assert_eq!(group.select(IP, 0), Some(live[(hash_address(IP) % 2) as usize]));
}

#[test]
fn test_hash_address_is_fnv1a() {
    let mut hash: u64 = 0xcbf29ce484222325;
    for b in [10u8, 0, 0, 1] {
        hash = (hash ^ b as u64).wrapping_mul(0x100000001b3);
    }
    assert_eq!(hash_address(IP), hash);
    let mut hash: u64 = 0xcbf29ce484222325;
    for b in 1u128.to_be_bytes() {
        hash = (hash ^ b as u64).wrapping_mul(0x100000001b3);
    }
    assert_eq!(hash_address(IpAddress::V6(1)), hash);
}

#[test]
fn test_weighted_round_robin() {
    let servers = vec![server(3, 0, 0, true), server(5, 0, 0, false), server(1, 0, 0, true)];
    let mut group = UpstreamGroup::new(servers, LoadBalanceAlgorithm::WeightedRoundRobin);
    let picks: Vec<usize> = (0..8).map(|_| group.select(IP, 0).unwrap()).collect();
    assert_eq!(picks, vec![0, 0, 0, 2, 0, 0, 0, 2]);
}

#[test]
fn test_weighted_random() {
    let servers = vec![server(3, 0, 0, true), server(1, 0, 0, true)];
    let mut group = UpstreamGroup::new(servers, LoadBalanceAlgorithm::WeightedRandom);
    assert_eq!(group.select(IP, 0), Some(0));
    assert_eq!(group.select(IP, 2), Some(0));
    assert_eq!(group.select(IP, 3), Some(1));
    assert_eq!(group.select(IP, 4), Some(0));
    assert_eq!(group.select(IP, u64::MAX), Some(1));
    assert_eq!(group.counter, 0);
}

#[test]
fn test_counter_follows_acquire_and_release() {
    let mut group = UpstreamGroup::new(vec![server(1, 0, 0, true)], LoadBalanceAlgorithm::RoundRobin);
    let mut expected = 0usize;
    for step in [1, 1, -1, 1, -1, -1, 1, 1, 1, -1] {
        if step > 0 {
            group.acquire(0);
            expected += 1;
        } else {
            group.release(0);
            expected -= 1;
        }
        assert_eq!(group.servers[0].active_connections, expected);
    }
    let mut s = server(1, 0, 0, true);
    s.acquire();
    s.acquire();
    s.release();
    assert_eq!(s.active_connections, 1);
}

#[test]
fn test_passive_health() {
    let mut group = UpstreamGroup::new(vec![server(1, 0, 4, true)], LoadBalanceAlgorithm::RoundRobin);
    group.report(0, false);
    assert!(group.servers[0].alive);
    assert_eq!(group.servers[0].consecutive_failures, 1);
    group.report(0, true);
    assert_eq!(group.servers[0].consecutive_failures, 0);
    group.report(0, false);
    group.report(0, false);
    assert!(!group.servers[0].alive);
    assert_eq!(group.select(IP, 0), None);
    group.report(0, false);
    assert_eq!(group.servers[0].consecutive_failures, 3);
    assert_eq!(group.servers[0].active_connections, 4);
    group.report(0, true);
    assert!(group.servers[0].alive);
    assert_eq!(group.servers[0].consecutive_failures, 0);
    group.probe_result(0, false, 77);
    assert!(!group.servers[0].alive);
    assert_eq!(group.servers[0].last_check, 77);
    group.probe_result(0, true, 78);
    assert!(group.servers[0].alive);
    assert_eq!(group.servers[0].active_connections, 4);
    assert_eq!(group.servers[0].last_check, 78);
    group.acquire(0);
    group.release(0);
    group.report(0, false);
    assert_eq!(group.servers[0].last_check, 78);
    assert_eq!(group.servers[0].target.host, "s");
    assert_eq!(group.servers[0].target.port, 80);
}

#[test]
fn test_targets_and_servers() {
    assert!(target("a").is_default_port());
    let t = ProxyTarget { scheme: Scheme::Https, host: "a".to_string(), port: 443, path_prefix: "/".to_string() };
    assert!(t.is_default_port());
    let t = ProxyTarget { scheme: Scheme::Https, host: "a".to_string(), port: 80, path_prefix: "/".to_string() };
    assert!(!t.is_default_port());
    let s = Server::new(target("a"), 0, 5);
    assert_eq!(s.weight, 1);
    assert!(s.alive && s.can_take());
    let s = server(1, 2, 2, true);
    assert!(!s.can_take());
}

#[test]
fn test_checkout_and_checkin() {
    use_group_status();
    let servers = vec![server(1, 1, 0, true), server(1, 0, usize::MAX, true), server(1, 0, 0, false)];
    let mut group = UpstreamGroup::new(servers, LoadBalanceAlgorithm::LeastConnections);
    assert_eq!(group.checkout(IP, 0), Some(0));
    assert_eq!(group.servers[0].active_connections, 1);
    assert_eq!(group.checkout(IP, 0), None);
    assert_eq!(group.servers[1].active_connections, usize::MAX);
    group.checkin(0);
    assert_eq!(group.servers[0].active_connections, 0);
    group.checkin(0);
    group.checkin(7);
    assert_eq!(group.servers[0].active_connections, 0);
    assert_eq!(group.checkout(IP, 0), Some(0));
    let mut down = UpstreamGroup::new(vec![server(1, 0, 0, false)], LoadBalanceAlgorithm::RoundRobin);
    assert_eq!(down.checkout(IP, 0), None);
    assert_eq!(down.counter, 1);
    assert_eq!(down.refusal_status(), 502);
    assert_eq!(UpstreamGroup::new(vec![], LoadBalanceAlgorithm::IpHash).refusal_status(), 502);
    let mut full = UpstreamGroup::new(
        vec![server(1, 1, 1, true), server(1, 0, 0, false)],
        LoadBalanceAlgorithm::LeastConnections,
    );
    assert_eq!(full.checkout(IP, 0), None);
    assert_eq!(full.refusal_status(), 503);
}

fn use_group_status() {
    assert_eq!(veil_proxy::upstream::group::STATUS_NO_SERVER, 502);
    assert_eq!(veil_proxy::upstream::group::STATUS_SATURATED, 503);
}
