use veil_proxy::routing::cidr::{IpAddress, IpPattern};
use veil_proxy::routing::table::{condition_holds, RequestFingerprint, RouteCondition, RoutingTable};

fn text_pairs(list: &[(&str, &str)]) -> Vec<(String, String)> {
    list.iter().map(|(a, b)| (a.to_string(), b.to_string())).collect()
}

fn route(host: Option<&str>, path: Option<&str>) -> RouteCondition {
    RouteCondition {
        host: host.map(|s| s.to_string()),
        path: path.map(|s| s.to_string()),
        methods: vec![],
        headers: vec![],
        query: vec![],
        source_ip: None,
    }
}

fn request(method: &str, host: &str, path: &str) -> RequestFingerprint {
    RequestFingerprint {
        host: host.to_string(),
        path: path.to_string(),
        method: method.to_string(),
        headers: vec![],
        query: vec![],
        source_ip: IpAddress::V4(0x0a00_0001),
        source_ip_text: "10.0.0.1".to_string(),
    }
}

#[test]
fn test_wildcard_host_routes() {
    let mut table = RoutingTable::new(100);
    table.add_route(route(Some("api.example.com"), Some("/v1/*")));
    table.add_route(route(Some("*.example.com"), None));
    table.add_route(route(None, None));
    assert_eq!(table.route_count(), 3);
    assert_eq!(table.find_route(&request("GET", "api.example.com", "/v1/users")), Some(0));
    assert_eq!(table.find_route(&request("GET", "other.example.com", "/x")), Some(1));
    assert_eq!(table.find_route(&request("GET", "foreign.org", "/x")), Some(2));
    assert_eq!(table.find_route(&request("GET", "api.example.com", "/v1/users")), Some(0));
}

#[test]
fn test_no_route() {
    let mut table = RoutingTable::new(4);
    assert_eq!(table.find_route(&request("GET", "h", "/")), None);
    table.add_route(route(Some("only.example"), None));
    assert_eq!(table.find_route(&request("GET", "h", "/")), None);
    assert_eq!(table.find_route(&request("GET", "h", "/")), None);
    assert_eq!(table.scan_route(&request("GET", "only.example", "/")), Some(0));
}

#[test]
fn test_conditions_beyond_the_indices() {
    let mut post = route(None, Some("/api/*"));
    post.methods = vec!["POST".to_string(), "PUT".to_string()];
    let mut json = route(None, Some("/api/*"));
    json.headers = text_pairs(&[("Content-Type", "application/json"), ("x-env", "prod")]);
    let mut debug = route(None, None);
    debug.query = text_pairs(&[("debug", "1")]);
    let mut inside = route(None, None);
    inside.source_ip = Some(vec![IpPattern::Range { network: IpAddress::V4(0x0a00_0000), prefix_len: 8 }]);
    let mut table = RoutingTable::new(0);
    table.add_route(post);
    table.add_route(json);
    table.add_route(debug);
    table.add_route(inside);

    let mut r = request("PUT", "h", "/api/x");
    assert_eq!(table.scan_route(&r), Some(0));
    r.method = "put".to_string();
    assert_eq!(table.scan_route(&r), Some(3));
    r.headers = text_pairs(&[("content-type", "application/json"), ("X-ENV", "prod")]);
    assert_eq!(table.scan_route(&r), Some(1));
    r.headers = text_pairs(&[("content-type", "Application/JSON"), ("X-ENV", "prod")]);
    assert_eq!(table.scan_route(&r), Some(3));
    r.headers = text_pairs(&[("content-type", "application/json")]);
    r.query = text_pairs(&[("debug", "0"), ("debug", "1")]);
    assert_eq!(table.scan_route(&r), Some(2));
    r.query = text_pairs(&[("Debug", "1")]);
    assert_eq!(table.scan_route(&r), Some(3));
    r.source_ip = IpAddress::V4(0x0b00_0000);
    assert_eq!(table.scan_route(&r), None);
    assert!(condition_holds(&route(None, None), &r));
}

#[test]
fn test_find_route_equals_the_scan_on_a_miss() {
    let mut table = RoutingTable::new(8);
    let mut get_only = route(Some("example.com"), Some("/"));
    get_only.methods = vec!["GET".to_string()];
    table.add_route(get_only);
    table.add_route(route(Some("*.example.com"), Some("/api/*")));
    table.add_route(route(None, Some("/api")));
    table.add_route(route(None, None));
    for method in ["GET", "POST"] {
        for host in ["example.com", "a.example.com", "b.a.example.com", "x"] {
            for path in ["/", "/api", "/api/v1", "/other"] {
                let r = request(method, host, path);
                let scanned = table.scan_route(&r);
                assert_eq!(table.find_route(&r), scanned);
                assert_eq!(table.find_route(&r), scanned);
            }
        }
    }
}

#[test]
fn test_cache_key_leaves_out_headers() {
    let mut json = route(None, None);
    json.headers = text_pairs(&[("accept", "application/json")]);
    let mut table = RoutingTable::new(8);
    table.add_route(json);
    let mut r = request("GET", "h", "/");
    r.headers = text_pairs(&[("accept", "application/json")]);
    assert_eq!(table.find_route(&r), Some(0));
    r.headers.clear();
    assert_eq!(table.scan_route(&r), None);
    assert_eq!(table.find_route(&r), Some(0));
    table.add_route(route(None, None));
    assert_eq!(table.find_route(&r), Some(1));
}

#[test]
fn test_cache_capacity_decides_what_is_remembered() {
    for (capacity, remembered) in [(1usize, false), (2, true), (0, true)] {
        let mut json = route(None, Some("/a"));
        json.headers = text_pairs(&[("accept", "application/json")]);
        let mut table = RoutingTable::new(capacity);
        table.add_route(json);
        let mut first = request("GET", "h", "/a");
        first.headers = text_pairs(&[("accept", "application/json")]);
        assert_eq!(table.find_route(&first), Some(0));
        assert_eq!(table.find_route(&request("GET", "h", "/b")), None);
        first.headers.clear();
        assert_eq!(table.scan_route(&first), None);
        let expected = if remembered { Some(0) } else { None };
        assert_eq!(table.find_route(&first), expected, "capacity {capacity}");
    }
}
