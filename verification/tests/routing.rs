use veil_proxy::routing::cidr::{pattern_of, split_pattern, PrefixText};
use veil_proxy::routing::cache::{RouteCache, RouteCacheKey};
use veil_proxy::routing::cidr::{CidrMatcher, IpAddress, IpPattern};
use veil_proxy::routing::host::HostRouter;
use veil_proxy::routing::path::PathRouter;
use veil_proxy::routing::router::{sorted_unique, OptimizedRouter};

fn v4(a: u8, b: u8, c: u8, d: u8) -> IpAddress {
    IpAddress::V4(u32::from_be_bytes([a, b, c, d]))
}

fn range(addr: IpAddress, prefix_len: u8) -> IpPattern {
    IpPattern::Range { network: addr, prefix_len }
}

#[test]
fn test_host_router_exact_match() {
    let mut router = HostRouter::new();
    router.add_route(0, Some("example.com"));
    router.add_route(1, Some("api.example.com"));
    router.add_route(2, None);

    let candidates = router.get_candidates("example.com");
    assert!(candidates.contains(&0));
    assert!(candidates.contains(&2));
    assert!(!candidates.contains(&1));

    let candidates = router.get_candidates("api.example.com");
    assert!(candidates.contains(&1));
    assert!(candidates.contains(&2));
}

#[test]
fn test_host_router_wildcard() {
    let mut router = HostRouter::new();
    router.add_route(0, Some("*.example.com"));
    router.add_route(1, None);

    let candidates = router.get_candidates("api.example.com");
    assert!(candidates.contains(&0));
    assert!(candidates.contains(&1));

    let candidates = router.get_candidates("example.com");
    assert!(!candidates.contains(&0));
    assert!(candidates.contains(&1));
}

#[test]
fn test_path_router_basic() {
    let mut router = PathRouter::new();
    router.add_route(0, Some("/api"));
    router.add_route(1, Some("/api/*"));
    router.add_route(2, None);

    let candidates = router.get_candidates("/api");
    assert!(candidates.contains(&0) || candidates.contains(&1));
    assert!(candidates.contains(&2));

    let candidates = router.get_candidates("/api/v1/users");
    assert!(candidates.contains(&1));
    assert!(candidates.contains(&2));
}

#[test]
fn test_cidr_matcher_ipv4() {
    let mut matcher = CidrMatcher::new();
    matcher.add_route(0, Some(&[range(v4(192, 168, 0, 0), 16)]));
    matcher.add_route(1, Some(&[IpPattern::Exact(v4(10, 0, 0, 1))]));
    matcher.add_route(2, None);
    matcher.optimize();

    let candidates = matcher.get_candidates(v4(192, 168, 1, 100));
    assert!(candidates.contains(&0));
    assert!(candidates.contains(&2));

    let candidates = matcher.get_candidates(v4(10, 0, 0, 1));
    assert!(candidates.contains(&1));
    assert!(candidates.contains(&2));
}

#[test]
fn test_route_cache() {
    let mut cache = RouteCache::new(100);
    let key = RouteCacheKey {
        host: "example.com".to_string(),
        path: "/api".to_string(),
        method: "GET".to_string(),
        source_ip: "127.0.0.1".to_string(),
    };

    assert!(cache.get(&key).is_none());
    let (hits, misses) = cache.stats();
    assert_eq!(hits, 0);
    assert_eq!(misses, 1);

    cache.put(key.clone(), Some(5));

    assert_eq!(cache.get(&key), Some(Some(5)));
    let (hits, misses) = cache.stats();
    assert_eq!(hits, 1);
    assert_eq!(misses, 1);
}

#[test]
fn test_optimized_router() {
    let mut router = OptimizedRouter::new();
    router.add_route(0, Some("api.example.com"), Some("/v1/*"), None);
    router.add_route(1, Some("example.com"), Some("/"), None);
    router.add_route(2, None, None, None);
    router.finalize();

    let addr = v4(127, 0, 0, 1);

    let candidates = router.get_candidates("api.example.com", "/v1/users", addr);
    assert!(candidates.contains(&0));
    assert!(candidates.contains(&2));

    let candidates = router.get_candidates("example.com", "/", addr);
    assert!(candidates.contains(&1));
    assert!(candidates.contains(&2));
}

#[test]
fn test_host_candidates_exact_order() {
    let mut router = HostRouter::new();
    router.add_route(0, None);
    router.add_route(1, Some("*.example.com"));
    router.add_route(2, Some("API.Example.com"));
    router.add_route(3, Some("api.*"));
    router.add_route(4, Some("api.example.com"));
    router.add_route(5, Some("*.example.com"));
    assert_eq!(router.exact_count(), 1);
    assert_eq!(router.wildcard_count(), 2);
    assert_eq!(router.get_candidates("api.example.com"), vec![2, 4, 1, 5, 3, 0]);
    assert_eq!(router.get_candidates("API.EXAMPLE.COM:8443"), vec![2, 4, 1, 5, 3, 0]);
    assert_eq!(router.get_candidates("www.example.com"), vec![1, 5, 0]);
    assert_eq!(router.get_candidates("api.test"), vec![3, 0]);
    assert_eq!(router.get_candidates("api"), vec![0]);
    assert_eq!(router.get_candidates("apix.test"), vec![0]);
    assert_eq!(router.get_candidates("foreign.org"), vec![0]);
    assert_eq!(router.get_candidates(""), vec![0]);
}

#[test]
fn test_wildcard_host_takes_exactly_one_label() {
    let mut router = HostRouter::new();
    router.add_route(0, Some("*.example.com"));
    assert_eq!(router.get_candidates("foo.example.com"), vec![0]);
    assert_eq!(router.get_candidates("example.com"), Vec::<usize>::new());
    assert_eq!(router.get_candidates("bar.foo.example.com"), Vec::<usize>::new());
    assert_eq!(router.get_candidates(".example.com"), vec![0]);
    assert_eq!(router.get_candidates("fooexample.com"), Vec::<usize>::new());
    assert_eq!(router.get_candidates("FOO.EXAMPLE.COM:443"), vec![0]);
}

#[test]
fn test_wildcard_suffix_is_found_in_any_spelling() {
    let mut router = HostRouter::new();
    router.add_route(0, Some("*.Example.com"));
    router.add_route(1, Some("*.Example.com"));
    router.add_route(2, Some("*.example.com"));
    assert_eq!(router.wildcard_count(), 1);
    assert_eq!(router.get_candidates("a.example.com"), vec![0, 1, 2]);
}

#[test]
fn test_host_lower_casing_is_unicode() {
    let mut router = HostRouter::new();
    router.add_route(0, Some("B\u{dc}CHER.example"));
    assert_eq!(router.get_candidates("b\u{fc}cher.EXAMPLE"), vec![0]);
    assert_eq!(router.get_candidates("bucher.example"), Vec::<usize>::new());
}

#[test]
fn test_path_pattern_with_star() {
    let mut router = PathRouter::new();
    router.add_route(0, Some("/a/*"));
    assert_eq!(router.get_candidates("/a"), vec![0]);
    assert_eq!(router.get_candidates("/a/"), vec![0]);
    assert_eq!(router.get_candidates("/a/b/c"), vec![0]);
    assert_eq!(router.get_candidates("/ab"), Vec::<usize>::new());
    assert_eq!(router.get_candidates("/"), Vec::<usize>::new());
    assert_eq!(router.patterns_count(), 1);
}

#[test]
fn test_matches_pattern_exact() {
    fn m(pattern: &str, path: &str) -> bool {
        let p: Vec<char> = pattern.chars().collect();
        let q: Vec<char> = path.chars().collect();
        PathRouter::matches_pattern(&p, &q)
    }
    assert!(m("/a/*", "/a"));
    assert!(m("/a/*", "/a/"));
    assert!(m("/a/*", "/a/b/c"));
    assert!(!m("/a/*", "/ab"));
    assert!(m("/a/*", "/a/*"));
    assert!(m("/api", "/api"));
    assert!(m("/api", "/api/v1"));
    assert!(!m("/api", "/apis"));
    assert!(!m("/api", "/ap"));
    assert!(m("/", "/"));
    assert!(!m("/", "/x"));
    assert!(m("", "/x"));
    assert!(m("/*", "/x"));
    assert!(m("/*", ""));
    assert!(!m("/*", "x"));
    assert!(m("/\u{e9}/*", "/\u{e9}/z"));
    assert_eq!(PathRouter::convert_pattern("/api/*"), "/api/{*rest}");
    assert_eq!(PathRouter::convert_pattern("/api"), "/api");
    assert_eq!(PathRouter::convert_pattern("/*"), "/{*rest}");
    assert_eq!(PathRouter::convert_pattern("*"), "*");
}

#[test]
fn test_path_candidates_use_the_tree() {
    let mut router = PathRouter::new();
    router.add_route(0, Some("/users/{id}"));
    router.add_route(1, Some("/users/me"));
    router.add_route(2, Some("/users/{id}"));
    router.add_route(3, None);
    assert_eq!(router.get_candidates("/users/7"), vec![0, 1, 2, 3]);
    assert_eq!(router.get_candidates("/users/me"), vec![0, 1, 2, 3]);
    assert_eq!(router.get_candidates("/users/me/x"), vec![1, 3]);
    assert_eq!(router.get_candidates("/nothing"), vec![3]);
}

#[test]
fn test_path_candidates_order() {
    let mut router = PathRouter::new();
    router.add_route(5, None);
    router.add_route(0, Some("/api"));
    router.add_route(1, Some("/api/*"));
    router.add_route(2, Some("/api/v1"));
    let candidates = router.get_candidates("/api/v1");
    assert_eq!(candidates, vec![1, 2, 0, 5]);
    let candidates = router.get_candidates("/api");
    assert_eq!(candidates, vec![0, 1, 5]);
}

#[test]
fn test_cidr_ten_slash_eight() {
    let mut matcher = CidrMatcher::new();
    matcher.add_route(0, Some(&[range(v4(10, 0, 0, 0), 8)]));
    assert!(matcher.has_conditions());
    assert_eq!(matcher.get_candidates(v4(10, 255, 255, 255)), vec![0]);
    assert_eq!(matcher.get_candidates(v4(10, 0, 0, 0)), vec![0]);
    assert_eq!(matcher.get_candidates(v4(11, 0, 0, 0)), Vec::<usize>::new());
    assert_eq!(matcher.get_candidates(v4(9, 255, 255, 255)), Vec::<usize>::new());
    assert_eq!(matcher.get_candidates(IpAddress::V6(0x0a00_0000)), Vec::<usize>::new());
}

#[test]
fn test_cidr_prefix_lengths() {
    let mut matcher = CidrMatcher::new();
    assert!(!matcher.has_conditions());
    matcher.add_route(0, Some(&[range(v4(1, 2, 3, 4), 0)]));
    matcher.add_route(1, Some(&[range(v4(1, 2, 3, 4), 32)]));
    matcher.add_route(2, Some(&[range(v4(1, 2, 3, 4), 31)]));
    matcher.add_route(3, Some(&[range(v4(1, 2, 3, 4), 33)]));
    matcher.add_route(4, Some(&[range(IpAddress::V6(1 << 127), 1)]));
    matcher.add_route(5, Some(&[range(IpAddress::V6(7), 128)]));
    matcher.add_route(6, Some(&[range(IpAddress::V6(7), 129)]));
    matcher.add_route(7, None);
    assert_eq!(matcher.get_candidates(v4(1, 2, 3, 4)), vec![0, 1, 2, 7]);
    assert_eq!(matcher.get_candidates(v4(1, 2, 3, 5)), vec![0, 2, 7]);
    assert_eq!(matcher.get_candidates(v4(1, 2, 3, 6)), vec![0, 7]);
    assert_eq!(matcher.get_candidates(v4(200, 0, 0, 1)), vec![0, 7]);
    assert_eq!(matcher.get_candidates(IpAddress::V6(u128::MAX)), vec![4, 7]);
    assert_eq!(matcher.get_candidates(IpAddress::V6(7)), vec![5, 7]);
    matcher.optimize();
    assert_eq!(matcher.get_candidates(v4(1, 2, 3, 4)), vec![1, 2, 0, 7]);
    assert_eq!(matcher.get_candidates(IpAddress::V6(7)), vec![5, 7]);
}

#[test]
fn test_cidr_routes_are_listed_once() {
    let mut matcher = CidrMatcher::new();
    let patterns = [
        range(v4(10, 0, 0, 0), 8),
        range(v4(10, 0, 0, 0), 8),
        range(v4(10, 1, 0, 0), 16),
        IpPattern::Exact(v4(10, 1, 1, 1)),
        IpPattern::Exact(v4(10, 1, 1, 1)),
    ];
    matcher.add_route(3, Some(&patterns));
    matcher.add_route(4, Some(&[range(v4(10, 0, 0, 0), 8)]));
    assert_eq!(matcher.get_candidates(v4(10, 1, 1, 1)), vec![3, 3, 4]);
    assert_eq!(matcher.get_candidates(v4(10, 1, 2, 3)), vec![3, 4]);
    assert_eq!(matcher.get_candidates(v4(10, 2, 2, 3)), vec![3, 4]);
    matcher.add_cidr(9, IpPattern::Exact(IpAddress::V6(1)));
    assert_eq!(matcher.get_candidates(IpAddress::V6(1)), vec![9]);
}

#[test]
fn test_cache_is_least_recently_used() {
    let key = |n: &str| RouteCacheKey::new(b"h", n.as_bytes(), b"GET", "10.0.0.1");
    let mut cache = RouteCache::new(2);
    cache.put(key("/a"), Some(1));
    cache.put(key("/b"), None);
    assert_eq!(cache.get(&key("/a")), Some(Some(1)));
    cache.put(key("/c"), Some(3));
    assert_eq!(cache.get(&key("/b")), None);
    assert_eq!(cache.get(&key("/a")), Some(Some(1)));
    assert_eq!(cache.get(&key("/c")), Some(Some(3)));
    cache.put(key("/c"), Some(4));
    assert_eq!(cache.get(&key("/c")), Some(Some(4)));
    assert_eq!(cache.get(&key("/a")), Some(Some(1)));
    assert_eq!(cache.stats(), (5, 1));
    cache.clear();
    assert_eq!(cache.get(&key("/a")), None);
    assert_eq!(cache.stats(), (5, 2));
}

#[test]
fn test_cache_of_capacity_zero_holds_a_thousand() {
    let key = |n: usize| RouteCacheKey::new(b"h", format!("/{}", n).as_bytes(), b"GET", "::1");
    let mut cache = RouteCache::new(0);
    for n in 0..1001 {
        cache.put(key(n), Some(n));
    }
    assert_eq!(cache.get(&key(0)), None);
    assert_eq!(cache.get(&key(1)), Some(Some(1)));
    assert_eq!(cache.get(&key(1000)), Some(Some(1000)));
}

#[test]
fn test_cache_key_from_bytes() {
    let key = RouteCacheKey::new(b"example.com", b"/x", b"GET", "10.0.0.1");
    assert_eq!(key.host, "example.com");
    assert_eq!(key.path, "/x");
    assert_eq!(key.method, "GET");
    assert_eq!(key.source_ip, "10.0.0.1");
    let key = RouteCacheKey::new(&[0x61, 0xff, 0x62], b"", b"", "");
    assert_eq!(key.host, "a\u{fffd}b");
    assert_eq!(key, key.clone());
}

#[test]
fn test_wildcard_host_routing() {
    let mut router = OptimizedRouter::new();
    router.add_route(0, Some("api.example.com"), Some("/v1/*"), None);
    router.add_route(1, Some("*.example.com"), None, None);
    router.add_route(2, None, None, None);
    router.finalize();
    let addr = v4(203, 0, 113, 9);
    assert_eq!(router.get_candidates("api.example.com", "/v1/users", addr).first(), Some(&0));
    assert_eq!(router.get_candidates("api.example.com", "/v1/users", addr), vec![0, 1, 2]);
    assert_eq!(router.get_candidates("other.example.com", "/x", addr).first(), Some(&1));
    assert_eq!(router.get_candidates("foreign.org", "/x", addr), vec![2]);
    assert_eq!(router.get_candidates("api.example.com", "/v2", addr), vec![1, 2]);
}

#[test]
fn test_candidates_equal_the_linear_scan() {
    let hosts = [None, Some("example.com"), Some("*.example.com"), Some("api.*")];
    let paths = [None, Some("/"), Some("/api/*"), Some("/api/v1")];
    let sources: [Option<Vec<IpPattern>>; 3] = [
        None,
        Some(vec![range(v4(10, 0, 0, 0), 8)]),
        Some(vec![IpPattern::Exact(v4(192, 168, 0, 1)), range(v4(172, 16, 0, 0), 12)]),
    ];
    let mut router = OptimizedRouter::with_cache_capacity(16);
    let mut routes = Vec::new();
    let mut idx = 0;
    for h in hosts {
        for p in paths {
            for s in &sources {
                router.add_route(idx, h, p, s.as_deref());
                routes.push((h, p, s.clone()));
                idx += 1;
            }
        }
    }
    router.finalize();
    assert_eq!(router.route_count, routes.len());
    let request_hosts = ["example.com", "a.example.com", "api.test", "b.a.example.com", "x"];
    let request_paths = ["/", "/api", "/api/v1", "/api/v1/x", "/other"];
    let request_sources = [v4(10, 1, 2, 3), v4(192, 168, 0, 1), v4(172, 31, 0, 1), v4(8, 8, 8, 8)];
    for host in request_hosts {
        for path in request_paths {
            for source in request_sources {
                let mut expected = Vec::new();
                for (i, (h, p, s)) in routes.iter().enumerate() {
                    let mut single = OptimizedRouter::new();
                    single.add_route(0, *h, *p, None);
                    let host_and_path = !single.get_candidates(host, path, source).is_empty();
                    let source_ok = match s {
                        None => true,
                        Some(patterns) => {
                            let mut m = CidrMatcher::new();
                            m.add_route(0, Some(patterns));
                            !m.get_candidates(source).is_empty()
                        }
                    };
                    if host_and_path && source_ok {
                        expected.push(i);
                    }
                }
                assert_eq!(
                    router.get_candidates(host, path, source),
                    expected,
                    "{} {} {:?}",
                    host,
                    path,
                    source
                );
            }
        }
    }
}

#[test]
fn test_router_without_source_conditions_takes_added_routes_only() {
    let mut router = OptimizedRouter::new();
    router.host_router.add_route(9, None);
    router.path_router.add_route(9, None);
    router.add_route(1, None, None, None);
    assert_eq!(router.route_count, 2);
    assert_eq!(router.get_candidates("h", "/", v4(1, 1, 1, 1)), vec![1]);
}

#[test]
fn test_router_cache() {
    let mut router = OptimizedRouter::default();
    let key = RouteCacheKey::new(b"h", b"/", b"GET", "1.1.1.1");
    assert_eq!(router.try_cache(&key), None);
    router.cache_result(key.clone(), None);
    assert_eq!(router.try_cache(&key), Some(None));
    router.cache_result(key.clone(), Some(3));
    assert_eq!(router.try_cache(&key), Some(Some(3)));
    assert_eq!(router.cache_stats(), (2, 1));
    router.clear_cache();
    assert_eq!(router.try_cache(&key), None);
    assert_eq!(router.cache_stats(), (2, 2));
}

#[test]
fn test_sorted_unique() {
    assert_eq!(sorted_unique(&vec![3, 1, 3, 2, 1, 0]), vec![0, 1, 2, 3]);
    assert_eq!(sorted_unique(&vec![]), Vec::<usize>::new());
    assert_eq!(sorted_unique(&vec![usize::MAX, 0]), vec![0, usize::MAX]);
}

#[test]
fn test_split_pattern() {
    assert_eq!(split_pattern(b"10.0.0.0/8"), (8, PrefixText::Length(8)));
    assert_eq!(split_pattern(b"10.0.0.1"), (8, PrefixText::Absent));
    assert_eq!(split_pattern(b"::1/128"), (3, PrefixText::Length(128)));
    assert_eq!(split_pattern(b"::1/+7"), (3, PrefixText::Length(7)));
    assert_eq!(split_pattern(b"::1/255"), (3, PrefixText::Length(255)));
    assert_eq!(split_pattern(b"::1/256"), (3, PrefixText::Invalid));
    assert_eq!(split_pattern(b"::1/"), (3, PrefixText::Invalid));
    assert_eq!(split_pattern(b"1.2.3.4/8/9"), (7, PrefixText::Invalid));
    assert_eq!(split_pattern(b"/8"), (0, PrefixText::Length(8)));
    assert_eq!(split_pattern(b""), (0, PrefixText::Absent));
    let address = IpAddress::V4(0x0a00_0000);
    assert_eq!(pattern_of(address, PrefixText::Absent), Some(IpPattern::Exact(address)));
    assert_eq!(
        pattern_of(address, PrefixText::Length(8)),
        Some(IpPattern::Range { network: address, prefix_len: 8 })
    );
    assert_eq!(pattern_of(address, PrefixText::Invalid), None);
}

#[test]
fn test_pattern_with_many_parameters_is_left_to_the_list() {
    let names: Vec<String> = (b'a'..=b'z').map(|c| format!("{{{}{}}}", c as char, c as char)).collect();
    assert_eq!(names.len(), 26);
    let many = format!("/{}", names.join("/"));
    let fewer = format!("/{}", names[..25].join("/"));
    assert_eq!(veil_proxy::routing::path::count_braces(&many), 26);
    assert_eq!(veil_proxy::routing::path::count_braces(&fewer), 25);
    assert_eq!(veil_proxy::routing::path::count_braces("/plain/*"), 0);
    let mut router = PathRouter::new();
    router.add_route(0, Some(&many));
    router.add_route(1, Some(&fewer));
    router.add_route(2, Some("/x/{id}"));
    assert_eq!(router.patterns_count(), 3);
    assert_eq!(router.get_candidates(&many), vec![0, 1]);
    assert_eq!(router.get_candidates(&format!("{many}/below")), vec![0, 1]);
    assert_eq!(router.get_candidates(&fewer), vec![1]);
    assert_eq!(router.get_candidates("/x/7"), vec![2]);
    let values: Vec<String> = (0..25).map(|i| i.to_string()).collect();
    assert_eq!(router.get_candidates(&format!("/{}", values.join("/"))), vec![1]);
    let mut whole = OptimizedRouter::new();
    whole.add_route(0, None, Some(&many), None);
    whole.finalize();
    assert_eq!(whole.get_candidates("h", &many, v4(1, 2, 3, 4)), vec![0]);
}

#[test]
fn test_wildcard_patterns_are_filed_in_lower_case() {
    let mut router = HostRouter::new();
    router.add_route(0, Some("*.Example.COM"));
    router.add_route(1, Some("*.example.com"));
    router.add_route(2, Some("*.EXAMPLE.com"));
    router.add_route(3, Some("Api.*"));
    router.add_route(4, Some("api.*"));
    assert_eq!(router.wildcard_count(), 2);
    assert_eq!(router.get_candidates("Foo.Example.Com:8443"), vec![0, 1, 2]);
    assert_eq!(router.get_candidates("API.internal"), vec![3, 4]);
    assert_eq!(router.get_candidates("example.com"), Vec::<usize>::new());
}
