//! The router: the three indices and the cache together.
//!
//! A route is a candidate for a request when every index takes the request
//! for it. The candidates come out in the order in which the operator
//! declared the routes, each route once, so that the first candidate that
//! passes the remaining checks is the route to use.

use vstd::prelude::*;
use crate::routing::cache::{after_put, cached, after_get, CacheModel, RouteCache, RouteCacheKey};
use crate::routing::cidr::{lemma_cidr_candidates, CidrMatcher, CidrTable, IpAddress, IpPattern};
use crate::routing::host::{lemma_add_below, lemma_below_monotone, lemma_candidates_below, HostRouter, HostTable};
use crate::routing::path::{lemma_path_candidates, PathRouter, PathTable};

verus! {

/// Capacity of the cache of a router made with `new`.
pub const DEFAULT_ROUTE_CACHE_CAPACITY: usize = 10000;

/// The indices and the cache of one configuration.
#[derive(Debug)]
pub struct OptimizedRouter {
    /// Index by host.
    pub host_router: HostRouter,
    /// Index by path.
    pub path_router: PathRouter,
    /// Index by source address.
    pub cidr_matcher: CidrMatcher,
    /// Cache of answers.
    pub cache: RouteCache,
    /// One more than the highest route index added.
    pub route_count: usize,
}

/// Mathematical value of a router.
pub struct RouterModel {
    pub host: HostTable,
    pub path: PathTable,
    pub cidr: CidrTable,
    pub cache: CacheModel,
    pub route_count: nat,
}

impl View for OptimizedRouter {
    type V = RouterModel;

    open spec fn view(&self) -> RouterModel {
        RouterModel {
            host: self.host_router@,
            path: self.path_router@,
            cidr: self.cidr_matcher@,
            cache: self.cache@,
            route_count: self.route_count as nat,
        }
    }
}

/// Whether a sequence of route indices ascends strictly.
pub open spec fn is_ascending(s: Seq<usize>) -> bool {
    forall|i: int, j: int| 0 <= i < j < s.len() ==> s[i] < s[j]
}

impl RouterModel {
    /// Whether the route `route_idx` is a candidate for a request: the host
    /// index, the path index and the source index each take the request
    /// for it. While no route has a source condition, the source index
    /// takes every address for every route added.
    pub open spec fn takes(self, route_idx: usize, host: Seq<char>, path: Seq<char>, ip: IpAddress) -> bool {
        &&& self.host.candidates(host).contains(route_idx)
        &&& self.path.takes(route_idx, path)
        &&& if self.cidr.has_conditions() {
            self.cidr.takes(route_idx, ip)
        } else {
            route_idx < self.route_count
        }
    }

    /// The linear scan: the routes below `n`, in ascending order, that are
    /// candidates for a request.
    pub open spec fn scan(self, host: Seq<char>, path: Seq<char>, ip: IpAddress, n: nat) -> Seq<usize>
        decreases n,
    {
        if n == 0 {
            Seq::empty()
        } else {
            let before = self.scan(host, path, ip, (n - 1) as nat);
            if n - 1 <= usize::MAX && self.takes((n - 1) as usize, host, path, ip) {
                before.push((n - 1) as usize)
            } else {
                before
            }
        }
    }

    /// Whether the router is well formed: every route of the host index is
    /// below the route count.
    pub open spec fn wf(self) -> bool {
        self.host.below(self.route_count)
    }
}

/// The scan up to `n` ascends strictly and holds exactly the candidates
/// below `n`.
pub proof fn lemma_scan(m: RouterModel, host: Seq<char>, path: Seq<char>, ip: IpAddress, n: nat)
    ensures
        is_ascending(m.scan(host, path, ip, n)),
        forall|x: usize|
            #![trigger m.scan(host, path, ip, n).contains(x)]
            #![trigger m.takes(x, host, path, ip)]
            m.scan(host, path, ip, n).contains(x) <==> (x < n && m.takes(x, host, path, ip)),
    decreases n,
{
    if n > 0 {
        lemma_scan(m, host, path, ip, (n - 1) as nat);
        let before = m.scan(host, path, ip, (n - 1) as nat);
        let after = m.scan(host, path, ip, n);
        let grows = n - 1 <= usize::MAX && m.takes((n - 1) as usize, host, path, ip);
        assert(after == if grows {
            before.push((n - 1) as usize)
        } else {
            before
        });
        assert forall|i: int, j: int| 0 <= i < j < after.len() implies after[i] < after[j] by {
            if j < before.len() {
                assert(after[i] == before[i] && after[j] == before[j]);
            } else {
                assert(grows);
                assert(after[j] == (n - 1) as usize);
                assert(after[i] == before[i]);
                let y = before[i];
                assert(before.contains(y));
                assert(y < n - 1);
            }
        }
        assert forall|x: usize| after.contains(x) <==> (x < n && m.takes(x, host, path, ip)) by {
            if after.contains(x) {
                let w = choose|w: int| 0 <= w < after.len() && after[w] == x;
                if w < before.len() {
                    assert(before[w] == x);
                    assert(before.contains(x));
                    assert(x < n - 1 && m.takes(x, host, path, ip));
                } else {
                    assert(grows);
                    assert(x == (n - 1) as usize);
                }
            }
            if x < n && m.takes(x, host, path, ip) {
                if x < n - 1 {
                    assert(before.contains(x));
                    let w = choose|w: int| 0 <= w < before.len() && before[w] == x;
                    assert(after[w] == x);
                } else {
                    assert(x == (n - 1) as usize);
                    assert(grows);
                    assert(after[before.len() as int] == x);
                }
            }
        }
    }
}

/// Two strictly ascending sequences with the same members are equal.
pub proof fn lemma_ascending_unique(a: Seq<usize>, b: Seq<usize>)
    requires
        is_ascending(a),
        is_ascending(b),
        forall|x: usize| a.contains(x) <==> b.contains(x),
    ensures
        a == b,
    decreases a.len(),
{
    if a.len() == 0 {
        if b.len() > 0 {
            assert(b.contains(b[0]));
        }
        assert(a =~= b);
    } else {
        assert(a.contains(a.last()));
        assert(b.contains(a.last()));
        assert(b.len() > 0);
        assert(b.contains(b.last()));
        assert(a.contains(b.last()));
        let wa = choose|w: int| 0 <= w < a.len() && a[w] == b.last();
        let wb = choose|w: int| 0 <= w < b.len() && b[w] == a.last();
        assert(a.last() == b.last()) by {
            if wa < a.len() - 1 {
                assert(a[wa] < a[a.len() - 1]);
            }
            if wb < b.len() - 1 {
                assert(b[wb] < b[b.len() - 1]);
            }
        }
        let a1 = a.drop_last();
        let b1 = b.drop_last();
        assert forall|x: usize| a1.contains(x) <==> b1.contains(x) by {
            if a1.contains(x) {
                let w = choose|w: int| 0 <= w < a1.len() && a1[w] == x;
                assert(a[w] == x);
                assert(a[w] < a[a.len() - 1]);
                assert(a.contains(x));
                assert(b.contains(x));
                let v = choose|v: int| 0 <= v < b.len() && b[v] == x;
                assert(v < b.len() - 1);
                assert(b1[v] == x);
            }
            if b1.contains(x) {
                let w = choose|w: int| 0 <= w < b1.len() && b1[w] == x;
                assert(b[w] == x);
                assert(b[w] < b[b.len() - 1]);
                assert(b.contains(x));
                assert(a.contains(x));
                let v = choose|v: int| 0 <= v < a.len() && a[v] == x;
                assert(v < a.len() - 1);
                assert(a1[v] == x);
            }
        }
        assert(is_ascending(a1)) by {
            assert forall|i: int, j: int| 0 <= i < j < a1.len() implies a1[i] < a1[j] by {
                assert(a1[i] == a[i] && a1[j] == a[j]);
            }
        }
        assert(is_ascending(b1)) by {
            assert forall|i: int, j: int| 0 <= i < j < b1.len() implies b1[i] < b1[j] by {
                assert(b1[i] == b[i] && b1[j] == b[j]);
            }
        }
        lemma_ascending_unique(a1, b1);
        assert(a =~= a1.push(a.last()));
        assert(b =~= b1.push(b.last()));
    }
}

/// The routes of a list in strictly ascending order, each once.
pub fn sorted_unique(list: &Vec<usize>) -> (r: Vec<usize>)
    ensures
        is_ascending(r@),
        forall|x: usize| r@.contains(x) <==> list@.contains(x),
{
    let mut out: Vec<usize> = Vec::new();
    let mut i: usize = 0;
    while i < list.len()
        invariant
            i <= list.len(),
            is_ascending(out@),
            forall|x: usize| out@.contains(x) <==> list@.subrange(0, i as int).contains(x),
        decreases list.len() - i,
    {
        let x = list[i];
        let ghost before = out@;
        let ghost seen = list@.subrange(0, i as int);
        let ghost next = list@.subrange(0, i + 1);
        let mut p: usize = 0;
        while p < out.len() && out[p] < x
            invariant
                p <= out.len(),
                out@ == before,
                forall|j: int| 0 <= j < p ==> before[j] < x,
            decreases out.len() - p,
        {
            p += 1;
        }
        if p < out.len() && out[p] == x {
            assert forall|y: usize| out@.contains(y) <==> next.contains(y) by {
                if out@.contains(y) {
                    assert(seen.contains(y));
                    let w = choose|w: int| 0 <= w < seen.len() && seen[w] == y;
                    assert(next[w] == y);
                }
                if next.contains(y) {
                    let w = choose|w: int| 0 <= w < next.len() && next[w] == y;
                    if w < seen.len() {
                        assert(seen[w] == y);
                        assert(seen.contains(y));
                    } else {
                        assert(out@[p as int] == y);
                    }
                }
            }
        } else {
            out.insert(p, x);
            assert forall|a: int, b: int| 0 <= a < b < out@.len() implies out@[a] < out@[b] by {
                if b < p {
                    assert(out@[a] == before[a] && out@[b] == before[b]);
                } else if b == p {
                    assert(out@[a] == before[a]);
                } else if a < p {
                    assert(out@[a] == before[a] && out@[b] == before[b - 1]);
                    if a < b - 1 {
                        assert(before[a] < before[b - 1]);
                    }
                } else if a == p {
                    assert(out@[b] == before[b - 1]);
                    if p < b - 1 {
                        assert(before[p as int] < before[b - 1]);
                    }
                } else {
                    assert(out@[a] == before[a - 1] && out@[b] == before[b - 1]);
                }
            }
            assert forall|y: usize| out@.contains(y) <==> next.contains(y) by {
                if out@.contains(y) {
                    let w = choose|w: int| 0 <= w < out@.len() && out@[w] == y;
                    if w == p {
                        assert(next[i as int] == y);
                    } else {
                        if w < p {
                            assert(before[w] == y);
                        } else {
                            assert(before[w - 1] == y);
                        }
                        assert(before.contains(y));
                        assert(seen.contains(y));
                        let v = choose|v: int| 0 <= v < seen.len() && seen[v] == y;
                        assert(next[v] == y);
                    }
                }
                if next.contains(y) {
                    let w = choose|w: int| 0 <= w < next.len() && next[w] == y;
                    if w < seen.len() {
                        assert(seen[w] == y);
                        assert(seen.contains(y));
                        assert(before.contains(y));
                        let v = choose|v: int| 0 <= v < before.len() && before[v] == y;
                        if v < p {
                            assert(out@[v] == y);
                        } else {
                            assert(out@[v + 1] == y);
                        }
                    } else {
                        assert(out@[p as int] == y);
                    }
                }
            }
        }
        i += 1;
    }
    assert(list@.subrange(0, list.len() as int) =~= list@);
    out
}

fn contains_route(list: &Vec<usize>, route_idx: usize) -> (r: bool)
    ensures
        r == list@.contains(route_idx),
{
    let mut i: usize = 0;
    while i < list.len()
        invariant
            i <= list.len(),
            forall|j: int| 0 <= j < i ==> list@[j] != route_idx,
        decreases list.len() - i,
    {
        if list[i] == route_idx {
            return true;
        }
        i += 1;
    }
    false
}

impl OptimizedRouter {
    /// A router without routes, with a cache for 10,000 answers.
    pub fn new() -> (r: Self)
        ensures
            r@.route_count == 0,
            r@.wf(),
            r@.cache.entries == Seq::<(crate::routing::cache::KeyModel, Option<usize>)>::empty(),
            r@.cache.capacity == 10000,
            !r@.cidr.has_conditions(),
    {
        Self::with_cache_capacity(DEFAULT_ROUTE_CACHE_CAPACITY)
    }

    /// A router without routes, with a cache for `cache_capacity` answers
    /// (for 1000 where that is zero).
    pub fn with_cache_capacity(cache_capacity: usize) -> (r: Self)
        ensures
            r@.route_count == 0,
            r@.wf(),
            r@.host == (HostTable { exact: Seq::empty(), wildcard: Seq::empty(), any_host: Seq::empty() }),
            r@.path == (PathTable {
                attempts: Seq::empty(),
                values: Map::empty(),
                any_path: Seq::empty(),
                patterns: Seq::empty(),
            }),
            r@.cidr == (CidrTable {
                v4_ranges: Seq::empty(),
                v6_ranges: Seq::empty(),
                exact_ips: Seq::empty(),
                any_ip: Seq::empty(),
            }),
            r@.cache.entries == Seq::<(crate::routing::cache::KeyModel, Option<usize>)>::empty(),
            r@.cache.capacity == if cache_capacity == 0 {
                1000
            } else {
                cache_capacity as nat
            },
            !r@.cidr.has_conditions(),
    {
        Self {
            host_router: HostRouter::new(),
            path_router: PathRouter::new(),
            cidr_matcher: CidrMatcher::new(),
            cache: RouteCache::new(cache_capacity),
            route_count: 0,
        }
    }

    /// Adds the route `route_idx` with its host, path and source
    /// conditions; `None` stands for no condition.
    pub fn add_route(
        &mut self,
        route_idx: usize,
        host: Option<&str>,
        path: Option<&str>,
        source_ip: Option<&[IpPattern]>,
    )
        requires
            route_idx < usize::MAX,
        ensures
            final(self)@.host == old(self)@.host.add(
                route_idx,
                match host {
                    Some(h) => Some(h@),
                    None => None,
                },
            ),
            final(self)@.path == old(self)@.path.add(
                route_idx,
                match path {
                    Some(p) => Some(p@),
                    None => None,
                },
            ),
            final(self)@.cidr == old(self)@.cidr.add(
                route_idx,
                match source_ip {
                    Some(s) => Some(s@),
                    None => None,
                },
            ),
            final(self)@.cache == old(self)@.cache,
            final(self)@.route_count == if old(self)@.route_count > route_idx {
                old(self)@.route_count
            } else {
                (route_idx + 1) as nat
            },
            old(self)@.wf() ==> final(self)@.wf(),
    {
        self.host_router.add_route(route_idx, host);
        self.path_router.add_route(route_idx, path);
        self.cidr_matcher.add_route(route_idx, source_ip);
        if self.route_count < route_idx + 1 {
            self.route_count = route_idx + 1;
        }
        proof {
            if old(self)@.wf() {
                let condition = match host {
                    Some(h) => Some(h@),
                    None => None,
                };
                lemma_below_monotone(old(self)@.host, old(self)@.route_count, self@.route_count);
                lemma_add_below(old(self)@.host, route_idx, condition, self@.route_count);
            }
        }
    }

    /// Ends the construction: the source index is sorted, most specific
    /// ranges first.
    pub fn finalize(&mut self)
        ensures
            final(self)@.host == old(self)@.host,
            final(self)@.path == old(self)@.path,
            final(self)@.cache == old(self)@.cache,
            final(self)@.route_count == old(self)@.route_count,
            final(self)@.cidr == (CidrTable {
                v4_ranges: crate::routing::cidr::sorted_ranges(old(self)@.cidr.v4_ranges),
                v6_ranges: crate::routing::cidr::sorted_ranges(old(self)@.cidr.v6_ranges),
                ..old(self)@.cidr
            }),
    {
        self.cidr_matcher.optimize();
    }

    /// The candidate routes for a request, in ascending order, each once.
    /// A route is a candidate exactly when every index takes the request
    /// for it. In a well-formed router this is the linear scan over the
    /// routes.
    pub fn get_candidates(&self, host: &str, path: &str, source_ip: IpAddress) -> (r: Vec<usize>)
        ensures
            is_ascending(r@),
            forall|x: usize|
                #![trigger r@.contains(x)]
                #![trigger self@.takes(x, host@, path@, source_ip)]
                r@.contains(x) <==> self@.takes(x, host@, path@, source_ip),
            self@.wf() ==> r@ == self@.scan(host@, path@, source_ip, self@.route_count),
    {
        let host_candidates = self.host_router.get_candidates(host);
        let path_candidates = self.path_router.get_candidates(path);
        let with_source = self.cidr_matcher.has_conditions();
        let ip_candidates = if with_source {
            self.cidr_matcher.get_candidates(source_ip)
        } else {
            Vec::new()
        };
        let mut matching: Vec<usize> = Vec::new();
        let mut i: usize = 0;
        while i < host_candidates.len()
            invariant
                i <= host_candidates.len(),
                host_candidates@ == self@.host.candidates(host@),
                path_candidates@ == self@.path.candidates(path@),
                with_source == self@.cidr.has_conditions(),
                with_source ==> ip_candidates@ == self@.cidr.candidates(source_ip),
                forall|x: usize|
                    matching@.contains(x) <==> (host_candidates@.subrange(0, i as int).contains(x)
                        && self@.takes(x, host@, path@, source_ip)),
            decreases host_candidates.len() - i,
        {
            let idx = host_candidates[i];
            let ghost seen = host_candidates@.subrange(0, i as int);
            let ghost next = host_candidates@.subrange(0, i + 1);
            let ghost before = matching@;
            proof {
                lemma_path_candidates(self@.path, path@, idx);
                lemma_cidr_candidates(self@.cidr, source_ip, idx);
                assert(host_candidates@.contains(idx));
            }
            let keep = contains_route(&path_candidates, idx) && (if with_source {
                contains_route(&ip_candidates, idx)
            } else {
                idx < self.route_count
            });
            assert(keep == self@.takes(idx, host@, path@, source_ip));
            if keep {
                matching.push(idx);
            }
            assert forall|x: usize|
                matching@.contains(x) <==> (next.contains(x) && self@.takes(x, host@, path@, source_ip)) by {
                if matching@.contains(x) {
                    let w = choose|w: int| 0 <= w < matching@.len() && matching@[w] == x;
                    if w < before.len() {
                        assert(before[w] == x);
                        assert(before.contains(x));
                        let v = choose|v: int| 0 <= v < seen.len() && seen[v] == x;
                        assert(next[v] == x);
                    } else {
                        assert(next[i as int] == x);
                    }
                }
                if next.contains(x) && self@.takes(x, host@, path@, source_ip) {
                    let v = choose|v: int| 0 <= v < next.len() && next[v] == x;
                    if v < seen.len() {
                        assert(seen[v] == x);
                        assert(seen.contains(x));
                        assert(before.contains(x));
                        let w = choose|w: int| 0 <= w < before.len() && before[w] == x;
                        assert(matching@[w] == x);
                    } else {
                        assert(matching@[before.len() as int] == x);
                    }
                }
            }
            i += 1;
        }
        assert(host_candidates@.subrange(0, host_candidates.len() as int) =~= host_candidates@);
        let r = sorted_unique(&matching);
        proof {
            if self@.wf() {
                lemma_scan(self@, host@, path@, source_ip, self@.route_count);
                let scan = self@.scan(host@, path@, source_ip, self@.route_count);
                assert forall|x: usize| r@.contains(x) <==> scan.contains(x) by {
                    if r@.contains(x) {
                        assert(matching@.contains(x));
                        assert(self@.takes(x, host@, path@, source_ip));
                        lemma_candidates_below(self@.host, host@, self@.route_count, x);
                        assert(scan.contains(x));
                    }
                    if scan.contains(x) {
                        assert(self@.takes(x, host@, path@, source_ip));
                        assert(host_candidates@.contains(x));
                        assert(matching@.contains(x));
                        assert(r@.contains(x));
                    }
                }
                lemma_ascending_unique(r@, scan);
            }
        }
        r
    }

    /// Looks a cached answer up.
    pub fn try_cache(&mut self, key: &RouteCacheKey) -> (r: Option<Option<usize>>)
        ensures
            r == cached(old(self)@.cache.entries, key@),
            final(self)@.cache.entries == after_get(old(self)@.cache.entries, key@),
            final(self)@.cache.capacity == old(self)@.cache.capacity,
            final(self)@.host == old(self)@.host,
            final(self)@.path == old(self)@.path,
            final(self)@.cidr == old(self)@.cidr,
            final(self)@.route_count == old(self)@.route_count,
    {
        self.cache.get(key)
    }

    /// Stores an answer in the cache.
    pub fn cache_result(&mut self, key: RouteCacheKey, route_idx: Option<usize>)
        ensures
            final(self)@ == (RouterModel {
                cache: CacheModel {
                    entries: after_put(
                        old(self)@.cache.entries,
                        old(self)@.cache.capacity,
                        key@,
                        route_idx,
                    ),
                    ..old(self)@.cache
                },
                ..old(self)@
            }),
    {
        self.cache.put(key, route_idx);
    }

    /// Empties the cache, as every change of configuration must.
    pub fn clear_cache(&mut self)
        ensures
            final(self)@ == (RouterModel {
                cache: CacheModel { entries: Seq::empty(), ..old(self)@.cache },
                ..old(self)@
            }),
    {
        self.cache.clear();
    }

    /// The numbers of cache hits and misses so far.
    pub fn cache_stats(&self) -> (r: (u64, u64))
        ensures
            r == (self@.cache.hits, self@.cache.misses),
    {
        self.cache.stats()
    }
}

impl Default for OptimizedRouter {
    fn default() -> (r: Self)
        ensures
            r@.route_count == 0,
            r@.wf(),
    {
        Self::new()
    }
}

} // verus!
