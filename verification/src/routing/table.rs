//! The routing table: the routes of a configuration with their conditions,
//! and the lookup of the route for a request.
//!
//! A route matches a request when every condition that it states holds;
//! a route without conditions matches every request. Among the routes that
//! match, the one that the operator declared first wins.

use vstd::prelude::*;
use vstd::utf8::encode_utf8;
use crate::routing::cache::{after_get, after_put, cached, KeyModel, RouteCacheKey};
use crate::routing::cidr::{CidrTable, IpAddress, IpPattern};
use crate::routing::host::HostTable;
use crate::routing::path::PathTable;
use crate::routing::router::{is_ascending, OptimizedRouter, RouterModel};
use crate::text::{bytes_eq_ignore_case, eq_ignore_case, str_eq, texts};
use crate::wasm::types::pairs_view;

verus! {

/// The conditions of a route.
#[derive(Debug, Clone)]
pub struct RouteCondition {
    /// Host pattern.
    pub host: Option<String>,
    /// Path pattern.
    pub path: Option<String>,
    /// Methods that the route takes; empty for all.
    pub methods: Vec<String>,
    /// Headers that the request must carry, by name and value.
    pub headers: Vec<(String, String)>,
    /// Query parameters that the request must carry, by name and value.
    pub query: Vec<(String, String)>,
    /// Source addresses that the route takes.
    pub source_ip: Option<Vec<IpPattern>>,
}

/// What the router looks at in a request.
#[derive(Debug, Clone)]
pub struct RequestFingerprint {
    /// Host.
    pub host: String,
    /// Path.
    pub path: String,
    /// Method.
    pub method: String,
    /// Headers.
    pub headers: Vec<(String, String)>,
    /// Query parameters.
    pub query: Vec<(String, String)>,
    /// Source address.
    pub source_ip: IpAddress,
    /// Source address as text, for the cache key.
    pub source_ip_text: String,
}

/// A list of names with values.
pub type Pairs = Seq<(Seq<char>, Seq<char>)>;

/// Whether a request carries a header: a header of that name, in any
/// letter case, with exactly that value.
pub open spec fn carries_header(headers: Pairs, name: Seq<char>, value: Seq<char>) -> bool {
    exists|i: int|
        0 <= i < headers.len() && eq_ignore_case(encode_utf8((#[trigger] headers[i]).0), encode_utf8(name))
            && headers[i].1 == value
}

/// Whether a request carries a query parameter: exactly that name with
/// exactly that value.
pub open spec fn carries_parameter(query: Pairs, name: Seq<char>, value: Seq<char>) -> bool {
    exists|i: int| 0 <= i < query.len() && (#[trigger] query[i]) == (name, value)
}

/// Mathematical value of the conditions of a route.
pub struct ConditionModel {
    pub host: Option<Seq<char>>,
    pub path: Option<Seq<char>>,
    pub methods: Seq<Seq<char>>,
    pub headers: Pairs,
    pub query: Pairs,
    pub source_ip: Option<Seq<IpPattern>>,
}

/// The text of an optional string.
pub open spec fn optional_text(text: Option<String>) -> Option<Seq<char>> {
    match text {
        Some(t) => Some(t@),
        None => None,
    }
}

impl View for RouteCondition {
    type V = ConditionModel;

    open spec fn view(&self) -> ConditionModel {
        ConditionModel {
            host: optional_text(self.host),
            path: optional_text(self.path),
            methods: texts(self.methods@),
            headers: pairs_view(self.headers@),
            query: pairs_view(self.query@),
            source_ip: match self.source_ip {
                Some(patterns) => Some(patterns@),
                None => None,
            },
        }
    }
}

/// What the conditions beyond host, path and source look at in a request.
pub struct RequestModel {
    pub host: Seq<char>,
    pub path: Seq<char>,
    pub method: Seq<char>,
    pub headers: Pairs,
    pub query: Pairs,
    pub source_ip: IpAddress,
    pub source_ip_text: Seq<char>,
}

impl View for RequestFingerprint {
    type V = RequestModel;

    open spec fn view(&self) -> RequestModel {
        RequestModel {
            host: self.host@,
            path: self.path@,
            method: self.method@,
            headers: pairs_view(self.headers@),
            query: pairs_view(self.query@),
            source_ip: self.source_ip,
            source_ip_text: self.source_ip_text@,
        }
    }
}

impl RequestModel {
    /// The cache key of the request.
    pub open spec fn key(self) -> KeyModel {
        (self.host, self.path, self.method, self.source_ip_text)
    }
}

impl ConditionModel {
    /// Whether the conditions beyond host, path and source hold for a
    /// request: the method is among the methods, unless none are named,
    /// and the request carries every header and query parameter named.
    pub open spec fn holds(self, request: RequestModel) -> bool {
        &&& self.methods.len() == 0 || self.methods.contains(request.method)
        &&& forall|i: int|
            0 <= i < self.headers.len() ==> carries_header(
                request.headers,
                (#[trigger] self.headers[i]).0,
                self.headers[i].1,
            )
        &&& forall|i: int|
            0 <= i < self.query.len() ==> carries_parameter(
                request.query,
                (#[trigger] self.query[i]).0,
                self.query[i].1,
            )
    }
}

/// The routes of a configuration, indexed.
#[derive(Debug)]
pub struct RoutingTable {
    /// The conditions of the routes, in the order of declaration.
    routes: Vec<RouteCondition>,
    /// The indices and the cache.
    index: OptimizedRouter,
}

/// The values of a list of routes.
pub open spec fn routes_view(routes: Seq<RouteCondition>) -> Seq<ConditionModel> {
    Seq::new(routes.len(), |i: int| routes[i]@)
}

/// The three indices of a list of routes: each route is added in the
/// order of declaration under its position, with its own host, path and
/// source conditions, and the source ranges are sorted after each
/// addition.
pub open spec fn indexed(routes: Seq<ConditionModel>) -> (HostTable, PathTable, CidrTable)
    decreases routes.len(),
{
    if routes.len() == 0 {
        (
            HostTable { exact: Seq::empty(), wildcard: Seq::empty(), any_host: Seq::empty() },
            PathTable {
                attempts: Seq::empty(),
                values: Map::empty(),
                any_path: Seq::empty(),
                patterns: Seq::empty(),
            },
            CidrTable {
                v4_ranges: Seq::empty(),
                v6_ranges: Seq::empty(),
                exact_ips: Seq::empty(),
                any_ip: Seq::empty(),
            },
        )
    } else {
        let before = indexed(routes.drop_last());
        let n = (routes.len() - 1) as usize;
        (
            before.0.add(n, routes.last().host),
            before.1.add(n, routes.last().path),
            before.2.add(n, routes.last().source_ip).sorted(),
        )
    }
}

/// Whether the route `i` matches a request: the indices take the request
/// for it, and its other conditions hold.
pub open spec fn route_matches(
    index: RouterModel,
    routes: Seq<ConditionModel>,
    i: int,
    request: RequestModel,
) -> bool {
    &&& 0 <= i < routes.len()
    &&& i <= usize::MAX
    &&& index.takes(i as usize, request.host, request.path, request.source_ip)
    &&& routes[i].holds(request)
}

/// The linear scan: the first of the routes from `from` on that matches a
/// request.
pub open spec fn first_match_from(
    index: RouterModel,
    routes: Seq<ConditionModel>,
    request: RequestModel,
    from: int,
) -> Option<usize>
    decreases routes.len() - from,
{
    if from < 0 || from >= routes.len() {
        None
    } else if route_matches(index, routes, from, request) {
        Some(from as usize)
    } else {
        first_match_from(index, routes, request, from + 1)
    }
}

/// The first route that matches a request, found by going through the
/// routes in the order of declaration.
pub open spec fn linear_scan(index: RouterModel, routes: Seq<ConditionModel>, request: RequestModel) -> Option<
    usize,
> {
    first_match_from(index, routes, request, 0)
}

proof fn lemma_scan_skips(
    index: RouterModel,
    routes: Seq<ConditionModel>,
    request: RequestModel,
    from: int,
    to: int,
)
    requires
        0 <= from <= to <= routes.len(),
        forall|i: int| from <= i < to ==> !route_matches(index, routes, i, request),
    ensures
        first_match_from(index, routes, request, from) == first_match_from(index, routes, request, to),
    decreases to - from,
{
    if from < to {
        lemma_scan_skips(index, routes, request, from + 1, to);
    }
}

fn contains_text(list: &Vec<String>, text: &str) -> (r: bool)
    ensures
        r == texts(list@).contains(text@),
{
    let mut i: usize = 0;
    while i < list.len()
        invariant
            i <= list.len(),
            forall|j: int| 0 <= j < i ==> texts(list@)[j] != text@,
        decreases list.len() - i,
    {
        if str_eq(list[i].as_str(), text) {
            assert(texts(list@)[i as int] == text@);
            return true;
        }
        i += 1;
    }
    false
}

fn has_header(headers: &Vec<(String, String)>, name: &str, value: &str) -> (r: bool)
    ensures
        r == carries_header(pairs_view(headers@), name@, value@),
{
    let mut i: usize = 0;
    while i < headers.len()
        invariant
            i <= headers.len(),
            forall|j: int|
                0 <= j < i ==> !(eq_ignore_case(
                    encode_utf8((#[trigger] pairs_view(headers@)[j]).0),
                    encode_utf8(name@),
                ) && pairs_view(headers@)[j].1 == value@),
        decreases headers.len() - i,
    {
        if bytes_eq_ignore_case(headers[i].0.as_str().as_bytes(), name.as_bytes()) && str_eq(
            headers[i].1.as_str(),
            value,
        ) {
            assert(pairs_view(headers@)[i as int] == (headers@[i as int].0@, headers@[i as int].1@));
            return true;
        }
        i += 1;
    }
    false
}

fn has_parameter(query: &Vec<(String, String)>, name: &str, value: &str) -> (r: bool)
    ensures
        r == carries_parameter(pairs_view(query@), name@, value@),
{
    let mut i: usize = 0;
    while i < query.len()
        invariant
            i <= query.len(),
            forall|j: int| 0 <= j < i ==> (#[trigger] pairs_view(query@)[j]) != (name@, value@),
        decreases query.len() - i,
    {
        if str_eq(query[i].0.as_str(), name) && str_eq(query[i].1.as_str(), value) {
            assert(pairs_view(query@)[i as int] == (name@, value@));
            return true;
        }
        i += 1;
    }
    false
}

/// Whether the conditions of a route beyond host, path and source hold
/// for a request.
pub fn condition_holds(route: &RouteCondition, request: &RequestFingerprint) -> (r: bool)
    ensures
        r == route@.holds(request@),
{
    if route.methods.len() > 0 && !contains_text(&route.methods, request.method.as_str()) {
        return false;
    }
    let mut i: usize = 0;
    while i < route.headers.len()
        invariant
            i <= route.headers.len(),
            forall|j: int|
                0 <= j < i ==> carries_header(
                    request@.headers,
                    (#[trigger] route@.headers[j]).0,
                    route@.headers[j].1,
                ),
        decreases route.headers.len() - i,
    {
        if !has_header(&request.headers, route.headers[i].0.as_str(), route.headers[i].1.as_str()) {
            assert(!carries_header(request@.headers, route@.headers[i as int].0, route@.headers[i as int].1));
            return false;
        }
        i += 1;
    }
    let mut k: usize = 0;
    while k < route.query.len()
        invariant
            k <= route.query.len(),
            forall|j: int|
                0 <= j < k ==> carries_parameter(
                    request@.query,
                    (#[trigger] route@.query[j]).0,
                    route@.query[j].1,
                ),
        decreases route.query.len() - k,
    {
        if !has_parameter(&request.query, route.query[k].0.as_str(), route.query[k].1.as_str()) {
            assert(!carries_parameter(request@.query, route@.query[k as int].0, route@.query[k as int].1));
            return false;
        }
        k += 1;
    }
    true
}

/// Whether the conditions of a route take a request. The host condition
/// and the source condition are the route's own. So is the path
/// condition, but for what the radix tree adds: `in_tree` says whether
/// the tree finds the route for the path. `sources` says whether any
/// route of the table has a source condition that was kept; while none
/// has, source conditions are not looked at.
pub open spec fn own_match(route: ConditionModel, request: RequestModel, in_tree: bool, sources: bool) -> bool {
    &&& crate::routing::host::condition_takes(route.host, request.host)
    &&& (crate::routing::path::condition_takes(route.path, request.path) || in_tree)
    &&& (!sources || crate::routing::cidr::condition_takes(route.source_ip, request.source_ip))
    &&& route.holds(request)
}

/// In the indices of a list of routes, a route is a candidate of the
/// host index exactly for the hosts that its own host condition takes,
/// is given by the list of path patterns exactly for the paths that its
/// own path condition takes, and is taken by the source index exactly
/// for the addresses that its own source condition takes.
pub proof fn lemma_indexed(routes: Seq<ConditionModel>, x: usize, host: Seq<char>, path: Seq<char>, ip: IpAddress)
    requires
        routes.len() <= usize::MAX,
    ensures
        indexed(routes).0.candidates(host).contains(x) <==> (x < routes.len()
            && crate::routing::host::condition_takes(routes[x as int].host, host)),
        indexed(routes).1.listed_takes(x, path) <==> (x < routes.len()
            && crate::routing::path::condition_takes(routes[x as int].path, path)),
        indexed(routes).2.takes(x, ip) <==> (x < routes.len() && crate::routing::cidr::condition_takes(
            routes[x as int].source_ip,
            ip,
        )),
    decreases routes.len(),
{
    if routes.len() == 0 {
        let empty = indexed(routes);
        assert(empty.0.candidates(host) =~= Seq::<usize>::empty());
        assert(!empty.1.listed_takes(x, path));
        assert(!empty.2.takes(x, ip));
    } else {
        let rest = routes.drop_last();
        let last = routes.last();
        let n = (routes.len() - 1) as usize;
        let before = indexed(rest);
        lemma_indexed(rest, x, host, path, ip);
        crate::routing::host::lemma_add_candidates(before.0, n, last.host, host, x);
        crate::routing::path::lemma_add_listed(before.1, n, last.path, path, x);
        crate::routing::cidr::lemma_add_takes(before.2, n, last.source_ip, ip, x);
        if x < n {
            assert(rest[x as int] == routes[x as int]);
        }
    }
}

/// The linear scan goes by the routes' own conditions: in a table whose
/// indices are those of its routes, a route matches a request exactly
/// when its own conditions take the request.
pub proof fn lemma_route_matches(index: RouterModel, routes: Seq<ConditionModel>, i: int, request: RequestModel)
    requires
        routes.len() <= usize::MAX,
        index.host == indexed(routes).0,
        index.path == indexed(routes).1,
        index.cidr == indexed(routes).2,
        index.route_count == routes.len(),
    ensures
        route_matches(index, routes, i, request) <==> (0 <= i < routes.len() && own_match(
            routes[i],
            request,
            index.path.tree_routes(request.path).contains(i as usize),
            index.cidr.has_conditions(),
        )),
{
    if 0 <= i < routes.len() {
        lemma_indexed(routes, i as usize, request.host, request.path, request.source_ip);
    }
}

impl RoutingTable {
    /// The conditions of the routes.
    pub closed spec fn routes(&self) -> Seq<ConditionModel> {
        routes_view(self.routes@)
    }

    /// The indices and the cache.
    pub closed spec fn index(&self) -> RouterModel {
        self.index@
    }

    /// Whether the table is well formed: the indices are those of the
    /// routes of the table, built route by route.
    pub closed spec fn wf(&self) -> bool {
        &&& self.index@.wf()
        &&& self.index@.route_count == self.routes@.len()
        &&& self.index@.host == indexed(self.routes()).0
        &&& self.index@.path == indexed(self.routes()).1
        &&& self.index@.cidr == indexed(self.routes()).2
    }

    /// In a well-formed table the indices are those of its routes.
    pub proof fn lemma_index(&self)
        requires
            self.wf(),
        ensures
            self.index().host == indexed(self.routes()).0,
            self.index().path == indexed(self.routes()).1,
            self.index().cidr == indexed(self.routes()).2,
            self.index().route_count == self.routes().len(),
    {
    }

    /// In a well-formed table a route matches a request, as the linear
    /// scan sees it, exactly when its own conditions take the request.
    pub proof fn lemma_matches(&self, i: int, request: RequestModel)
        requires
            self.wf(),
        ensures
            route_matches(self.index(), self.routes(), i, request) <==> (0 <= i < self.routes().len()
                && own_match(
                self.routes()[i],
                request,
                self.index().path.tree_routes(request.path).contains(i as usize),
                self.index().cidr.has_conditions(),
            )),
    {
        lemma_route_matches(self.index@, self.routes(), i, request);
    }

    /// A routing table without routes, with a cache for `cache_capacity`
    /// answers.
    pub fn new(cache_capacity: usize) -> (r: Self)
        ensures
            r.wf(),
            r.routes() == Seq::<ConditionModel>::empty(),
            r.index().route_count == 0,
            r.index().cache.entries.len() == 0,
            r.index().cache.capacity == if cache_capacity == 0 {
                1000
            } else {
                cache_capacity as nat
            },
    {
        let r = RoutingTable { routes: Vec::new(), index: OptimizedRouter::with_cache_capacity(cache_capacity) };
        assert(routes_view(r.routes@) =~= Seq::empty());
        r
    }

    /// Appends a route to the table and to the indices. The cache is
    /// emptied, since its answers were given without the route.
    pub fn add_route(&mut self, route: RouteCondition)
        requires
            old(self).wf(),
            old(self).routes().len() < usize::MAX,
        ensures
            final(self).wf(),
            final(self).routes() == old(self).routes().push(route@),
            final(self).index().host == old(self).index().host.add(
                old(self).routes().len() as usize,
                route@.host,
            ),
            final(self).index().path == old(self).index().path.add(
                old(self).routes().len() as usize,
                route@.path,
            ),
            final(self).index().cidr == old(self).index().cidr.add(
                old(self).routes().len() as usize,
                route@.source_ip,
            ).sorted(),
            final(self).index().route_count == old(self).routes().len() + 1,
            final(self).index().cache.entries.len() == 0,
            final(self).index().cache.capacity == old(self).index().cache.capacity,
    {
        let idx = self.routes.len();
        let ghost before = routes_view(self.routes@);
        let host: Option<&str> = match &route.host {
            Some(h) => Some(h.as_str()),
            None => None,
        };
        let path: Option<&str> = match &route.path {
            Some(p) => Some(p.as_str()),
            None => None,
        };
        let source: Option<&[IpPattern]> = match &route.source_ip {
            Some(s) => Some(s.as_slice()),
            None => None,
        };
        self.index.add_route(idx, host, path, source);
        self.index.finalize();
        self.index.clear_cache();
        self.routes.push(route);
        assert(routes_view(self.routes@) =~= before.push(route@));
        assert(before.push(route@).drop_last() =~= before);
    }

    /// Number of routes.
    pub fn route_count(&self) -> (r: usize)
        ensures
            r == self.routes().len(),
    {
        self.routes.len()
    }

    /// The route for a request, found without the cache: the first
    /// candidate of the indices whose other conditions hold. This is the
    /// first route of the table that matches the request.
    pub fn scan_route(&self, request: &RequestFingerprint) -> (r: Option<usize>)
        requires
            self.wf(),
        ensures
            r == linear_scan(self.index(), self.routes(), request@),
    {
        let candidates = self.index.get_candidates(
            request.host.as_str(),
            request.path.as_str(),
            request.source_ip,
        );
        let ghost index = self.index@;
        let ghost routes = routes_view(self.routes@);
        let ghost req = request@;
        let mut k: usize = 0;
        let ghost mut floor: int = 0;
        while k < candidates.len()
            invariant
                k <= candidates.len(),
                self.wf(),
                index == self.index@,
                routes == routes_view(self.routes@),
                req == request@,
                is_ascending(candidates@),
                forall|x: usize|
                    #![trigger candidates@.contains(x)]
                    #![trigger index.takes(x, req.host, req.path, req.source_ip)]
                    candidates@.contains(x) <==> index.takes(x, req.host, req.path, req.source_ip),
                0 <= floor <= routes.len(),
                k > 0 ==> floor == candidates@[k - 1] + 1,
                k == 0 ==> floor == 0,
                first_match_from(index, routes, req, floor) == linear_scan(index, routes, req),
            decreases candidates.len() - k,
        {
            let idx = candidates[k];
            assert(candidates@.contains(idx));
            proof {
                if k > 0 {
                    assert(candidates@[k - 1] < candidates@[k as int]);
                }
            }
            if idx >= self.routes.len() {
                proof {
                    assert forall|i: int| floor <= i < routes.len() implies !route_matches(
                        index,
                        routes,
                        i,
                        req,
                    ) by {
                        if index.takes(i as usize, req.host, req.path, req.source_ip) {
                            assert(candidates@.contains(i as usize));
                            let w = choose|w: int| 0 <= w < candidates@.len() && candidates@[w] == i as usize;
                            if w < k {
                                if k > 0 && w < k - 1 {
                                    assert(candidates@[w] < candidates@[k - 1]);
                                }
                            } else if w > k {
                                assert(candidates@[k as int] < candidates@[w]);
                            }
                        }
                    }
                    lemma_scan_skips(index, routes, req, floor, routes.len() as int);
                }
                return None;
            }
            proof {
                assert forall|i: int| floor <= i < idx implies !route_matches(index, routes, i, req) by {
                    if index.takes(i as usize, req.host, req.path, req.source_ip) {
                        assert(candidates@.contains(i as usize));
                        let w = choose|w: int| 0 <= w < candidates@.len() && candidates@[w] == i as usize;
                        if w < k {
                            if k > 0 && w < k - 1 {
                                assert(candidates@[w] < candidates@[k - 1]);
                            }
                        } else if w > k {
                            assert(candidates@[k as int] < candidates@[w]);
                        }
                    }
                }
                lemma_scan_skips(index, routes, req, floor, idx as int);
            }
            if condition_holds(&self.routes[idx], request) {
                assert(route_matches(index, routes, idx as int, req));
                return Some(idx);
            }
            proof {
                assert(!route_matches(index, routes, idx as int, req));
                floor = idx + 1;
            }
            k += 1;
        }
        proof {
            assert forall|i: int| floor <= i < routes.len() implies !route_matches(index, routes, i, req) by {
                if index.takes(i as usize, req.host, req.path, req.source_ip) {
                    assert(candidates@.contains(i as usize));
                    let w = choose|w: int| 0 <= w < candidates@.len() && candidates@[w] == i as usize;
                    if k > 0 && w < k - 1 {
                        assert(candidates@[w] < candidates@[k - 1]);
                    }
                }
            }
            lemma_scan_skips(index, routes, req, floor, routes.len() as int);
        }
        None
    }

    /// The route for a request. The cache is asked first, by host, path,
    /// method and source address; an answer found there is returned as it
    /// is. Otherwise the route is found by the indices, which gives what
    /// the linear scan over the routes gives, and the answer is stored in
    /// the cache.
    pub fn find_route(&mut self, request: &RequestFingerprint) -> (r: Option<usize>)
        requires
            old(self).wf(),
        ensures
            final(self).wf(),
            final(self).routes() == old(self).routes(),
            final(self).index().host == old(self).index().host,
            final(self).index().path == old(self).index().path,
            final(self).index().cidr == old(self).index().cidr,
            final(self).index().cache.capacity == old(self).index().cache.capacity,
            match cached(old(self).index().cache.entries, request@.key()) {
                Some(answer) => r == answer && final(self).index().cache.entries == after_get(
                    old(self).index().cache.entries,
                    request@.key(),
                ),
                None => r == linear_scan(old(self).index(), old(self).routes(), request@) && cached(
                    final(self).index().cache.entries,
                    request@.key(),
                ) == Some(r) && final(self).index().cache.entries == after_put(
                    after_get(old(self).index().cache.entries, request@.key()),
                    old(self).index().cache.capacity,
                    request@.key(),
                    r,
                ),
            },
    {
        let key = RouteCacheKey {
            host: request.host.clone(),
            path: request.path.clone(),
            method: request.method.clone(),
            source_ip: request.source_ip_text.clone(),
        };
        assert(key@ == request@.key());
        match self.index.try_cache(&key) {
            Some(answer) => answer,
            None => {
                let found = self.scan_route(request);
                proof {
                    crate::routing::cache::lemma_put_then_get(
                        self.index@.cache.entries,
                        self.index@.cache.capacity,
                        key@,
                        found,
                    );
                    lemma_scan_ignores_cache(old(self).index(), self.index@, self.routes(), request@, 0);
                }
                self.index.cache_result(key, found);
                found
            },
        }
    }
}

proof fn lemma_scan_ignores_cache(
    a: RouterModel,
    b: RouterModel,
    routes: Seq<ConditionModel>,
    request: RequestModel,
    from: int,
)
    requires
        a.host == b.host,
        a.path == b.path,
        a.cidr == b.cidr,
        a.route_count == b.route_count,
    ensures
        first_match_from(a, routes, request, from) == first_match_from(b, routes, request, from),
    decreases routes.len() - from,
{
    if 0 <= from < routes.len() {
        lemma_scan_ignores_cache(a, b, routes, request, from + 1);
    }
}

} // verus!
