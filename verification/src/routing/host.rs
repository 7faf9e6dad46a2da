//! Index of routes by host.
//!
//! A host condition is an exact host name, a pattern `*.suffix` that
//! matches exactly one extra leading label, a pattern `prefix.*`, or
//! absent, in which case the route takes every host.

use vstd::prelude::*;
use vstd::string::{StrSliceExecFns, StringExecFns};
use crate::text::{
    chars_contain, chars_end_with, chars_start_with, find_char, first_index, has_prefix, has_suffix,
    lowercase, str_chars, str_eq, to_lowercase,
};

verus! {

/// Routes grouped by their host condition.
#[derive(Debug)]
pub struct HostRouter {
    /// Exact hosts, each with the routes that name it. No host occurs
    /// twice.
    exact: Vec<(String, Vec<usize>)>,
    /// Wildcard patterns, each with the routes that name it. A pattern
    /// `*.example.com` is kept as `example.com`, a pattern `api.*` as
    /// `__prefix__:api`, both in lower case.
    wildcard: Vec<(String, Vec<usize>)>,
    /// Routes without a host condition.
    any_host: Vec<usize>,
}

/// A list of keys, each with the routes filed under it.
pub type Groups = Seq<(Seq<char>, Seq<usize>)>;

/// Mathematical value of a host index.
pub struct HostTable {
    pub exact: Groups,
    pub wildcard: Groups,
    pub any_host: Seq<usize>,
}

/// The value of a list of groups.
pub open spec fn groups_view(groups: Seq<(String, Vec<usize>)>) -> Groups {
    Seq::new(groups.len(), |i: int| (groups[i].0@, groups[i].1@))
}

/// The marker that starts the key of a `prefix.*` pattern.
pub open spec fn prefix_marker() -> Seq<char> {
    "__prefix__:"@
}

/// Where the first group with the key `key` stands; the number of groups
/// where there is none.
pub open spec fn group_index(groups: Groups, key: Seq<char>) -> int
    decreases groups.len(),
{
    if groups.len() == 0 {
        0
    } else if groups[0].0 == key {
        0
    } else {
        1 + group_index(groups.drop_first(), key)
    }
}

/// The routes filed under `key`; none where no group has that key.
pub open spec fn group_routes(groups: Groups, key: Seq<char>) -> Seq<usize> {
    let i = group_index(groups, key);
    if 0 <= i < groups.len() {
        groups[i].1
    } else {
        Seq::empty()
    }
}

/// The groups after the route `route_idx` is filed: it joins the first
/// group whose key is `find`, or starts a new group with the key `key`
/// at the end.
pub open spec fn file_route(groups: Groups, find: Seq<char>, key: Seq<char>, route_idx: usize) -> Groups {
    let i = group_index(groups, find);
    if 0 <= i < groups.len() {
        groups.update(i, (groups[i].0, groups[i].1.push(route_idx)))
    } else {
        groups.push((key, seq![route_idx]))
    }
}

/// Whether no key occurs twice in a list of groups.
pub open spec fn distinct_keys(groups: Groups) -> bool {
    forall|i: int, j: int|
        0 <= i < j < groups.len() ==> (#[trigger] groups[i]).0 != (#[trigger] groups[j]).0
}

/// The host of a request as the index sees it: lower-cased, and cut before
/// the first colon, which drops a port.
pub open spec fn host_only(host: Seq<char>) -> Seq<char> {
    lowercase(host).take(first_index(lowercase(host), ':'))
}

/// Whether a stored wildcard key takes a host. A key that starts with the
/// prefix marker takes the hosts that continue its prefix with a dot; any
/// other key is a suffix and takes the hosts that put exactly one label
/// and a dot before it.
pub open spec fn wildcard_matches(key: Seq<char>, host: Seq<char>) -> bool {
    if has_prefix(key, prefix_marker()) {
        let prefix = key.skip(prefix_marker().len() as int);
        has_prefix(host, prefix) && host.len() > prefix.len() && host[prefix.len() as int] == '.'
    } else {
        let n = host.len() - key.len();
        has_suffix(host, key) && n > 0 && host[n - 1] == '.' && !host.take(n - 1).contains('.')
    }
}

/// The routes of all wildcard groups that take `host`, group by group.
pub open spec fn wildcard_routes(groups: Groups, host: Seq<char>) -> Seq<usize>
    decreases groups.len(),
{
    if groups.len() == 0 {
        Seq::empty()
    } else {
        wildcard_routes(groups.drop_last(), host) + (if wildcard_matches(groups.last().0, host) {
            groups.last().1
        } else {
            Seq::empty()
        })
    }
}

impl HostTable {
    /// The table after a route is added with an optional host condition.
    pub open spec fn add(self, route_idx: usize, condition: Option<Seq<char>>) -> HostTable {
        match condition {
            None => HostTable { any_host: self.any_host.push(route_idx), ..self },
            Some(pattern) => if has_prefix(pattern, "*."@) {
                let key = lowercase(pattern.skip(2));
                HostTable { wildcard: file_route(self.wildcard, key, key, route_idx), ..self }
            } else if has_suffix(pattern, ".*"@) {
                let key = prefix_marker() + lowercase(pattern.take(pattern.len() - 2));
                HostTable { wildcard: file_route(self.wildcard, key, key, route_idx), ..self }
            } else {
                let key = lowercase(pattern);
                HostTable { exact: file_route(self.exact, key, key, route_idx), ..self }
            },
        }
    }

    /// The candidate routes for a host: those of the exact host, then those
    /// of the wildcard patterns that take it, then those without a host
    /// condition.
    pub open spec fn candidates(self, host: Seq<char>) -> Seq<usize> {
        group_routes(self.exact, host_only(host)) + wildcard_routes(self.wildcard, host_only(host))
            + self.any_host
    }

    /// Whether no exact host occurs twice.
    pub open spec fn exact_distinct(self) -> bool {
        distinct_keys(self.exact)
    }
}

impl View for HostRouter {
    type V = HostTable;

    closed spec fn view(&self) -> HostTable {
        HostTable {
            exact: groups_view(self.exact@),
            wildcard: groups_view(self.wildcard@),
            any_host: self.any_host@,
        }
    }
}

proof fn lemma_group_index(groups: Groups, key: Seq<char>)
    ensures
        0 <= group_index(groups, key) <= groups.len(),
        group_index(groups, key) < groups.len() ==> groups[group_index(groups, key)].0 == key,
        forall|j: int| 0 <= j < group_index(groups, key) ==> (#[trigger] groups[j]).0 != key,
    decreases groups.len(),
{
    if groups.len() > 0 && groups[0].0 != key {
        lemma_group_index(groups.drop_first(), key);
        let rest = groups.drop_first();
        assert forall|j: int| 0 <= j < group_index(groups, key) implies (#[trigger] groups[j]).0
            != key by {
            if j > 0 {
                assert(groups[j] == rest[j - 1]);
            }
        }
    }
}

proof fn lemma_group_index_is(groups: Groups, key: Seq<char>, k: int)
    requires
        0 <= k <= groups.len(),
        k < groups.len() ==> groups[k].0 == key,
        forall|j: int| 0 <= j < k ==> (#[trigger] groups[j]).0 != key,
    ensures
        group_index(groups, key) == k,
{
    lemma_group_index(groups, key);
    let g = group_index(groups, key);
    if g < k {
        assert(groups[g].0 != key);
    }
    if k < g {
        assert(groups[k].0 != key);
    }
}

proof fn lemma_file_keeps_distinct(groups: Groups, key: Seq<char>, route_idx: usize)
    requires
        distinct_keys(groups),
    ensures
        distinct_keys(file_route(groups, key, key, route_idx)),
{
    lemma_group_index(groups, key);
    let after = file_route(groups, key, key, route_idx);
    let g = group_index(groups, key);
    assert forall|i: int, j: int| 0 <= i < j < after.len() implies (#[trigger] after[i]).0 != (
    #[trigger] after[j]).0 by {
        if g < groups.len() {
            assert(after[i].0 == groups[i].0);
            assert(after[j].0 == groups[j].0);
        } else {
            if j < groups.len() {
                assert(after[i] == groups[i]);
                assert(after[j] == groups[j]);
            } else {
                assert(after[i] == groups[i]);
                assert(groups[i].0 != key);
            }
        }
    }
}

/// Finds the first group with the key `key`.
fn find_group(groups: &Vec<(String, Vec<usize>)>, key: &str) -> (r: usize)
    ensures
        r == group_index(groups_view(groups@), key@),
        r <= groups.len(),
{
    let mut i: usize = 0;
    while i < groups.len()
        invariant
            i <= groups.len(),
            forall|j: int| 0 <= j < i ==> (#[trigger] groups_view(groups@)[j]).0 != key@,
        decreases groups.len() - i,
    {
        if str_eq(groups[i].0.as_str(), key) {
            proof {
                lemma_group_index_is(groups_view(groups@), key@, i as int);
            }
            return i;
        }
        i += 1;
    }
    proof {
        lemma_group_index_is(groups_view(groups@), key@, i as int);
    }
    i
}

/// Files a route under the first group with the key `find`, or under a new
/// group with the key `key`.
fn file_into(groups: &mut Vec<(String, Vec<usize>)>, find: &str, key: String, route_idx: usize)
    ensures
        groups_view(final(groups)@) == file_route(groups_view(old(groups)@), find@, key@, route_idx),
{
    let i = find_group(groups, find);
    if i < groups.len() {
        let (name, mut routes) = groups.remove(i);
        routes.push(route_idx);
        groups.insert(i, (name, routes));
        assert(groups_view(groups@) =~= file_route(groups_view(old(groups)@), find@, key@, route_idx));
    } else {
        let mut routes: Vec<usize> = Vec::new();
        routes.push(route_idx);
        groups.push((key, routes));
        assert(groups_view(groups@) =~= file_route(groups_view(old(groups)@), find@, key@, route_idx));
    }
}

fn append_routes(out: &mut Vec<usize>, routes: &Vec<usize>)
    ensures
        final(out)@ == old(out)@ + routes@,
{
    out.extend_from_slice(routes.as_slice());
    assert(out@ =~= old(out)@ + routes@);
}

fn key_takes_host(key: &[char], host: &[char]) -> (r: bool)
    ensures
        r == wildcard_matches(key@, host@),
{
    let marker = str_chars("__prefix__:");
    proof {
        reveal_strlit("__prefix__:");
    }
    if chars_start_with(key, marker.as_slice()) {
        let prefix = vstd::slice::slice_subrange(key, marker.len(), key.len());
        assert(prefix@ =~= key@.skip(prefix_marker().len() as int));
        chars_start_with(host, prefix) && host.len() > prefix.len() && host[prefix.len()] == '.'
    } else {
        if !chars_end_with(host, key) {
            return false;
        }
        let n = host.len() - key.len();
        n > 0 && host[n - 1] == '.' && !chars_contain(host, n - 1, '.')
    }
}

impl HostRouter {
    /// Whether the index is well formed: no exact host occurs twice.
    pub closed spec fn wf(&self) -> bool {
        self@.exact_distinct()
    }

    /// An index without routes.
    pub fn new() -> (r: Self)
        ensures
            r@ == (HostTable { exact: Seq::empty(), wildcard: Seq::empty(), any_host: Seq::empty() }),
            r.wf(),
    {
        let r = Self { exact: Vec::new(), wildcard: Vec::new(), any_host: Vec::new() };
        assert(groups_view(r.exact@) =~= Seq::empty());
        assert(groups_view(r.wildcard@) =~= Seq::empty());
        r
    }

    /// Adds a route with its host condition; `None` stands for every host.
    pub fn add_route(&mut self, route_idx: usize, host_condition: Option<&str>)
        ensures
            final(self)@ == old(self)@.add(
                route_idx,
                match host_condition {
                    Some(p) => Some(p@),
                    None => None,
                },
            ),
            old(self).wf() ==> final(self).wf(),
    {
        match host_condition {
            None => {
                self.any_host.push(route_idx);
            },
            Some(pattern) => {
                let chars = str_chars(pattern);
                proof {
                    reveal_strlit("*.");
                    reveal_strlit(".*");
                }
                let n = chars.len();
                if n >= 2 && chars[0] == '*' && chars[1] == '.' {
                    assert(pattern@.subrange(0, 2) =~= "*."@);
                    let suffix = pattern.substring_char(2, n);
                    assert(suffix@ =~= pattern@.skip(2));
                    let key = to_lowercase(suffix);
                    let find = key.clone();
                    file_into(&mut self.wildcard, find.as_str(), key, route_idx);
                } else if n >= 2 && chars[n - 2] == '.' && chars[n - 1] == '*' {
                    assert(pattern@.subrange(n - 2, n as int) =~= ".*"@);
                    assert(!has_prefix(pattern@, "*."@)) by {
                        if has_prefix(pattern@, "*."@) {
                            assert(pattern@.subrange(0, 2)[0] == '*');
                            assert(pattern@.subrange(0, 2)[1] == '.');
                        }
                    }
                    let prefix = pattern.substring_char(0, n - 2);
                    assert(prefix@ =~= pattern@.take(n - 2));
                    let lower = to_lowercase(prefix);
                    let mut key = "__prefix__:".to_owned();
                    key.append(lower.as_str());
                    let find = key.clone();
                    file_into(&mut self.wildcard, find.as_str(), key, route_idx);
                } else {
                    assert(!has_prefix(pattern@, "*."@)) by {
                        if has_prefix(pattern@, "*."@) {
                            assert(pattern@.subrange(0, 2)[0] == '*');
                            assert(pattern@.subrange(0, 2)[1] == '.');
                        }
                    }
                    assert(!has_suffix(pattern@, ".*"@)) by {
                        if has_suffix(pattern@, ".*"@) {
                            assert(pattern@.subrange(n - 2, n as int)[0] == '.');
                            assert(pattern@.subrange(n - 2, n as int)[1] == '*');
                        }
                    }
                    let key = to_lowercase(pattern);
                    let find = key.clone();
                    proof {
                        if distinct_keys(groups_view(self.exact@)) {
                            lemma_file_keeps_distinct(groups_view(self.exact@), key@, route_idx);
                        }
                    }
                    file_into(&mut self.exact, find.as_str(), key, route_idx);
                }
            },
        }
    }

    /// The candidate routes for the host of a request: the routes of the
    /// exact host, then those of the matching wildcard patterns, then
    /// those without a host condition.
    pub fn get_candidates(&self, host: &str) -> (r: Vec<usize>)
        ensures
            r@ == self@.candidates(host@),
    {
        let host_lower = to_lowercase(host);
        let lower_chars = str_chars(host_lower.as_str());
        let cut = find_char(lower_chars.as_slice(), 0, ':');
        assert(lower_chars@.skip(0) =~= lower_chars@);
        let host_name = host_lower.as_str().substring_char(0, cut);
        let name_chars = vstd::slice::slice_subrange(lower_chars.as_slice(), 0, cut);
        assert(name_chars@ =~= host_only(host@));
        assert(host_name@ =~= host_only(host@));
        let mut candidates: Vec<usize> = Vec::new();
        let i = find_group(&self.exact, host_name);
        if i < self.exact.len() {
            append_routes(&mut candidates, &self.exact[i].1);
        }
        assert(candidates@ =~= group_routes(self@.exact, host_only(host@)));
        let ghost exact_part = candidates@;
        let mut j: usize = 0;
        while j < self.wildcard.len()
            invariant
                j <= self.wildcard.len(),
                name_chars@ == host_only(host@),
                candidates@ == exact_part + wildcard_routes(
                    groups_view(self.wildcard@).subrange(0, j as int),
                    host_only(host@),
                ),
            decreases self.wildcard.len() - j,
        {
            let ghost groups = groups_view(self.wildcard@);
            assert(groups.subrange(0, j + 1).drop_last() =~= groups.subrange(0, j as int));
            let key_chars = str_chars(self.wildcard[j].0.as_str());
            let ghost before = candidates@;
            if key_takes_host(key_chars.as_slice(), name_chars) {
                append_routes(&mut candidates, &self.wildcard[j].1);
            }
            assert(candidates@ =~= exact_part + wildcard_routes(
                groups.subrange(0, j + 1),
                host_only(host@),
            ));
            j += 1;
        }
        assert(groups_view(self.wildcard@).subrange(0, self.wildcard.len() as int) =~= groups_view(
            self.wildcard@,
        ));
        append_routes(&mut candidates, &self.any_host);
        candidates
    }

    /// Number of distinct exact hosts.
    pub fn exact_count(&self) -> (r: usize)
        ensures
            r == self@.exact.len(),
    {
        self.exact.len()
    }

    /// Number of wildcard patterns.
    pub fn wildcard_count(&self) -> (r: usize)
        ensures
            r == self@.wildcard.len(),
    {
        self.wildcard.len()
    }
}

impl Default for HostRouter {
    fn default() -> (r: Self)
        ensures
            r@ == (HostTable { exact: Seq::empty(), wildcard: Seq::empty(), any_host: Seq::empty() }),
            r.wf(),
    {
        Self::new()
    }
}

/// Whether every route filed in a list of groups is below `bound`.
pub open spec fn groups_below(groups: Groups, bound: nat) -> bool {
    forall|i: int, j: int|
        0 <= i < groups.len() && 0 <= j < groups[i].1.len() ==> (#[trigger] groups[i].1[j]) < bound
}

impl HostTable {
    /// Whether every route of the table is below `bound`.
    pub open spec fn below(self, bound: nat) -> bool {
        &&& groups_below(self.exact, bound)
        &&& groups_below(self.wildcard, bound)
        &&& forall|j: int| 0 <= j < self.any_host.len() ==> (#[trigger] self.any_host[j]) < bound
    }
}

proof fn lemma_file_below(groups: Groups, find: Seq<char>, key: Seq<char>, route_idx: usize, bound: nat)
    requires
        groups_below(groups, bound),
        route_idx < bound,
    ensures
        groups_below(file_route(groups, find, key, route_idx), bound),
{
    lemma_group_index(groups, find);
    let after = file_route(groups, find, key, route_idx);
    let g = group_index(groups, find);
    assert forall|i: int, j: int| 0 <= i < after.len() && 0 <= j < after[i].1.len() implies (
    #[trigger] after[i].1[j]) < bound by {
        if g < groups.len() {
            if i == g {
                if j < groups[i].1.len() {
                    assert(after[i].1[j] == groups[i].1[j]);
                }
            } else {
                assert(after[i].1[j] == groups[i].1[j]);
            }
        } else {
            if i < groups.len() {
                assert(after[i].1[j] == groups[i].1[j]);
            }
        }
    }
}

proof fn lemma_wildcard_below(groups: Groups, host: Seq<char>, bound: nat)
    requires
        groups_below(groups, bound),
    ensures
        forall|k: int|
            0 <= k < wildcard_routes(groups, host).len() ==> (#[trigger] wildcard_routes(groups, host)[k])
                < bound,
    decreases groups.len(),
{
    if groups.len() > 0 {
        let rest = groups.drop_last();
        assert(groups_below(rest, bound)) by {
            assert forall|i: int, j: int| 0 <= i < rest.len() && 0 <= j < rest[i].1.len() implies (
            #[trigger] rest[i].1[j]) < bound by {
                assert(rest[i].1[j] == groups[i].1[j]);
            }
        }
        lemma_wildcard_below(rest, host, bound);
        let before = wildcard_routes(rest, host);
        let all = wildcard_routes(groups, host);
        assert forall|k: int| 0 <= k < all.len() implies (#[trigger] all[k]) < bound by {
            if k < before.len() {
                assert(all[k] == before[k]);
            } else {
                let last = groups.len() - 1;
                assert(all[k] == groups[last].1[k - before.len()]);
            }
        }
    }
}

/// Adding a route below the bound keeps every route of the table below
/// the bound.
pub proof fn lemma_add_below(table: HostTable, route_idx: usize, condition: Option<Seq<char>>, bound: nat)
    requires
        table.below(bound),
        route_idx < bound,
    ensures
        table.add(route_idx, condition).below(bound),
{
    match condition {
        None => {
            let after = table.any_host.push(route_idx);
            assert forall|j: int| 0 <= j < after.len() implies (#[trigger] after[j]) < bound by {
                if j < table.any_host.len() {
                    assert(after[j] == table.any_host[j]);
                }
            }
        },
        Some(pattern) => {
            if has_prefix(pattern, "*."@) {
                let key = lowercase(pattern.skip(2));
                lemma_file_below(table.wildcard, key, key, route_idx, bound);
            } else if has_suffix(pattern, ".*"@) {
                let key = prefix_marker() + lowercase(pattern.take(pattern.len() - 2));
                lemma_file_below(table.wildcard, key, key, route_idx, bound);
            } else {
                let key = lowercase(pattern);
                lemma_file_below(table.exact, key, key, route_idx, bound);
            }
        },
    }
}

/// A bound on the routes of a table is a bound on its candidates.
pub proof fn lemma_candidates_below(table: HostTable, host: Seq<char>, bound: nat, route_idx: usize)
    requires
        table.below(bound),
        table.candidates(host).contains(route_idx),
    ensures
        route_idx < bound,
{
    let name = host_only(host);
    let exact = group_routes(table.exact, name);
    let wild = wildcard_routes(table.wildcard, name);
    let all = table.candidates(host);
    lemma_group_index(table.exact, name);
    lemma_wildcard_below(table.wildcard, name, bound);
    let w = choose|w: int| 0 <= w < all.len() && all[w] == route_idx;
    if w < exact.len() {
        let g = group_index(table.exact, name);
        assert(all[w] == table.exact[g].1[w]);
    } else if w < exact.len() + wild.len() {
        assert(all[w] == wild[w - exact.len()]);
    } else {
        assert(all[w] == table.any_host[w - exact.len() - wild.len()]);
    }
}

/// Raising the bound keeps the routes of a table below it.
pub proof fn lemma_below_monotone(table: HostTable, bound: nat, higher: nat)
    requires
        table.below(bound),
        bound <= higher,
    ensures
        table.below(higher),
{
    assert forall|i: int, j: int|
        0 <= i < table.exact.len() && 0 <= j < table.exact[i].1.len() implies (#[trigger] table.exact[i].1[j])
        < higher by {
        assert(table.exact[i].1[j] < bound);
    }
    assert forall|i: int, j: int|
        0 <= i < table.wildcard.len() && 0 <= j < table.wildcard[i].1.len() implies (
    #[trigger] table.wildcard[i].1[j]) < higher by {
        assert(table.wildcard[i].1[j] < bound);
    }
}

/// Whether a host condition takes a host. A route without a host
/// condition takes every host. A pattern `*.suffix` or `prefix.*` takes
/// a host as its stored key does; any other pattern takes the host that
/// equals it. Pattern and host are compared in lower case, the host
/// without its port.
pub open spec fn condition_takes(condition: Option<Seq<char>>, host: Seq<char>) -> bool {
    match condition {
        None => true,
        Some(pattern) => if has_prefix(pattern, "*."@) {
            wildcard_matches(lowercase(pattern.skip(2)), host_only(host))
        } else if has_suffix(pattern, ".*"@) {
            wildcard_matches(
                prefix_marker() + lowercase(pattern.take(pattern.len() - 2)),
                host_only(host),
            )
        } else {
            lowercase(pattern) == host_only(host)
        },
    }
}

/// A route is among three lists in a row exactly when it is in one of
/// them.
pub proof fn lemma_concat_contains(a: Seq<usize>, b: Seq<usize>, c: Seq<usize>, x: usize)
    ensures
        (a + b + c).contains(x) <==> (a.contains(x) || b.contains(x) || c.contains(x)),
{
    let all = a + b + c;
    if all.contains(x) {
        let w = choose|w: int| 0 <= w < all.len() && all[w] == x;
        if w < a.len() {
            assert(a[w] == x);
        } else if w < a.len() + b.len() {
            assert(b[w - a.len()] == x);
        } else {
            assert(c[w - a.len() - b.len()] == x);
        }
    }
    if a.contains(x) {
        let w = choose|w: int| 0 <= w < a.len() && a[w] == x;
        assert(all[w] == x);
    }
    if b.contains(x) {
        let w = choose|w: int| 0 <= w < b.len() && b[w] == x;
        assert(all[a.len() + w] == x);
    }
    if c.contains(x) {
        let w = choose|w: int| 0 <= w < c.len() && c[w] == x;
        assert(all[a.len() + b.len() + w] == x);
    }
}

/// A list with one more route holds what it held, and that route.
pub proof fn lemma_push_contains(a: Seq<usize>, route_idx: usize, x: usize)
    ensures
        a.push(route_idx).contains(x) <==> (a.contains(x) || x == route_idx),
{
    let after = a.push(route_idx);
    if a.contains(x) {
        let w = choose|w: int| 0 <= w < a.len() && a[w] == x;
        assert(after[w] == x);
    }
    if x == route_idx {
        assert(after[a.len() as int] == x);
    }
    if after.contains(x) && x != route_idx {
        let w = choose|w: int| 0 <= w < after.len() && after[w] == x;
        assert(a[w] == x);
    }
}

/// Filing a route under a key adds it to the routes of that key and
/// leaves the routes of every other key as they were.
pub proof fn lemma_group_routes_filed(groups: Groups, key: Seq<char>, route_idx: usize, host: Seq<char>)
    ensures
        group_routes(file_route(groups, key, key, route_idx), host) == if host == key {
            group_routes(groups, host).push(route_idx)
        } else {
            group_routes(groups, host)
        },
{
    let after = file_route(groups, key, key, route_idx);
    let g = group_index(groups, key);
    let h = group_index(groups, host);
    lemma_group_index(groups, key);
    lemma_group_index(groups, host);
    if g < groups.len() {
        assert forall|j: int| 0 <= j < after.len() implies (#[trigger] after[j]).0 == groups[j].0 by {}
        lemma_group_index_is(after, host, h);
        if host == key {
            assert(h == g);
        } else if h < groups.len() {
            assert(h != g);
            assert(after[h] == groups[h]);
        }
    } else {
        assert forall|j: int| 0 <= j < groups.len() implies (#[trigger] after[j]) == groups[j] by {}
        if host == key {
            lemma_group_index_is(after, host, groups.len() as int);
            assert(group_routes(groups, host) =~= Seq::<usize>::empty());
            assert(Seq::<usize>::empty().push(route_idx) =~= seq![route_idx]);
        } else if h < groups.len() {
            lemma_group_index_is(after, host, h);
        } else {
            lemma_group_index_is(after, host, after.len() as int);
        }
    }
}

/// A route is among the wildcard routes for a host exactly when it is
/// filed under a key that takes the host.
pub proof fn lemma_wildcard_contains(groups: Groups, host: Seq<char>, x: usize)
    ensures
        wildcard_routes(groups, host).contains(x) <==> exists|j: int|
            0 <= j < groups.len() && wildcard_matches((#[trigger] groups[j]).0, host) && groups[j].1.contains(
                x,
            ),
    decreases groups.len(),
{
    if groups.len() > 0 {
        let rest = groups.drop_last();
        let before = wildcard_routes(rest, host);
        let last = if wildcard_matches(groups.last().0, host) {
            groups.last().1
        } else {
            Seq::empty()
        };
        lemma_wildcard_contains(rest, host, x);
        lemma_concat_contains(before, last, Seq::empty(), x);
        assert(before + last + Seq::<usize>::empty() =~= before + last);
        if before.contains(x) {
            let j = choose|j: int|
                0 <= j < rest.len() && wildcard_matches((#[trigger] rest[j]).0, host) && rest[j].1.contains(x);
            assert(groups[j] == rest[j]);
        }
        if last.contains(x) {
            assert(wildcard_matches(groups[groups.len() - 1].0, host) && groups[groups.len() - 1].1.contains(x));
        }
        if exists|j: int|
            0 <= j < groups.len() && wildcard_matches((#[trigger] groups[j]).0, host) && groups[j].1.contains(
                x,
            ) {
            let j = choose|j: int|
                0 <= j < groups.len() && wildcard_matches((#[trigger] groups[j]).0, host) && groups[j].1.contains(
                    x,
                );
            if j < rest.len() {
                assert(rest[j] == groups[j]);
            }
        }
    }
}

/// Filing a route under a wildcard key makes it a wildcard route for the
/// hosts that the key takes, and changes nothing for other routes.
pub proof fn lemma_wildcard_filed(groups: Groups, key: Seq<char>, route_idx: usize, host: Seq<char>, x: usize)
    ensures
        wildcard_routes(file_route(groups, key, key, route_idx), host).contains(x) <==> (wildcard_routes(
            groups,
            host,
        ).contains(x) || (x == route_idx && wildcard_matches(key, host))),
{
    let after = file_route(groups, key, key, route_idx);
    let g = group_index(groups, key);
    lemma_group_index(groups, key);
    lemma_wildcard_contains(groups, host, x);
    lemma_wildcard_contains(after, host, x);
    if g < groups.len() {
        lemma_push_contains(groups[g].1, route_idx, x);
        assert(after[g] == (groups[g].0, groups[g].1.push(route_idx)));
        if exists|j: int|
            0 <= j < groups.len() && wildcard_matches((#[trigger] groups[j]).0, host) && groups[j].1.contains(
                x,
            ) {
            let j = choose|j: int|
                0 <= j < groups.len() && wildcard_matches((#[trigger] groups[j]).0, host) && groups[j].1.contains(
                    x,
                );
            assert(wildcard_matches(after[j].0, host) && after[j].1.contains(x));
        }
        if x == route_idx && wildcard_matches(key, host) {
            assert(wildcard_matches(after[g].0, host) && after[g].1.contains(x));
        }
        if exists|j: int|
            0 <= j < after.len() && wildcard_matches((#[trigger] after[j]).0, host) && after[j].1.contains(x) {
            let j = choose|j: int|
                0 <= j < after.len() && wildcard_matches((#[trigger] after[j]).0, host) && after[j].1.contains(x);
            if j != g {
                assert(after[j] == groups[j]);
            } else if x != route_idx {
                assert(wildcard_matches(groups[g].0, host) && groups[g].1.contains(x));
            }
        }
    } else {
        let n = groups.len() as int;
        assert(after[n] == (key, seq![route_idx]));
        if exists|j: int|
            0 <= j < groups.len() && wildcard_matches((#[trigger] groups[j]).0, host) && groups[j].1.contains(
                x,
            ) {
            let j = choose|j: int|
                0 <= j < groups.len() && wildcard_matches((#[trigger] groups[j]).0, host) && groups[j].1.contains(
                    x,
                );
            assert(after[j] == groups[j]);
        }
        if x == route_idx && wildcard_matches(key, host) {
            assert(seq![route_idx][0] == x);
            assert(wildcard_matches(after[n].0, host) && after[n].1.contains(x));
        }
        if exists|j: int|
            0 <= j < after.len() && wildcard_matches((#[trigger] after[j]).0, host) && after[j].1.contains(x) {
            let j = choose|j: int|
                0 <= j < after.len() && wildcard_matches((#[trigger] after[j]).0, host) && after[j].1.contains(x);
            if j < n {
                assert(after[j] == groups[j]);
            }
        }
    }
}

/// Adding a route makes it a candidate for the hosts that its own
/// condition takes, and changes nothing for other routes.
pub proof fn lemma_add_candidates(
    table: HostTable,
    route_idx: usize,
    condition: Option<Seq<char>>,
    host: Seq<char>,
    x: usize,
)
    ensures
        table.add(route_idx, condition).candidates(host).contains(x) <==> (table.candidates(host).contains(x)
            || (x == route_idx && condition_takes(condition, host))),
{
    let after = table.add(route_idx, condition);
    let name = host_only(host);
    lemma_concat_contains(
        group_routes(table.exact, name),
        wildcard_routes(table.wildcard, name),
        table.any_host,
        x,
    );
    lemma_concat_contains(
        group_routes(after.exact, name),
        wildcard_routes(after.wildcard, name),
        after.any_host,
        x,
    );
    match condition {
        None => {
            lemma_push_contains(table.any_host, route_idx, x);
        },
        Some(pattern) => {
            if has_prefix(pattern, "*."@) {
                lemma_wildcard_filed(table.wildcard, lowercase(pattern.skip(2)), route_idx, name, x);
            } else if has_suffix(pattern, ".*"@) {
                let key = prefix_marker() + lowercase(pattern.take(pattern.len() - 2));
                lemma_wildcard_filed(table.wildcard, key, route_idx, name, x);
            } else {
                let key = lowercase(pattern);
                lemma_group_routes_filed(table.exact, key, route_idx, name);
                lemma_push_contains(group_routes(table.exact, name), route_idx, x);
            }
        },
    }
}

} // verus!
