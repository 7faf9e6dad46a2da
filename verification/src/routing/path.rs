//! Index of routes by path.
//!
//! Path patterns are kept twice: in a radix tree of the `matchit` crate,
//! which answers most lookups in time proportional to the length of the
//! path, and in a plain list that is matched pattern by pattern. The list
//! catches what the tree could not take or does not find. A pattern that
//! ends in `/*` stands for the path before the `/*` and everything below
//! it.

use vstd::prelude::*;
use vstd::string::{StrSliceExecFns, StringExecFns};
use crate::text::{chars_eq, chars_start_with, has_prefix, has_suffix, str_chars};

verus! {

#[verifier::external_type_specification]
#[verifier::external_body]
#[verifier::reject_recursive_types(T)]
pub struct ExRadixRouter<T>(matchit::Router<T>);

/// The routes that were handed to the tree for insertion, in order,
/// whether it took them or not.
pub uninterp spec fn radix_attempts(tree: matchit::Router<Vec<usize>>) -> Seq<Seq<char>>;

/// The values that the tree holds: for each insertion that it took, by the
/// position of that insertion among the attempts, the list of routes
/// stored with it.
pub uninterp spec fn radix_values(tree: matchit::Router<Vec<usize>>) -> Map<int, Seq<usize>>;

/// Whether a tree that has seen the insertions `attempts` takes the route
/// `route`: the outcome of `matchit::Router::insert`.
pub uninterp spec fn radix_accepts(attempts: Seq<Seq<char>>, route: Seq<char>) -> bool;

/// Which insertion a tree that has seen the insertions `attempts` finds
/// for `path`, by its position among the attempts: the outcome of
/// `matchit::Router::at`.
pub uninterp spec fn radix_find(attempts: Seq<Seq<char>>, path: Seq<char>) -> Option<int>;

/// The attempts seen by a new tree: none.
pub open spec fn no_attempts() -> Seq<Seq<char>> {
    Seq::empty()
}

/// The values held by a new tree: none.
pub open spec fn no_values() -> Map<int, Seq<usize>> {
    Map::empty()
}

/// Wraps `matchit::Router::new`: a tree that has seen no insertion and
/// holds no value.
#[verifier::external_body]
fn radix_new() -> (tree: matchit::Router<Vec<usize>>)
    ensures
        radix_attempts(tree) == no_attempts(),
        radix_values(tree) == no_values(),
{
    matchit::Router::new()
}

/// Most opening braces that a route handed to the tree may hold. The
/// tree gives each named parameter a letter and does not return from an
/// insertion that needs more than 25 of them.
pub const MAX_TREE_BRACES: usize = 25;

/// Number of opening braces in a text.
pub open spec fn brace_count(text: Seq<char>) -> nat
    decreases text.len(),
{
    if text.len() == 0 {
        0
    } else {
        brace_count(text.drop_last()) + if text.last() == '{' {
            1nat
        } else {
            0nat
        }
    }
}

/// Wraps `matchit::Router::insert`, for routes with at most
/// `MAX_TREE_BRACES` opening braces. The attempt is recorded; whether the
/// tree takes the route is named by [`radix_accepts`]; where it does, the
/// value is stored under the position of this attempt.
#[verifier::external_body]
fn radix_insert(tree: &mut matchit::Router<Vec<usize>>, route: &str, value: Vec<usize>) -> (taken:
    bool)
    requires
        brace_count(route@) <= MAX_TREE_BRACES,
    ensures
        radix_attempts(*final(tree)) == radix_attempts(*old(tree)).push(route@),
        taken == radix_accepts(radix_attempts(*old(tree)), route@),
        radix_values(*final(tree)) == if taken {
            radix_values(*old(tree)).insert(radix_attempts(*old(tree)).len() as int, value@)
        } else {
            radix_values(*old(tree))
        },
{
    tree.insert(route, value).is_ok()
}

/// Wraps `matchit::Router::at` and copies the value found. Which insertion
/// is found is named by [`radix_find`]; it is one that the tree took.
#[verifier::external_body]
fn radix_at(tree: &matchit::Router<Vec<usize>>, path: &str) -> (found: Option<Vec<usize>>)
    ensures
        match radix_find(radix_attempts(*tree), path@) {
            Some(i) => {
                &&& radix_values(*tree).dom().contains(i)
                &&& found matches Some(v)
                &&& v@ == radix_values(*tree)[i]
            },
            None => found is None,
        },
{
    match tree.at(path) {
        Ok(matched) => Some(matched.value.clone()),
        Err(_) => None,
    }
}

/// Wraps `matchit::Router::at_mut` and appends a route to the value found.
/// Which insertion is found is named by [`radix_find`]; the tree itself is
/// not changed by a lookup.
#[verifier::external_body]
fn radix_push_at(tree: &mut matchit::Router<Vec<usize>>, path: &str, route_idx: usize) -> (found:
    bool)
    ensures
        radix_attempts(*final(tree)) == radix_attempts(*old(tree)),
        match radix_find(radix_attempts(*old(tree)), path@) {
            Some(i) => found && radix_values(*old(tree)).dom().contains(i) && radix_values(
                *final(tree),
            ) == radix_values(*old(tree)).insert(i, radix_values(*old(tree))[i].push(route_idx)),
            None => !found && radix_values(*final(tree)) == radix_values(*old(tree)),
        },
{
    match tree.at_mut(path) {
        Ok(matched) => {
            matched.value.push(route_idx);
            true
        },
        Err(_) => false,
    }
}

/// Routes indexed by their path condition.
#[derive(Debug)]
pub struct PathRouter {
    /// Radix tree from path patterns to the routes that carry them.
    router: matchit::Router<Vec<usize>>,
    /// Routes without a path condition.
    any_path: Vec<usize>,
    /// Every path pattern with its route, in the order of addition.
    patterns: Vec<(String, usize)>,
}

/// Mathematical value of a path index.
pub struct PathTable {
    /// The insertions that the radix tree has seen.
    pub attempts: Seq<Seq<char>>,
    /// The values that the radix tree holds.
    pub values: Map<int, Seq<usize>>,
    /// Routes without a path condition.
    pub any_path: Seq<usize>,
    /// Every path pattern with its route.
    pub patterns: Seq<(Seq<char>, usize)>,
}

/// The value of a list of patterns.
pub open spec fn patterns_view(patterns: Seq<(String, usize)>) -> Seq<(Seq<char>, usize)> {
    Seq::new(patterns.len(), |i: int| (patterns[i].0@, patterns[i].1))
}

/// A pattern in the notation of the radix tree: a trailing `/*` becomes
/// the catch-all segment `/{*rest}`.
pub open spec fn tree_pattern(pattern: Seq<char>) -> Seq<char> {
    if has_suffix(pattern, "/*"@) {
        pattern.take(pattern.len() - 2) + "/{*rest}"@
    } else {
        pattern
    }
}

/// Whether a pattern takes a path, matched without the tree: the two are
/// equal; or the pattern ends in `/*` and the path is what stands before
/// the `/*`, alone or followed by `/` and more; or the pattern is a prefix
/// of the path that ends where the path ends or a `/` follows.
pub open spec fn pattern_matches(pattern: Seq<char>, path: Seq<char>) -> bool {
    pattern == path || if has_suffix(pattern, "/*"@) {
        let prefix = pattern.take(pattern.len() - 2);
        has_prefix(path, prefix) && (path.len() == prefix.len() || path[prefix.len() as int] == '/')
    } else {
        has_prefix(path, pattern) && (path.len() == pattern.len() || path[pattern.len() as int]
            == '/')
    }
}

/// The candidates after the list of patterns is gone through: each route
/// not yet among them whose pattern takes the path is appended.
pub open spec fn with_listed(found: Seq<usize>, patterns: Seq<(Seq<char>, usize)>, path: Seq<char>) -> Seq<
    usize,
>
    decreases patterns.len(),
{
    if patterns.len() == 0 {
        found
    } else {
        let before = with_listed(found, patterns.drop_last(), path);
        if !before.contains(patterns.last().1) && pattern_matches(patterns.last().0, path) {
            before.push(patterns.last().1)
        } else {
            before
        }
    }
}

impl PathTable {
    /// The routes that the radix tree finds for a path.
    pub open spec fn tree_routes(self, path: Seq<char>) -> Seq<usize> {
        match radix_find(self.attempts, path) {
            Some(i) => self.values[i],
            None => Seq::empty(),
        }
    }

    /// The table after a route is added with an optional path condition.
    /// The pattern is listed. In the tree, the route joins the value that
    /// the tree finds for the pattern read as a path; where it finds none,
    /// the pattern is handed to the tree for insertion, unless it holds
    /// more than `MAX_TREE_BRACES` opening braces: such a pattern is left
    /// to the list alone.
    pub open spec fn add(self, route_idx: usize, condition: Option<Seq<char>>) -> PathTable {
        match condition {
            None => PathTable { any_path: self.any_path.push(route_idx), ..self },
            Some(pattern) => {
                let key = tree_pattern(pattern);
                let patterns = self.patterns.push((pattern, route_idx));
                match radix_find(self.attempts, key) {
                    Some(i) => PathTable {
                        values: self.values.insert(i, self.values[i].push(route_idx)),
                        patterns,
                        ..self
                    },
                    None => if brace_count(key) > MAX_TREE_BRACES {
                        PathTable { patterns, ..self }
                    } else {
                        PathTable {
                            attempts: self.attempts.push(key),
                            values: if radix_accepts(self.attempts, key) {
                                self.values.insert(self.attempts.len() as int, seq![route_idx])
                            } else {
                                self.values
                            },
                            patterns,
                            ..self
                        }
                    },
                }
            },
        }
    }

    /// The candidate routes for a path: those that the tree finds, then
    /// those of the listed patterns that take the path and are not yet
    /// there, then the routes without a path condition.
    pub open spec fn candidates(self, path: Seq<char>) -> Seq<usize> {
        with_listed(self.tree_routes(path), self.patterns, path) + self.any_path
    }

    /// Whether a route is a candidate for a path: the tree finds it, or
    /// one of its listed patterns takes the path, or it has no path
    /// condition.
    pub open spec fn takes(self, route_idx: usize, path: Seq<char>) -> bool {
        ||| self.tree_routes(path).contains(route_idx)
        ||| exists|k: int|
            0 <= k < self.patterns.len() && (#[trigger] self.patterns[k]).1 == route_idx
                && pattern_matches(self.patterns[k].0, path)
        ||| self.any_path.contains(route_idx)
    }
}

/// Going through the list adds exactly the routes with a pattern that
/// takes the path.
pub proof fn lemma_with_listed(
    found: Seq<usize>,
    patterns: Seq<(Seq<char>, usize)>,
    path: Seq<char>,
    route_idx: usize,
)
    ensures
        with_listed(found, patterns, path).contains(route_idx) <==> (found.contains(route_idx)
            || exists|k: int|
            0 <= k < patterns.len() && (#[trigger] patterns[k]).1 == route_idx && pattern_matches(
                patterns[k].0,
                path,
            )),
    decreases patterns.len(),
{
    if patterns.len() > 0 {
        let rest = patterns.drop_last();
        let before = with_listed(found, rest, path);
        let after = with_listed(found, patterns, path);
        lemma_with_listed(found, rest, path, route_idx);
        let last = patterns.last();
        if after.contains(route_idx) {
            if !before.contains(route_idx) {
                assert(after == before.push(last.1));
                let w = choose|w: int| 0 <= w < after.len() && after[w] == route_idx;
                if w < before.len() {
                    assert(before[w] == route_idx);
                }
                assert(last.1 == route_idx);
                assert(patterns[patterns.len() - 1] == last);
            } else if !found.contains(route_idx) {
                let k = choose|k: int|
                    0 <= k < rest.len() && (#[trigger] rest[k]).1 == route_idx && pattern_matches(
                        rest[k].0,
                        path,
                    );
                assert(patterns[k] == rest[k]);
            }
        }
        if found.contains(route_idx) {
            assert(before.contains(route_idx));
            let w = choose|w: int| 0 <= w < before.len() && before[w] == route_idx;
            assert(after[w] == route_idx);
        }
        if exists|k: int|
            0 <= k < patterns.len() && (#[trigger] patterns[k]).1 == route_idx && pattern_matches(
                patterns[k].0,
                path,
            ) {
            let k = choose|k: int|
                0 <= k < patterns.len() && (#[trigger] patterns[k]).1 == route_idx
                    && pattern_matches(patterns[k].0, path);
            if k < rest.len() {
                assert(rest[k] == patterns[k]);
                assert(before.contains(route_idx));
                let w = choose|w: int| 0 <= w < before.len() && before[w] == route_idx;
                assert(after[w] == route_idx);
            } else {
                assert(patterns[k] == last);
                if before.contains(route_idx) {
                    let w = choose|w: int| 0 <= w < before.len() && before[w] == route_idx;
                    assert(after[w] == route_idx);
                } else {
                    assert(after == before.push(route_idx));
                    assert(after[before.len() as int] == route_idx);
                }
            }
        }
    }
}

/// Whether a path condition takes a path, matched without the tree: a
/// route without a path condition takes every path.
pub open spec fn condition_takes(condition: Option<Seq<char>>, path: Seq<char>) -> bool {
    match condition {
        None => true,
        Some(pattern) => pattern_matches(pattern, path),
    }
}

impl PathTable {
    /// Whether the list of patterns or the routes without a path
    /// condition give a route for a path.
    pub open spec fn listed_takes(self, route_idx: usize, path: Seq<char>) -> bool {
        ||| exists|k: int|
            0 <= k < self.patterns.len() && (#[trigger] self.patterns[k]).1 == route_idx
                && pattern_matches(self.patterns[k].0, path)
        ||| self.any_path.contains(route_idx)
    }
}

/// Adding a route makes it one that the list gives for the paths that
/// its own condition takes, and changes nothing for other routes.
pub proof fn lemma_add_listed(
    table: PathTable,
    route_idx: usize,
    condition: Option<Seq<char>>,
    path: Seq<char>,
    x: usize,
)
    ensures
        table.add(route_idx, condition).listed_takes(x, path) <==> (table.listed_takes(x, path) || (x
            == route_idx && condition_takes(condition, path))),
{
    let after = table.add(route_idx, condition);
    match condition {
        None => {
            assert(after.patterns == table.patterns);
            assert(after.any_path == table.any_path.push(route_idx));
            if table.any_path.contains(x) {
                let w = choose|w: int| 0 <= w < table.any_path.len() && table.any_path[w] == x;
                assert(after.any_path[w] == x);
            }
            if x == route_idx {
                assert(after.any_path[table.any_path.len() as int] == x);
            }
            if after.any_path.contains(x) && x != route_idx {
                let w = choose|w: int| 0 <= w < after.any_path.len() && after.any_path[w] == x;
                assert(table.any_path[w] == x);
            }
        },
        Some(pattern) => {
            assert(after.any_path == table.any_path);
            assert(after.patterns == table.patterns.push((pattern, route_idx)));
            let n = table.patterns.len() as int;
            if exists|k: int|
                0 <= k < table.patterns.len() && (#[trigger] table.patterns[k]).1 == x && pattern_matches(
                    table.patterns[k].0,
                    path,
                ) {
                let k = choose|k: int|
                    0 <= k < table.patterns.len() && (#[trigger] table.patterns[k]).1 == x && pattern_matches(
                        table.patterns[k].0,
                        path,
                    );
                assert(after.patterns[k] == table.patterns[k]);
            }
            if x == route_idx && pattern_matches(pattern, path) {
                assert(after.patterns[n] == (pattern, route_idx));
            }
            if exists|k: int|
                0 <= k < after.patterns.len() && (#[trigger] after.patterns[k]).1 == x && pattern_matches(
                    after.patterns[k].0,
                    path,
                ) {
                let k = choose|k: int|
                    0 <= k < after.patterns.len() && (#[trigger] after.patterns[k]).1 == x && pattern_matches(
                        after.patterns[k].0,
                        path,
                    );
                if k < n {
                    assert(table.patterns[k] == after.patterns[k]);
                }
            }
        },
    }
}

/// A route is among the candidates for a path exactly when the index takes
/// the path for it.
pub proof fn lemma_path_candidates(table: PathTable, path: Seq<char>, route_idx: usize)
    ensures
        table.candidates(path).contains(route_idx) <==> table.takes(route_idx, path),
{
    let listed = with_listed(table.tree_routes(path), table.patterns, path);
    lemma_with_listed(table.tree_routes(path), table.patterns, path, route_idx);
    let all = table.candidates(path);
    if all.contains(route_idx) {
        let w = choose|w: int| 0 <= w < all.len() && all[w] == route_idx;
        if w < listed.len() {
            assert(listed[w] == route_idx);
        } else {
            assert(table.any_path[w - listed.len()] == route_idx);
        }
    }
    if listed.contains(route_idx) {
        let w = choose|w: int| 0 <= w < listed.len() && listed[w] == route_idx;
        assert(all[w] == route_idx);
    }
    if table.any_path.contains(route_idx) {
        let w = choose|w: int| 0 <= w < table.any_path.len() && table.any_path[w] == route_idx;
        assert(all[listed.len() + w] == route_idx);
    }
}

impl View for PathRouter {
    type V = PathTable;

    closed spec fn view(&self) -> PathTable {
        PathTable {
            attempts: radix_attempts(self.router),
            values: radix_values(self.router),
            any_path: self.any_path@,
            patterns: patterns_view(self.patterns@),
        }
    }
}

fn contains_route(list: &Vec<usize>, route_idx: usize) -> (r: bool)
    ensures
        r == list@.contains(route_idx),
{
    let mut i: usize = 0;
    while i < list.len()
        invariant
            i <= list.len(),
            forall|j: int| 0 <= j < i ==> list@[j] != route_idx,
        decreases list.len() - i,
    {
        if list[i] == route_idx {
            return true;
        }
        i += 1;
    }
    false
}

/// Counts the opening braces of a text.
pub fn count_braces(text: &str) -> (r: usize)
    ensures
        r == brace_count(text@),
{
    let chars = str_chars(text);
    let mut count: usize = 0;
    let mut i: usize = 0;
    assert(chars@.take(0) =~= Seq::<char>::empty());
    while i < chars.len()
        invariant
            i <= chars.len(),
            count <= i,
            count == brace_count(chars@.take(i as int)),
        decreases chars.len() - i,
    {
        assert(chars@.take(i + 1).drop_last() =~= chars@.take(i as int));
        if chars[i] == '{' {
            count += 1;
        }
        i += 1;
    }
    assert(chars@.take(i as int) =~= chars@);
    count
}

impl PathRouter {
    /// An index without routes.
    pub fn new() -> (r: Self)
        ensures
            r@ == (PathTable {
                attempts: Seq::empty(),
                values: Map::empty(),
                any_path: Seq::empty(),
                patterns: Seq::empty(),
            }),
    {
        let r = Self { router: radix_new(), any_path: Vec::new(), patterns: Vec::new() };
        assert(patterns_view(r.patterns@) =~= Seq::empty());
        r
    }

    /// Adds a route with its path condition; `None` stands for every path.
    pub fn add_route(&mut self, route_idx: usize, path_condition: Option<&str>)
        ensures
            final(self)@ == old(self)@.add(
                route_idx,
                match path_condition {
                    Some(p) => Some(p@),
                    None => None,
                },
            ),
    {
        match path_condition {
            None => {
                self.any_path.push(route_idx);
            },
            Some(pattern) => {
                self.patterns.push((pattern.to_owned(), route_idx));
                assert(patterns_view(self.patterns@) =~= patterns_view(old(self).patterns@).push(
                    (pattern@, route_idx),
                ));
                let key = Self::convert_pattern(pattern);
                if !radix_push_at(&mut self.router, key.as_str(), route_idx) && count_braces(key.as_str())
                    <= MAX_TREE_BRACES {
                    let mut routes: Vec<usize> = Vec::new();
                    routes.push(route_idx);
                    let _ = radix_insert(&mut self.router, key.as_str(), routes);
                }
            },
        }
    }

    /// A pattern in the notation of the radix tree.
    pub fn convert_pattern(pattern: &str) -> (r: String)
        ensures
            r@ == tree_pattern(pattern@),
    {
        let chars = str_chars(pattern);
        let n = chars.len();
        proof {
            reveal_strlit("/*");
        }
        if n >= 2 && chars[n - 2] == '/' && chars[n - 1] == '*' {
            assert(pattern@.subrange(n - 2, n as int) =~= "/*"@);
            let mut out = pattern.substring_char(0, n - 2).to_owned();
            out.append("/{*rest}");
            assert(out@ =~= pattern@.take(n - 2) + "/{*rest}"@);
            out
        } else {
            assert(!has_suffix(pattern@, "/*"@)) by {
                if has_suffix(pattern@, "/*"@) {
                    assert(pattern@.subrange(n - 2, n as int)[0] == '/');
                    assert(pattern@.subrange(n - 2, n as int)[1] == '*');
                }
            }
            pattern.to_owned()
        }
    }

    /// The candidate routes for the path of a request.
    pub fn get_candidates(&self, path: &str) -> (r: Vec<usize>)
        ensures
            r@ == self@.candidates(path@),
    {
        let mut candidates: Vec<usize> = match radix_at(&self.router, path) {
            Some(routes) => routes,
            None => Vec::new(),
        };
        assert(candidates@ =~= self@.tree_routes(path@));
        let path_chars = str_chars(path);
        let mut i: usize = 0;
        while i < self.patterns.len()
            invariant
                i <= self.patterns.len(),
                path_chars@ == path@,
                candidates@ == with_listed(
                    self@.tree_routes(path@),
                    patterns_view(self.patterns@).subrange(0, i as int),
                    path@,
                ),
            decreases self.patterns.len() - i,
        {
            let ghost listed = patterns_view(self.patterns@);
            assert(listed.subrange(0, i + 1).drop_last() =~= listed.subrange(0, i as int));
            let idx = self.patterns[i].1;
            if !contains_route(&candidates, idx) {
                let pattern_chars = str_chars(self.patterns[i].0.as_str());
                if Self::matches_pattern(pattern_chars.as_slice(), path_chars.as_slice()) {
                    candidates.push(idx);
                }
            }
            i += 1;
        }
        assert(patterns_view(self.patterns@).subrange(0, self.patterns.len() as int) =~= patterns_view(
            self.patterns@,
        ));
        candidates.extend_from_slice(self.any_path.as_slice());
        assert(candidates@ =~= self@.candidates(path@));
        candidates
    }

    /// Whether a pattern takes a path, matched without the tree.
    pub fn matches_pattern(pattern: &[char], path: &[char]) -> (r: bool)
        ensures
            r == pattern_matches(pattern@, path@),
    {
        if chars_eq(pattern, path) {
            return true;
        }
        let n = pattern.len();
        proof {
            reveal_strlit("/*");
        }
        if n >= 2 && pattern[n - 2] == '/' && pattern[n - 1] == '*' {
            assert(pattern@.subrange(n - 2, n as int) =~= "/*"@);
            let prefix = vstd::slice::slice_subrange(pattern, 0, n - 2);
            assert(prefix@ =~= pattern@.take(n - 2));
            return chars_start_with(path, prefix) && (path.len() == prefix.len() || path[prefix.len()]
                == '/');
        }
        assert(!has_suffix(pattern@, "/*"@)) by {
            if has_suffix(pattern@, "/*"@) {
                assert(pattern@.subrange(n - 2, n as int)[0] == '/');
                assert(pattern@.subrange(n - 2, n as int)[1] == '*');
            }
        }
        chars_start_with(path, pattern) && (path.len() == pattern.len() || path[pattern.len()] == '/')
    }

    /// Number of path patterns added.
    pub fn patterns_count(&self) -> (r: usize)
        ensures
            r == self@.patterns.len(),
    {
        self.patterns.len()
    }
}

impl Default for PathRouter {
    fn default() -> (r: Self)
        ensures
            r@ == (PathTable {
                attempts: Seq::empty(),
                values: Map::empty(),
                any_path: Seq::empty(),
                patterns: Seq::empty(),
            }),
    {
        Self::new()
    }
}

} // verus!
