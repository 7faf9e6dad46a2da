//! Index of routes by source address.
//!
//! A source condition is a list of address patterns: CIDR ranges
//! (`address/prefix length`) and single addresses. A route without a source
//! condition takes every address. Addresses are handled as plain numbers:
//! 32 bits for IPv4, 128 bits for IPv6.

use vstd::prelude::*;
use crate::text::{find_byte, first_index, parse_decimal, parse_unsigned};

verus! {

/// An IP address as a number, most significant byte first.
#[derive(Debug, Clone, Copy, PartialEq, Eq, Hash, Structural)]
pub enum IpAddress {
    /// An IPv4 address.
    V4(u32),
    /// An IPv6 address.
    V6(u128),
}

/// One address pattern of a source condition.
#[derive(Debug, Clone, Copy, PartialEq, Eq, Structural)]
pub enum IpPattern {
    /// The addresses that agree with `network` in their first `prefix_len`
    /// bits.
    Range {
        /// An address of the range.
        network: IpAddress,
        /// Number of leading bits that count.
        prefix_len: u8,
    },
    /// One address.
    Exact(IpAddress),
}

/// A CIDR range with the routes that name it.
#[derive(Debug, Clone)]
pub struct CidrRange {
    /// An address of the range, as a number.
    pub network: u128,
    /// Number of leading bits that count.
    pub prefix_len: u8,
    /// The routes that name the range.
    pub routes: Vec<usize>,
}

/// Mathematical value of a CIDR range with its routes.
pub struct RangeModel {
    pub network: u128,
    pub prefix_len: u8,
    pub routes: Seq<usize>,
}

impl View for CidrRange {
    type V = RangeModel;

    open spec fn view(&self) -> RangeModel {
        RangeModel { network: self.network, prefix_len: self.prefix_len, routes: self.routes@ }
    }
}

/// Routes indexed by their source condition.
#[derive(Debug, Clone)]
pub struct CidrMatcher {
    /// IPv4 ranges.
    v4_ranges: Vec<CidrRange>,
    /// IPv6 ranges.
    v6_ranges: Vec<CidrRange>,
    /// Single addresses, each with the routes that name it. No address
    /// occurs twice.
    exact_ips: Vec<(IpAddress, Vec<usize>)>,
    /// Routes without a source condition.
    any_ip: Vec<usize>,
}

/// Mathematical value of a source index.
pub struct CidrTable {
    pub v4_ranges: Seq<RangeModel>,
    pub v6_ranges: Seq<RangeModel>,
    pub exact_ips: Seq<(IpAddress, Seq<usize>)>,
    pub any_ip: Seq<usize>,
}

/// The value of a list of ranges.
pub open spec fn ranges_view(ranges: Seq<CidrRange>) -> Seq<RangeModel> {
    Seq::new(ranges.len(), |i: int| ranges[i]@)
}

/// The value of a list of single addresses.
pub open spec fn exact_view(list: Seq<(IpAddress, Vec<usize>)>) -> Seq<(IpAddress, Seq<usize>)> {
    Seq::new(list.len(), |i: int| (list[i].0, list[i].1@))
}

/// The mask that keeps the first `prefix_len` of `bits` bits; all bits
/// where the prefix length is the width or more.
pub open spec fn prefix_mask(bits: u8, prefix_len: u8) -> u128 {
    if prefix_len == 0 {
        0
    } else if prefix_len >= bits {
        0xffff_ffff_ffff_ffff_ffff_ffff_ffff_ffff
    } else {
        !(((1u128 << ((bits - prefix_len) as u128)) - 1) as u128)
    }
}

/// Whether the range of `network` with `prefix_len` leading bits holds the
/// address `ip`, both of `bits` bits.
pub open spec fn range_holds(bits: u8, network: u128, prefix_len: u8, ip: u128) -> bool {
    (ip & prefix_mask(bits, prefix_len)) == (network & prefix_mask(bits, prefix_len))
}

/// Where the range of `network` and `prefix_len` stands in a list; the
/// length of the list where it does not occur.
pub open spec fn range_index(ranges: Seq<RangeModel>, network: u128, prefix_len: u8) -> int
    decreases ranges.len(),
{
    if ranges.len() == 0 {
        0
    } else if ranges[0].network == network && ranges[0].prefix_len == prefix_len {
        0
    } else {
        1 + range_index(ranges.drop_first(), network, prefix_len)
    }
}

/// The ranges after a route is filed under a range: it joins the routes of
/// that range unless it is among them already; a range not yet known is
/// appended.
pub open spec fn file_range(ranges: Seq<RangeModel>, network: u128, prefix_len: u8, route_idx: usize) -> Seq<
    RangeModel,
> {
    let i = range_index(ranges, network, prefix_len);
    if 0 <= i < ranges.len() {
        if ranges[i].routes.contains(route_idx) {
            ranges
        } else {
            ranges.update(i, RangeModel { routes: ranges[i].routes.push(route_idx), ..ranges[i] })
        }
    } else {
        ranges.push(RangeModel { network, prefix_len, routes: seq![route_idx] })
    }
}

/// Where an address stands in a list of single addresses; the length of
/// the list where it does not occur.
pub open spec fn exact_index(list: Seq<(IpAddress, Seq<usize>)>, ip: IpAddress) -> int
    decreases list.len(),
{
    if list.len() == 0 {
        0
    } else if list[0].0 == ip {
        0
    } else {
        1 + exact_index(list.drop_first(), ip)
    }
}

/// The list of single addresses after a route is filed under an address.
pub open spec fn file_exact(list: Seq<(IpAddress, Seq<usize>)>, ip: IpAddress, route_idx: usize) -> Seq<
    (IpAddress, Seq<usize>),
> {
    let i = exact_index(list, ip);
    if 0 <= i < list.len() {
        list.update(i, (ip, list[i].1.push(route_idx)))
    } else {
        list.push((ip, seq![route_idx]))
    }
}

/// The routes filed under a single address.
pub open spec fn exact_routes(list: Seq<(IpAddress, Seq<usize>)>, ip: IpAddress) -> Seq<usize> {
    let i = exact_index(list, ip);
    if 0 <= i < list.len() {
        list[i].1
    } else {
        Seq::empty()
    }
}

/// The candidates after the routes `routes` are gone through: each one not
/// yet among the candidates is appended.
pub open spec fn with_new(found: Seq<usize>, routes: Seq<usize>) -> Seq<usize>
    decreases routes.len(),
{
    if routes.len() == 0 {
        found
    } else {
        let before = with_new(found, routes.drop_last());
        if before.contains(routes.last()) {
            before
        } else {
            before.push(routes.last())
        }
    }
}

/// The candidates after the ranges are gone through in order: the routes
/// of each range that holds the address are added.
pub open spec fn with_ranges(found: Seq<usize>, bits: u8, ranges: Seq<RangeModel>, ip: u128) -> Seq<usize>
    decreases ranges.len(),
{
    if ranges.len() == 0 {
        found
    } else {
        let before = with_ranges(found, bits, ranges.drop_last(), ip);
        if range_holds(bits, ranges.last().network, ranges.last().prefix_len, ip) {
            with_new(before, ranges.last().routes)
        } else {
            before
        }
    }
}

/// Where a range of prefix length `prefix_len` goes into a list sorted by
/// descending prefix length: before the first range with a shorter prefix.
pub open spec fn insert_position(sorted: Seq<RangeModel>, prefix_len: u8) -> int
    decreases sorted.len(),
{
    if sorted.len() == 0 {
        0
    } else if sorted[0].prefix_len < prefix_len {
        0
    } else {
        1 + insert_position(sorted.drop_first(), prefix_len)
    }
}

/// A list of ranges sorted by descending prefix length; ranges of equal
/// prefix length keep their order.
pub open spec fn sorted_ranges(ranges: Seq<RangeModel>) -> Seq<RangeModel>
    decreases ranges.len(),
{
    if ranges.len() == 0 {
        Seq::empty()
    } else {
        let before = sorted_ranges(ranges.drop_last());
        before.insert(insert_position(before, ranges.last().prefix_len), ranges.last())
    }
}

/// Whether the prefix lengths of a list of ranges never increase.
pub open spec fn is_descending(ranges: Seq<RangeModel>) -> bool {
    forall|i: int, j: int|
        0 <= i < j < ranges.len() ==> (#[trigger] ranges[i]).prefix_len >= (#[trigger] ranges[j]).prefix_len
}

/// The ranges of a list that hold an address and name a route.
pub open spec fn some_range_takes(bits: u8, ranges: Seq<RangeModel>, ip: u128, route_idx: usize) -> bool {
    exists|k: int|
        0 <= k < ranges.len() && range_holds(
            bits,
            (#[trigger] ranges[k]).network,
            ranges[k].prefix_len,
            ip,
        ) && ranges[k].routes.contains(route_idx)
}

impl CidrTable {
    /// The table after one address pattern of a route is added. A range
    /// whose prefix length exceeds the width of its address is dropped.
    pub open spec fn add_pattern(self, route_idx: usize, pattern: IpPattern) -> CidrTable {
        match pattern {
            IpPattern::Range { network: IpAddress::V4(n), prefix_len } => if prefix_len <= 32 {
                CidrTable { v4_ranges: file_range(self.v4_ranges, n as u128, prefix_len, route_idx), ..self }
            } else {
                self
            },
            IpPattern::Range { network: IpAddress::V6(n), prefix_len } => if prefix_len <= 128 {
                CidrTable { v6_ranges: file_range(self.v6_ranges, n, prefix_len, route_idx), ..self }
            } else {
                self
            },
            IpPattern::Exact(ip) => CidrTable { exact_ips: file_exact(self.exact_ips, ip, route_idx), ..self },
        }
    }

    /// The table after the address patterns of a route are added in order.
    pub open spec fn add_patterns(self, route_idx: usize, patterns: Seq<IpPattern>) -> CidrTable
        decreases patterns.len(),
    {
        if patterns.len() == 0 {
            self
        } else {
            self.add_patterns(route_idx, patterns.drop_last()).add_pattern(route_idx, patterns.last())
        }
    }

    /// The table with its ranges sorted, most specific first.
    pub open spec fn sorted(self) -> CidrTable {
        CidrTable {
            v4_ranges: sorted_ranges(self.v4_ranges),
            v6_ranges: sorted_ranges(self.v6_ranges),
            ..self
        }
    }

    /// The table after a route is added with an optional source condition.
    pub open spec fn add(self, route_idx: usize, condition: Option<Seq<IpPattern>>) -> CidrTable {
        match condition {
            None => CidrTable { any_ip: self.any_ip.push(route_idx), ..self },
            Some(patterns) => self.add_patterns(route_idx, patterns),
        }
    }

    /// The candidate routes for a source address: those filed under the
    /// address itself, then those of the ranges of its family that hold it,
    /// each route once, then those without a source condition.
    pub open spec fn candidates(self, ip: IpAddress) -> Seq<usize> {
        (match ip {
            IpAddress::V4(a) => with_ranges(exact_routes(self.exact_ips, ip), 32, self.v4_ranges, a as u128),
            IpAddress::V6(a) => with_ranges(exact_routes(self.exact_ips, ip), 128, self.v6_ranges, a),
        }) + self.any_ip
    }

    /// Whether a route is a candidate for a source address: it is filed
    /// under the address, or under a range of its family that holds it, or
    /// it has no source condition.
    pub open spec fn takes(self, route_idx: usize, ip: IpAddress) -> bool {
        ||| exact_routes(self.exact_ips, ip).contains(route_idx)
        ||| match ip {
            IpAddress::V4(a) => some_range_takes(32, self.v4_ranges, a as u128, route_idx),
            IpAddress::V6(a) => some_range_takes(128, self.v6_ranges, a, route_idx),
        }
        ||| self.any_ip.contains(route_idx)
    }

    /// Whether any route has a source condition that was kept.
    pub open spec fn has_conditions(self) -> bool {
        self.v4_ranges.len() > 0 || self.v6_ranges.len() > 0 || self.exact_ips.len() > 0
    }

}

impl View for CidrMatcher {
    type V = CidrTable;

    closed spec fn view(&self) -> CidrTable {
        CidrTable {
            v4_ranges: ranges_view(self.v4_ranges@),
            v6_ranges: ranges_view(self.v6_ranges@),
            exact_ips: exact_view(self.exact_ips@),
            any_ip: self.any_ip@,
        }
    }
}

/// Going through a list of routes adds exactly those routes.
pub proof fn lemma_with_new(found: Seq<usize>, routes: Seq<usize>, route_idx: usize)
    ensures
        with_new(found, routes).contains(route_idx) <==> (found.contains(route_idx) || routes.contains(
            route_idx,
        )),
    decreases routes.len(),
{
    if routes.len() > 0 {
        let rest = routes.drop_last();
        let before = with_new(found, rest);
        let after = with_new(found, routes);
        lemma_with_new(found, rest, route_idx);
        if after.contains(route_idx) && !before.contains(route_idx) {
            let w = choose|w: int| 0 <= w < after.len() && after[w] == route_idx;
            if w < before.len() {
                assert(before[w] == route_idx);
            }
            assert(routes[routes.len() - 1] == route_idx);
        }
        if before.contains(route_idx) {
            let w = choose|w: int| 0 <= w < before.len() && before[w] == route_idx;
            assert(after[w] == route_idx);
        }
        if rest.contains(route_idx) {
            let w = choose|w: int| 0 <= w < rest.len() && rest[w] == route_idx;
            assert(routes[w] == route_idx);
        }
        if routes.contains(route_idx) {
            let w = choose|w: int| 0 <= w < routes.len() && routes[w] == route_idx;
            if w < rest.len() {
                assert(rest[w] == route_idx);
            } else if !before.contains(route_idx) {
                assert(after[before.len() as int] == route_idx);
            }
        }
    }
}

/// Going through a list of ranges adds exactly the routes of the ranges
/// that hold the address.
pub proof fn lemma_with_ranges(
    found: Seq<usize>,
    bits: u8,
    ranges: Seq<RangeModel>,
    ip: u128,
    route_idx: usize,
)
    ensures
        with_ranges(found, bits, ranges, ip).contains(route_idx) <==> (found.contains(route_idx)
            || some_range_takes(bits, ranges, ip, route_idx)),
    decreases ranges.len(),
{
    if ranges.len() > 0 {
        let rest = ranges.drop_last();
        let last = ranges.last();
        let before = with_ranges(found, bits, rest, ip);
        lemma_with_ranges(found, bits, rest, ip, route_idx);
        lemma_with_new(before, last.routes, route_idx);
        if some_range_takes(bits, rest, ip, route_idx) {
            let k = choose|k: int|
                0 <= k < rest.len() && range_holds(bits, (#[trigger] rest[k]).network, rest[k].prefix_len, ip)
                    && rest[k].routes.contains(route_idx);
            assert(ranges[k] == rest[k]);
        }
        if some_range_takes(bits, ranges, ip, route_idx) {
            let k = choose|k: int|
                0 <= k < ranges.len() && range_holds(
                    bits,
                    (#[trigger] ranges[k]).network,
                    ranges[k].prefix_len,
                    ip,
                ) && ranges[k].routes.contains(route_idx);
            if k < rest.len() {
                assert(rest[k] == ranges[k]);
            }
        }
        if range_holds(bits, last.network, last.prefix_len, ip) && last.routes.contains(route_idx) {
            assert(ranges[ranges.len() - 1] == last);
        }
    }
}

/// A route is among the candidates for an address exactly when the index
/// takes the address for it.
pub proof fn lemma_cidr_candidates(table: CidrTable, ip: IpAddress, route_idx: usize)
    ensures
        table.candidates(ip).contains(route_idx) <==> table.takes(route_idx, ip),
{
    let exact = exact_routes(table.exact_ips, ip);
    let ranged = match ip {
        IpAddress::V4(a) => with_ranges(exact, 32, table.v4_ranges, a as u128),
        IpAddress::V6(a) => with_ranges(exact, 128, table.v6_ranges, a),
    };
    match ip {
        IpAddress::V4(a) => lemma_with_ranges(exact, 32, table.v4_ranges, a as u128, route_idx),
        IpAddress::V6(a) => lemma_with_ranges(exact, 128, table.v6_ranges, a, route_idx),
    }
    let all = table.candidates(ip);
    assert(all == ranged + table.any_ip);
    if all.contains(route_idx) {
        let w = choose|w: int| 0 <= w < all.len() && all[w] == route_idx;
        if w < ranged.len() {
            assert(ranged[w] == route_idx);
        } else {
            assert(table.any_ip[w - ranged.len()] == route_idx);
        }
    }
    if ranged.contains(route_idx) {
        let w = choose|w: int| 0 <= w < ranged.len() && ranged[w] == route_idx;
        assert(all[w] == route_idx);
    }
    if table.any_ip.contains(route_idx) {
        let w = choose|w: int| 0 <= w < table.any_ip.len() && table.any_ip[w] == route_idx;
        assert(all[ranged.len() + w] == route_idx);
    }
}

proof fn lemma_insert_position(sorted: Seq<RangeModel>, prefix_len: u8)
    ensures
        0 <= insert_position(sorted, prefix_len) <= sorted.len(),
        forall|j: int|
            0 <= j < insert_position(sorted, prefix_len) ==> (#[trigger] sorted[j]).prefix_len >= prefix_len,
        insert_position(sorted, prefix_len) < sorted.len() ==> sorted[insert_position(
            sorted,
            prefix_len,
        )].prefix_len < prefix_len,
    decreases sorted.len(),
{
    if sorted.len() > 0 && sorted[0].prefix_len >= prefix_len {
        let rest = sorted.drop_first();
        lemma_insert_position(rest, prefix_len);
        assert forall|j: int| 0 <= j < insert_position(sorted, prefix_len) implies (
        #[trigger] sorted[j]).prefix_len >= prefix_len by {
            if j > 0 {
                assert(sorted[j] == rest[j - 1]);
            }
        }
        if insert_position(sorted, prefix_len) < sorted.len() {
            assert(sorted[insert_position(sorted, prefix_len)] == rest[insert_position(rest, prefix_len)]);
        }
    }
}

/// Sorting keeps the ranges, orders them by descending prefix length, and
/// changes nothing about which routes are taken for an address.
pub proof fn lemma_sorted_ranges(ranges: Seq<RangeModel>)
    ensures
        sorted_ranges(ranges).len() == ranges.len(),
        is_descending(sorted_ranges(ranges)),
        forall|r: RangeModel| sorted_ranges(ranges).contains(r) <==> ranges.contains(r),
    decreases ranges.len(),
{
    if ranges.len() > 0 {
        let rest = ranges.drop_last();
        let last = ranges.last();
        let before = sorted_ranges(rest);
        lemma_sorted_ranges(rest);
        lemma_insert_position(before, last.prefix_len);
        let p = insert_position(before, last.prefix_len);
        let after = before.insert(p, last);
        assert forall|i: int, j: int| 0 <= i < j < after.len() implies (#[trigger] after[i]).prefix_len >= (
        #[trigger] after[j]).prefix_len by {
            if i < p && j > p {
                assert(after[i] == before[i]);
                assert(after[j] == before[j - 1]);
                if i < j - 1 {
                    assert(before[i].prefix_len >= before[j - 1].prefix_len);
                }
            } else if i < p && j == p {
                assert(after[i] == before[i]);
            } else if i < p && j < p {
                assert(after[i] == before[i]);
                assert(after[j] == before[j]);
            } else if i == p {
                assert(after[j] == before[j - 1]);
                if p < j - 1 {
                    assert(before[p].prefix_len >= before[j - 1].prefix_len);
                }
            } else {
                assert(after[i] == before[i - 1]);
                assert(after[j] == before[j - 1]);
            }
        }
        assert forall|r: RangeModel| after.contains(r) <==> ranges.contains(r) by {
            if after.contains(r) {
                let w = choose|w: int| 0 <= w < after.len() && after[w] == r;
                if w < p {
                    assert(before[w] == r);
                    assert(before.contains(r));
                    assert(rest.contains(r));
                    let v = choose|v: int| 0 <= v < rest.len() && rest[v] == r;
                    assert(ranges[v] == r);
                } else if w == p {
                    assert(ranges[ranges.len() - 1] == r);
                } else {
                    assert(before[w - 1] == r);
                    assert(before.contains(r));
                    assert(rest.contains(r));
                    let v = choose|v: int| 0 <= v < rest.len() && rest[v] == r;
                    assert(ranges[v] == r);
                }
            }
            if ranges.contains(r) {
                let v = choose|v: int| 0 <= v < ranges.len() && ranges[v] == r;
                if v < rest.len() {
                    assert(rest[v] == r);
                    assert(rest.contains(r));
                    assert(before.contains(r));
                    let w = choose|w: int| 0 <= w < before.len() && before[w] == r;
                    if w < p {
                        assert(after[w] == r);
                    } else {
                        assert(after[w + 1] == r);
                    }
                } else {
                    assert(after[p] == r);
                }
            }
        }
    }
}

/// Sorting the ranges changes nothing about which routes are taken for an
/// address.
pub proof fn lemma_sorted_takes(bits: u8, ranges: Seq<RangeModel>, ip: u128, route_idx: usize)
    ensures
        some_range_takes(bits, sorted_ranges(ranges), ip, route_idx) <==> some_range_takes(
            bits,
            ranges,
            ip,
            route_idx,
        ),
{
    lemma_sorted_ranges(ranges);
    let sorted = sorted_ranges(ranges);
    if some_range_takes(bits, sorted, ip, route_idx) {
        let k = choose|k: int|
            0 <= k < sorted.len() && range_holds(bits, (#[trigger] sorted[k]).network, sorted[k].prefix_len, ip)
                && sorted[k].routes.contains(route_idx);
        assert(sorted.contains(sorted[k]));
        assert(ranges.contains(sorted[k]));
        let v = choose|v: int| 0 <= v < ranges.len() && ranges[v] == sorted[k];
        assert(range_holds(bits, ranges[v].network, ranges[v].prefix_len, ip));
    }
    if some_range_takes(bits, ranges, ip, route_idx) {
        let k = choose|k: int|
            0 <= k < ranges.len() && range_holds(bits, (#[trigger] ranges[k]).network, ranges[k].prefix_len, ip)
                && ranges[k].routes.contains(route_idx);
        assert(ranges.contains(ranges[k]));
        assert(sorted.contains(ranges[k]));
        let v = choose|v: int| 0 <= v < sorted.len() && sorted[v] == ranges[k];
        assert(range_holds(bits, sorted[v].network, sorted[v].prefix_len, ip));
    }
}

proof fn lemma_range_index(ranges: Seq<RangeModel>, network: u128, prefix_len: u8, k: int)
    requires
        0 <= k <= ranges.len(),
        k < ranges.len() ==> ranges[k].network == network && ranges[k].prefix_len == prefix_len,
        forall|j: int|
            0 <= j < k ==> !((#[trigger] ranges[j]).network == network && ranges[j].prefix_len == prefix_len),
    ensures
        range_index(ranges, network, prefix_len) == k,
    decreases ranges.len(),
{
    if ranges.len() > 0 && k > 0 {
        assert(!(ranges[0].network == network && ranges[0].prefix_len == prefix_len));
        let rest = ranges.drop_first();
        assert forall|j: int| 0 <= j < k - 1 implies !((#[trigger] rest[j]).network == network
            && rest[j].prefix_len == prefix_len) by {
            assert(rest[j] == ranges[j + 1]);
        }
        lemma_range_index(rest, network, prefix_len, k - 1);
    }
}

proof fn lemma_exact_index(list: Seq<(IpAddress, Seq<usize>)>, ip: IpAddress, k: int)
    requires
        0 <= k <= list.len(),
        k < list.len() ==> list[k].0 == ip,
        forall|j: int| 0 <= j < k ==> (#[trigger] list[j]).0 != ip,
    ensures
        exact_index(list, ip) == k,
    decreases list.len(),
{
    if list.len() > 0 && k > 0 {
        assert(list[0].0 != ip);
        let rest = list.drop_first();
        assert forall|j: int| 0 <= j < k - 1 implies (#[trigger] rest[j]).0 != ip by {
            assert(rest[j] == list[j + 1]);
        }
        lemma_exact_index(rest, ip, k - 1);
    }
}

fn contains_route(list: &Vec<usize>, route_idx: usize) -> (r: bool)
    ensures
        r == list@.contains(route_idx),
{
    let mut i: usize = 0;
    while i < list.len()
        invariant
            i <= list.len(),
            forall|j: int| 0 <= j < i ==> list@[j] != route_idx,
        decreases list.len() - i,
    {
        if list[i] == route_idx {
            return true;
        }
        i += 1;
    }
    false
}

fn file_range_into(ranges: &mut Vec<CidrRange>, network: u128, prefix_len: u8, route_idx: usize)
    ensures
        ranges_view(final(ranges)@) == file_range(ranges_view(old(ranges)@), network, prefix_len, route_idx),
{
    let ghost before = ranges_view(ranges@);
    let mut i: usize = 0;
    while i < ranges.len() && !(ranges[i].network == network && ranges[i].prefix_len == prefix_len)
        invariant
            i <= ranges.len(),
            ranges@ == old(ranges)@,
            before == ranges_view(ranges@),
            forall|j: int|
                0 <= j < i ==> !((#[trigger] before[j]).network == network && before[j].prefix_len
                    == prefix_len),
        decreases ranges.len() - i,
    {
        i += 1;
    }
    proof {
        lemma_range_index(before, network, prefix_len, i as int);
    }
    if i < ranges.len() {
        if !contains_route(&ranges[i].routes, route_idx) {
            let mut range = ranges.remove(i);
            range.routes.push(route_idx);
            ranges.insert(i, range);
        }
        assert(ranges_view(ranges@) =~= file_range(before, network, prefix_len, route_idx));
    } else {
        let mut routes: Vec<usize> = Vec::new();
        routes.push(route_idx);
        ranges.push(CidrRange { network, prefix_len, routes });
        assert(ranges_view(ranges@) =~= file_range(before, network, prefix_len, route_idx));
    }
}

fn file_exact_into(list: &mut Vec<(IpAddress, Vec<usize>)>, ip: IpAddress, route_idx: usize)
    ensures
        exact_view(final(list)@) == file_exact(exact_view(old(list)@), ip, route_idx),
{
    let ghost before = exact_view(list@);
    let i = find_exact(list, ip);
    if i < list.len() {
        let (key, mut routes) = list.remove(i);
        routes.push(route_idx);
        list.insert(i, (key, routes));
        assert(exact_view(list@) =~= file_exact(before, ip, route_idx));
    } else {
        let mut routes: Vec<usize> = Vec::new();
        routes.push(route_idx);
        list.push((ip, routes));
        assert(exact_view(list@) =~= file_exact(before, ip, route_idx));
    }
}

fn find_exact(list: &Vec<(IpAddress, Vec<usize>)>, ip: IpAddress) -> (i: usize)
    ensures
        i == exact_index(exact_view(list@), ip),
        i <= list.len(),
        i < list.len() ==> list@[i as int].0 == ip,
{
    let mut i: usize = 0;
    while i < list.len() && !(list[i].0 == ip)
        invariant
            i <= list.len(),
            forall|j: int| 0 <= j < i ==> (#[trigger] exact_view(list@)[j]).0 != ip,
        decreases list.len() - i,
    {
        i += 1;
    }
    proof {
        lemma_exact_index(exact_view(list@), ip, i as int);
    }
    i
}

fn mask_of(bits: u8, prefix_len: u8) -> (r: u128)
    requires
        bits <= 128,
    ensures
        r == prefix_mask(bits, prefix_len),
{
    if prefix_len == 0 {
        0
    } else if prefix_len >= bits {
        0xffff_ffff_ffff_ffff_ffff_ffff_ffff_ffff
    } else {
        let shift: u32 = (bits - prefix_len) as u32;
        let one: u128 = 1;
        assert((one << (shift as u128)) >= 1) by (bit_vector)
            requires
                one == 1,
                shift < 128,
        ;
        !((one << shift) - 1)
    }
}

fn add_new(found: &mut Vec<usize>, routes: &Vec<usize>)
    ensures
        final(found)@ == with_new(old(found)@, routes@),
{
    let mut i: usize = 0;
    while i < routes.len()
        invariant
            i <= routes.len(),
            found@ == with_new(old(found)@, routes@.subrange(0, i as int)),
        decreases routes.len() - i,
    {
        assert(routes@.subrange(0, i + 1).drop_last() =~= routes@.subrange(0, i as int));
        if !contains_route(found, routes[i]) {
            found.push(routes[i]);
        }
        i += 1;
    }
    assert(routes@.subrange(0, routes.len() as int) =~= routes@);
}

fn add_ranges(found: &mut Vec<usize>, bits: u8, ranges: &Vec<CidrRange>, ip: u128)
    requires
        bits <= 128,
    ensures
        final(found)@ == with_ranges(old(found)@, bits, ranges_view(ranges@), ip),
{
    let mut i: usize = 0;
    while i < ranges.len()
        invariant
            i <= ranges.len(),
            bits <= 128,
            found@ == with_ranges(old(found)@, bits, ranges_view(ranges@).subrange(0, i as int), ip),
        decreases ranges.len() - i,
    {
        let ghost all = ranges_view(ranges@);
        assert(all.subrange(0, i + 1).drop_last() =~= all.subrange(0, i as int));
        let mask = mask_of(bits, ranges[i].prefix_len);
        if (ip & mask) == (ranges[i].network & mask) {
            add_new(found, &ranges[i].routes);
        }
        i += 1;
    }
    assert(ranges_view(ranges@).subrange(0, ranges.len() as int) =~= ranges_view(ranges@));
}

fn sort_ranges(ranges: &mut Vec<CidrRange>)
    ensures
        ranges_view(final(ranges)@) == sorted_ranges(ranges_view(old(ranges)@)),
{
    let ghost all = ranges_view(ranges@);
    let mut source: Vec<CidrRange> = Vec::new();
    std::mem::swap(ranges, &mut source);
    let ghost total = source.len();
    let mut done: usize = 0;
    assert(all.subrange(0, 0) =~= Seq::<RangeModel>::empty());
    assert(ranges_view(ranges@) =~= Seq::<RangeModel>::empty());
    while source.len() > 0
        invariant
            done + source.len() == total,
            total == all.len(),
            ranges_view(source@) == all.subrange(done as int, total as int),
            ranges_view(ranges@) == sorted_ranges(all.subrange(0, done as int)),
        decreases source.len(),
    {
        let ghost sorted = ranges_view(ranges@);
        let ghost rest = ranges_view(source@);
        let ghost old_source = source@;
        let range = source.remove(0);
        assert(source@ =~= old_source.subrange(1, old_source.len() as int));
        assert(ranges_view(source@) =~= all.subrange(done + 1, total as int)) by {
            assert forall|k: int| 0 <= k < source@.len() implies ranges_view(source@)[k] == all[done + 1
                + k] by {
                assert(source@[k] == old_source[k + 1]);
                assert(rest[k + 1] == all[done + 1 + k]);
            }
        }
        assert(range@ == all[done as int]) by {
            assert(rest[0] == all[done as int]);
        }
        let mut p: usize = 0;
        while p < ranges.len() && ranges[p].prefix_len >= range.prefix_len
            invariant
                p <= ranges.len(),
                ranges_view(ranges@) == sorted,
                forall|j: int| 0 <= j < p ==> (#[trigger] sorted[j]).prefix_len >= range.prefix_len,
            decreases ranges.len() - p,
        {
            p += 1;
        }
        proof {
            lemma_insert_position_is(sorted, range.prefix_len, p as int);
            assert(all.subrange(0, done + 1).drop_last() =~= all.subrange(0, done as int));
            assert(all.subrange(0, done + 1).last() == all[done as int]);
        }
        ranges.insert(p, range);
        assert(ranges_view(ranges@) =~= sorted.insert(p as int, range@));
        assert(ranges_view(source@) =~= all.subrange(done + 1, total as int));
        done += 1;
    }
    assert(all.subrange(0, total as int) =~= all);
}

proof fn lemma_insert_position_is(sorted: Seq<RangeModel>, prefix_len: u8, p: int)
    requires
        0 <= p <= sorted.len(),
        forall|j: int| 0 <= j < p ==> (#[trigger] sorted[j]).prefix_len >= prefix_len,
        p < sorted.len() ==> sorted[p].prefix_len < prefix_len,
    ensures
        insert_position(sorted, prefix_len) == p,
    decreases sorted.len(),
{
    if sorted.len() > 0 && p > 0 {
        assert(sorted[0].prefix_len >= prefix_len);
        let rest = sorted.drop_first();
        assert forall|j: int| 0 <= j < p - 1 implies (#[trigger] rest[j]).prefix_len >= prefix_len by {
            assert(rest[j] == sorted[j + 1]);
        }
        lemma_insert_position_is(rest, prefix_len, p - 1);
    }
}

impl CidrMatcher {
    /// An index without routes.
    pub fn new() -> (r: Self)
        ensures
            r@ == (CidrTable {
                v4_ranges: Seq::empty(),
                v6_ranges: Seq::empty(),
                exact_ips: Seq::empty(),
                any_ip: Seq::empty(),
            }),
    {
        let v4_ranges: Vec<CidrRange> = Vec::new();
        let v6_ranges: Vec<CidrRange> = Vec::new();
        let exact_ips: Vec<(IpAddress, Vec<usize>)> = Vec::new();
        assert(ranges_view(v4_ranges@) =~= Seq::empty());
        assert(ranges_view(v6_ranges@) =~= Seq::empty());
        assert(exact_view(exact_ips@) =~= Seq::empty());
        Self { v4_ranges, v6_ranges, exact_ips, any_ip: Vec::new() }
    }

    /// Adds a route with its source condition; `None` stands for every
    /// address.
    pub fn add_route(&mut self, route_idx: usize, ip_ranges: Option<&[IpPattern]>)
        ensures
            final(self)@ == old(self)@.add(
                route_idx,
                match ip_ranges {
                    Some(patterns) => Some(patterns@),
                    None => None,
                },
            ),
    {
        match ip_ranges {
            None => {
                self.any_ip.push(route_idx);
            },
            Some(patterns) => {
                let mut i: usize = 0;
                while i < patterns.len()
                    invariant
                        i <= patterns.len(),
                        self@ == old(self)@.add_patterns(route_idx, patterns@.subrange(0, i as int)),
                    decreases patterns.len() - i,
                {
                    assert(patterns@.subrange(0, i + 1).drop_last() =~= patterns@.subrange(0, i as int));
                    self.add_cidr(route_idx, patterns[i]);
                    i += 1;
                }
                assert(patterns@.subrange(0, patterns.len() as int) =~= patterns@);
            },
        }
    }

    /// Adds one address pattern of a route.
    pub fn add_cidr(&mut self, route_idx: usize, pattern: IpPattern)
        ensures
            final(self)@ == old(self)@.add_pattern(route_idx, pattern),
    {
        match pattern {
            IpPattern::Range { network: IpAddress::V4(n), prefix_len } => {
                if prefix_len <= 32 {
                    file_range_into(&mut self.v4_ranges, n as u128, prefix_len, route_idx);
                }
            },
            IpPattern::Range { network: IpAddress::V6(n), prefix_len } => {
                if prefix_len <= 128 {
                    file_range_into(&mut self.v6_ranges, n, prefix_len, route_idx);
                }
            },
            IpPattern::Exact(ip) => {
                file_exact_into(&mut self.exact_ips, ip, route_idx);
            },
        }
    }

    /// Sorts the ranges of each family by descending prefix length, so that
    /// the most specific ranges come first. Ranges of equal prefix length
    /// keep their order.
    pub fn optimize(&mut self)
        ensures
            final(self)@ == (CidrTable {
                v4_ranges: sorted_ranges(old(self)@.v4_ranges),
                v6_ranges: sorted_ranges(old(self)@.v6_ranges),
                ..old(self)@
            }),
            is_descending(final(self)@.v4_ranges),
            is_descending(final(self)@.v6_ranges),
    {
        proof {
            lemma_sorted_ranges(self@.v4_ranges);
            lemma_sorted_ranges(self@.v6_ranges);
        }
        sort_ranges(&mut self.v4_ranges);
        sort_ranges(&mut self.v6_ranges);
    }

    /// The candidate routes for the source address of a request.
    pub fn get_candidates(&self, ip: IpAddress) -> (r: Vec<usize>)
        ensures
            r@ == self@.candidates(ip),
    {
        let mut candidates: Vec<usize> = Vec::new();
        let i = find_exact(&self.exact_ips, ip);
        if i < self.exact_ips.len() {
            candidates.extend_from_slice(self.exact_ips[i].1.as_slice());
        }
        assert(candidates@ =~= exact_routes(self@.exact_ips, ip));
        match ip {
            IpAddress::V4(a) => {
                add_ranges(&mut candidates, 32, &self.v4_ranges, a as u128);
            },
            IpAddress::V6(a) => {
                add_ranges(&mut candidates, 128, &self.v6_ranges, a);
            },
        }
        candidates.extend_from_slice(self.any_ip.as_slice());
        assert(candidates@ =~= self@.candidates(ip));
        candidates
    }

    /// Whether any route has a source condition.
    pub fn has_conditions(&self) -> (r: bool)
        ensures
            r == self@.has_conditions(),
    {
        self.v4_ranges.len() > 0 || self.v6_ranges.len() > 0 || self.exact_ips.len() > 0
    }
}

impl Default for CidrMatcher {
    fn default() -> (r: Self)
        ensures
            r@ == (CidrTable {
                v4_ranges: Seq::empty(),
                v6_ranges: Seq::empty(),
                exact_ips: Seq::empty(),
                any_ip: Seq::empty(),
            }),
    {
        Self::new()
    }
}

/// Whether an address pattern takes an address: a range takes the
/// addresses of its family that agree with it in its leading bits, and
/// none where its prefix length exceeds the width of its family; a
/// single address takes itself.
pub open spec fn pattern_takes(pattern: IpPattern, ip: IpAddress) -> bool {
    match pattern {
        IpPattern::Range { network: IpAddress::V4(n), prefix_len } => match ip {
            IpAddress::V4(a) => prefix_len <= 32 && range_holds(32, n as u128, prefix_len, a as u128),
            IpAddress::V6(_) => false,
        },
        IpPattern::Range { network: IpAddress::V6(n), prefix_len } => match ip {
            IpAddress::V4(_) => false,
            IpAddress::V6(a) => prefix_len <= 128 && range_holds(128, n, prefix_len, a),
        },
        IpPattern::Exact(p) => p == ip,
    }
}

/// Whether a source condition takes an address: a route without a source
/// condition takes every address; any other route takes the addresses
/// that one of its patterns takes.
pub open spec fn condition_takes(condition: Option<Seq<IpPattern>>, ip: IpAddress) -> bool {
    match condition {
        None => true,
        Some(patterns) => exists|k: int| 0 <= k < patterns.len() && pattern_takes(#[trigger] patterns[k], ip),
    }
}

proof fn lemma_range_index_found(ranges: Seq<RangeModel>, network: u128, prefix_len: u8)
    ensures
        0 <= range_index(ranges, network, prefix_len) <= ranges.len(),
        range_index(ranges, network, prefix_len) < ranges.len() ==> ranges[range_index(
            ranges,
            network,
            prefix_len,
        )].network == network && ranges[range_index(ranges, network, prefix_len)].prefix_len == prefix_len,
    decreases ranges.len(),
{
    if ranges.len() > 0 && !(ranges[0].network == network && ranges[0].prefix_len == prefix_len) {
        lemma_range_index_found(ranges.drop_first(), network, prefix_len);
    }
}

proof fn lemma_exact_index_found(list: Seq<(IpAddress, Seq<usize>)>, ip: IpAddress)
    ensures
        0 <= exact_index(list, ip) <= list.len(),
        exact_index(list, ip) < list.len() ==> list[exact_index(list, ip)].0 == ip,
        forall|j: int| 0 <= j < exact_index(list, ip) ==> (#[trigger] list[j]).0 != ip,
    decreases list.len(),
{
    if list.len() > 0 && list[0].0 != ip {
        let rest = list.drop_first();
        lemma_exact_index_found(rest, ip);
        assert forall|j: int| 0 <= j < exact_index(list, ip) implies (#[trigger] list[j]).0 != ip by {
            if j > 0 {
                assert(list[j] == rest[j - 1]);
            }
        }
    }
}

/// A list with one more route holds what it held, and that route.
pub proof fn lemma_routes_pushed(a: Seq<usize>, route_idx: usize, x: usize)
    ensures
        a.push(route_idx).contains(x) <==> (a.contains(x) || x == route_idx),
{
    let after = a.push(route_idx);
    if a.contains(x) {
        let w = choose|w: int| 0 <= w < a.len() && a[w] == x;
        assert(after[w] == x);
    }
    if x == route_idx {
        assert(after[a.len() as int] == x);
    }
    if after.contains(x) && x != route_idx {
        let w = choose|w: int| 0 <= w < after.len() && after[w] == x;
        assert(a[w] == x);
    }
}

/// Filing a route under a range makes the ranges take the addresses of
/// that range for it, and changes nothing for other routes.
pub proof fn lemma_range_filed(
    bits: u8,
    ranges: Seq<RangeModel>,
    network: u128,
    prefix_len: u8,
    route_idx: usize,
    ip: u128,
    x: usize,
)
    ensures
        some_range_takes(bits, file_range(ranges, network, prefix_len, route_idx), ip, x) <==> (
        some_range_takes(bits, ranges, ip, x) || (x == route_idx && range_holds(bits, network, prefix_len, ip))),
{
    let after = file_range(ranges, network, prefix_len, route_idx);
    let g = range_index(ranges, network, prefix_len);
    let n = ranges.len() as int;
    lemma_range_index_found(ranges, network, prefix_len);
    if g < n {
        lemma_routes_pushed(ranges[g].routes, route_idx, x);
    }
    if some_range_takes(bits, ranges, ip, x) {
        let k = choose|k: int|
            0 <= k < ranges.len() && range_holds(bits, (#[trigger] ranges[k]).network, ranges[k].prefix_len, ip)
                && ranges[k].routes.contains(x);
        assert(after[k].network == ranges[k].network && after[k].prefix_len == ranges[k].prefix_len);
        assert(after[k].routes.contains(x));
    }
    if x == route_idx && range_holds(bits, network, prefix_len, ip) {
        if g < n {
            assert(after[g].network == network && after[g].prefix_len == prefix_len);
            assert(after[g].routes.contains(x));
        } else {
            assert(seq![route_idx][0] == x);
            assert(after[n].network == network && after[n].prefix_len == prefix_len && after[n].routes.contains(
                x,
            ));
        }
    }
    if some_range_takes(bits, after, ip, x) {
        let k = choose|k: int|
            0 <= k < after.len() && range_holds(bits, (#[trigger] after[k]).network, after[k].prefix_len, ip)
                && after[k].routes.contains(x);
        if k < n {
            assert(after[k].network == ranges[k].network && after[k].prefix_len == ranges[k].prefix_len);
            if k != g {
                assert(after[k] == ranges[k]);
            }
            if !(x == route_idx && range_holds(bits, network, prefix_len, ip)) {
                assert(ranges[k].routes.contains(x));
            }
        } else {
            assert(after[k].routes =~= seq![route_idx]);
            assert(x == route_idx);
        }
    }
}

/// Filing a route under a single address makes it a route of that
/// address, and changes nothing for other routes and addresses.
pub proof fn lemma_exact_filed(
    list: Seq<(IpAddress, Seq<usize>)>,
    address: IpAddress,
    route_idx: usize,
    ip: IpAddress,
    x: usize,
)
    ensures
        exact_routes(file_exact(list, address, route_idx), ip).contains(x) <==> (exact_routes(list, ip).contains(
            x,
        ) || (x == route_idx && address == ip)),
{
    let after = file_exact(list, address, route_idx);
    let g = exact_index(list, address);
    let h = exact_index(list, ip);
    let n = list.len() as int;
    lemma_exact_index_found(list, address);
    lemma_exact_index_found(list, ip);
    if g < n {
        assert forall|j: int| 0 <= j < after.len() implies (#[trigger] after[j]).0 == list[j].0 by {}
        lemma_exact_index(after, ip, h);
        lemma_routes_pushed(list[g].1, route_idx, x);
        if ip == address {
            assert(h == g);
        } else if h < n {
            assert(after[h] == list[h]);
        }
    } else {
        assert forall|j: int| 0 <= j < n implies (#[trigger] after[j]) == list[j] by {}
        if ip == address {
            lemma_exact_index(after, ip, n);
            assert(after[n].1 =~= seq![route_idx]);
            assert(seq![route_idx][0] == route_idx);
        } else if h < n {
            lemma_exact_index(after, ip, h);
        } else {
            lemma_exact_index(after, ip, after.len() as int);
        }
    }
}

/// Adding a pattern of a route makes the table take the addresses of
/// that pattern for the route, and changes nothing for other routes.
pub proof fn lemma_add_pattern_takes(table: CidrTable, route_idx: usize, pattern: IpPattern, ip: IpAddress, x: usize)
    ensures
        table.add_pattern(route_idx, pattern).takes(x, ip) <==> (table.takes(x, ip) || (x == route_idx
            && pattern_takes(pattern, ip))),
{
    match pattern {
        IpPattern::Range { network: IpAddress::V4(n), prefix_len } => {
            if prefix_len <= 32 {
                match ip {
                    IpAddress::V4(a) => lemma_range_filed(
                        32,
                        table.v4_ranges,
                        n as u128,
                        prefix_len,
                        route_idx,
                        a as u128,
                        x,
                    ),
                    IpAddress::V6(_) => {},
                }
            }
        },
        IpPattern::Range { network: IpAddress::V6(n), prefix_len } => {
            if prefix_len <= 128 {
                match ip {
                    IpAddress::V4(_) => {},
                    IpAddress::V6(a) => lemma_range_filed(128, table.v6_ranges, n, prefix_len, route_idx, a, x),
                }
            }
        },
        IpPattern::Exact(address) => {
            lemma_exact_filed(table.exact_ips, address, route_idx, ip, x);
        },
    }
}

/// Adding the patterns of a route makes the table take the addresses of
/// those patterns for the route, and changes nothing for other routes.
pub proof fn lemma_add_patterns_takes(
    table: CidrTable,
    route_idx: usize,
    patterns: Seq<IpPattern>,
    ip: IpAddress,
    x: usize,
)
    ensures
        table.add_patterns(route_idx, patterns).takes(x, ip) <==> (table.takes(x, ip) || (x == route_idx
            && condition_takes(Some(patterns), ip))),
    decreases patterns.len(),
{
    if patterns.len() > 0 {
        let rest = patterns.drop_last();
        let last = patterns.last();
        let mid = table.add_patterns(route_idx, rest);
        lemma_add_patterns_takes(table, route_idx, rest, ip, x);
        lemma_add_pattern_takes(mid, route_idx, last, ip, x);
        assert(table.add_patterns(route_idx, patterns) == mid.add_pattern(route_idx, last));
        assert(condition_takes(Some(patterns), ip) <==> (condition_takes(Some(rest), ip) || pattern_takes(
            last,
            ip,
        ))) by {
            if condition_takes(Some(rest), ip) {
                let k = choose|k: int| 0 <= k < rest.len() && pattern_takes(#[trigger] rest[k], ip);
                assert(patterns[k] == rest[k]);
                assert(pattern_takes(patterns[k], ip));
            }
            if pattern_takes(last, ip) {
                assert(pattern_takes(patterns[patterns.len() - 1], ip));
            }
            if condition_takes(Some(patterns), ip) {
                let k = choose|k: int| 0 <= k < patterns.len() && pattern_takes(#[trigger] patterns[k], ip);
                if k < rest.len() {
                    assert(rest[k] == patterns[k]);
                    assert(pattern_takes(rest[k], ip));
                } else {
                    assert(patterns[k] == last);
                }
            }
        }
    } else {
        assert(table.add_patterns(route_idx, patterns) == table);
        assert(!condition_takes(Some(patterns), ip));
    }
}

/// Adding a route makes the table take the addresses of its own source
/// condition for it, and changes nothing for other routes. Sorting the
/// ranges changes nothing at all.
pub proof fn lemma_add_takes(
    table: CidrTable,
    route_idx: usize,
    condition: Option<Seq<IpPattern>>,
    ip: IpAddress,
    x: usize,
)
    ensures
        table.add(route_idx, condition).takes(x, ip) <==> (table.takes(x, ip) || (x == route_idx
            && condition_takes(condition, ip))),
        table.add(route_idx, condition).sorted().takes(x, ip) <==> table.add(route_idx, condition).takes(x, ip),
{
    let after = table.add(route_idx, condition);
    match condition {
        None => {
            lemma_routes_pushed(table.any_ip, route_idx, x);
        },
        Some(patterns) => {
            lemma_add_patterns_takes(table, route_idx, patterns, ip, x);
        },
    }
    match ip {
        IpAddress::V4(a) => lemma_sorted_takes(32, after.v4_ranges, a as u128, x),
        IpAddress::V6(a) => lemma_sorted_takes(128, after.v6_ranges, a, x),
    }
}

/// What the text of a pattern says of the prefix length.
#[derive(Debug, Clone, Copy, PartialEq, Eq, Structural)]
pub enum PrefixText {
    /// The text has no `/`: it names one address.
    Absent,
    /// The number after the `/`.
    Length(u8),
    /// What follows the `/` is no number up to 255.
    Invalid,
}

/// Where the address of a pattern ends, and what follows it: the text is
/// cut at its first `/`, and the rest is read as a decimal number up to
/// 255.
pub open spec fn spec_split_pattern(text: Seq<u8>) -> (int, PrefixText) {
    let at = first_index(text, 0x2fu8);
    if at >= text.len() {
        (text.len() as int, PrefixText::Absent)
    } else {
        (
            at,
            match parse_unsigned(text.skip(at + 1), 255) {
                Some(n) => PrefixText::Length(n as u8),
                None => PrefixText::Invalid,
            },
        )
    }
}

/// Cuts the text of a pattern into the address, which ends at the index
/// returned, and the prefix length.
pub fn split_pattern(text: &[u8]) -> (r: (usize, PrefixText))
    ensures
        r.0 == spec_split_pattern(text@).0,
        r.1 == spec_split_pattern(text@).1,
        r.0 <= text.len(),
{
    let at = find_byte(text, 0, 0x2f);
    assert(text@.skip(0) =~= text@);
    if at >= text.len() {
        return (text.len(), PrefixText::Absent);
    }
    let rest = vstd::slice::slice_subrange(text, at + 1, text.len());
    assert(rest@ =~= text@.skip(at + 1));
    match parse_decimal(rest, 255) {
        Some(n) => (at, PrefixText::Length(n as u8)),
        None => (at, PrefixText::Invalid),
    }
}

/// The pattern that an address and a prefix length make, if the prefix
/// length is valid.
pub fn pattern_of(address: IpAddress, prefix: PrefixText) -> (r: Option<IpPattern>)
    ensures
        r == match prefix {
            PrefixText::Absent => Some(IpPattern::Exact(address)),
            PrefixText::Length(n) => Some(IpPattern::Range { network: address, prefix_len: n }),
            PrefixText::Invalid => None,
        },
{
    match prefix {
        PrefixText::Absent => Some(IpPattern::Exact(address)),
        PrefixText::Length(n) => Some(IpPattern::Range { network: address, prefix_len: n }),
        PrefixText::Invalid => None,
    }
}

} // verus!
