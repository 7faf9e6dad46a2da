//! A group of upstream servers and the choice of a server for a request.
//!
//! A server can take a request when it is alive and below its concurrency
//! limit. Every algorithm names the server to start with; from there the
//! servers are gone through in order, around the end of the list, until
//! one can take the request. With no such server the choice fails, and the
//! request is answered with 502.

use vstd::prelude::*;
use crate::routing::cidr::IpAddress;

verus! {

/// Scheme of an upstream target.
#[derive(Debug, Clone, Copy, PartialEq, Eq, Structural)]
pub enum Scheme {
    /// Plain HTTP.
    Http,
    /// HTTP over TLS.
    Https,
}

/// Where an upstream server is reached.
#[derive(Debug, Clone)]
pub struct ProxyTarget {
    /// Scheme.
    pub scheme: Scheme,
    /// Host name or address.
    pub host: String,
    /// Port.
    pub port: u16,
    /// Path under which the requests are put.
    pub path_prefix: String,
}

impl ProxyTarget {
    /// Whether the port is the default one of the scheme: 80 for HTTP, 443
    /// for HTTPS.
    pub fn is_default_port(&self) -> (r: bool)
        ensures
            r == match self.scheme {
                Scheme::Http => self.port == 80,
                Scheme::Https => self.port == 443,
            },
    {
        match self.scheme {
            Scheme::Http => self.port == 80,
            Scheme::Https => self.port == 443,
        }
    }
}

/// One server of an upstream group.
#[derive(Debug, Clone)]
pub struct Server {
    /// Where the server is reached.
    pub target: ProxyTarget,
    /// Share of the requests under the weighted algorithms; at least 1.
    pub weight: u32,
    /// Largest number of requests at once; 0 means no limit.
    pub max_connections: usize,
    /// Whether the server counts as healthy.
    pub alive: bool,
    /// Failures in a row.
    pub consecutive_failures: u32,
    /// Time of the last health check.
    pub last_check: u64,
    /// Requests under way.
    pub active_connections: usize,
}

/// What the choice of a server looks at.
pub struct ServerState {
    pub weight: nat,
    pub max_connections: nat,
    pub alive: bool,
    pub consecutive_failures: nat,
    pub active_connections: nat,
}

impl View for Server {
    type V = ServerState;

    open spec fn view(&self) -> ServerState {
        ServerState {
            weight: self.weight as nat,
            max_connections: self.max_connections as nat,
            alive: self.alive,
            consecutive_failures: self.consecutive_failures as nat,
            active_connections: self.active_connections as nat,
        }
    }
}

impl ServerState {
    /// Whether the server is below its concurrency limit.
    pub open spec fn below_limit(self) -> bool {
        self.max_connections == 0 || self.active_connections < self.max_connections
    }

    /// Whether the server can take a request.
    pub open spec fn can_take(self) -> bool {
        self.alive && self.below_limit()
    }
}

/// Status of the answer to a request whose upstream group has no live
/// server.
pub const STATUS_NO_SERVER: u16 = 502;

/// Status of the answer to a request whose upstream group has live
/// servers, none of which can take one more request.
pub const STATUS_SATURATED: u16 = 503;

/// Where the servers of a list are reached.
pub open spec fn targets(servers: Seq<Server>) -> Seq<ProxyTarget> {
    Seq::new(servers.len(), |i: int| servers[i].target)
}

/// When the servers of a list were last checked.
pub open spec fn check_times(servers: Seq<Server>) -> Seq<u64> {
    Seq::new(servers.len(), |i: int| servers[i].last_check)
}

/// An event in the life of the connection counter of a server.
pub enum CounterEvent {
    /// A request was handed to the server.
    Acquire,
    /// A request to the server ended.
    Release,
}

/// The number of acquisitions among the events minus the number of
/// releases.
pub open spec fn balance(events: Seq<CounterEvent>) -> int
    decreases events.len(),
{
    if events.len() == 0 {
        0
    } else {
        balance(events.drop_last()) + (match events.last() {
            CounterEvent::Acquire => 1int,
            CounterEvent::Release => -1int,
        })
    }
}

/// Whether every release among the events ends a request that was
/// acquired before.
pub open spec fn releases_follow(events: Seq<CounterEvent>) -> bool
    decreases events.len(),
{
    events.len() == 0 || (releases_follow(events.drop_last()) && balance(events) >= 0)
}

/// The counter of a server after the events, started at zero.
pub open spec fn counter_after(events: Seq<CounterEvent>) -> int
    decreases events.len(),
{
    if events.len() == 0 {
        0
    } else {
        match events.last() {
            CounterEvent::Acquire => counter_after(events.drop_last()) + 1,
            CounterEvent::Release => counter_after(events.drop_last()) - 1,
        }
    }
}

/// At all times the counter of a server is the number of acquisitions
/// minus the number of releases, and it is never negative as long as
/// every release ends a request that was acquired.
pub proof fn lemma_counter_is_balance(events: Seq<CounterEvent>)
    requires
        releases_follow(events),
    ensures
        counter_after(events) == balance(events),
        counter_after(events) >= 0,
    decreases events.len(),
{
    if events.len() > 0 {
        lemma_counter_is_balance(events.drop_last());
    }
}

impl Server {
    /// A healthy server without requests under way.
    pub fn new(target: ProxyTarget, weight: u32, max_connections: usize) -> (r: Self)
        ensures
            r@ == (ServerState {
                weight: if weight == 0 {
                    1
                } else {
                    weight as nat
                },
                max_connections: max_connections as nat,
                alive: true,
                consecutive_failures: 0,
                active_connections: 0,
            }),
            r.target == target,
    {
        Server {
            target,
            weight: if weight == 0 {
                1
            } else {
                weight
            },
            max_connections,
            alive: true,
            consecutive_failures: 0,
            last_check: 0,
            active_connections: 0,
        }
    }

    /// Counts a request that is handed to the server.
    pub fn acquire(&mut self)
        requires
            old(self).active_connections < usize::MAX,
        ensures
            final(self)@ == (ServerState {
                active_connections: old(self)@.active_connections + 1,
                ..old(self)@
            }),
            final(self).target == old(self).target,
            final(self).last_check == old(self).last_check,
    {
        self.active_connections += 1;
    }

    /// Counts the end of a request to the server.
    pub fn release(&mut self)
        requires
            old(self).active_connections > 0,
        ensures
            final(self)@ == (ServerState {
                active_connections: (old(self)@.active_connections - 1) as nat,
                ..old(self)@
            }),
            final(self).target == old(self).target,
            final(self).last_check == old(self).last_check,
    {
        self.active_connections -= 1;
    }

    /// Whether the server can take a request.
    pub fn can_take(&self) -> (r: bool)
        ensures
            r == self@.can_take(),
    {
        self.alive && (self.max_connections == 0 || self.active_connections < self.max_connections)
    }
}

/// How the server for a request is chosen.
#[derive(Debug, Clone, Copy, PartialEq, Eq, Structural)]
pub enum LoadBalanceAlgorithm {
    /// The live servers in turn.
    RoundRobin,
    /// The server with the fewest requests under way.
    LeastConnections,
    /// The server that the hash of the client address names.
    IpHash,
    /// The live servers in turn, each as often as its weight says.
    WeightedRoundRobin,
    /// A live server drawn at random, each as likely as its weight says.
    WeightedRandom,
}

/// Failures in a row after which a server counts as unhealthy.
pub const FAILURE_THRESHOLD: u32 = 2;

/// A group of upstream servers.
#[derive(Debug, Clone)]
pub struct UpstreamGroup {
    /// The servers, in the order in which the operator declared them.
    pub servers: Vec<Server>,
    /// The algorithm.
    pub algorithm: LoadBalanceAlgorithm,
    /// Counter of the round-robin algorithms.
    pub counter: u64,
}

/// The states of the servers of a group.
pub open spec fn states(servers: Seq<Server>) -> Seq<ServerState> {
    Seq::new(servers.len(), |i: int| servers[i]@)
}

/// The number of live servers among the first `n`.
pub open spec fn live_count(servers: Seq<ServerState>, n: int) -> nat
    decreases n,
{
    if n <= 0 {
        0
    } else {
        live_count(servers, n - 1) + (if servers[n - 1].alive {
            1nat
        } else {
            0nat
        })
    }
}

/// The sum of the weights of the live servers among the first `n`.
pub open spec fn live_weight(servers: Seq<ServerState>, n: int) -> nat
    decreases n,
{
    if n <= 0 {
        0
    } else {
        live_weight(servers, n - 1) + (if servers[n - 1].alive {
            servers[n - 1].weight
        } else {
            0nat
        })
    }
}

/// The live server that owns a slot, counting the slots of the live
/// servers from server `from` on: each live server owns as many slots as
/// `slots_of` gives it. The number of servers where no server owns the
/// slot.
pub open spec fn slot_owner(servers: Seq<ServerState>, weighted: bool, slot: nat, from: int) -> int
    decreases servers.len() - from,
{
    if from < 0 || from >= servers.len() {
        servers.len() as int
    } else if !servers[from].alive {
        slot_owner(servers, weighted, slot, from + 1)
    } else {
        let slots = if weighted {
            servers[from].weight
        } else {
            1
        };
        if slot < slots {
            from
        } else {
            slot_owner(servers, weighted, (slot - slots) as nat, from + 1)
        }
    }
}

/// The first server that can take a request, going through the servers in
/// order from `start` on, around the end of the list, for at most
/// `attempts` servers.
pub open spec fn next_taker(servers: Seq<ServerState>, start: int, attempts: nat) -> Option<int>
    decreases attempts,
{
    let at = if 0 <= start < servers.len() {
        start
    } else {
        0
    };
    if attempts == 0 || servers.len() == 0 {
        None
    } else if servers[at].can_take() {
        Some(at)
    } else {
        next_taker(servers, at + 1, (attempts - 1) as nat)
    }
}

/// The server with the fewest requests under way among the first `n` that
/// can take a request; the earliest of them where several have as few.
pub open spec fn least_loaded(servers: Seq<ServerState>, n: int) -> Option<int>
    decreases n,
{
    if n <= 0 {
        None
    } else {
        match least_loaded(servers, n - 1) {
            Some(best) => if servers[n - 1].can_take() && servers[n - 1].active_connections
                < servers[best].active_connections {
                Some(n - 1)
            } else {
                Some(best)
            },
            None => if servers[n - 1].can_take() {
                Some(n - 1)
            } else {
                None
            },
        }
    }
}

/// The offset basis of the FNV-1a hash.
pub const FNV_OFFSET: u64 = 0xcbf29ce484222325;

/// The prime of the FNV-1a hash.
pub const FNV_PRIME: u64 = 0x100000001b3;

/// The FNV-1a hash of the first `n` bytes, continued from `hash`.
pub open spec fn fnv1a(bytes: Seq<u8>, n: int) -> u64
    decreases n,
{
    if n <= 0 {
        FNV_OFFSET
    } else {
        (((fnv1a(bytes, n - 1) ^ (bytes[n - 1] as u64)) * FNV_PRIME) % 0x1_0000_0000_0000_0000) as u64
    }
}

/// The bytes of an address, most significant first: 4 for IPv4, 16 for
/// IPv6.
pub open spec fn address_bytes(ip: IpAddress) -> Seq<u8> {
    match ip {
        IpAddress::V4(a) => Seq::new(4, |i: int| (a >> (((3 - i) * 8) as u32)) as u8),
        IpAddress::V6(a) => Seq::new(16, |i: int| (a >> (((15 - i) * 8) as u128)) as u8),
    }
}

/// The hash of a client address: FNV-1a over its bytes.
pub open spec fn ip_hash(ip: IpAddress) -> u64 {
    fnv1a(address_bytes(ip), address_bytes(ip).len() as int)
}

/// The hash of a client address.
pub fn hash_address(ip: IpAddress) -> (r: u64)
    ensures
        r == ip_hash(ip),
{
    let mut bytes: Vec<u8> = Vec::new();
    match ip {
        IpAddress::V4(a) => {
            let mut i: u32 = 0;
            while i < 4
                invariant
                    i <= 4,
                    bytes@.len() == i,
                    forall|j: int| 0 <= j < i ==> bytes@[j] == (a >> (((3 - j) * 8) as u32)) as u8,
                decreases 4 - i,
            {
                bytes.push(#[verifier::truncate] ((a >> ((3 - i) * 8)) as u8));
                i += 1;
            }
            assert(bytes@ =~= address_bytes(ip));
        },
        IpAddress::V6(a) => {
            let mut i: u32 = 0;
            while i < 16
                invariant
                    i <= 16,
                    bytes@.len() == i,
                    forall|j: int| 0 <= j < i ==> bytes@[j] == (a >> (((15 - j) * 8) as u128)) as u8,
                decreases 16 - i,
            {
                bytes.push(#[verifier::truncate] ((a >> ((15 - i) * 8)) as u8));
                i += 1;
            }
            assert(bytes@ =~= address_bytes(ip));
        },
    }
    let mut hash: u64 = FNV_OFFSET;
    let mut i: usize = 0;
    while i < bytes.len()
        invariant
            i <= bytes.len(),
            hash == fnv1a(bytes@, i as int),
        decreases bytes.len() - i,
    {
        hash = (hash ^ (bytes[i] as u64)).wrapping_mul(FNV_PRIME);
        i += 1;
    }
    hash
}

/// What the choice of a server depends on besides the servers.
pub struct Draw {
    /// The round-robin counter.
    pub counter: u64,
    /// The hash of the client address.
    pub hash: u64,
    /// A random number.
    pub random: u64,
}

/// The server chosen for a request.
///
/// - Round robin: the live server whose turn it is by the counter.
/// - Least connections: the server with the fewest requests under way
///   among those that can take one; the earliest of them on a tie.
/// - IP hash: the live server that the hash of the client address names;
///   where it cannot take the request, round robin decides.
/// - Weighted round robin and weighted random: as round robin and as a
///   draw at random, with every live server standing as often as its
///   weight says.
///
/// Unless least connections decides, the servers are gone through in
/// order from the one named until one can take the request.
pub open spec fn spec_select(servers: Seq<ServerState>, algorithm: LoadBalanceAlgorithm, draw: Draw) -> Option<
    int,
> {
    let n = servers.len() as int;
    let live = live_count(servers, n);
    let weight = live_weight(servers, n);
    match algorithm {
        LoadBalanceAlgorithm::LeastConnections => least_loaded(servers, n),
        LoadBalanceAlgorithm::RoundRobin => if live == 0 {
            None
        } else {
            next_taker(servers, slot_owner(servers, false, draw.counter as nat % live, 0), servers.len())
        },
        LoadBalanceAlgorithm::IpHash => if live == 0 {
            None
        } else if servers[slot_owner(servers, false, draw.hash as nat % live, 0)].can_take() {
            Some(slot_owner(servers, false, draw.hash as nat % live, 0))
        } else {
            next_taker(servers, slot_owner(servers, false, draw.counter as nat % live, 0), servers.len())
        },
        LoadBalanceAlgorithm::WeightedRoundRobin => if weight == 0 {
            None
        } else {
            next_taker(servers, slot_owner(servers, true, draw.counter as nat % weight, 0), servers.len())
        },
        LoadBalanceAlgorithm::WeightedRandom => if weight == 0 {
            None
        } else {
            next_taker(servers, slot_owner(servers, true, draw.random as nat % weight, 0), servers.len())
        },
    }
}

/// The server that owns a slot stands within the list, is alive, and is
/// the server named, as long as the slot is below the number of slots.
pub proof fn lemma_slot_owner(servers: Seq<ServerState>, weighted: bool, slot: nat, from: int)
    requires
        0 <= from <= servers.len(),
    ensures
        from <= slot_owner(servers, weighted, slot, from) <= servers.len(),
        slot_owner(servers, weighted, slot, from) < servers.len() ==> servers[slot_owner(
            servers,
            weighted,
            slot,
            from,
        )].alive,
    decreases servers.len() - from,
{
    if from < servers.len() {
        if !servers[from].alive {
            lemma_slot_owner(servers, weighted, slot, from + 1);
        } else {
            let slots = if weighted {
                servers[from].weight
            } else {
                1
            };
            if slot >= slots {
                lemma_slot_owner(servers, weighted, (slot - slots) as nat, from + 1);
            }
        }
    }
}

/// A server that is chosen can take the request.
pub proof fn lemma_next_taker(servers: Seq<ServerState>, start: int, attempts: nat)
    ensures
        next_taker(servers, start, attempts) matches Some(i) ==> 0 <= i < servers.len() && servers[i].can_take(),
    decreases attempts,
{
    let at = if 0 <= start < servers.len() {
        start
    } else {
        0
    };
    if attempts > 0 && servers.len() > 0 {
        if !servers[at].can_take() {
            lemma_next_taker(servers, at + 1, (attempts - 1) as nat);
        }
    }
}

/// The server with the fewest requests under way: it can take a request,
/// no server that can take one has fewer requests under way, and none
/// before it has as few. There is such a server as soon as any server can
/// take a request.
pub proof fn lemma_least_loaded(servers: Seq<ServerState>, n: int)
    requires
        0 <= n <= servers.len(),
    ensures
        match least_loaded(servers, n) {
            Some(best) => {
                &&& 0 <= best < n
                &&& servers[best].can_take()
                &&& forall|j: int|
                    0 <= j < n && (#[trigger] servers[j]).can_take() ==> servers[best].active_connections
                        <= servers[j].active_connections
                &&& forall|j: int|
                    0 <= j < best && (#[trigger] servers[j]).can_take() ==> servers[best].active_connections
                        < servers[j].active_connections
            },
            None => forall|j: int| 0 <= j < n ==> !(#[trigger] servers[j]).can_take(),
        },
    decreases n,
{
    if n > 0 {
        lemma_least_loaded(servers, n - 1);
    }
}

/// A server that any algorithm chooses can take the request.
pub proof fn lemma_select_can_take(servers: Seq<ServerState>, algorithm: LoadBalanceAlgorithm, draw: Draw)
    ensures
        spec_select(servers, algorithm, draw) matches Some(i) ==> 0 <= i < servers.len() && servers[i].can_take(),
{
    let n = servers.len() as int;
    let live = live_count(servers, n);
    let weight = live_weight(servers, n);
    lemma_least_loaded(servers, n);
    if live > 0 {
        lemma_slot_owner(servers, false, draw.counter as nat % live, 0);
        lemma_slot_owner(servers, false, draw.hash as nat % live, 0);
        lemma_next_taker(servers, slot_owner(servers, false, draw.counter as nat % live, 0), servers.len());
        lemma_live_slots(servers, false, draw.hash as nat % live);
    }
    if weight > 0 {
        lemma_slot_owner(servers, true, draw.counter as nat % weight, 0);
        lemma_slot_owner(servers, true, draw.random as nat % weight, 0);
        lemma_next_taker(servers, slot_owner(servers, true, draw.counter as nat % weight, 0), servers.len());
        lemma_next_taker(servers, slot_owner(servers, true, draw.random as nat % weight, 0), servers.len());
    }
}

/// The number of slots of the live servers from server `from` on.
pub open spec fn slots_from(servers: Seq<ServerState>, weighted: bool, from: int) -> nat
    decreases servers.len() - from,
{
    if from < 0 || from >= servers.len() {
        0
    } else {
        slots_from(servers, weighted, from + 1) + (if !servers[from].alive {
            0nat
        } else if weighted {
            servers[from].weight
        } else {
            1nat
        })
    }
}

proof fn lemma_slots_split(servers: Seq<ServerState>, weighted: bool, n: int)
    requires
        0 <= n <= servers.len(),
    ensures
        slots_from(servers, weighted, 0) == (if weighted {
            live_weight(servers, n)
        } else {
            live_count(servers, n)
        }) + slots_from(servers, weighted, n),
    decreases n,
{
    if n > 0 {
        lemma_slots_split(servers, weighted, n - 1);
    }
}

proof fn lemma_owner_exists(servers: Seq<ServerState>, weighted: bool, slot: nat, from: int)
    requires
        0 <= from <= servers.len(),
        slot < slots_from(servers, weighted, from),
    ensures
        slot_owner(servers, weighted, slot, from) < servers.len(),
    decreases servers.len() - from,
{
    if from < servers.len() {
        if !servers[from].alive {
            lemma_owner_exists(servers, weighted, slot, from + 1);
        } else {
            let slots = if weighted {
                servers[from].weight
            } else {
                1
            };
            if slot >= slots {
                lemma_owner_exists(servers, weighted, (slot - slots) as nat, from + 1);
            }
        }
    }
}

/// Every slot below the number of slots of the live servers has an
/// owner.
pub proof fn lemma_live_slots(servers: Seq<ServerState>, weighted: bool, slot: nat)
    requires
        slot < (if weighted {
            live_weight(servers, servers.len() as int)
        } else {
            live_count(servers, servers.len() as int)
        }),
    ensures
        0 <= slot_owner(servers, weighted, slot, 0) < servers.len(),
        servers[slot_owner(servers, weighted, slot, 0)].alive,
{
    lemma_slots_split(servers, weighted, servers.len() as int);
    lemma_owner_exists(servers, weighted, slot, 0);
    lemma_slot_owner(servers, weighted, slot, 0);
}

/// Whether an algorithm takes a turn of the round-robin counter for a
/// choice.
pub open spec fn takes_turn(servers: Seq<ServerState>, algorithm: LoadBalanceAlgorithm, hash: u64) -> bool {
    let live = live_count(servers, servers.len() as int);
    match algorithm {
        LoadBalanceAlgorithm::RoundRobin => true,
        LoadBalanceAlgorithm::WeightedRoundRobin => true,
        LoadBalanceAlgorithm::IpHash => live > 0 && !servers[slot_owner(
            servers,
            false,
            hash as nat % live,
            0,
        )].can_take(),
        _ => false,
    }
}

/// After a failure: one more failure in a row; with two in a row the
/// server counts as unhealthy.
pub open spec fn after_failure(s: ServerState) -> ServerState {
    ServerState {
        consecutive_failures: if s.consecutive_failures < u32::MAX {
            s.consecutive_failures + 1
        } else {
            s.consecutive_failures
        },
        alive: s.alive && s.consecutive_failures + 1 < FAILURE_THRESHOLD,
        ..s
    }
}

/// After a success: no failures in a row, and the server counts as
/// healthy.
pub open spec fn after_success(s: ServerState) -> ServerState {
    ServerState { consecutive_failures: 0, alive: true, ..s }
}

impl UpstreamGroup {
    /// A group of servers with an algorithm.
    pub fn new(servers: Vec<Server>, algorithm: LoadBalanceAlgorithm) -> (r: Self)
        ensures
            r.servers == servers,
            r.algorithm == algorithm,
            r.counter == 0,
    {
        UpstreamGroup { servers, algorithm, counter: 0 }
    }

    fn count_live(&self) -> (r: (usize, u128))
        ensures
            r.0 == live_count(states(self.servers@), self.servers@.len() as int),
            r.1 == live_weight(states(self.servers@), self.servers@.len() as int),
    {
        let mut live: usize = 0;
        let mut weight: u128 = 0;
        let mut i: usize = 0;
        while i < self.servers.len()
            invariant
                i <= self.servers.len(),
                live == live_count(states(self.servers@), i as int),
                live <= i,
                weight == live_weight(states(self.servers@), i as int),
                weight <= i * 0x1_0000_0000,
            decreases self.servers.len() - i,
        {
            if self.servers[i].alive {
                live += 1;
                assert(i * 0x1_0000_0000 + 0x1_0000_0000 == (i + 1) * 0x1_0000_0000) by (nonlinear_arith);
                assert((i + 1) * 0x1_0000_0000 <= 0x1_0000_0000_0000_0000 * 0x1_0000_0000) by (nonlinear_arith)
                    requires
                        i + 1 <= 0x1_0000_0000_0000_0000,
                ;
                weight += self.servers[i].weight as u128;
            } else {
                assert(i * 0x1_0000_0000 <= (i + 1) * 0x1_0000_0000) by (nonlinear_arith);
            }
            i += 1;
        }
        (live, weight)
    }

    fn owner_of(&self, weighted: bool, slot: u128) -> (r: usize)
        ensures
            r == slot_owner(states(self.servers@), weighted, slot as nat, 0),
    {
        let mut left: u128 = slot;
        let mut i: usize = 0;
        while i < self.servers.len()
            invariant
                i <= self.servers.len(),
                slot_owner(states(self.servers@), weighted, left as nat, i as int) == slot_owner(
                    states(self.servers@),
                    weighted,
                    slot as nat,
                    0,
                ),
            decreases self.servers.len() - i,
        {
            if self.servers[i].alive {
                let slots: u128 = if weighted {
                    self.servers[i].weight as u128
                } else {
                    1
                };
                if left < slots {
                    return i;
                }
                left -= slots;
            }
            i += 1;
        }
        i
    }

    fn taker_from(&self, start: usize) -> (r: Option<usize>)
        requires
            start <= self.servers@.len(),
        ensures
            match r {
                Some(i) => next_taker(states(self.servers@), start as int, self.servers@.len()) == Some(
                    i as int,
                ),
                None => next_taker(states(self.servers@), start as int, self.servers@.len()) is None,
            },
    {
        let n = self.servers.len();
        if n == 0 {
            return None;
        }
        let mut k: usize = 0;
        let mut at: usize = if start >= n {
            0
        } else {
            start
        };
        while k < n
            invariant
                k <= n,
                n == self.servers@.len(),
                n > 0,
                at < n,
                next_taker(states(self.servers@), at as int, (n - k) as nat) == next_taker(
                    states(self.servers@),
                    start as int,
                    n as nat,
                ),
            decreases n - k,
        {
            if self.servers[at].can_take() {
                return Some(at);
            }
            let ghost before = at;
            at = if at + 1 == n {
                0
            } else {
                at + 1
            };
            assert(next_taker(states(self.servers@), at as int, (n - k - 1) as nat) == next_taker(
                states(self.servers@),
                before + 1,
                (n - k - 1) as nat,
            ));
            k += 1;
        }
        None
    }

    fn least(&self) -> (r: Option<usize>)
        ensures
            match r {
                Some(i) => least_loaded(states(self.servers@), self.servers@.len() as int) == Some(i as int),
                None => least_loaded(states(self.servers@), self.servers@.len() as int) is None,
            },
    {
        let mut best: Option<usize> = None;
        let mut i: usize = 0;
        while i < self.servers.len()
            invariant
                i <= self.servers.len(),
                match best {
                    Some(b) => b < i && least_loaded(states(self.servers@), i as int) == Some(b as int),
                    None => least_loaded(states(self.servers@), i as int) is None,
                },
            decreases self.servers.len() - i,
        {
            if self.servers[i].can_take() {
                match best {
                    Some(b) => {
                        if self.servers[i].active_connections < self.servers[b].active_connections {
                            best = Some(i);
                        }
                    },
                    None => {
                        best = Some(i);
                    },
                }
            }
            i += 1;
        }
        best
    }

    /// Chooses the server for a request from the client at `client_ip`.
    /// `random` is a random number, which only the weighted random
    /// algorithm looks at. The servers stay as they are: the request is
    /// counted by `acquire`.
    pub fn select(&mut self, client_ip: IpAddress, random: u64) -> (r: Option<usize>)
        ensures
            final(self).servers == old(self).servers,
            final(self).algorithm == old(self).algorithm,
            match r {
                Some(i) => spec_select(
                    states(old(self).servers@),
                    old(self).algorithm,
                    Draw { counter: old(self).counter, hash: ip_hash(client_ip), random },
                ) == Some(i as int) && i < old(self).servers@.len() && old(self).servers@[i as int]@.can_take(),
                None => spec_select(
                    states(old(self).servers@),
                    old(self).algorithm,
                    Draw { counter: old(self).counter, hash: ip_hash(client_ip), random },
                ) is None,
            },
            final(self).counter == if takes_turn(
                states(old(self).servers@),
                old(self).algorithm,
                ip_hash(client_ip),
            ) {
                old(self).counter.wrapping_add(1)
            } else {
                old(self).counter
            },
    {
        let hash = hash_address(client_ip);
        proof {
            lemma_select_can_take(
                states(self.servers@),
                self.algorithm,
                Draw { counter: self.counter, hash, random },
            );
        }
        let (live, weight) = self.count_live();
        match self.algorithm {
            LoadBalanceAlgorithm::LeastConnections => self.least(),
            LoadBalanceAlgorithm::RoundRobin => {
                let turn = self.counter;
                self.counter = turn.wrapping_add(1);
                if live == 0 {
                    return None;
                }
                let start = self.owner_of(false, turn as u128 % live as u128);
                proof {
                    lemma_live_slots(states(self.servers@), false, turn as nat % (live as nat));
                }
                self.taker_from(start)
            },
            LoadBalanceAlgorithm::IpHash => {
                if live == 0 {
                    return None;
                }
                let named = self.owner_of(false, hash as u128 % live as u128);
                proof {
                    lemma_live_slots(states(self.servers@), false, hash as nat % (live as nat));
                }
                if self.servers[named].can_take() {
                    return Some(named);
                }
                let turn = self.counter;
                self.counter = turn.wrapping_add(1);
                let start = self.owner_of(false, turn as u128 % live as u128);
                proof {
                    lemma_live_slots(states(self.servers@), false, turn as nat % (live as nat));
                }
                self.taker_from(start)
            },
            LoadBalanceAlgorithm::WeightedRoundRobin => {
                let turn = self.counter;
                self.counter = turn.wrapping_add(1);
                if weight == 0 {
                    return None;
                }
                let start = self.owner_of(true, turn as u128 % weight);
                proof {
                    lemma_live_slots(states(self.servers@), true, turn as nat % (weight as nat));
                }
                self.taker_from(start)
            },
            LoadBalanceAlgorithm::WeightedRandom => {
                if weight == 0 {
                    return None;
                }
                let start = self.owner_of(true, random as u128 % weight);
                proof {
                    lemma_live_slots(states(self.servers@), true, random as nat % (weight as nat));
                }
                self.taker_from(start)
            },
        }
    }

    /// The status with which a request is turned away that `checkout`
    /// found no server for: `STATUS_NO_SERVER` where no server of the
    /// group is alive, `STATUS_SATURATED` where some are.
    pub fn refusal_status(&self) -> (r: u16)
        ensures
            r == if live_count(states(self.servers@), self.servers@.len() as int) == 0 {
                STATUS_NO_SERVER
            } else {
                STATUS_SATURATED
            },
    {
        let (live, _) = self.count_live();
        if live == 0 {
            STATUS_NO_SERVER
        } else {
            STATUS_SATURATED
        }
    }

    /// Chooses the server for a request, as `select` does, and counts the
    /// request on it, as `acquire` does. `None` where no server can take
    /// the request, or where the chosen server cannot count one more:
    /// the request is then answered with `refusal_status`.
    pub fn checkout(&mut self, client_ip: IpAddress, random: u64) -> (r: Option<usize>)
        ensures
            final(self).algorithm == old(self).algorithm,
            final(self).counter == if takes_turn(
                states(old(self).servers@),
                old(self).algorithm,
                ip_hash(client_ip),
            ) {
                old(self).counter.wrapping_add(1)
            } else {
                old(self).counter
            },
            targets(final(self).servers@) == targets(old(self).servers@),
            check_times(final(self).servers@) == check_times(old(self).servers@),
            match spec_select(
                states(old(self).servers@),
                old(self).algorithm,
                Draw { counter: old(self).counter, hash: ip_hash(client_ip), random },
            ) {
                Some(i) => if states(old(self).servers@)[i].active_connections < usize::MAX {
                    &&& r == Some(i as usize)
                    &&& states(final(self).servers@) == states(old(self).servers@).update(
                        i,
                        ServerState {
                            active_connections: states(old(self).servers@)[i].active_connections + 1,
                            ..states(old(self).servers@)[i]
                        },
                    )
                } else {
                    r is None && states(final(self).servers@) == states(old(self).servers@)
                },
                None => r is None && states(final(self).servers@) == states(old(self).servers@),
            },
    {
        match self.select(client_ip, random) {
            Some(index) => {
                if self.servers[index].active_connections == usize::MAX {
                    return None;
                }
                self.acquire(index);
                Some(index)
            },
            None => None,
        }
    }

    /// Counts a request that is handed to the server `index`.
    pub fn acquire(&mut self, index: usize)
        requires
            index < old(self).servers@.len(),
            old(self).servers@[index as int].active_connections < usize::MAX,
        ensures
            final(self).algorithm == old(self).algorithm,
            final(self).counter == old(self).counter,
            states(final(self).servers@) == states(old(self).servers@).update(
                index as int,
                ServerState {
                    active_connections: old(self).servers@[index as int]@.active_connections + 1,
                    ..old(self).servers@[index as int]@
                },
            ),
            targets(final(self).servers@) == targets(old(self).servers@),
            check_times(final(self).servers@) == check_times(old(self).servers@),
    {
        let mut server = self.servers.remove(index);
        server.acquire();
        self.servers.insert(index, server);
        assert(targets(self.servers@) =~= targets(old(self).servers@));
        assert(check_times(self.servers@) =~= check_times(old(self).servers@));
        assert(states(self.servers@) =~= states(old(self).servers@).update(
            index as int,
            ServerState {
                active_connections: old(self).servers@[index as int]@.active_connections + 1,
                ..old(self).servers@[index as int]@
            },
        ));
    }

    /// Counts the end of a request to the server `index`.
    pub fn release(&mut self, index: usize)
        requires
            index < old(self).servers@.len(),
            old(self).servers@[index as int].active_connections > 0,
        ensures
            final(self).algorithm == old(self).algorithm,
            final(self).counter == old(self).counter,
            states(final(self).servers@) == states(old(self).servers@).update(
                index as int,
                ServerState {
                    active_connections: (old(self).servers@[index as int]@.active_connections - 1) as nat,
                    ..old(self).servers@[index as int]@
                },
            ),
            targets(final(self).servers@) == targets(old(self).servers@),
            check_times(final(self).servers@) == check_times(old(self).servers@),
    {
        let mut server = self.servers.remove(index);
        server.release();
        self.servers.insert(index, server);
        assert(targets(self.servers@) =~= targets(old(self).servers@));
        assert(check_times(self.servers@) =~= check_times(old(self).servers@));
        assert(states(self.servers@) =~= states(old(self).servers@).update(
            index as int,
            ServerState {
                active_connections: (old(self).servers@[index as int]@.active_connections - 1) as nat,
                ..old(self).servers@[index as int]@
            },
        ));
    }

    /// Counts the end of a request that `checkout` handed to the server
    /// `index`. An index beyond the servers, or a server without a
    /// request under way, changes nothing.
    pub fn checkin(&mut self, index: usize)
        ensures
            final(self).algorithm == old(self).algorithm,
            final(self).counter == old(self).counter,
            targets(final(self).servers@) == targets(old(self).servers@),
            check_times(final(self).servers@) == check_times(old(self).servers@),
            states(final(self).servers@) == if index < old(self).servers@.len() && old(self).servers@[index as int].active_connections
                > 0 {
                states(old(self).servers@).update(
                    index as int,
                    ServerState {
                        active_connections: (old(self).servers@[index as int]@.active_connections - 1) as nat,
                        ..old(self).servers@[index as int]@
                    },
                )
            } else {
                states(old(self).servers@)
            },
    {
        if index < self.servers.len() && self.servers[index].active_connections > 0 {
            self.release(index);
        }
    }

    /// Takes account of the outcome of a request to the server `index`.
    /// Two failures in a row make the server unhealthy; a success makes it
    /// healthy again. The requests under way are not touched.
    pub fn report(&mut self, index: usize, success: bool)
        requires
            index < old(self).servers@.len(),
        ensures
            final(self).algorithm == old(self).algorithm,
            final(self).counter == old(self).counter,
            states(final(self).servers@) == states(old(self).servers@).update(
                index as int,
                if success {
                    after_success(old(self).servers@[index as int]@)
                } else {
                    after_failure(old(self).servers@[index as int]@)
                },
            ),
            targets(final(self).servers@) == targets(old(self).servers@),
            check_times(final(self).servers@) == check_times(old(self).servers@),
    {
        let mut server = self.servers.remove(index);
        if success {
            server.consecutive_failures = 0;
            server.alive = true;
        } else {
            if server.consecutive_failures < u32::MAX {
                server.consecutive_failures += 1;
            }
            if server.consecutive_failures >= FAILURE_THRESHOLD {
                server.alive = false;
            }
        }
        self.servers.insert(index, server);
        assert(targets(self.servers@) =~= targets(old(self).servers@));
        assert(check_times(self.servers@) =~= check_times(old(self).servers@));
        assert(states(self.servers@) =~= states(old(self).servers@).update(
            index as int,
            if success {
                after_success(old(self).servers@[index as int]@)
            } else {
                after_failure(old(self).servers@[index as int]@)
            },
        ));
    }

    /// Takes account of the outcome of a health probe of the server
    /// `index` at the time `now`: a failed probe makes the server
    /// unhealthy, a successful one healthy. The requests under way are
    /// not touched.
    pub fn probe_result(&mut self, index: usize, success: bool, now: u64)
        requires
            index < old(self).servers@.len(),
        ensures
            final(self).algorithm == old(self).algorithm,
            final(self).counter == old(self).counter,
            states(final(self).servers@) == states(old(self).servers@).update(
                index as int,
                ServerState { alive: success, ..old(self).servers@[index as int]@ },
            ),
            targets(final(self).servers@) == targets(old(self).servers@),
            check_times(final(self).servers@) == check_times(old(self).servers@).update(index as int, now),
    {
        let mut server = self.servers.remove(index);
        server.alive = success;
        server.last_check = now;
        self.servers.insert(index, server);
        assert(targets(self.servers@) =~= targets(old(self).servers@));
        assert(check_times(self.servers@) =~= check_times(old(self).servers@).update(index as int, now));
        assert(states(self.servers@) =~= states(old(self).servers@).update(
            index as int,
            ServerState { alive: success, ..old(self).servers@[index as int]@ },
        ));
    }
}

} // verus!
