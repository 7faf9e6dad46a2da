//! Timer callbacks of modules.
//!
//! A module asks for ticks by setting a tick period. The registry keeps
//! the period of every such module and the time of its last tick. Time is
//! a count of nanoseconds on a clock that never runs backwards; the
//! embedder reads the clock.

use vstd::prelude::*;
use std::time::Duration;
use crate::text::str_eq;
use crate::time::duration_nanos;

verus! {

/// The tick settings of one module.
#[derive(Debug, Clone)]
pub struct ModuleTickConfig {
    /// Name of the module.
    pub module_name: String,
    /// Tick period in milliseconds.
    pub period_ms: u32,
    /// Time of the last tick, in nanoseconds.
    pub last_tick: u64,
}

/// Mathematical value of the tick settings of one module.
pub struct TickModel {
    pub module_name: Seq<char>,
    pub period_ms: u32,
    pub last_tick: u64,
}

impl View for ModuleTickConfig {
    type V = TickModel;

    open spec fn view(&self) -> TickModel {
        TickModel { module_name: self.module_name@, period_ms: self.period_ms, last_tick: self.last_tick }
    }
}

/// The tick settings of all modules that asked for ticks.
#[derive(Debug)]
pub struct TickRegistry {
    /// One entry per module, in the order of registration.
    configs: Vec<ModuleTickConfig>,
}

/// The value of a list of tick settings.
pub open spec fn configs_view(list: Seq<ModuleTickConfig>) -> Seq<TickModel> {
    Seq::new(list.len(), |i: int| list[i]@)
}

impl View for TickRegistry {
    type V = Seq<TickModel>;

    closed spec fn view(&self) -> Seq<TickModel> {
        configs_view(self.configs@)
    }
}

/// Where the module `name` stands in the list; the length of the list
/// where it does not occur.
pub open spec fn module_index(list: Seq<TickModel>, name: Seq<char>) -> int
    decreases list.len(),
{
    if list.len() == 0 {
        0
    } else if list[0].module_name == name {
        0
    } else {
        1 + module_index(list.drop_first(), name)
    }
}

/// The registry after a module sets its tick period at the time `now`: a
/// period of zero removes the module; any other period registers the
/// module, or replaces its settings, with the last tick at `now`.
pub open spec fn spec_register(list: Seq<TickModel>, name: Seq<char>, period_ms: u32, now: u64) -> Seq<TickModel> {
    let i = module_index(list, name);
    if period_ms == 0 {
        if 0 <= i < list.len() {
            list.remove(i)
        } else {
            list
        }
    } else {
        let entry = TickModel { module_name: name, period_ms, last_tick: now };
        if 0 <= i < list.len() {
            list.update(i, entry)
        } else {
            list.push(entry)
        }
    }
}

/// Whether a tick is due at the time `now`: at least one period has passed
/// since the last tick.
pub open spec fn is_due(config: TickModel, now: u64) -> bool {
    (if now >= config.last_tick {
        now - config.last_tick
    } else {
        0
    }) >= config.period_ms * 1_000_000
}

/// The modules whose tick is due at the time `now`, in the order of
/// registration.
pub open spec fn due_modules(list: Seq<TickModel>, now: u64) -> Seq<Seq<char>>
    decreases list.len(),
{
    if list.len() == 0 {
        Seq::empty()
    } else if is_due(list.last(), now) {
        due_modules(list.drop_last(), now).push(list.last().module_name)
    } else {
        due_modules(list.drop_last(), now)
    }
}

/// The registry after the due ticks are handed out at the time `now`: the
/// modules that were due have their last tick at `now`.
pub open spec fn after_ticks(list: Seq<TickModel>, now: u64) -> Seq<TickModel> {
    Seq::new(
        list.len(),
        |i: int|
            if is_due(list[i], now) {
                TickModel { last_tick: now, ..list[i] }
            } else {
                list[i]
            },
    )
}

/// The shortest period of a list of settings.
pub open spec fn min_period(list: Seq<TickModel>) -> Option<u32>
    decreases list.len(),
{
    if list.len() == 0 {
        None
    } else {
        match min_period(list.drop_last()) {
            Some(m) => Some(if list.last().period_ms < m {
                list.last().period_ms
            } else {
                m
            }),
            None => Some(list.last().period_ms),
        }
    }
}

/// The longest period of a list of settings.
pub open spec fn max_period(list: Seq<TickModel>) -> Option<u32>
    decreases list.len(),
{
    if list.len() == 0 {
        None
    } else {
        match max_period(list.drop_last()) {
            Some(m) => Some(if list.last().period_ms > m {
                list.last().period_ms
            } else {
                m
            }),
            None => Some(list.last().period_ms),
        }
    }
}

/// Statistics of the registry.
#[derive(Debug, Default)]
pub struct TickStats {
    /// Number of modules registered.
    pub registered_modules: usize,
    /// Shortest period in milliseconds.
    pub min_period_ms: Option<u32>,
    /// Longest period in milliseconds.
    pub max_period_ms: Option<u32>,
}

proof fn lemma_module_index(list: Seq<TickModel>, name: Seq<char>, k: int)
    requires
        0 <= k <= list.len(),
        k < list.len() ==> list[k].module_name == name,
        forall|j: int| 0 <= j < k ==> (#[trigger] list[j]).module_name != name,
    ensures
        module_index(list, name) == k,
    decreases list.len(),
{
    if list.len() > 0 && k > 0 {
        assert(list[0].module_name != name);
        let rest = list.drop_first();
        assert forall|j: int| 0 <= j < k - 1 implies (#[trigger] rest[j]).module_name != name by {
            assert(rest[j] == list[j + 1]);
        }
        lemma_module_index(rest, name, k - 1);
    }
}

impl TickRegistry {
    /// An empty registry.
    pub fn new() -> (r: Self)
        ensures
            r@ == Seq::<TickModel>::empty(),
    {
        let r = Self { configs: Vec::new() };
        assert(configs_view(r.configs@) =~= Seq::empty());
        r
    }
}

impl Default for TickRegistry {
    fn default() -> (r: Self)
        ensures
            r@ == Seq::<TickModel>::empty(),
    {
        Self::new()
    }
}

fn config_is_due(config: &ModuleTickConfig, now: u64) -> (r: bool)
    ensures
        r == is_due(config@, now),
{
    let elapsed: u64 = if now >= config.last_tick {
        now - config.last_tick
    } else {
        0
    };
    elapsed >= (config.period_ms as u64) * 1_000_000
}

/// Registers a module for ticks, as `proxy_set_tick_period_milliseconds`
/// asks; a period of zero ends the ticks of the module.
pub fn register_tick(registry: &mut TickRegistry, module_name: &str, period_ms: u32, now: u64)
    ensures
        final(registry)@ == spec_register(old(registry)@, module_name@, period_ms, now),
{
    let ghost before = configs_view(registry.configs@);
    let mut i: usize = 0;
    while i < registry.configs.len() && !str_eq(registry.configs[i].module_name.as_str(), module_name)
        invariant
            i <= registry.configs.len(),
            registry.configs@ == old(registry).configs@,
            before == configs_view(registry.configs@),
            forall|j: int| 0 <= j < i ==> (#[trigger] before[j]).module_name != module_name@,
        decreases registry.configs.len() - i,
    {
        i += 1;
    }
    proof {
        lemma_module_index(before, module_name@, i as int);
    }
    if period_ms == 0 {
        if i < registry.configs.len() {
            let _ = registry.configs.remove(i);
            assert(configs_view(registry.configs@) =~= before.remove(i as int));
        }
    } else {
        let entry = ModuleTickConfig { module_name: module_name.to_owned(), period_ms, last_tick: now };
        if i < registry.configs.len() {
            let _ = registry.configs.remove(i);
            registry.configs.insert(i, entry);
            assert(configs_view(registry.configs@) =~= before.update(i as int, entry@));
        } else {
            registry.configs.push(entry);
            assert(configs_view(registry.configs@) =~= before.push(entry@));
        }
    }
}

/// The modules whose tick is due at the time `now`. Each of them has its
/// last tick set to `now`.
pub fn get_due_ticks(registry: &mut TickRegistry, now: u64) -> (r: Vec<String>)
    ensures
        crate::text::texts(r@) == due_modules(old(registry)@, now),
        final(registry)@ == after_ticks(old(registry)@, now),
{
    let ghost all = configs_view(registry.configs@);
    let mut due: Vec<String> = Vec::new();
    let mut source: Vec<ModuleTickConfig> = Vec::new();
    std::mem::swap(&mut registry.configs, &mut source);
    let total: usize = source.len();
    let mut done: usize = 0;
    assert(all.subrange(0, 0) =~= Seq::empty());
    assert(crate::text::texts(due@) =~= Seq::empty());
    assert(configs_view(registry.configs@) =~= after_ticks(all, now).subrange(0, 0));
    while source.len() > 0
        invariant
            done + source@.len() == total,
            total == all.len(),
            configs_view(source@) == all.subrange(done as int, total as int),
            configs_view(registry.configs@) == after_ticks(all, now).subrange(0, done as int),
            crate::text::texts(due@) == due_modules(all.subrange(0, done as int), now),
        decreases source.len(),
    {
        let ghost rest = configs_view(source@);
        let ghost old_source = source@;
        let ghost before = configs_view(registry.configs@);
        let ghost due_before = crate::text::texts(due@);
        assert(done < total);
        let mut config = source.remove(0);
        assert(source@ =~= old_source.subrange(1, old_source.len() as int));
        assert(configs_view(source@) =~= all.subrange(done + 1, total as int)) by {
            assert forall|k: int| 0 <= k < source@.len() implies configs_view(source@)[k] == all[done + 1
                + k] by {
                assert(source@[k] == old_source[k + 1]);
                assert(rest[k + 1] == all[done + 1 + k]);
            }
        }
        assert(config@ == all[done as int]) by {
            assert(rest[0] == all[done as int]);
        }
        assert(all.subrange(0, done + 1).drop_last() =~= all.subrange(0, done as int));
        if config_is_due(&config, now) {
            let name = config.module_name.clone();
            assert(name@ == all[done as int].module_name);
            due.push(name);
            assert(crate::text::texts(due@) =~= due_before.push(all[done as int].module_name));
            config.last_tick = now;
        }
        registry.configs.push(config);
        assert(configs_view(registry.configs@) =~= after_ticks(all, now).subrange(0, done + 1)) by {
            let current = configs_view(registry.configs@);
            let want = after_ticks(all, now).subrange(0, done + 1);
            assert(after_ticks(all, now).len() == total);
            assert(before.len() == done);
            assert(current.len() == want.len());
            assert forall|k: int| 0 <= k < current.len() implies current[k] == want[k] by {
                if k < done {
                    assert(current[k] == before[k]);
                }
            }
        }
        done += 1;
    }
    assert(all.subrange(0, total as int) =~= all);
    assert(after_ticks(all, now).subrange(0, total as int) =~= after_ticks(all, now));
    due
}

/// The modules to tick at the time `now`. The embedder calls `on_tick` of
/// each.
pub fn process_ticks(registry: &mut TickRegistry, now: u64) -> (r: Vec<String>)
    ensures
        crate::text::texts(r@) == due_modules(old(registry)@, now),
        final(registry)@ == after_ticks(old(registry)@, now),
{
    get_due_ticks(registry, now)
}

fn period_bounds(registry: &TickRegistry) -> (r: (Option<u32>, Option<u32>))
    ensures
        r.0 == min_period(registry@),
        r.1 == max_period(registry@),
{
    let mut lowest: Option<u32> = None;
    let mut highest: Option<u32> = None;
    let mut i: usize = 0;
    let ghost all = configs_view(registry.configs@);
    assert(all.subrange(0, 0) =~= Seq::empty());
    while i < registry.configs.len()
        invariant
            i <= registry.configs.len(),
            all == configs_view(registry.configs@),
            lowest == min_period(all.subrange(0, i as int)),
            highest == max_period(all.subrange(0, i as int)),
        decreases registry.configs.len() - i,
    {
        assert(all.subrange(0, i + 1).drop_last() =~= all.subrange(0, i as int));
        let p = registry.configs[i].period_ms;
        assert(p == all.subrange(0, i + 1).last().period_ms);
        lowest = match lowest {
            Some(m) => Some(if p < m { p } else { m }),
            None => Some(p),
        };
        highest = match highest {
            Some(m) => Some(if p > m { p } else { m }),
            None => Some(p),
        };
        i += 1;
    }
    assert(all.subrange(0, registry.configs.len() as int) =~= all);
    (lowest, highest)
}

/// The shortest tick period of all modules, which tells how often to look
/// for due ticks; `None` where no module is registered.
pub fn get_min_tick_period(registry: &TickRegistry) -> (r: Option<Duration>)
    ensures
        match min_period(registry@) {
            Some(ms) => r matches Some(d) && duration_nanos(d) == ms as nat * 1_000_000,
            None => r is None,
        },
{
    match period_bounds(registry).0 {
        Some(ms) => Some(Duration::from_millis(ms as u64)),
        None => None,
    }
}

/// Statistics of the registry.
pub fn get_tick_stats(registry: &TickRegistry) -> (r: TickStats)
    ensures
        r.registered_modules == registry@.len(),
        r.min_period_ms == min_period(registry@),
        r.max_period_ms == max_period(registry@),
{
    let (lowest, highest) = period_bounds(registry);
    TickStats {
        registered_modules: registry.configs.len(),
        min_period_ms: lowest,
        max_period_ms: highest,
    }
}

} // verus!
