//! Who is told when a shared queue receives a message.
//!
//! The registry keeps, for every queue, the modules that subscribed to it,
//! and the ids of the queues by name. It is a plain value: one registry
//! serves the whole process, and the embedder guards it.

use vstd::prelude::*;
use crate::text::str_eq;

verus! {

/// The subscriptions to shared queues and the names of the queues.
#[derive(Debug)]
pub struct QueueSubscriptionRegistry {
    /// For each queue that ever had a subscriber: its id and the modules
    /// subscribed to it, in the order in which they subscribed.
    subscriptions: Vec<(u32, Vec<String>)>,
    /// The ids of the queues by name.
    name_to_id: Vec<(String, u32)>,
}

/// The modules subscribed to one queue.
pub type Subscribers = Seq<Seq<char>>;

/// Mathematical value of the registry.
pub struct RegistryModel {
    /// For each queue that ever had a subscriber: its id and subscribers.
    pub subscriptions: Seq<(u32, Subscribers)>,
    /// The ids of the queues by name.
    pub name_to_id: Seq<(Seq<char>, u32)>,
}

/// The value of a list of subscriptions.
pub open spec fn subscriptions_view(list: Seq<(u32, Vec<String>)>) -> Seq<(u32, Subscribers)> {
    Seq::new(list.len(), |i: int| (list[i].0, crate::text::texts(list[i].1@)))
}

/// The value of a list of names.
pub open spec fn names_view(list: Seq<(String, u32)>) -> Seq<(Seq<char>, u32)> {
    Seq::new(list.len(), |i: int| (list[i].0@, list[i].1))
}

/// Where the queue `queue_id` stands in the list; the length of the list
/// where it does not occur.
pub open spec fn queue_index(list: Seq<(u32, Subscribers)>, queue_id: u32) -> int
    decreases list.len(),
{
    if list.len() == 0 {
        0
    } else if list[0].0 == queue_id {
        0
    } else {
        1 + queue_index(list.drop_first(), queue_id)
    }
}

/// Where the name `name` stands in the list; the length of the list where
/// it does not occur.
pub open spec fn name_index(list: Seq<(Seq<char>, u32)>, name: Seq<char>) -> int
    decreases list.len(),
{
    if list.len() == 0 {
        0
    } else if list[0].0 == name {
        0
    } else {
        1 + name_index(list.drop_first(), name)
    }
}

/// A list of modules without the module `module`.
pub open spec fn without(list: Subscribers, module: Seq<char>) -> Subscribers
    decreases list.len(),
{
    if list.len() == 0 {
        Seq::empty()
    } else if list.last() == module {
        without(list.drop_last(), module)
    } else {
        without(list.drop_last(), module).push(list.last())
    }
}

/// Every list of subscribers without the module `module`.
pub open spec fn all_without(list: Seq<(u32, Subscribers)>, module: Seq<char>) -> Seq<(u32, Subscribers)> {
    Seq::new(list.len(), |i: int| (list[i].0, without(list[i].1, module)))
}

/// The number of subscriptions in a list of queues.
pub open spec fn subscription_count(list: Seq<(u32, Subscribers)>) -> nat
    decreases list.len(),
{
    if list.len() == 0 {
        0
    } else {
        subscription_count(list.drop_last()) + list.last().1.len()
    }
}

impl RegistryModel {
    /// The subscribers of a queue, in the order in which they subscribed.
    pub open spec fn subscribers(self, queue_id: u32) -> Subscribers {
        let i = queue_index(self.subscriptions, queue_id);
        if 0 <= i < self.subscriptions.len() {
            self.subscriptions[i].1
        } else {
            Seq::empty()
        }
    }

    /// The registry after a module subscribes to a queue. A module that is
    /// subscribed already is not subscribed again.
    pub open spec fn subscribe(self, module: Seq<char>, queue_id: u32) -> RegistryModel {
        let i = queue_index(self.subscriptions, queue_id);
        RegistryModel {
            subscriptions: if 0 <= i < self.subscriptions.len() {
                if self.subscriptions[i].1.contains(module) {
                    self.subscriptions
                } else {
                    self.subscriptions.update(i, (queue_id, self.subscriptions[i].1.push(module)))
                }
            } else {
                self.subscriptions.push((queue_id, seq![module]))
            },
            ..self
        }
    }

    /// The registry after a module ends its subscription to a queue.
    pub open spec fn unsubscribe(self, module: Seq<char>, queue_id: u32) -> RegistryModel {
        let i = queue_index(self.subscriptions, queue_id);
        RegistryModel {
            subscriptions: if 0 <= i < self.subscriptions.len() {
                self.subscriptions.update(i, (queue_id, without(self.subscriptions[i].1, module)))
            } else {
                self.subscriptions
            },
            ..self
        }
    }

    /// The registry after a module ends all its subscriptions.
    pub open spec fn unsubscribe_all(self, module: Seq<char>) -> RegistryModel {
        RegistryModel { subscriptions: all_without(self.subscriptions, module), ..self }
    }

    /// The registry after a queue name is registered. A name that is
    /// registered already gets the new id.
    pub open spec fn register(self, name: Seq<char>, queue_id: u32) -> RegistryModel {
        let i = name_index(self.name_to_id, name);
        RegistryModel {
            name_to_id: if 0 <= i < self.name_to_id.len() {
                self.name_to_id.update(i, (name, queue_id))
            } else {
                self.name_to_id.push((name, queue_id))
            },
            ..self
        }
    }

    /// The id registered for a queue name.
    pub open spec fn resolve(self, name: Seq<char>) -> Option<u32> {
        let i = name_index(self.name_to_id, name);
        if 0 <= i < self.name_to_id.len() {
            Some(self.name_to_id[i].1)
        } else {
            None
        }
    }
}

impl View for QueueSubscriptionRegistry {
    type V = RegistryModel;

    closed spec fn view(&self) -> RegistryModel {
        RegistryModel {
            subscriptions: subscriptions_view(self.subscriptions@),
            name_to_id: names_view(self.name_to_id@),
        }
    }
}

/// Statistics of the registry.
#[derive(Debug, Default)]
pub struct QueueStats {
    /// Number of queues with a name.
    pub registered_queues: usize,
    /// Number of queues that ever had a subscriber.
    pub queues_with_subscribers: usize,
    /// Number of subscriptions over all queues.
    pub total_subscriptions: usize,
}

proof fn lemma_queue_index(list: Seq<(u32, Subscribers)>, queue_id: u32, k: int)
    requires
        0 <= k <= list.len(),
        k < list.len() ==> list[k].0 == queue_id,
        forall|j: int| 0 <= j < k ==> (#[trigger] list[j]).0 != queue_id,
    ensures
        queue_index(list, queue_id) == k,
    decreases list.len(),
{
    if list.len() > 0 && k > 0 {
        assert(list[0].0 != queue_id);
        let rest = list.drop_first();
        assert forall|j: int| 0 <= j < k - 1 implies (#[trigger] rest[j]).0 != queue_id by {
            assert(rest[j] == list[j + 1]);
        }
        lemma_queue_index(rest, queue_id, k - 1);
    }
}

proof fn lemma_name_index(list: Seq<(Seq<char>, u32)>, name: Seq<char>, k: int)
    requires
        0 <= k <= list.len(),
        k < list.len() ==> list[k].0 == name,
        forall|j: int| 0 <= j < k ==> (#[trigger] list[j]).0 != name,
    ensures
        name_index(list, name) == k,
    decreases list.len(),
{
    if list.len() > 0 && k > 0 {
        assert(list[0].0 != name);
        let rest = list.drop_first();
        assert forall|j: int| 0 <= j < k - 1 implies (#[trigger] rest[j]).0 != name by {
            assert(rest[j] == list[j + 1]);
        }
        lemma_name_index(rest, name, k - 1);
    }
}

/// A module that unsubscribed is no subscriber, and the other subscribers
/// stay.
pub proof fn lemma_without(list: Subscribers, module: Seq<char>, other: Seq<char>)
    ensures
        !without(list, module).contains(module),
        other != module ==> (without(list, module).contains(other) <==> list.contains(other)),
        without(list, module).len() <= list.len(),
    decreases list.len(),
{
    if list.len() > 0 {
        let rest = list.drop_last();
        lemma_without(rest, module, other);
        let r = without(rest, module);
        let w = without(list, module);
        if w.contains(module) {
            let i = choose|i: int| 0 <= i < w.len() && w[i] == module;
            if i < r.len() {
                assert(r[i] == module);
            }
        }
        if other != module {
            if w.contains(other) {
                let i = choose|i: int| 0 <= i < w.len() && w[i] == other;
                if i < r.len() {
                    assert(r[i] == other);
                    assert(r.contains(other));
                    let j = choose|j: int| 0 <= j < rest.len() && rest[j] == other;
                    assert(list[j] == other);
                } else {
                    assert(list[list.len() - 1] == other);
                }
            }
            if list.contains(other) {
                let j = choose|j: int| 0 <= j < list.len() && list[j] == other;
                if j < rest.len() {
                    assert(rest[j] == other);
                    assert(rest.contains(other));
                    let i = choose|i: int| 0 <= i < r.len() && r[i] == other;
                    assert(w[i] == other);
                } else {
                    assert(w[w.len() - 1] == other);
                }
            }
        }
    }
}

fn find_queue(list: &Vec<(u32, Vec<String>)>, queue_id: u32) -> (r: usize)
    ensures
        r == queue_index(subscriptions_view(list@), queue_id),
        r <= list@.len(),
        r < list@.len() ==> list@[r as int].0 == queue_id,
{
    let mut i: usize = 0;
    while i < list.len() && list[i].0 != queue_id
        invariant
            i <= list.len(),
            forall|j: int| 0 <= j < i ==> (#[trigger] subscriptions_view(list@)[j]).0 != queue_id,
        decreases list.len() - i,
    {
        i += 1;
    }
    proof {
        lemma_queue_index(subscriptions_view(list@), queue_id, i as int);
    }
    i
}

fn find_name(list: &Vec<(String, u32)>, name: &str) -> (r: usize)
    ensures
        r == name_index(names_view(list@), name@),
        r <= list@.len(),
        r < list@.len() ==> list@[r as int].0@ == name@,
{
    let mut i: usize = 0;
    while i < list.len() && !str_eq(list[i].0.as_str(), name)
        invariant
            i <= list.len(),
            forall|j: int| 0 <= j < i ==> (#[trigger] names_view(list@)[j]).0 != name@,
        decreases list.len() - i,
    {
        i += 1;
    }
    proof {
        lemma_name_index(names_view(list@), name@, i as int);
    }
    i
}

fn contains_module(list: &Vec<String>, module_name: &str) -> (r: bool)
    ensures
        r == crate::text::texts(list@).contains(module_name@),
{
    let mut i: usize = 0;
    while i < list.len()
        invariant
            i <= list.len(),
            forall|j: int| 0 <= j < i ==> crate::text::texts(list@)[j] != module_name@,
        decreases list.len() - i,
    {
        if str_eq(list[i].as_str(), module_name) {
            assert(crate::text::texts(list@)[i as int] == module_name@);
            return true;
        }
        i += 1;
    }
    false
}

fn remove_module(list: Vec<String>, module_name: &str) -> (r: Vec<String>)
    ensures
        crate::text::texts(r@) == without(crate::text::texts(list@), module_name@),
{
    let mut out: Vec<String> = Vec::new();
    let mut source = list;
    let ghost all = crate::text::texts(list@);
    let total: usize = source.len();
    let mut done: usize = 0;
    assert(all.subrange(0, 0) =~= Seq::empty());
    assert(crate::text::texts(out@) =~= Seq::empty());
    while source.len() > 0
        invariant
            done + source@.len() == total,
            total == all.len(),
            crate::text::texts(source@) == all.subrange(done as int, total as int),
            crate::text::texts(out@) == without(all.subrange(0, done as int), module_name@),
        decreases source.len(),
    {
        let ghost rest = crate::text::texts(source@);
        let ghost old_source = source@;
        let ghost before = crate::text::texts(out@);
        let name = source.remove(0);
        assert(source@ =~= old_source.subrange(1, old_source.len() as int));
        assert(crate::text::texts(source@) =~= all.subrange(done + 1, total as int)) by {
            assert forall|k: int| 0 <= k < source@.len() implies crate::text::texts(source@)[k] == all[done
                + 1 + k] by {
                assert(source@[k] == old_source[k + 1]);
                assert(rest[k + 1] == all[done + 1 + k]);
            }
        }
        assert(name@ == all[done as int]) by {
            assert(rest[0] == all[done as int]);
        }
        assert(all.subrange(0, done + 1).drop_last() =~= all.subrange(0, done as int));
        if !str_eq(name.as_str(), module_name) {
            out.push(name);
            assert(crate::text::texts(out@) =~= before.push(all[done as int]));
        }
        done += 1;
    }
    assert(all.subrange(0, total as int) =~= all);
    out
}

/// Subscribes a module to a queue, as it does by resolving the queue.
pub fn subscribe_to_queue(registry: &mut QueueSubscriptionRegistry, module_name: &str, queue_id: u32)
    ensures
        final(registry)@ == old(registry)@.subscribe(module_name@, queue_id),
{
    let i = find_queue(&registry.subscriptions, queue_id);
    let ghost before = subscriptions_view(registry.subscriptions@);
    if i < registry.subscriptions.len() {
        if !contains_module(&registry.subscriptions[i].1, module_name) {
            let (id, mut modules) = registry.subscriptions.remove(i);
            modules.push(module_name.to_owned());
            registry.subscriptions.insert(i, (id, modules));
            assert(subscriptions_view(registry.subscriptions@) =~= before.update(
                i as int,
                (queue_id, before[i as int].1.push(module_name@)),
            )) by {
                assert(crate::text::texts(registry.subscriptions@[i as int].1@) =~= before[i as int].1.push(
                    module_name@,
                ));
            }
        }
    } else {
        let mut modules: Vec<String> = Vec::new();
        modules.push(module_name.to_owned());
        registry.subscriptions.push((queue_id, modules));
        assert(subscriptions_view(registry.subscriptions@) =~= before.push((queue_id, seq![module_name@]))) by {
            assert(crate::text::texts(registry.subscriptions@[i as int].1@) =~= seq![module_name@]);
        }
    }
}

/// Ends the subscription of a module to a queue.
pub fn unsubscribe_from_queue(registry: &mut QueueSubscriptionRegistry, module_name: &str, queue_id: u32)
    ensures
        final(registry)@ == old(registry)@.unsubscribe(module_name@, queue_id),
{
    let i = find_queue(&registry.subscriptions, queue_id);
    let ghost before = subscriptions_view(registry.subscriptions@);
    if i < registry.subscriptions.len() {
        let (id, modules) = registry.subscriptions.remove(i);
        let kept = remove_module(modules, module_name);
        registry.subscriptions.insert(i, (id, kept));
        assert(subscriptions_view(registry.subscriptions@) =~= before.update(
            i as int,
            (queue_id, without(before[i as int].1, module_name@)),
        ));
    }
}

/// Ends all subscriptions of a module, as when its context is destroyed.
pub fn unsubscribe_from_all_queues(registry: &mut QueueSubscriptionRegistry, module_name: &str)
    ensures
        final(registry)@ == old(registry)@.unsubscribe_all(module_name@),
{
    let ghost all = subscriptions_view(registry.subscriptions@);
    let mut source: Vec<(u32, Vec<String>)> = Vec::new();
    std::mem::swap(&mut registry.subscriptions, &mut source);
    let total: usize = source.len();
    let mut done: usize = 0;
    assert(subscriptions_view(registry.subscriptions@) =~= all_without(all, module_name@).subrange(0, 0));
    while source.len() > 0
        invariant
            done + source@.len() == total,
            total == all.len(),
            registry.name_to_id == old(registry).name_to_id,
            subscriptions_view(source@) == all.subrange(done as int, total as int),
            subscriptions_view(registry.subscriptions@) == all_without(all, module_name@).subrange(
                0,
                done as int,
            ),
        decreases source.len(),
    {
        let ghost rest = subscriptions_view(source@);
        let ghost old_source = source@;
        let ghost before = subscriptions_view(registry.subscriptions@);
        assert(done < total);
        let (id, modules) = source.remove(0);
        assert(source@ =~= old_source.subrange(1, old_source.len() as int));
        assert(subscriptions_view(source@) =~= all.subrange(done + 1, total as int)) by {
            assert forall|k: int| 0 <= k < source@.len() implies subscriptions_view(source@)[k] == all[done
                + 1 + k] by {
                assert(source@[k] == old_source[k + 1]);
                assert(rest[k + 1] == all[done + 1 + k]);
            }
        }
        assert((id, crate::text::texts(modules@)) == all[done as int]) by {
            assert(rest[0] == all[done as int]);
        }
        let kept = remove_module(modules, module_name);
        registry.subscriptions.push((id, kept));
        assert(subscriptions_view(registry.subscriptions@) =~= all_without(all, module_name@).subrange(
            0,
            done + 1,
        )) by {
            let now = subscriptions_view(registry.subscriptions@);
            let want = all_without(all, module_name@).subrange(0, done + 1);
            assert(all_without(all, module_name@).len() == total);
            assert(before.len() == done);
            assert(now.len() == done + 1);
            assert(now.len() == want.len());
            assert forall|k: int| 0 <= k < now.len() implies now[k] == want[k] by {
                if k < done {
                    assert(now[k] == before[k]);
                } else {
                    assert(now[k] == (id, crate::text::texts(kept@)));
                    assert(want[k] == (all[done as int].0, without(all[done as int].1, module_name@)));
                }
            }
        }
        done += 1;
    }
    assert(all_without(all, module_name@).subrange(0, total as int) =~= all_without(all, module_name@));
}

/// The subscribers of a queue.
pub fn get_queue_subscribers(registry: &QueueSubscriptionRegistry, queue_id: u32) -> (r: Vec<String>)
    ensures
        crate::text::texts(r@) == registry@.subscribers(queue_id),
{
    let i = find_queue(&registry.subscriptions, queue_id);
    let mut out: Vec<String> = Vec::new();
    if i < registry.subscriptions.len() {
        let modules = &registry.subscriptions[i].1;
        let mut j: usize = 0;
        while j < modules.len()
            invariant
                j <= modules.len(),
                crate::text::texts(out@) == crate::text::texts(modules@).subrange(0, j as int),
            decreases modules.len() - j,
        {
            let ghost before = crate::text::texts(out@);
            let name = modules[j].clone();
            assert(name@ == modules@[j as int]@);
            out.push(name);
            assert(crate::text::texts(out@) =~= before.push(modules@[j as int]@));
            assert(crate::text::texts(out@) =~= crate::text::texts(modules@).subrange(0, j + 1));
            j += 1;
        }
        assert(crate::text::texts(modules@).subrange(0, modules.len() as int) =~= crate::text::texts(
            modules@,
        ));
    } else {
        assert(crate::text::texts(out@) =~= Seq::empty());
    }
    out
}

/// The modules to tell that a queue has received a message: its
/// subscribers. The embedder calls `on_queue_ready` of each.
pub fn notify_queue_subscribers(registry: &QueueSubscriptionRegistry, queue_id: u32) -> (r: Vec<String>)
    ensures
        crate::text::texts(r@) == registry@.subscribers(queue_id),
{
    get_queue_subscribers(registry, queue_id)
}

/// Registers the id of a queue under its name.
pub fn register_queue_name(registry: &mut QueueSubscriptionRegistry, queue_name: &str, queue_id: u32)
    ensures
        final(registry)@ == old(registry)@.register(queue_name@, queue_id),
{
    let i = find_name(&registry.name_to_id, queue_name);
    let ghost before = names_view(registry.name_to_id@);
    if i < registry.name_to_id.len() {
        let (name, _) = registry.name_to_id.remove(i);
        registry.name_to_id.insert(i, (name, queue_id));
        assert(names_view(registry.name_to_id@) =~= before.update(i as int, (queue_name@, queue_id)));
    } else {
        registry.name_to_id.push((queue_name.to_owned(), queue_id));
        assert(names_view(registry.name_to_id@) =~= before.push((queue_name@, queue_id)));
    }
}

/// The id registered for a queue name.
pub fn resolve_queue_name(registry: &QueueSubscriptionRegistry, queue_name: &str) -> (r: Option<u32>)
    ensures
        r == registry@.resolve(queue_name@),
{
    let i = find_name(&registry.name_to_id, queue_name);
    if i < registry.name_to_id.len() {
        Some(registry.name_to_id[i].1)
    } else {
        None
    }
}

/// Statistics of the registry. The number of subscriptions saturates at
/// the largest number that fits.
pub fn get_queue_stats(registry: &QueueSubscriptionRegistry) -> (r: QueueStats)
    ensures
        r.registered_queues == registry@.name_to_id.len(),
        r.queues_with_subscribers == registry@.subscriptions.len(),
        r.total_subscriptions == if subscription_count(registry@.subscriptions) <= usize::MAX {
            subscription_count(registry@.subscriptions)
        } else {
            usize::MAX as nat
        },
{
    let mut total: usize = 0;
    let mut i: usize = 0;
    let ghost all = subscriptions_view(registry.subscriptions@);
    assert(all.subrange(0, 0) =~= Seq::empty());
    while i < registry.subscriptions.len()
        invariant
            i <= registry.subscriptions.len(),
            all == subscriptions_view(registry.subscriptions@),
            total == if subscription_count(all.subrange(0, i as int)) <= usize::MAX {
                subscription_count(all.subrange(0, i as int))
            } else {
                usize::MAX as nat
            },
        decreases registry.subscriptions.len() - i,
    {
        assert(all.subrange(0, i + 1).drop_last() =~= all.subrange(0, i as int));
        let n = registry.subscriptions[i].1.len();
        assert(n == all[i as int].1.len());
        total = if n > usize::MAX - total {
            usize::MAX
        } else {
            total + n
        };
        i += 1;
    }
    assert(all.subrange(0, registry.subscriptions.len() as int) =~= all);
    QueueStats {
        registered_queues: registry.name_to_id.len(),
        queues_with_subscribers: registry.subscriptions.len(),
        total_subscriptions: total,
    }
}

impl QueueSubscriptionRegistry {
    /// An empty registry.
    pub fn new() -> (r: Self)
        ensures
            r@ == (RegistryModel { subscriptions: Seq::empty(), name_to_id: Seq::empty() }),
    {
        let r = Self { subscriptions: Vec::new(), name_to_id: Vec::new() };
        assert(subscriptions_view(r.subscriptions@) =~= Seq::empty());
        assert(names_view(r.name_to_id@) =~= Seq::empty());
        r
    }
}

impl Default for QueueSubscriptionRegistry {
    fn default() -> (r: Self)
        ensures
            r@ == (RegistryModel { subscriptions: Seq::empty(), name_to_id: Seq::empty() }),
    {
        Self::new()
    }
}

} // verus!
