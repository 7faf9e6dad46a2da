//! Shared queues: named queues of messages between modules.
//!
//! A queue is registered under a name and known by an id from then on. A
//! module that resolves the name of a queue subscribes to it, and is told
//! whenever a message is put into the queue. A queue holds at most 1000
//! messages of at most 64 KiB each, and hands them out in the order in
//! which they came.

use vstd::prelude::*;
use crate::wasm::constants::{
    PROXY_RESULT_BAD_ARGUMENT, PROXY_RESULT_EMPTY, PROXY_RESULT_INTERNAL_FAILURE,
    PROXY_RESULT_NOT_FOUND, PROXY_RESULT_OK,
};
use crate::wasm::queue_notify::{
    get_queue_subscribers, register_queue_name, resolve_queue_name, subscribe_to_queue,
    QueueSubscriptionRegistry,
};

verus! {

/// Largest number of messages in a queue.
pub const MAX_QUEUE_MESSAGES: usize = 1000;

/// Largest size of a message: 64 KiB.
pub const MAX_MESSAGE_SIZE: usize = 65536;

/// The messages of the shared queues.
#[derive(Debug)]
pub struct SharedQueues {
    /// The queues by id, each with its messages, oldest first.
    queues: Vec<(u32, Vec<Vec<u8>>)>,
    /// The id of the next queue.
    next_id: u32,
}

/// The messages of one queue.
pub type Messages = Seq<Seq<u8>>;

/// Mathematical value of the shared queues.
pub struct QueuesModel {
    /// The queues by id, each with its messages, oldest first.
    pub queues: Seq<(u32, Messages)>,
    /// The id of the next queue.
    pub next_id: u32,
}

/// The values of a list of messages.
pub open spec fn messages_view(list: Seq<Vec<u8>>) -> Messages {
    Seq::new(list.len(), |i: int| list[i]@)
}

/// The values of a list of queues.
pub open spec fn queues_view(list: Seq<(u32, Vec<Vec<u8>>)>) -> Seq<(u32, Messages)> {
    Seq::new(list.len(), |i: int| (list[i].0, messages_view(list[i].1@)))
}

/// Where the queue `id` stands in the list; the length of the list where
/// there is no such queue.
pub open spec fn queue_position(list: Seq<(u32, Messages)>, id: u32) -> int
    decreases list.len(),
{
    if list.len() == 0 {
        0
    } else if list[0].0 == id {
        0
    } else {
        1 + queue_position(list.drop_first(), id)
    }
}

impl QueuesModel {
    /// The messages of a queue; `None` where there is no such queue.
    pub open spec fn messages(self, id: u32) -> Option<Messages> {
        let i = queue_position(self.queues, id);
        if 0 <= i < self.queues.len() {
            Some(self.queues[i].1)
        } else {
            None
        }
    }

    /// The queues after the messages of the queue `id` are replaced.
    pub open spec fn with_messages(self, id: u32, messages: Messages) -> QueuesModel {
        let i = queue_position(self.queues, id);
        QueuesModel {
            queues: if 0 <= i < self.queues.len() {
                self.queues.update(i, (id, messages))
            } else {
                self.queues
            },
            ..self
        }
    }

    /// The status of putting a message into a queue.
    pub open spec fn enqueue_status(self, id: u32, data: Seq<u8>) -> i32 {
        match self.messages(id) {
            None => PROXY_RESULT_NOT_FOUND,
            Some(messages) => if data.len() > MAX_MESSAGE_SIZE {
                PROXY_RESULT_BAD_ARGUMENT
            } else if messages.len() >= MAX_QUEUE_MESSAGES {
                PROXY_RESULT_INTERNAL_FAILURE
            } else {
                PROXY_RESULT_OK
            },
        }
    }
}

impl View for SharedQueues {
    type V = QueuesModel;

    closed spec fn view(&self) -> QueuesModel {
        QueuesModel { queues: queues_view(self.queues@), next_id: self.next_id }
    }
}

proof fn lemma_queue_position(list: Seq<(u32, Messages)>, id: u32, k: int)
    requires
        0 <= k <= list.len(),
        k < list.len() ==> list[k].0 == id,
        forall|j: int| 0 <= j < k ==> (#[trigger] list[j]).0 != id,
    ensures
        queue_position(list, id) == k,
    decreases list.len(),
{
    if list.len() > 0 && k > 0 {
        assert(list[0].0 != id);
        let rest = list.drop_first();
        assert forall|j: int| 0 <= j < k - 1 implies (#[trigger] rest[j]).0 != id by {
            assert(rest[j] == list[j + 1]);
        }
        lemma_queue_position(rest, id, k - 1);
    }
}

impl SharedQueues {
    /// No queues. The first queue gets the id 1.
    pub fn new() -> (r: Self)
        ensures
            r@ == (QueuesModel { queues: Seq::empty(), next_id: 1 }),
    {
        let r = SharedQueues { queues: Vec::new(), next_id: 1 };
        assert(queues_view(r.queues@) =~= Seq::empty());
        r
    }

    fn find(&self, id: u32) -> (i: usize)
        ensures
            i == queue_position(self@.queues, id),
            i <= self.queues@.len(),
            i < self.queues@.len() ==> self.queues@[i as int].0 == id,
    {
        let mut i: usize = 0;
        while i < self.queues.len() && self.queues[i].0 != id
            invariant
                i <= self.queues.len(),
                forall|j: int| 0 <= j < i ==> (#[trigger] queues_view(self.queues@)[j]).0 != id,
            decreases self.queues.len() - i,
        {
            i += 1;
        }
        proof {
            lemma_queue_position(queues_view(self.queues@), id, i as int);
        }
        i
    }

    /// `proxy_register_shared_queue`: the id of the queue of a name. A
    /// name that is not registered yet gets a new, empty queue. With the
    /// ids used up the answer is an internal failure.
    pub fn proxy_register_shared_queue(&mut self, registry: &mut QueueSubscriptionRegistry, name: &str) -> (r: (
        i32,
        Option<u32>,
    ))
        ensures
            match old(registry)@.resolve(name@) {
                Some(id) => {
                    &&& r == (PROXY_RESULT_OK, Some(id))
                    &&& final(self)@ == old(self)@
                    &&& final(registry)@ == old(registry)@
                },
                None => if old(self)@.next_id == u32::MAX {
                    &&& r == (PROXY_RESULT_INTERNAL_FAILURE, None::<u32>)
                    &&& final(self)@ == old(self)@
                    &&& final(registry)@ == old(registry)@
                } else {
                    &&& r == (PROXY_RESULT_OK, Some(old(self)@.next_id))
                    &&& final(registry)@ == old(registry)@.register(name@, old(self)@.next_id)
                    &&& final(self)@ == (QueuesModel {
                        queues: old(self)@.queues.push((old(self)@.next_id, Seq::empty())),
                        next_id: (old(self)@.next_id + 1) as u32,
                    })
                },
            },
    {
        match resolve_queue_name(registry, name) {
            Some(id) => (PROXY_RESULT_OK, Some(id)),
            None => {
                if self.next_id == u32::MAX {
                    return (PROXY_RESULT_INTERNAL_FAILURE, None);
                }
                let id = self.next_id;
                self.next_id = id + 1;
                let ghost before = queues_view(self.queues@);
                let messages: Vec<Vec<u8>> = Vec::new();
                assert(messages_view(messages@) =~= Seq::empty());
                self.queues.push((id, messages));
                assert(queues_view(self.queues@) =~= before.push((id, Seq::empty())));
                register_queue_name(registry, name, id);
                (PROXY_RESULT_OK, Some(id))
            },
        }
    }

    /// `proxy_resolve_shared_queue`: the id of the queue of a name; the
    /// module that asks subscribes to the queue. A name that is not
    /// registered is not found.
    pub fn proxy_resolve_shared_queue(registry: &mut QueueSubscriptionRegistry, module_name: &str, name: &str) -> (r: (
        i32,
        Option<u32>,
    ))
        ensures
            match old(registry)@.resolve(name@) {
                Some(id) => r == (PROXY_RESULT_OK, Some(id)) && final(registry)@ == old(registry)@.subscribe(
                    module_name@,
                    id,
                ),
                None => r == (PROXY_RESULT_NOT_FOUND, None::<u32>) && final(registry)@ == old(registry)@,
            },
    {
        match resolve_queue_name(registry, name) {
            Some(id) => {
                subscribe_to_queue(registry, module_name, id);
                (PROXY_RESULT_OK, Some(id))
            },
            None => (PROXY_RESULT_NOT_FOUND, None),
        }
    }

    /// `proxy_enqueue_shared_queue`: puts a message at the end of a queue
    /// and names the modules to tell: the subscribers of the queue. A
    /// message of more than 64 KiB is a bad argument; a queue that holds
    /// 1000 messages takes no more. Unless the status is OK, nothing
    /// changes and nobody is told.
    pub fn proxy_enqueue_shared_queue(&mut self, registry: &QueueSubscriptionRegistry, id: u32, data: &[u8]) -> (r: (
        i32,
        Vec<String>,
    ))
        ensures
            r.0 == old(self)@.enqueue_status(id, data@),
            r.0 == PROXY_RESULT_OK ==> final(self)@ == old(self)@.with_messages(
                id,
                old(self)@.messages(id)->0.push(data@),
            ) && crate::text::texts(r.1@) == registry@.subscribers(id),
            r.0 != PROXY_RESULT_OK ==> final(self)@ == old(self)@ && r.1@.len() == 0,
    {
        let i = self.find(id);
        if i >= self.queues.len() {
            return (PROXY_RESULT_NOT_FOUND, Vec::new());
        }
        if data.len() > MAX_MESSAGE_SIZE {
            return (PROXY_RESULT_BAD_ARGUMENT, Vec::new());
        }
        if self.queues[i].1.len() >= MAX_QUEUE_MESSAGES {
            return (PROXY_RESULT_INTERNAL_FAILURE, Vec::new());
        }
        let ghost before = queues_view(self.queues@);
        let (qid, mut messages) = self.queues.remove(i);
        let ghost old_messages = messages_view(messages@);
        messages.push(vstd::slice::slice_to_vec(data));
        assert(messages_view(messages@) =~= old_messages.push(data@));
        self.queues.insert(i, (qid, messages));
        assert(queues_view(self.queues@) =~= before.update(i as int, (id, old_messages.push(data@))));
        (PROXY_RESULT_OK, get_queue_subscribers(registry, id))
    }

    /// `proxy_dequeue_shared_queue`: takes the oldest message out of a
    /// queue. A queue without messages answers `EMPTY`.
    pub fn proxy_dequeue_shared_queue(&mut self, id: u32) -> (r: (i32, Option<Vec<u8>>))
        ensures
            match old(self)@.messages(id) {
                None => r.0 == PROXY_RESULT_NOT_FOUND && r.1 is None && final(self)@ == old(self)@,
                Some(messages) => if messages.len() == 0 {
                    r.0 == PROXY_RESULT_EMPTY && r.1 is None && final(self)@ == old(self)@
                } else {
                    &&& r.0 == PROXY_RESULT_OK
                    &&& r.1 matches Some(data)
                    &&& data@ == messages[0]
                    &&& final(self)@ == old(self)@.with_messages(id, messages.drop_first())
                },
            },
    {
        let i = self.find(id);
        if i >= self.queues.len() {
            return (PROXY_RESULT_NOT_FOUND, None);
        }
        if self.queues[i].1.len() == 0 {
            return (PROXY_RESULT_EMPTY, None);
        }
        let ghost before = queues_view(self.queues@);
        let (qid, mut messages) = self.queues.remove(i);
        let ghost old_messages = messages_view(messages@);
        let data = messages.remove(0);
        assert(messages_view(messages@) =~= old_messages.drop_first());
        self.queues.insert(i, (qid, messages));
        assert(queues_view(self.queues@) =~= before.update(i as int, (id, old_messages.drop_first())));
        (PROXY_RESULT_OK, Some(data))
    }
}

impl Default for SharedQueues {
    fn default() -> (r: Self)
        ensures
            r@ == (QueuesModel { queues: Seq::empty(), next_id: 1 }),
    {
        Self::new()
    }
}

} // verus!
