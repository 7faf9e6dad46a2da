//! Shared data: a store of values by key that all modules of the process
//! see.
//!
//! Every value carries a compare-and-swap number that changes with every
//! write. A writer that names the number it has read overwrites the value
//! only if nobody wrote in between. The store is a plain value; the
//! embedder guards it.

use vstd::prelude::*;
use crate::text::str_eq;
use crate::wasm::capabilities::ModuleCapabilities;
use crate::wasm::constants::{
    PROXY_RESULT_CAS_MISMATCH, PROXY_RESULT_INTERNAL_FAILURE, PROXY_RESULT_NOT_ALLOWED,
    PROXY_RESULT_NOT_FOUND, PROXY_RESULT_OK,
};

verus! {

/// One value of the store.
#[derive(Debug, Clone)]
pub struct SharedValue {
    /// The key.
    pub key: String,
    /// The value.
    pub value: Vec<u8>,
    /// The compare-and-swap number of the value; never 0.
    pub cas: u32,
}

/// Mathematical value of an entry of the store.
pub struct ValueModel {
    pub key: Seq<char>,
    pub value: Seq<u8>,
    pub cas: u32,
}

impl View for SharedValue {
    type V = ValueModel;

    open spec fn view(&self) -> ValueModel {
        ValueModel { key: self.key@, value: self.value@, cas: self.cas }
    }
}

/// The store of shared data.
#[derive(Debug)]
pub struct SharedData {
    entries: Vec<SharedValue>,
    next_cas: u32,
}

/// The values of a list of entries.
pub open spec fn entries_view(list: Seq<SharedValue>) -> Seq<ValueModel> {
    Seq::new(list.len(), |i: int| list[i]@)
}

/// Where the key `key` stands in the list; the length of the list where it
/// does not occur.
pub open spec fn key_index(list: Seq<ValueModel>, key: Seq<char>) -> int
    decreases list.len(),
{
    if list.len() == 0 {
        0
    } else if list[0].key == key {
        0
    } else {
        1 + key_index(list.drop_first(), key)
    }
}

/// The number of bytes that a list of entries holds.
pub open spec fn stored_bytes(list: Seq<ValueModel>) -> nat
    decreases list.len(),
{
    if list.len() == 0 {
        0
    } else {
        stored_bytes(list.drop_last()) + list.last().value.len()
    }
}

/// The compare-and-swap number after `cas`: the next number, skipping 0.
pub open spec fn cas_after(cas: u32) -> u32 {
    if cas == u32::MAX {
        1
    } else {
        (cas + 1) as u32
    }
}

/// Mathematical value of the store.
pub struct StoreModel {
    /// The entries, in the order in which their keys were first written.
    pub entries: Seq<ValueModel>,
    /// The compare-and-swap number of the next write.
    pub next_cas: u32,
}

impl StoreModel {
    /// The entry of a key.
    pub open spec fn get(self, key: Seq<char>) -> Option<ValueModel> {
        let i = key_index(self.entries, key);
        if 0 <= i < self.entries.len() {
            Some(self.entries[i])
        } else {
            None
        }
    }

    /// The status of a write by a module with the capabilities `caps`:
    /// not allowed without the capability for shared data; a mismatch
    /// where the writer names a number other than that of the value, or
    /// any number for a key that is not there; an internal failure where
    /// the value is larger than the module may store.
    pub open spec fn write_status(self, caps: &ModuleCapabilities, key: Seq<char>, value: Seq<u8>, cas: u32) -> i32 {
        if !caps.allow_shared_data {
            PROXY_RESULT_NOT_ALLOWED
        } else if cas != 0 && (self.get(key) is None || self.get(key)->0.cas != cas) {
            PROXY_RESULT_CAS_MISMATCH
        } else if value.len() > caps.max_shared_data_size {
            PROXY_RESULT_INTERNAL_FAILURE
        } else {
            PROXY_RESULT_OK
        }
    }

    /// The store after a value is written.
    pub open spec fn written(self, key: Seq<char>, value: Seq<u8>) -> StoreModel {
        let i = key_index(self.entries, key);
        let entry = ValueModel { key, value, cas: self.next_cas };
        StoreModel {
            entries: if 0 <= i < self.entries.len() {
                self.entries.update(i, entry)
            } else {
                self.entries.push(entry)
            },
            next_cas: cas_after(self.next_cas),
        }
    }
}

impl View for SharedData {
    type V = StoreModel;

    closed spec fn view(&self) -> StoreModel {
        StoreModel { entries: entries_view(self.entries@), next_cas: self.next_cas }
    }
}

proof fn lemma_key_index(list: Seq<ValueModel>, key: Seq<char>, k: int)
    requires
        0 <= k <= list.len(),
        k < list.len() ==> list[k].key == key,
        forall|j: int| 0 <= j < k ==> (#[trigger] list[j]).key != key,
    ensures
        key_index(list, key) == k,
    decreases list.len(),
{
    if list.len() > 0 && k > 0 {
        assert(list[0].key != key);
        let rest = list.drop_first();
        assert forall|j: int| 0 <= j < k - 1 implies (#[trigger] rest[j]).key != key by {
            assert(rest[j] == list[j + 1]);
        }
        lemma_key_index(rest, key, k - 1);
    }
}

/// A value that was written is read back, with the number of the write.
pub proof fn lemma_write_then_read(store: StoreModel, key: Seq<char>, value: Seq<u8>)
    ensures
        store.written(key, value).get(key) == Some(ValueModel { key, value, cas: store.next_cas }),
{
    let i = key_index(store.entries, key);
    lemma_key_index_bounds(store.entries, key);
    let after = store.written(key, value).entries;
    if 0 <= i < store.entries.len() {
        assert forall|j: int| 0 <= j < i implies (#[trigger] after[j]).key != key by {
            assert(after[j] == store.entries[j]);
        }
        lemma_key_index(after, key, i);
    } else {
        assert forall|j: int| 0 <= j < store.entries.len() implies (#[trigger] after[j]).key != key by {
            assert(after[j] == store.entries[j]);
        }
        lemma_key_index(after, key, store.entries.len() as int);
    }
}

proof fn lemma_key_index_bounds(list: Seq<ValueModel>, key: Seq<char>)
    ensures
        0 <= key_index(list, key) <= list.len(),
        key_index(list, key) < list.len() ==> list[key_index(list, key)].key == key,
        forall|j: int| 0 <= j < key_index(list, key) ==> (#[trigger] list[j]).key != key,
    decreases list.len(),
{
    if list.len() > 0 && list[0].key != key {
        let rest = list.drop_first();
        lemma_key_index_bounds(rest, key);
        assert forall|j: int| 0 <= j < key_index(list, key) implies (#[trigger] list[j]).key != key by {
            if j > 0 {
                assert(list[j] == rest[j - 1]);
            }
        }
    }
}

impl SharedData {
    /// An empty store. The first write carries the number 1.
    pub fn new() -> (r: Self)
        ensures
            r@ == (StoreModel { entries: Seq::empty(), next_cas: 1 }),
    {
        let r = SharedData { entries: Vec::new(), next_cas: 1 };
        assert(entries_view(r.entries@) =~= Seq::empty());
        r
    }

    fn find(&self, key: &str) -> (i: usize)
        ensures
            i == key_index(self@.entries, key@),
            i <= self.entries@.len(),
            i < self.entries@.len() ==> self.entries@[i as int].key@ == key@,
    {
        let mut i: usize = 0;
        while i < self.entries.len() && !str_eq(self.entries[i].key.as_str(), key)
            invariant
                i <= self.entries.len(),
                forall|j: int| 0 <= j < i ==> (#[trigger] entries_view(self.entries@)[j]).key != key@,
            decreases self.entries.len() - i,
        {
            i += 1;
        }
        proof {
            lemma_key_index(entries_view(self.entries@), key@, i as int);
        }
        i
    }

    /// `proxy_get_shared_data`: the value of a key and its
    /// compare-and-swap number. A module without the capability for
    /// shared data is answered `NOT_ALLOWED`.
    pub fn proxy_get_shared_data(&self, caps: &ModuleCapabilities, key: &str) -> (r: (
        i32,
        Option<(Vec<u8>, u32)>,
    ))
        ensures
            r.0 == if !caps.allow_shared_data {
                PROXY_RESULT_NOT_ALLOWED
            } else if self@.get(key@) is None {
                PROXY_RESULT_NOT_FOUND
            } else {
                PROXY_RESULT_OK
            },
            match r.1 {
                Some((value, cas)) => r.0 == PROXY_RESULT_OK && value@ == self@.get(key@)->0.value && cas
                    == self@.get(key@)->0.cas,
                None => r.0 != PROXY_RESULT_OK,
            },
    {
        if !caps.allow_shared_data {
            return (PROXY_RESULT_NOT_ALLOWED, None);
        }
        let i = self.find(key);
        if i < self.entries.len() {
            let value = vstd::slice::slice_to_vec(self.entries[i].value.as_slice());
            (PROXY_RESULT_OK, Some((value, self.entries[i].cas)))
        } else {
            (PROXY_RESULT_NOT_FOUND, None)
        }
    }

    /// `proxy_set_shared_data`: writes the value of a key. With a
    /// compare-and-swap number other than 0 the value is written only if
    /// it still carries that number. A module without the capability for
    /// shared data is answered `NOT_ALLOWED`. Unless the status is OK,
    /// nothing changes.
    pub fn proxy_set_shared_data(&mut self, caps: &ModuleCapabilities, key: &str, value: &[u8], cas: u32) -> (status:
        i32)
        ensures
            status == old(self)@.write_status(caps, key@, value@, cas),
            final(self)@ == if status == PROXY_RESULT_OK {
                old(self)@.written(key@, value@)
            } else {
                old(self)@
            },
    {
        if !caps.allow_shared_data {
            return PROXY_RESULT_NOT_ALLOWED;
        }
        let i = self.find(key);
        if cas != 0 && (i >= self.entries.len() || self.entries[i].cas != cas) {
            return PROXY_RESULT_CAS_MISMATCH;
        }
        if value.len() > caps.max_shared_data_size {
            return PROXY_RESULT_INTERNAL_FAILURE;
        }
        let ghost before = entries_view(self.entries@);
        let entry = SharedValue {
            key: key.to_owned(),
            value: vstd::slice::slice_to_vec(value),
            cas: self.next_cas,
        };
        if i < self.entries.len() {
            let _ = self.entries.remove(i);
            self.entries.insert(i, entry);
            assert(entries_view(self.entries@) =~= before.update(i as int, entry@));
        } else {
            self.entries.push(entry);
            assert(entries_view(self.entries@) =~= before.push(entry@));
        }
        self.next_cas = if self.next_cas == u32::MAX {
            1
        } else {
            self.next_cas + 1
        };
        PROXY_RESULT_OK
    }
}

impl Default for SharedData {
    fn default() -> (r: Self)
        ensures
            r@ == (StoreModel { entries: Seq::empty(), next_cas: 1 }),
    {
        Self::new()
    }
}

} // verus!
