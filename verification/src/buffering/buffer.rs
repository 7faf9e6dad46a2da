//! The response buffer.
//!
//! A response that is buffered is taken from the upstream as fast as the
//! upstream gives it, and handed to the client as fast as the client takes
//! it. The first bytes are kept in memory. Once the memory buffer is full,
//! further bytes go to a spill file, if one is configured; the file itself
//! belongs to the embedder, which appends and reads what it is told to.
//! What the buffer cannot take is left to the caller, which streams it
//! once the buffer is drained.

use vstd::prelude::*;
use crate::buffering::config::BufferingConfig;

verus! {

/// Where the next bytes for the client come from.
#[derive(Debug, Clone, Copy, PartialEq, Eq, Structural)]
pub enum ReadPlan {
    /// Nothing is buffered.
    Empty,
    /// From the memory buffer: this many bytes are ready.
    Memory(usize),
    /// From the spill file: this many bytes from this offset on.
    Disk {
        /// Offset in the file.
        offset: usize,
        /// Number of bytes.
        len: usize,
    },
}

/// What becomes of a chunk from the upstream.
#[derive(Debug, Clone, Copy, PartialEq, Eq, Structural)]
pub struct PushPlan {
    /// Bytes at the start of the chunk that were taken into memory.
    pub to_memory: usize,
    /// Bytes after those that are to be appended to the spill file.
    pub to_disk: usize,
    /// Bytes at the end of the chunk that the buffer does not take.
    pub left_over: usize,
}

/// A response buffer.
pub struct ResponseBuffer {
    memory: Vec<u8>,
    read_pos: usize,
    max_memory: usize,
    disk_enabled: bool,
    max_disk: usize,
    disk_len: usize,
    disk_read: usize,
    spilled: Ghost<Seq<u8>>,
    delivered: Ghost<Seq<u8>>,
}

impl ResponseBuffer {
    /// Whether the buffer is well formed.
    pub closed spec fn wf(&self) -> bool {
        &&& self.read_pos <= self.memory@.len() <= self.max_memory
        &&& self.disk_read <= self.disk_len <= self.max_disk
        &&& self.disk_len == self.spilled@.len()
        &&& self.disk_len > 0 ==> self.disk_enabled && self.memory@.len() == self.max_memory
        &&& self.disk_read > 0 ==> self.read_pos == self.memory@.len()
        &&& self.delivered@ == (self.memory@ + self.spilled@).take(self.read_pos + self.disk_read)
    }

    /// The bytes taken from the upstream so far: those in memory, then
    /// those in the spill file.
    pub closed spec fn received(&self) -> Seq<u8> {
        self.memory@ + self.spilled@
    }

    /// The bytes handed to the client so far.
    pub closed spec fn delivered(&self) -> Seq<u8> {
        self.delivered@
    }

    /// The bytes in the spill file.
    pub closed spec fn spilled(&self) -> Seq<u8> {
        self.spilled@
    }

    /// The bytes in memory.
    pub closed spec fn in_memory(&self) -> Seq<u8> {
        self.memory@
    }

    /// The limits of the buffer: memory, whether there is a spill file,
    /// and the limit of that file.
    pub closed spec fn limits(&self) -> (usize, bool, usize) {
        (self.max_memory, self.disk_enabled, self.max_disk)
    }

    /// An empty buffer with the limits of the configuration.
    pub fn new(config: &BufferingConfig) -> (r: Self)
        ensures
            r.wf(),
            r.received() == Seq::<u8>::empty(),
            r.delivered() == Seq::<u8>::empty(),
            r.limits() == (config.max_memory_buffer, config.disk_buffer_path is Some, config.max_disk_buffer),
    {
        let r = ResponseBuffer {
            memory: Vec::new(),
            read_pos: 0,
            max_memory: config.max_memory_buffer,
            disk_enabled: config.disk_buffer_available(),
            max_disk: config.max_disk_buffer,
            disk_len: 0,
            disk_read: 0,
            spilled: Ghost(Seq::empty()),
            delivered: Ghost(Seq::empty()),
        };
        assert(r.received() =~= Seq::<u8>::empty());
        assert(r.delivered@ =~= (r.memory@ + r.spilled@).take(0));
        r
    }

    /// Takes a chunk from the upstream. The chunk fills the memory buffer
    /// first; what does not fit goes to the spill file, as far as one is
    /// configured and has room; the rest is left to the caller. The bytes
    /// taken are appended to what was received, in order.
    pub fn push(&mut self, chunk: &[u8]) -> (plan: PushPlan)
        requires
            old(self).wf(),
        ensures
            final(self).wf(),
            final(self).limits() == old(self).limits(),
            final(self).delivered() == old(self).delivered(),
            plan.to_memory + plan.to_disk + plan.left_over == chunk@.len(),
            final(self).received() == old(self).received() + chunk@.take(plan.to_memory + plan.to_disk),
            final(self).in_memory() == old(self).in_memory() + chunk@.take(plan.to_memory as int),
            final(self).spilled() == old(self).spilled() + chunk@.subrange(
                plan.to_memory as int,
                plan.to_memory + plan.to_disk,
            ),
            plan.to_memory == if old(self).spilled().len() > 0 {
                0
            } else if chunk@.len() <= old(self).limits().0 - old(self).in_memory().len() {
                chunk@.len() as int
            } else {
                old(self).limits().0 - old(self).in_memory().len()
            },
            plan.to_disk == if !old(self).limits().1 {
                0
            } else if chunk@.len() - plan.to_memory <= old(self).limits().2 - old(self).spilled().len() {
                chunk@.len() - plan.to_memory
            } else {
                old(self).limits().2 - old(self).spilled().len()
            },
    {
        let room = if self.disk_len > 0 {
            0
        } else {
            self.max_memory - self.memory.len()
        };
        let to_memory = if chunk.len() <= room {
            chunk.len()
        } else {
            room
        };
        let ghost old_memory = self.memory@;
        let ghost old_spilled = self.spilled@;
        self.memory.extend_from_slice(vstd::slice::slice_subrange(chunk, 0, to_memory));
        assert(self.memory@ =~= old_memory + chunk@.take(to_memory as int));
        let rest = chunk.len() - to_memory;
        let to_disk = if !self.disk_enabled {
            0
        } else if rest <= self.max_disk - self.disk_len {
            rest
        } else {
            self.max_disk - self.disk_len
        };
        proof {
            self.spilled@ = old_spilled + chunk@.subrange(to_memory as int, to_memory + to_disk);
        }
        self.disk_len += to_disk;
        proof {
            assert(self.spilled@.len() == self.disk_len);
            assert(self.memory@ + self.spilled@ =~= (old_memory + old_spilled) + chunk@.take(
                to_memory + to_disk,
            )) by {
                if old_spilled.len() > 0 {
                    assert(to_memory == 0);
                    assert(chunk@.take(0) =~= Seq::<u8>::empty());
                    assert(self.memory@ =~= old_memory);
                } else {
                    assert(old_spilled =~= Seq::<u8>::empty());
                }
                assert(chunk@.take(to_memory + to_disk) =~= chunk@.take(to_memory as int) + chunk@.subrange(
                    to_memory as int,
                    to_memory + to_disk,
                ));
            }
            assert((self.memory@ + self.spilled@).take(self.read_pos + self.disk_read) =~= (old_memory
                + old_spilled).take(self.read_pos + self.disk_read));
            if to_disk > 0 {
                assert(self.memory@.len() == self.max_memory);
            }
        }
        PushPlan { to_memory, to_disk, left_over: rest - to_disk }
    }

    /// Tells where the next bytes for the client come from: the memory
    /// buffer first, the spill file once the memory buffer is handed out.
    pub fn next_read(&self) -> (plan: ReadPlan)
        requires
            self.wf(),
        ensures
            plan == if self.delivered().len() < self.in_memory().len() {
                ReadPlan::Memory((self.in_memory().len() - self.delivered().len()) as usize)
            } else if self.delivered().len() < self.received().len() {
                ReadPlan::Disk {
                    offset: (self.delivered().len() - self.in_memory().len()) as usize,
                    len: (self.received().len() - self.delivered().len()) as usize,
                }
            } else {
                ReadPlan::Empty
            },
    {
        if self.read_pos < self.memory.len() {
            ReadPlan::Memory(self.memory.len() - self.read_pos)
        } else if self.disk_read < self.disk_len {
            ReadPlan::Disk { offset: self.disk_read, len: self.disk_len - self.disk_read }
        } else {
            ReadPlan::Empty
        }
    }

    /// Hands out up to `max` bytes from the memory buffer: the next bytes
    /// that were received.
    pub fn take_memory(&mut self, max: usize) -> (r: Vec<u8>)
        requires
            old(self).wf(),
        ensures
            final(self).wf(),
            final(self).limits() == old(self).limits(),
            final(self).received() == old(self).received(),
            final(self).in_memory() == old(self).in_memory(),
            final(self).spilled() == old(self).spilled(),
            final(self).delivered() == old(self).delivered() + r@,
            old(self).delivered().len() >= old(self).in_memory().len() ==> r@.len() == 0,
            old(self).delivered().len() < old(self).in_memory().len() ==> r@
                == old(self).in_memory().subrange(
                old(self).delivered().len() as int,
                if max <= old(self).in_memory().len() - old(self).delivered().len() {
                    old(self).delivered().len() + max
                } else {
                    old(self).in_memory().len() as int
                },
            ),
    {
        let available = self.memory.len() - self.read_pos;
        let n = if max <= available {
            max
        } else {
            available
        };
        let out = vstd::slice::slice_to_vec(
            vstd::slice::slice_subrange(self.memory.as_slice(), self.read_pos, self.read_pos + n),
        );
        proof {
            if n > 0 {
                assert(self.disk_read == 0);
            }
            let all = self.memory@ + self.spilled@;
            assert(all.take(self.read_pos + self.disk_read + n) =~= all.take(self.read_pos + self.disk_read)
                + out@);
            self.delivered@ = self.delivered@ + out@;
        }
        self.read_pos += n;
        out
    }

    /// Takes account of `len` bytes that were read from the spill file at
    /// the offset that `next_read` named and handed to the client. They
    /// count as delivered as far as the file holds undelivered bytes:
    /// the next bytes of the file, `len` of them or as many as are left.
    /// Nothing is counted while the memory buffer is not handed out.
    /// Returns the number of bytes counted.
    pub fn deliver_disk(&mut self, len: usize) -> (counted: usize)
        requires
            old(self).wf(),
        ensures
            final(self).wf(),
            final(self).limits() == old(self).limits(),
            final(self).received() == old(self).received(),
            final(self).in_memory() == old(self).in_memory(),
            final(self).spilled() == old(self).spilled(),
            counted == if old(self).delivered().len() < old(self).in_memory().len() {
                0
            } else if len <= old(self).received().len() - old(self).delivered().len() {
                len as int
            } else {
                old(self).received().len() - old(self).delivered().len()
            },
            final(self).delivered() == old(self).delivered() + old(self).received().subrange(
                old(self).delivered().len() as int,
                old(self).delivered().len() + counted,
            ),
            counted > 0 ==> old(self).received().subrange(
                old(self).delivered().len() as int,
                old(self).delivered().len() + counted,
            ) == old(self).spilled().subrange(
                old(self).delivered().len() - old(self).in_memory().len(),
                old(self).delivered().len() - old(self).in_memory().len() + counted,
            ),
    {
        if self.read_pos < self.memory.len() {
            proof {
                let all = self.memory@ + self.spilled@;
                assert(self.disk_read == 0);
                assert(self.delivered@.len() == self.read_pos);
                assert(all.subrange(self.read_pos as int, self.read_pos as int) =~= Seq::<u8>::empty());
                assert(self.delivered@ + Seq::<u8>::empty() =~= self.delivered@);
            }
            return 0;
        }
        let left = self.disk_len - self.disk_read;
        let n = if len <= left {
            len
        } else {
            left
        };
        proof {
            let all = self.memory@ + self.spilled@;
            let piece = self.spilled@.subrange(self.disk_read as int, self.disk_read + n);
            assert(self.delivered@.len() == self.read_pos + self.disk_read);
            assert(all.subrange(self.read_pos + self.disk_read, self.read_pos + self.disk_read + n) =~= piece);
            assert(all.take(self.read_pos + self.disk_read + n) =~= all.take(self.read_pos + self.disk_read)
                + piece);
            self.delivered@ = self.delivered@ + piece;
        }
        self.disk_read += n;
        n
    }

    /// Whether everything that was received was handed to the client; the
    /// spill file can then be deleted.
    pub fn is_drained(&self) -> (r: bool)
        requires
            self.wf(),
        ensures
            r == (self.delivered() == self.received()),
    {
        proof {
            let all = self.memory@ + self.spilled@;
            if self.read_pos + self.disk_read == all.len() {
                assert(all.take(all.len() as int) =~= all);
            }
        }
        self.read_pos == self.memory.len() && self.disk_read == self.disk_len
    }

    /// Number of bytes buffered and not yet handed to the client.
    pub fn buffered_len(&self) -> (r: u128)
        requires
            self.wf(),
        ensures
            r == self.received().len() - self.delivered().len(),
    {
        ((self.memory.len() - self.read_pos) as u128) + ((self.disk_len - self.disk_read) as u128)
    }

    /// What was handed to the client is the start of what was received
    /// from the upstream, in the same order.
    pub proof fn lemma_delivered_is_prefix(&self)
        requires
            self.wf(),
        ensures
            self.delivered().len() <= self.received().len(),
            self.delivered() == self.received().take(self.delivered().len() as int),
    {
    }
}

} // verus!
