//! WASI shims.
//!
//! Modules built for WASI import a handful of its functions. The host
//! offers just enough of them for such modules to load and run: output to
//! stdout and stderr goes to the log, there are no files, arguments or
//! environment variables, and the clock and the random numbers come from
//! the embedder.

use vstd::prelude::*;
use vstd::utf8::{decode_utf8, valid_utf8};
use crate::text::{str_chars, string_from_chars, utf8_to_string};
use crate::wasm::host::memory::{
    can_write, le32, le32_bytes, le32_vec, read_le32, writable, MemoryWrite, WriteModel,
};

verus! {

/// WASI errno: success.
pub const ERRNO_SUCCESS: i32 = 0;

/// WASI errno: bad file descriptor.
pub const ERRNO_BADF: i32 = 8;

/// WASI errno: invalid argument.
pub const ERRNO_INVAL: i32 = 21;

/// What a WASI function hands back.
#[derive(Debug, Clone)]
pub struct WasiOutcome {
    /// The errno for the module.
    pub errno: i32,
    /// What is to be copied into the memory of the module, in order.
    pub writes: Vec<MemoryWrite>,
    /// Lines for the log.
    pub log: Vec<String>,
}

/// A text without its trailing line feeds.
pub open spec fn without_trailing_newlines(text: Seq<char>) -> Seq<char>
    decreases text.len(),
{
    if text.len() > 0 && text.last() == '\n' {
        without_trailing_newlines(text.drop_last())
    } else {
        text
    }
}

/// The line that a buffer written to stdout or stderr leaves in the log:
/// its text without trailing line feeds; nothing where the buffer is not
/// valid UTF-8 or the line is empty.
pub open spec fn log_line(bytes: Seq<u8>) -> Option<Seq<char>> {
    if valid_utf8(bytes) && without_trailing_newlines(decode_utf8(bytes)).len() > 0 {
        Some(without_trailing_newlines(decode_utf8(bytes)))
    } else {
        None
    }
}

/// What writing the first `count` buffers of an I/O vector yields: the
/// lines for the log and the number of bytes written, counted modulo
/// 2^32; `None` where a descriptor or a buffer lies outside the memory.
/// Each descriptor is eight bytes: the address and the length of a buffer.
pub open spec fn spec_write_buffers(memory: Seq<u8>, iovs_ptr: i32, count: nat) -> Option<(Seq<Seq<char>>, u32)>
    decreases count,
{
    if count == 0 {
        Some((Seq::empty(), 0u32))
    } else {
        match spec_write_buffers(memory, iovs_ptr, (count - 1) as nat) {
            None => None,
            Some((lines, total)) => {
                let at = iovs_ptr + (count - 1) * 8;
                if at < 0 || at + 8 > memory.len() || at > i32::MAX {
                    None
                } else {
                    let buf_ptr = le32(memory[at], memory[at + 1], memory[at + 2], memory[at + 3]) as int;
                    let buf_len = le32(memory[at + 4], memory[at + 5], memory[at + 6], memory[at + 7]) as int;
                    if buf_ptr + buf_len > memory.len() {
                        None
                    } else {
                        Some(
                            (
                                match log_line(memory.subrange(buf_ptr, buf_ptr + buf_len)) {
                                    Some(line) => lines.push(line),
                                    None => lines,
                                },
                                ((total + buf_len) % 0x1_0000_0000) as u32,
                            ),
                        )
                    }
                }
            },
        }
    }
}

/// The texts of a list of lines.
pub open spec fn lines_view(lines: Seq<String>) -> Seq<Seq<char>> {
    Seq::new(lines.len(), |i: int| lines[i]@)
}

fn line_of(bytes: &[u8]) -> (r: Option<String>)
    ensures
        match r {
            Some(s) => log_line(bytes@) == Some(s@),
            None => log_line(bytes@) is None,
        },
{
    match utf8_to_string(bytes) {
        None => None,
        Some(text) => {
            let chars = str_chars(text.as_str());
            let mut end: usize = chars.len();
            assert(chars@.subrange(0, end as int) =~= chars@);
            while end > 0 && chars[end - 1] == '\n'
                invariant
                    end <= chars.len(),
                    without_trailing_newlines(chars@.subrange(0, end as int)) == without_trailing_newlines(
                        chars@,
                    ),
                decreases end,
            {
                assert(chars@.subrange(0, end as int).drop_last() =~= chars@.subrange(0, end - 1));
                end -= 1;
            }
            if end == 0 {
                None
            } else {
                Some(string_from_chars(vstd::slice::slice_subrange(chars.as_slice(), 0, end)))
            }
        },
    }
}

/// `fd_write`: output to stdout or stderr goes to the log, any other file
/// descriptor is bad. The number of bytes written is handed back for the
/// address `nwritten_ptr`.
pub fn fd_write(memory: &[u8], fd: i32, iovs_ptr: i32, iovs_len: i32, nwritten_ptr: i32) -> (r:
    WasiOutcome)
    ensures
        fd != 1 && fd != 2 ==> r.errno == ERRNO_BADF && r.writes@.len() == 0 && r.log@.len() == 0,
        fd == 1 || fd == 2 ==> match spec_write_buffers(
            memory@,
            iovs_ptr,
            if iovs_len > 0 {
                iovs_len as nat
            } else {
                0
            },
        ) {
            None => r.errno == ERRNO_INVAL && r.writes@.len() == 0 && r.log@.len() == 0,
            Some((lines, total)) => if writable(memory@.len(), nwritten_ptr, 4) {
                &&& r.errno == ERRNO_SUCCESS
                &&& lines_view(r.log@) == lines
                &&& r.writes@.len() == 1
                &&& r.writes@[0]@ == (WriteModel { address: nwritten_ptr as nat, bytes: le32_bytes(total) })
            } else {
                r.errno == ERRNO_INVAL && r.writes@.len() == 0 && r.log@.len() == 0
            },
        },
{
    if fd != 1 && fd != 2 {
        return WasiOutcome { errno: ERRNO_BADF, writes: Vec::new(), log: Vec::new() };
    }
    let mut log: Vec<String> = Vec::new();
    let mut total: u32 = 0;
    let mut i: i32 = 0;
    assert(lines_view(log@) =~= Seq::empty());
    while i < iovs_len
        invariant
            0 <= i,
            iovs_len > 0 ==> i <= iovs_len,
            iovs_len <= 0 ==> i == 0,
            fd == 1 || fd == 2,
            spec_write_buffers(memory@, iovs_ptr, i as nat) == Some((lines_view(log@), total)),
        decreases iovs_len - i,
    {
        let ghost next = (i + 1) as nat;
        assert((next - 1) as nat == i as nat);
        let at: i64 = iovs_ptr as i64 + (i as i64) * 8;
        assert(at == iovs_ptr + (next - 1) * 8);
        if at < 0 || at > i32::MAX as i64 || (at as usize) > memory.len() || memory.len() - (at as usize)
            < 8 {
            proof {
                assert(spec_write_buffers(memory@, iovs_ptr, next) is None);
                lemma_write_buffers_fail(memory@, iovs_ptr, next, iovs_len as nat);
            }
            return WasiOutcome { errno: ERRNO_INVAL, writes: Vec::new(), log: Vec::new() };
        }
        let at: usize = at as usize;
        let buf_ptr = read_le32(memory, at) as usize;
        let buf_len = read_le32(memory, at + 4);
        if buf_ptr > memory.len() || (buf_len as usize) > memory.len() - buf_ptr {
            proof {
                assert(spec_write_buffers(memory@, iovs_ptr, next) is None);
                lemma_write_buffers_fail(memory@, iovs_ptr, next, iovs_len as nat);
            }
            return WasiOutcome { errno: ERRNO_INVAL, writes: Vec::new(), log: Vec::new() };
        }
        let bytes = vstd::slice::slice_subrange(memory, buf_ptr, buf_ptr + buf_len as usize);
        let ghost before = lines_view(log@);
        match line_of(bytes) {
            Some(line) => {
                log.push(line);
                assert(lines_view(log@) =~= before.push(log_line(bytes@)->0));
            },
            None => {},
        }
        let ghost old_total = total;
        total = total.wrapping_add(buf_len);
        assert(total == ((old_total + buf_len) % 0x1_0000_0000) as u32);
        assert(spec_write_buffers(memory@, iovs_ptr, next) == Some((lines_view(log@), total)));
        i += 1;
    }
    assert(i as nat == if iovs_len > 0 {
        iovs_len as nat
    } else {
        0
    });
    if !can_write(memory.len(), nwritten_ptr, 4) {
        return WasiOutcome { errno: ERRNO_INVAL, writes: Vec::new(), log: Vec::new() };
    }
    let mut writes: Vec<MemoryWrite> = Vec::new();
    writes.push(MemoryWrite { address: nwritten_ptr as usize, bytes: le32_vec(total) });
    WasiOutcome { errno: ERRNO_SUCCESS, writes, log }
}

proof fn lemma_write_buffers_fail(memory: Seq<u8>, iovs_ptr: i32, failed: nat, count: nat)
    requires
        failed <= count,
        spec_write_buffers(memory, iovs_ptr, failed) is None,
    ensures
        spec_write_buffers(memory, iovs_ptr, count) is None,
    decreases count,
{
    if failed < count {
        lemma_write_buffers_fail(memory, iovs_ptr, failed, (count - 1) as nat);
    }
}

/// `fd_read`: there is nothing to read.
pub fn fd_read() -> (errno: i32)
    ensures
        errno == ERRNO_SUCCESS,
{
    ERRNO_SUCCESS
}

/// `fd_close`: succeeds.
pub fn fd_close() -> (errno: i32)
    ensures
        errno == ERRNO_SUCCESS,
{
    ERRNO_SUCCESS
}

/// `fd_seek`: no descriptor can seek.
pub fn fd_seek() -> (errno: i32)
    ensures
        errno == ERRNO_BADF,
{
    ERRNO_BADF
}

/// The 24 bytes of a file status: the file type (2, a character device,
/// for the standard descriptors; 0 otherwise), then zeros.
pub open spec fn spec_fdstat(fd: i32) -> Seq<u8> {
    seq![if fd <= 2 { 2u8 } else { 0u8 }] + Seq::new(23, |i: int| 0u8)
}

/// `fd_fdstat_get`: the status of a descriptor, for the address
/// `stat_ptr`.
pub fn fd_fdstat_get(memory_len: usize, fd: i32, stat_ptr: i32) -> (r: WasiOutcome)
    ensures
        r.log@.len() == 0,
        if writable(memory_len as nat, stat_ptr, 24) {
            &&& r.errno == ERRNO_SUCCESS
            &&& r.writes@.len() == 1
            &&& r.writes@[0]@ == (WriteModel { address: stat_ptr as nat, bytes: spec_fdstat(fd) })
        } else {
            r.errno == ERRNO_INVAL && r.writes@.len() == 0
        },
{
    if !can_write(memory_len, stat_ptr, 24) {
        return WasiOutcome { errno: ERRNO_INVAL, writes: Vec::new(), log: Vec::new() };
    }
    let mut bytes: Vec<u8> = Vec::new();
    bytes.push(if fd <= 2 { 2u8 } else { 0u8 });
    let mut i: usize = 1;
    while i < 24
        invariant
            1 <= i <= 24,
            bytes@.len() == i,
            bytes@[0] == (if fd <= 2 { 2u8 } else { 0u8 }),
            forall|j: int| 1 <= j < i ==> bytes@[j] == 0,
        decreases 24 - i,
    {
        bytes.push(0);
        i += 1;
    }
    assert(bytes@ =~= spec_fdstat(fd));
    let mut writes: Vec<MemoryWrite> = Vec::new();
    writes.push(MemoryWrite { address: stat_ptr as usize, bytes });
    WasiOutcome { errno: ERRNO_SUCCESS, writes, log: Vec::new() }
}

/// `fd_prestat_get`: there are no preopened directories.
pub fn fd_prestat_get() -> (errno: i32)
    ensures
        errno == ERRNO_BADF,
{
    ERRNO_BADF
}

/// `fd_prestat_dir_name`: there are no preopened directories.
pub fn fd_prestat_dir_name() -> (errno: i32)
    ensures
        errno == ERRNO_BADF,
{
    ERRNO_BADF
}

/// `environ_sizes_get` and `args_sizes_get`: there are none of either, so
/// a count of zero and a size of zero are handed back for the two
/// addresses.
pub fn sizes_get(memory_len: usize, count_ptr: i32, size_ptr: i32) -> (r: WasiOutcome)
    ensures
        r.log@.len() == 0,
        if writable(memory_len as nat, count_ptr, 4) && writable(memory_len as nat, size_ptr, 4) {
            &&& r.errno == ERRNO_SUCCESS
            &&& r.writes@.len() == 2
            &&& r.writes@[0]@ == (WriteModel { address: count_ptr as nat, bytes: le32_bytes(0) })
            &&& r.writes@[1]@ == (WriteModel { address: size_ptr as nat, bytes: le32_bytes(0) })
        } else {
            r.errno == ERRNO_INVAL && r.writes@.len() == 0
        },
{
    if !can_write(memory_len, count_ptr, 4) || !can_write(memory_len, size_ptr, 4) {
        return WasiOutcome { errno: ERRNO_INVAL, writes: Vec::new(), log: Vec::new() };
    }
    let mut writes: Vec<MemoryWrite> = Vec::new();
    writes.push(MemoryWrite { address: count_ptr as usize, bytes: le32_vec(0) });
    writes.push(MemoryWrite { address: size_ptr as usize, bytes: le32_vec(0) });
    WasiOutcome { errno: ERRNO_SUCCESS, writes, log: Vec::new() }
}

/// `environ_get` and `args_get`: succeed without writing anything.
pub fn list_get() -> (errno: i32)
    ensures
        errno == ERRNO_SUCCESS,
{
    ERRNO_SUCCESS
}

/// The eight bytes of a number, least significant first.
pub open spec fn le64_bytes(n: u64) -> Seq<u8> {
    le32_bytes(n as u32) + le32_bytes((n >> 32) as u32)
}

/// `clock_time_get`: the time `now_nanos`, read by the embedder, is handed
/// back for the address `time_ptr`.
pub fn clock_time_get(memory_len: usize, now_nanos: u64, time_ptr: i32) -> (r: WasiOutcome)
    ensures
        r.log@.len() == 0,
        if writable(memory_len as nat, time_ptr, 8) {
            &&& r.errno == ERRNO_SUCCESS
            &&& r.writes@.len() == 1
            &&& r.writes@[0]@ == (WriteModel { address: time_ptr as nat, bytes: le64_bytes(now_nanos) })
        } else {
            r.errno == ERRNO_INVAL && r.writes@.len() == 0
        },
{
    if !can_write(memory_len, time_ptr, 8) {
        return WasiOutcome { errno: ERRNO_INVAL, writes: Vec::new(), log: Vec::new() };
    }
    let mut bytes = le32_vec(#[verifier::truncate] (now_nanos as u32));
    assert(now_nanos >> 32 <= 0xffff_ffff) by (bit_vector);
    let high = le32_vec((now_nanos >> 32) as u32);
    bytes.extend_from_slice(high.as_slice());
    assert(bytes@ =~= le64_bytes(now_nanos));
    let mut writes: Vec<MemoryWrite> = Vec::new();
    writes.push(MemoryWrite { address: time_ptr as usize, bytes });
    WasiOutcome { errno: ERRNO_SUCCESS, writes, log: Vec::new() }
}

/// The state of the generator after one step.
pub open spec fn next_seed(seed: u64) -> u64 {
    ((seed * 6364136223846793005 + 1) % 0x1_0000_0000_0000_0000) as u64
}

/// The first `len` bytes that the generator yields from `seed`: each step
/// advances the state and yields bits 32 to 39 of it.
pub open spec fn random_bytes(seed: u64, len: nat) -> Seq<u8>
    decreases len,
{
    if len == 0 {
        Seq::empty()
    } else {
        seq![(next_seed(seed) >> 32) as u8] + random_bytes(next_seed(seed), (len - 1) as nat)
    }
}

/// `random_get`: `buf_len` bytes of a linear congruential generator,
/// started from the seed that the embedder read from the clock, are handed
/// back for the address `buf_ptr`.
pub fn random_get(memory_len: usize, seed: u64, buf_ptr: i32, buf_len: i32) -> (r: WasiOutcome)
    ensures
        r.log@.len() == 0,
        if buf_len >= 0 && writable(memory_len as nat, buf_ptr, buf_len as nat) {
            &&& r.errno == ERRNO_SUCCESS
            &&& r.writes@.len() == 1
            &&& r.writes@[0]@ == (WriteModel {
                address: buf_ptr as nat,
                bytes: random_bytes(seed, buf_len as nat),
            })
        } else {
            r.errno == ERRNO_INVAL && r.writes@.len() == 0
        },
{
    if buf_len < 0 || !can_write(memory_len, buf_ptr, buf_len as usize) {
        return WasiOutcome { errno: ERRNO_INVAL, writes: Vec::new(), log: Vec::new() };
    }
    let len = buf_len as usize;
    let mut bytes: Vec<u8> = Vec::new();
    let mut state = seed;
    let mut i: usize = 0;
    assert(bytes@ + random_bytes(seed, len as nat) =~= random_bytes(seed, len as nat));
    while i < len
        invariant
            i <= len,
            bytes@.len() == i,
            bytes@ + random_bytes(state, (len - i) as nat) == random_bytes(seed, len as nat),
        decreases len - i,
    {
        let ghost before = bytes@;
        let ghost prev = state;
        state = state.wrapping_mul(6364136223846793005).wrapping_add(1);
        assert(state == next_seed(prev)) by {
            assert((prev * 6364136223846793005) % 0x1_0000_0000_0000_0000 + 1 < 0x1_0000_0000_0000_0000
                ==> state == (prev * 6364136223846793005) % 0x1_0000_0000_0000_0000 + 1);
            vstd::arithmetic::div_mod::lemma_add_mod_noop(
                prev * 6364136223846793005,
                1,
                0x1_0000_0000_0000_0000,
            );
        }
        bytes.push(#[verifier::truncate] ((state >> 32) as u8));
        assert(bytes@ + random_bytes(state, (len - i - 1) as nat) =~= before + random_bytes(
            prev,
            (len - i) as nat,
        ));
        i += 1;
    }
    assert(bytes@ + Seq::<u8>::empty() =~= bytes@);
    let mut writes: Vec<MemoryWrite> = Vec::new();
    writes.push(MemoryWrite { address: buf_ptr as usize, bytes });
    WasiOutcome { errno: ERRNO_SUCCESS, writes, log: Vec::new() }
}

} // verus!
