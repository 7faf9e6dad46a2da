//! Reading the linear memory of a module.

use vstd::prelude::*;
use vstd::utf8::{decode_utf8, valid_utf8};
use crate::text::utf8_to_string;

verus! {

/// The bytes of the region of `size` bytes at `ptr`; `None` where the
/// pointer or the size is negative or the region does not lie within the
/// memory.
pub open spec fn region(memory: Seq<u8>, ptr: i32, size: i32) -> Option<Seq<u8>> {
    if 0 <= ptr && 0 <= size && ptr + size <= memory.len() {
        Some(memory.subrange(ptr as int, ptr + size))
    } else {
        None
    }
}

/// Whether `size` bytes can be written at `ptr`.
pub open spec fn writable(memory_len: nat, ptr: i32, size: nat) -> bool {
    0 <= ptr && ptr + size <= memory_len
}

/// The number that four bytes denote, least significant byte first.
pub open spec fn le32(b0: u8, b1: u8, b2: u8, b3: u8) -> u32 {
    (b0 as u32) | ((b1 as u32) << 8) | ((b2 as u32) << 16) | ((b3 as u32) << 24)
}

/// The four bytes of a number, least significant first.
pub open spec fn le32_bytes(n: u32) -> Seq<u8> {
    seq![n as u8, (n >> 8) as u8, (n >> 16) as u8, (n >> 24) as u8]
}

/// A value that a host function hands back: bytes to be copied into the
/// memory of the module at an address.
#[derive(Debug, Clone, PartialEq, Eq)]
pub struct MemoryWrite {
    /// Where the bytes go.
    pub address: usize,
    /// The bytes.
    pub bytes: Vec<u8>,
}

/// Mathematical value of a write.
pub struct WriteModel {
    pub address: nat,
    pub bytes: Seq<u8>,
}

impl View for MemoryWrite {
    type V = WriteModel;

    open spec fn view(&self) -> WriteModel {
        WriteModel { address: self.address as nat, bytes: self.bytes@ }
    }
}

/// The region of `size` bytes at `ptr`, if it lies within the memory.
pub fn read_region(memory: &[u8], ptr: i32, size: i32) -> (r: Option<&[u8]>)
    ensures
        match r {
            Some(bytes) => region(memory@, ptr, size) == Some(bytes@),
            None => region(memory@, ptr, size) is None,
        },
{
    if ptr < 0 || size < 0 {
        return None;
    }
    let start: usize = ptr as usize;
    let len: usize = size as usize;
    if start > memory.len() || len > memory.len() - start {
        return None;
    }
    Some(vstd::slice::slice_subrange(memory, start, start + len))
}

/// Whether `size` bytes can be written at `ptr`.
pub fn can_write(memory_len: usize, ptr: i32, size: usize) -> (r: bool)
    ensures
        r == writable(memory_len as nat, ptr, size as nat),
{
    ptr >= 0 && (ptr as usize) <= memory_len && size <= memory_len - (ptr as usize)
}

/// The text in the region of `len` bytes at `ptr`; `None` where the region
/// does not lie within the memory or does not hold valid UTF-8.
pub fn read_string(memory: &[u8], ptr: i32, len: i32) -> (r: Option<String>)
    ensures
        match r {
            Some(s) => region(memory@, ptr, len) matches Some(bytes) && valid_utf8(bytes) && s@
                == decode_utf8(bytes),
            None => region(memory@, ptr, len) matches Some(bytes) ==> !valid_utf8(bytes),
        },
{
    match read_region(memory, ptr, len) {
        None => None,
        Some(bytes) => utf8_to_string(bytes),
    }
}

/// The number that the four bytes at `pos` denote, least significant byte
/// first.
pub fn read_le32(data: &[u8], pos: usize) -> (r: u32)
    requires
        pos + 4 <= data.len(),
    ensures
        r == le32(data@[pos as int], data@[pos + 1], data@[pos + 2], data@[pos + 3]),
{
    (data[pos] as u32) | ((data[pos + 1] as u32) << 8) | ((data[pos + 2] as u32) << 16) | ((data[pos
        + 3] as u32) << 24)
}

/// The four bytes of a number, least significant first.
pub fn le32_vec(n: u32) -> (r: Vec<u8>)
    ensures
        r@ == le32_bytes(n),
{
    let mut out: Vec<u8> = Vec::new();
    out.push(#[verifier::truncate] (n as u8));
    out.push(#[verifier::truncate] ((n >> 8) as u8));
    out.push(#[verifier::truncate] ((n >> 16) as u8));
    assert(n >> 24 <= 0xff) by (bit_vector);
    out.push((n >> 24) as u8);
    assert(out@ =~= le32_bytes(n));
    out
}

} // verus!
