//! Header compression for HTTP/2 (RFC 7541).
//!
//! A header block is a run of representations: a field by its index in
//! the table, a field given literally (and added to the table or not),
//! or a change of the table's size. Encoder and decoder keep a table
//! each; as long as the decoder reads every block that the encoder
//! writes, in order, the two tables hold the same entries.
//!
//! Strings are written as plain octets. A string that arrives in the
//! Huffman code is refused.

use vstd::prelude::*;
use vstd::string::StringSliceAdditionalSpecFns;
use crate::text::{bytes_eq, header_list};

verus! {

/// Largest integer that is written or read.
pub const MAX_INTEGER: u64 = 0xffff_ffff;

/// Most continuation octets that an integer may have.
pub const MAX_INTEGER_TAIL: usize = 5;

/// Why a header block cannot be read or written.
#[derive(Debug, Clone, Copy, PartialEq, Eq, Structural)]
pub enum HpackError {
    /// The block ends inside a representation.
    Truncated,
    /// An integer has too many octets or is too large.
    IntegerOverflow,
    /// An index is 0 or beyond the table.
    InvalidIndex,
    /// A string is in the Huffman code.
    HuffmanCoded,
    /// A change of the table's size comes after a field, or asks for
    /// more than was allowed.
    InvalidSizeUpdate,
    /// A name or a value is longer than `MAX_INTEGER`.
    FieldTooLong,
}

/// The continuation octets of an integer: `n` in groups of seven bits,
/// lowest first, every octet but the last with its highest bit set.
pub open spec fn int_tail(n: nat) -> Seq<u8>
    decreases n,
{
    if n < 128 {
        seq![n as u8]
    } else {
        seq![(128 + n % 128) as u8] + int_tail(n / 128)
    }
}

/// The code of the integer `n` behind a tag. The first octet is shared
/// with the tag, whose value is `base`; `limit` is the largest number
/// that the rest of that octet holds. A number below `limit` fills the
/// first octet; a larger one leaves `limit` there and goes on in
/// continuation octets.
pub open spec fn int_code(base: nat, limit: nat, n: nat) -> Seq<u8> {
    if n < limit {
        seq![(base + n) as u8]
    } else {
        seq![(base + limit) as u8] + int_tail((n - limit) as nat)
    }
}

/// The number that the continuation octets at the start of `s` hold, and
/// how many they are; at most `depth` of them are read.
pub open spec fn tail_value(s: Seq<u8>, depth: nat) -> Result<(nat, nat), HpackError>
    decreases depth,
{
    if depth == 0 {
        Err(HpackError::IntegerOverflow)
    } else if s.len() == 0 {
        Err(HpackError::Truncated)
    } else if s[0] < 128 {
        Ok((s[0] as nat, 1))
    } else {
        match tail_value(s.skip(1), (depth - 1) as nat) {
            Ok((v, k)) => Ok(((s[0] - 128) as nat + 128 * v, k + 1)),
            Err(e) => Err(e),
        }
    }
}

/// The integer whose first octet held `first` beside its tag, with `s`
/// the octets after the first: the number, and how many octets of `s`
/// belong to it.
#[verifier::opaque]
pub open spec fn int_value(limit: nat, first: nat, s: Seq<u8>) -> Result<(nat, nat), HpackError> {
    if first < limit {
        Ok((first, 0))
    } else {
        match tail_value(s, MAX_INTEGER_TAIL as nat) {
            Ok((v, k)) => if limit + v > MAX_INTEGER {
                Err(HpackError::IntegerOverflow)
            } else {
                Ok((limit + v, k))
            },
            Err(e) => Err(e),
        }
    }
}

/// 128 to the power `k`.
pub open spec fn pow128(k: nat) -> nat
    decreases k,
{
    if k == 0 {
        1
    } else {
        128 * pow128((k - 1) as nat)
    }
}

/// Continuation octets read back give the number again, whatever follows
/// them.
pub proof fn lemma_tail_roundtrip(n: nat, rest: Seq<u8>, depth: nat)
    requires
        depth >= 1,
        n < pow128(depth),
    ensures
        tail_value(int_tail(n) + rest, depth) == Ok::<(nat, nat), HpackError>((n, int_tail(n).len())),
        1 <= int_tail(n).len() <= depth,
    decreases n,
{
    let s = int_tail(n) + rest;
    if n < 128 {
    } else {
        assert(pow128(1) == 128) by {
            reveal_with_fuel(pow128, 2);
        }
        assert(s.skip(1) =~= int_tail(n / 128) + rest);
        lemma_tail_roundtrip(n / 128, rest, (depth - 1) as nat);
    }
}

/// The value of `tail_value` stays below 128 to the power of the number
/// of octets read.
pub proof fn lemma_tail_bound(s: Seq<u8>, depth: nat)
    ensures
        tail_value(s, depth) matches Ok((v, k)) ==> 1 <= k <= depth && k <= s.len() && v < pow128(k),
    decreases depth,
{
    if depth > 0 && s.len() > 0 && s[0] >= 128 {
        lemma_tail_bound(s.skip(1), (depth - 1) as nat);
    }
    reveal_with_fuel(pow128, 2);
}

/// An integer read back gives the number again, whatever follows it.
pub proof fn lemma_int_roundtrip(base: nat, limit: nat, n: nat, rest: Seq<u8>)
    requires
        base + limit <= 255,
        n <= MAX_INTEGER,
    ensures
        ({
            let code = int_code(base, limit, n);
            &&& code.len() >= 1
            &&& base <= code[0] <= base + limit
            &&& int_value(limit, (code[0] - base) as nat, (code + rest).skip(1)) == Ok::<
                (nat, nat),
                HpackError,
            >((n, (code.len() - 1) as nat))
        }),
{
    reveal(int_value);
    let code = int_code(base, limit, n);
    if n >= limit {
        let m = (n - limit) as nat;
        assert(pow128(5) == 34359738368) by {
            reveal_with_fuel(pow128, 6);
        }
        lemma_tail_roundtrip(m, rest, 5);
        assert((code + rest).skip(1) =~= int_tail(m) + rest);
    }
}

/// Appends the continuation octets of `n`.
fn push_tail(out: &mut Vec<u8>, n: u64)
    ensures
        final(out)@ == old(out)@ + int_tail(n as nat),
    decreases n,
{
    if n < 128 {
        out.push(n as u8);
    } else {
        out.push((128 + n % 128) as u8);
        push_tail(out, n / 128);
    }
}

/// Appends the code of the integer `n` behind the tag `base`.
pub fn push_int(out: &mut Vec<u8>, base: u8, limit: u8, n: u64)
    requires
        base + limit <= 255,
    ensures
        final(out)@ == old(out)@ + int_code(base as nat, limit as nat, n as nat),
{
    if n < limit as u64 {
        out.push(base + n as u8);
    } else {
        out.push(base + limit);
        push_tail(out, n - limit as u64);
    }
}

/// Reads the continuation octets at `pos`.
fn read_tail(s: &[u8], pos: usize, depth: usize) -> (r: Result<(u64, usize), HpackError>)
    requires
        pos <= s.len(),
        depth <= MAX_INTEGER_TAIL,
    ensures
        match tail_value(s@.skip(pos as int), depth as nat) {
            Ok((v, k)) => r == Ok::<(u64, usize), HpackError>((v as u64, k as usize)) && v < pow128(k) && pos + k <= s.len() && k <= depth,
            Err(e) => r == Err::<(u64, usize), HpackError>(e),
        },
    decreases depth,
{
    proof {
        lemma_tail_bound(s@.skip(pos as int), depth as nat);
        reveal_with_fuel(pow128, 6);
    }
    if depth == 0 {
        return Err(HpackError::IntegerOverflow);
    }
    if pos >= s.len() {
        return Err(HpackError::Truncated);
    }
    let b: u8 = s[pos];
    if b < 128 {
        return Ok((b as u64, 1));
    }
    assert(s@.skip(pos as int).skip(1) =~= s@.skip(pos + 1));
    match read_tail(s, pos + 1, depth - 1) {
        Ok((v, k)) => {
            assert(pow128(4) == 268435456) by {
                reveal_with_fuel(pow128, 5);
            }
            assert(v < pow128(4)) by {
                lemma_pow_monotone(k as nat, 4);
            }
            Ok(((b - 128) as u64 + 128 * v, k + 1))
        },
        Err(e) => Err(e),
    }
}

/// Powers of 128 grow with the exponent.
pub proof fn lemma_pow_monotone(a: nat, b: nat)
    requires
        a <= b,
    ensures
        pow128(a) <= pow128(b),
    decreases b,
{
    if a < b {
        lemma_pow_monotone(a, (b - 1) as nat);
    }
}

/// Reads the integer whose first octet held `first` beside its tag;
/// `pos` is the place after that octet. Returns the number and how many
/// octets it took after the first.
pub fn read_int(s: &[u8], pos: usize, limit: u8, first: u8) -> (r: Result<(u64, usize), HpackError>)
    requires
        pos <= s.len(),
        first <= limit,
    ensures
        match int_value(limit as nat, first as nat, s@.skip(pos as int)) {
            Ok((v, k)) => r == Ok::<(u64, usize), HpackError>((v as u64, k as usize)) && v <= MAX_INTEGER && pos + k <= s.len(),
            Err(e) => r == Err::<(u64, usize), HpackError>(e),
        },
{
    reveal(int_value);
    if first < limit {
        return Ok((first as u64, 0));
    }
    match read_tail(s, pos, MAX_INTEGER_TAIL) {
        Ok((v, k)) => {
            proof {
                lemma_pow_monotone(k as nat, 5);
                reveal_with_fuel(pow128, 6);
            }
            if v > MAX_INTEGER - limit as u64 {
                Err(HpackError::IntegerOverflow)
            } else {
                Ok((limit as u64 + v, k))
            }
        },
        Err(e) => Err(e),
    }
}

/// The code of a string: its length, then its octets as they are.
pub open spec fn string_code(text: Seq<u8>) -> Seq<u8> {
    int_code(0, 127, text.len()) + text
}

/// The string at the start of `s`, and how many octets it takes.
#[verifier::opaque]
pub open spec fn string_value(s: Seq<u8>) -> Result<(Seq<u8>, nat), HpackError> {
    if s.len() == 0 {
        Err(HpackError::Truncated)
    } else if s[0] >= 128 {
        Err(HpackError::HuffmanCoded)
    } else {
        match int_value(127, s[0] as nat, s.skip(1)) {
            Ok((len, k)) => if 1 + k + len > s.len() {
                Err(HpackError::Truncated)
            } else {
                Ok((s.subrange(1 + k as int, 1 + k + len as int), 1 + k + len))
            },
            Err(e) => Err(e),
        }
    }
}

/// A string read back gives the string again, whatever follows it.
pub proof fn lemma_string_roundtrip(text: Seq<u8>, rest: Seq<u8>)
    requires
        text.len() <= MAX_INTEGER,
    ensures
        string_value(string_code(text) + rest) == Ok::<(Seq<u8>, nat), HpackError>(
            (text, string_code(text).len()),
        ),
{
    reveal(string_value);
    let head = int_code(0, 127, text.len());
    let s = string_code(text) + rest;
    lemma_int_roundtrip(0, 127, text.len(), text + rest);
    assert(s =~= head + (text + rest));
    assert(s[0] == head[0]);
    assert(s.subrange(head.len() as int, (head.len() + text.len()) as int) =~= text);
}

/// Appends the code of a string.
pub fn push_string(out: &mut Vec<u8>, text: &[u8])
    ensures
        final(out)@ == old(out)@ + string_code(text@),
{
    push_int(out, 0, 127, text.len() as u64);
    out.extend_from_slice(text);
}

/// Reads the string at `pos`. Returns it and how many octets it took.
pub fn read_string(s: &[u8], pos: usize) -> (r: Result<(Vec<u8>, usize), HpackError>)
    requires
        pos <= s.len(),
    ensures
        match string_value(s@.skip(pos as int)) {
            Ok((text, k)) => r matches Ok((t, used)) && t@ == text && used == k && pos + k <= s.len() && k >= 1,
            Err(e) => r == Err::<(Vec<u8>, usize), HpackError>(e),
        },
{
    reveal(string_value);
    if pos >= s.len() {
        return Err(HpackError::Truncated);
    }
    let b: u8 = s[pos];
    let ghost rest = s@.skip(pos as int);
    if b >= 128 {
        return Err(HpackError::HuffmanCoded);
    }
    assert(rest.skip(1) =~= s@.skip(pos + 1));
    match read_int(s, pos + 1, 127, b) {
        Ok((len, k)) => {
            if len > (s.len() - pos - 1 - k) as u64 {
                return Err(HpackError::Truncated);
            }
            let from: usize = pos + 1 + k;
            let text = vstd::slice::slice_to_vec(vstd::slice::slice_subrange(s, from, from + len as usize));
            Ok((text, 1 + k + len as usize))
        },
        Err(e) => Err(e),
    }
}

/// Number of entries of the static table.
pub const STATIC_ENTRIES: usize = 61;

/// What an entry costs beside its name and value.
pub const ENTRY_OVERHEAD: usize = 32;

/// A header field as name and value.
pub type FieldText = (Seq<u8>, Seq<u8>);

/// The entry of the static table at `index`, from 1 to 61.
#[verifier::opaque]
pub open spec fn static_field(index: int) -> FieldText {
    if index == 1 {
        (":authority".spec_bytes(), "".spec_bytes())
    } else if index == 2 {
        (":method".spec_bytes(), "GET".spec_bytes())
    } else if index == 3 {
        (":method".spec_bytes(), "POST".spec_bytes())
    } else if index == 4 {
        (":path".spec_bytes(), "/".spec_bytes())
    } else if index == 5 {
        (":path".spec_bytes(), "/index.html".spec_bytes())
    } else if index == 6 {
        (":scheme".spec_bytes(), "http".spec_bytes())
    } else if index == 7 {
        (":scheme".spec_bytes(), "https".spec_bytes())
    } else if index == 8 {
        (":status".spec_bytes(), "200".spec_bytes())
    } else if index == 9 {
        (":status".spec_bytes(), "204".spec_bytes())
    } else if index == 10 {
        (":status".spec_bytes(), "206".spec_bytes())
    } else if index == 11 {
        (":status".spec_bytes(), "304".spec_bytes())
    } else if index == 12 {
        (":status".spec_bytes(), "400".spec_bytes())
    } else if index == 13 {
        (":status".spec_bytes(), "404".spec_bytes())
    } else if index == 14 {
        (":status".spec_bytes(), "500".spec_bytes())
    } else if index == 15 {
        ("accept-charset".spec_bytes(), "".spec_bytes())
    } else if index == 16 {
        ("accept-encoding".spec_bytes(), "gzip, deflate".spec_bytes())
    } else if index == 17 {
        ("accept-language".spec_bytes(), "".spec_bytes())
    } else if index == 18 {
        ("accept-ranges".spec_bytes(), "".spec_bytes())
    } else if index == 19 {
        ("accept".spec_bytes(), "".spec_bytes())
    } else if index == 20 {
        ("access-control-allow-origin".spec_bytes(), "".spec_bytes())
    } else if index == 21 {
        ("age".spec_bytes(), "".spec_bytes())
    } else if index == 22 {
        ("allow".spec_bytes(), "".spec_bytes())
    } else if index == 23 {
        ("authorization".spec_bytes(), "".spec_bytes())
    } else if index == 24 {
        ("cache-control".spec_bytes(), "".spec_bytes())
    } else if index == 25 {
        ("content-disposition".spec_bytes(), "".spec_bytes())
    } else if index == 26 {
        ("content-encoding".spec_bytes(), "".spec_bytes())
    } else if index == 27 {
        ("content-language".spec_bytes(), "".spec_bytes())
    } else if index == 28 {
        ("content-length".spec_bytes(), "".spec_bytes())
    } else if index == 29 {
        ("content-location".spec_bytes(), "".spec_bytes())
    } else if index == 30 {
        ("content-range".spec_bytes(), "".spec_bytes())
    } else if index == 31 {
        ("content-type".spec_bytes(), "".spec_bytes())
    } else if index == 32 {
        ("cookie".spec_bytes(), "".spec_bytes())
    } else if index == 33 {
        ("date".spec_bytes(), "".spec_bytes())
    } else if index == 34 {
        ("etag".spec_bytes(), "".spec_bytes())
    } else if index == 35 {
        ("expect".spec_bytes(), "".spec_bytes())
    } else if index == 36 {
        ("expires".spec_bytes(), "".spec_bytes())
    } else if index == 37 {
        ("from".spec_bytes(), "".spec_bytes())
    } else if index == 38 {
        ("host".spec_bytes(), "".spec_bytes())
    } else if index == 39 {
        ("if-match".spec_bytes(), "".spec_bytes())
    } else if index == 40 {
        ("if-modified-since".spec_bytes(), "".spec_bytes())
    } else if index == 41 {
        ("if-none-match".spec_bytes(), "".spec_bytes())
    } else if index == 42 {
        ("if-range".spec_bytes(), "".spec_bytes())
    } else if index == 43 {
        ("if-unmodified-since".spec_bytes(), "".spec_bytes())
    } else if index == 44 {
        ("last-modified".spec_bytes(), "".spec_bytes())
    } else if index == 45 {
        ("link".spec_bytes(), "".spec_bytes())
    } else if index == 46 {
        ("location".spec_bytes(), "".spec_bytes())
    } else if index == 47 {
        ("max-forwards".spec_bytes(), "".spec_bytes())
    } else if index == 48 {
        ("proxy-authenticate".spec_bytes(), "".spec_bytes())
    } else if index == 49 {
        ("proxy-authorization".spec_bytes(), "".spec_bytes())
    } else if index == 50 {
        ("range".spec_bytes(), "".spec_bytes())
    } else if index == 51 {
        ("referer".spec_bytes(), "".spec_bytes())
    } else if index == 52 {
        ("refresh".spec_bytes(), "".spec_bytes())
    } else if index == 53 {
        ("retry-after".spec_bytes(), "".spec_bytes())
    } else if index == 54 {
        ("server".spec_bytes(), "".spec_bytes())
    } else if index == 55 {
        ("set-cookie".spec_bytes(), "".spec_bytes())
    } else if index == 56 {
        ("strict-transport-security".spec_bytes(), "".spec_bytes())
    } else if index == 57 {
        ("transfer-encoding".spec_bytes(), "".spec_bytes())
    } else if index == 58 {
        ("user-agent".spec_bytes(), "".spec_bytes())
    } else if index == 59 {
        ("vary".spec_bytes(), "".spec_bytes())
    } else if index == 60 {
        ("via".spec_bytes(), "".spec_bytes())
    } else {
        ("www-authenticate".spec_bytes(), "".spec_bytes())
    }
}

/// The entry of the static table at `index`.
pub fn static_entry(index: usize) -> (r: (&'static [u8], &'static [u8]))
    requires
        1 <= index <= STATIC_ENTRIES,
    ensures
        (r.0@, r.1@) == static_field(index as int),
{
    reveal(static_field);
    if index == 1 {
        (":authority".as_bytes(), "".as_bytes())
    } else if index == 2 {
        (":method".as_bytes(), "GET".as_bytes())
    } else if index == 3 {
        (":method".as_bytes(), "POST".as_bytes())
    } else if index == 4 {
        (":path".as_bytes(), "/".as_bytes())
    } else if index == 5 {
        (":path".as_bytes(), "/index.html".as_bytes())
    } else if index == 6 {
        (":scheme".as_bytes(), "http".as_bytes())
    } else if index == 7 {
        (":scheme".as_bytes(), "https".as_bytes())
    } else if index == 8 {
        (":status".as_bytes(), "200".as_bytes())
    } else if index == 9 {
        (":status".as_bytes(), "204".as_bytes())
    } else if index == 10 {
        (":status".as_bytes(), "206".as_bytes())
    } else if index == 11 {
        (":status".as_bytes(), "304".as_bytes())
    } else if index == 12 {
        (":status".as_bytes(), "400".as_bytes())
    } else if index == 13 {
        (":status".as_bytes(), "404".as_bytes())
    } else if index == 14 {
        (":status".as_bytes(), "500".as_bytes())
    } else if index == 15 {
        ("accept-charset".as_bytes(), "".as_bytes())
    } else if index == 16 {
        ("accept-encoding".as_bytes(), "gzip, deflate".as_bytes())
    } else if index == 17 {
        ("accept-language".as_bytes(), "".as_bytes())
    } else if index == 18 {
        ("accept-ranges".as_bytes(), "".as_bytes())
    } else if index == 19 {
        ("accept".as_bytes(), "".as_bytes())
    } else if index == 20 {
        ("access-control-allow-origin".as_bytes(), "".as_bytes())
    } else if index == 21 {
        ("age".as_bytes(), "".as_bytes())
    } else if index == 22 {
        ("allow".as_bytes(), "".as_bytes())
    } else if index == 23 {
        ("authorization".as_bytes(), "".as_bytes())
    } else if index == 24 {
        ("cache-control".as_bytes(), "".as_bytes())
    } else if index == 25 {
        ("content-disposition".as_bytes(), "".as_bytes())
    } else if index == 26 {
        ("content-encoding".as_bytes(), "".as_bytes())
    } else if index == 27 {
        ("content-language".as_bytes(), "".as_bytes())
    } else if index == 28 {
        ("content-length".as_bytes(), "".as_bytes())
    } else if index == 29 {
        ("content-location".as_bytes(), "".as_bytes())
    } else if index == 30 {
        ("content-range".as_bytes(), "".as_bytes())
    } else if index == 31 {
        ("content-type".as_bytes(), "".as_bytes())
    } else if index == 32 {
        ("cookie".as_bytes(), "".as_bytes())
    } else if index == 33 {
        ("date".as_bytes(), "".as_bytes())
    } else if index == 34 {
        ("etag".as_bytes(), "".as_bytes())
    } else if index == 35 {
        ("expect".as_bytes(), "".as_bytes())
    } else if index == 36 {
        ("expires".as_bytes(), "".as_bytes())
    } else if index == 37 {
        ("from".as_bytes(), "".as_bytes())
    } else if index == 38 {
        ("host".as_bytes(), "".as_bytes())
    } else if index == 39 {
        ("if-match".as_bytes(), "".as_bytes())
    } else if index == 40 {
        ("if-modified-since".as_bytes(), "".as_bytes())
    } else if index == 41 {
        ("if-none-match".as_bytes(), "".as_bytes())
    } else if index == 42 {
        ("if-range".as_bytes(), "".as_bytes())
    } else if index == 43 {
        ("if-unmodified-since".as_bytes(), "".as_bytes())
    } else if index == 44 {
        ("last-modified".as_bytes(), "".as_bytes())
    } else if index == 45 {
        ("link".as_bytes(), "".as_bytes())
    } else if index == 46 {
        ("location".as_bytes(), "".as_bytes())
    } else if index == 47 {
        ("max-forwards".as_bytes(), "".as_bytes())
    } else if index == 48 {
        ("proxy-authenticate".as_bytes(), "".as_bytes())
    } else if index == 49 {
        ("proxy-authorization".as_bytes(), "".as_bytes())
    } else if index == 50 {
        ("range".as_bytes(), "".as_bytes())
    } else if index == 51 {
        ("referer".as_bytes(), "".as_bytes())
    } else if index == 52 {
        ("refresh".as_bytes(), "".as_bytes())
    } else if index == 53 {
        ("retry-after".as_bytes(), "".as_bytes())
    } else if index == 54 {
        ("server".as_bytes(), "".as_bytes())
    } else if index == 55 {
        ("set-cookie".as_bytes(), "".as_bytes())
    } else if index == 56 {
        ("strict-transport-security".as_bytes(), "".as_bytes())
    } else if index == 57 {
        ("transfer-encoding".as_bytes(), "".as_bytes())
    } else if index == 58 {
        ("user-agent".as_bytes(), "".as_bytes())
    } else if index == 59 {
        ("vary".as_bytes(), "".as_bytes())
    } else if index == 60 {
        ("via".as_bytes(), "".as_bytes())
    } else {
        ("www-authenticate".as_bytes(), "".as_bytes())
    }
}

/// What an entry counts for in the size of the table.
pub open spec fn entry_size(field: FieldText) -> nat {
    field.0.len() + field.1.len() + ENTRY_OVERHEAD as nat
}

/// The size of a run of entries.
pub open spec fn entries_size(entries: Seq<FieldText>) -> nat
    decreases entries.len(),
{
    if entries.len() == 0 {
        0
    } else {
        entries_size(entries.drop_last()) + entry_size(entries.last())
    }
}

/// The entries that stay when the table may hold `room`: the oldest, at
/// the end, leave until the rest fits.
pub open spec fn evicted(entries: Seq<FieldText>, room: nat) -> Seq<FieldText>
    decreases entries.len(),
{
    if entries_size(entries) <= room {
        entries
    } else if entries.len() == 0 {
        entries
    } else {
        evicted(entries.drop_last(), room)
    }
}

/// Mathematical value of a table: the dynamic entries, newest first, and
/// the size that they may reach.
pub struct TableModel {
    pub entries: Seq<FieldText>,
    pub max_size: nat,
}

impl TableModel {
    /// The entries fit the table.
    pub open spec fn wf(self) -> bool {
        entries_size(self.entries) <= self.max_size <= MAX_INTEGER
    }

    /// The highest index in use: the static table comes first.
    pub open spec fn count(self) -> nat {
        STATIC_ENTRIES as nat + self.entries.len()
    }

    /// The field at an index, if the index is in use.
    pub open spec fn field(self, index: int) -> Option<FieldText> {
        if 1 <= index <= STATIC_ENTRIES {
            Some(static_field(index))
        } else if STATIC_ENTRIES < index <= self.count() {
            Some(self.entries[index - STATIC_ENTRIES - 1])
        } else {
            None
        }
    }

    /// The table after its size was set.
    pub open spec fn resized(self, max_size: nat) -> TableModel {
        TableModel { entries: evicted(self.entries, max_size), max_size }
    }

    /// The table after a field was added. A field larger than the table
    /// empties it.
    pub open spec fn with(self, field: FieldText) -> TableModel {
        if entry_size(field) > self.max_size {
            TableModel { entries: Seq::empty(), max_size: self.max_size }
        } else {
            TableModel {
                entries: seq![field] + evicted(self.entries, (self.max_size - entry_size(field)) as nat),
                max_size: self.max_size,
            }
        }
    }

    /// The first index from `index` on that holds `field`, or 0.
    pub open spec fn full_from(self, field: FieldText, index: int) -> int
        decreases self.count() + 1 - index,
    {
        if index < 1 || index > self.count() {
            0
        } else if self.field(index) == Some(field) {
            index
        } else {
            self.full_from(field, index + 1)
        }
    }

    /// The first index from `index` on that holds a field named `name`,
    /// or 0.
    pub open spec fn name_from(self, name: Seq<u8>, index: int) -> int
        decreases self.count() + 1 - index,
    {
        if index < 1 || index > self.count() {
            0
        } else if self.field(index).unwrap().0 == name {
            index
        } else {
            self.name_from(name, index + 1)
        }
    }

    /// The lowest index that holds `field`, or 0.
    pub open spec fn find_full(self, field: FieldText) -> int {
        self.full_from(field, 1)
    }

    /// The lowest index that holds a field named `name`, or 0.
    pub open spec fn find_name(self, name: Seq<u8>) -> int {
        self.name_from(name, 1)
    }
}

/// An index that `full_from` finds holds the field.
pub proof fn lemma_full_from(table: TableModel, field: FieldText, index: int)
    requires
        index >= 1,
    ensures
        ({
            let found = table.full_from(field, index);
            found == 0 || (index <= found <= table.count() && table.field(found) == Some(field))
        }),
    decreases table.count() + 1 - index,
{
    if index <= table.count() && table.field(index) != Some(field) {
        lemma_full_from(table, field, index + 1);
    }
}

/// An index that `name_from` finds holds a field of that name.
pub proof fn lemma_name_from(table: TableModel, name: Seq<u8>, index: int)
    requires
        index >= 1,
    ensures
        ({
            let found = table.name_from(name, index);
            found == 0 || (index <= found <= table.count() && table.field(found).unwrap().0 == name)
        }),
    decreases table.count() + 1 - index,
{
    if index <= table.count() && table.field(index).unwrap().0 != name {
        lemma_name_from(table, name, index + 1);
    }
}

/// The size of a run of entries with one more in front.
pub proof fn lemma_size_front(field: FieldText, entries: Seq<FieldText>)
    ensures
        entries_size(seq![field] + entries) == entry_size(field) + entries_size(entries),
    decreases entries.len(),
{
    let all = seq![field] + entries;
    if entries.len() == 0 {
        assert(all.drop_last() =~= Seq::<FieldText>::empty());
        assert(entries_size(all.drop_last()) == 0);
    } else {
        assert(all.drop_last() =~= seq![field] + entries.drop_last());
        lemma_size_front(field, entries.drop_last());
    }
}

/// Every entry counts for at least its overhead.
pub proof fn lemma_size_counts(entries: Seq<FieldText>)
    ensures
        entries_size(entries) >= ENTRY_OVERHEAD * entries.len(),
    decreases entries.len(),
{
    if entries.len() > 0 {
        lemma_size_counts(entries.drop_last());
    }
}

/// What stays after an eviction fits the room and stays as it is under
/// another eviction to the same room.
pub proof fn lemma_evicted_fits(entries: Seq<FieldText>, room: nat)
    ensures
        entries_size(evicted(entries, room)) <= room,
        evicted(evicted(entries, room), room) == evicted(entries, room),
    decreases entries.len(),
{
    if entries_size(entries) > room && entries.len() > 0 {
        lemma_evicted_fits(entries.drop_last(), room);
    }
}

/// Two evictions in a row leave what one eviction to the smaller room
/// leaves.
pub proof fn lemma_evicted_twice(entries: Seq<FieldText>, a: nat, b: nat)
    ensures
        evicted(evicted(entries, a), b) == evicted(entries, if a <= b { a } else { b }),
    decreases entries.len(),
{
    if entries_size(entries) > a && entries.len() > 0 {
        lemma_evicted_twice(entries.drop_last(), a, b);
    }
}

/// The table of an encoder or a decoder.
#[derive(Debug, Clone)]
pub struct HeaderTable {
    entries: Vec<(Vec<u8>, Vec<u8>)>,
    size: usize,
    max_size: u32,
}

impl View for HeaderTable {
    type V = TableModel;

    closed spec fn view(&self) -> TableModel {
        TableModel { entries: header_list(self.entries@), max_size: self.max_size as nat }
    }
}

impl HeaderTable {
    /// The size kept beside the entries is their size, and they fit.
    pub closed spec fn wf(&self) -> bool {
        &&& self.size == entries_size(header_list(self.entries@))
        &&& self.size <= self.max_size
    }

    /// A table without dynamic entries.
    pub fn new(max_size: u32) -> (r: Self)
        ensures
            r.wf(),
            r@ == (TableModel { entries: Seq::empty(), max_size: max_size as nat }),
    {
        let r = HeaderTable { entries: Vec::new(), size: 0, max_size };
        assert(header_list(r.entries@) =~= Seq::<FieldText>::empty());
        r
    }

    /// What follows from `wf` for the model.
    pub proof fn lemma_wf(&self)
        requires
            self.wf(),
        ensures
            self@.wf(),
            self@.count() <= MAX_INTEGER,
    {
        lemma_size_counts(self@.entries);
    }

    /// Number of dynamic entries.
    pub fn len(&self) -> (r: usize)
        ensures
            r == self@.entries.len(),
    {
        self.entries.len()
    }

    /// Size of the dynamic entries.
    pub fn size(&self) -> (r: usize)
        requires
            self.wf(),
        ensures
            r == entries_size(self@.entries),
    {
        self.size
    }

    /// The size that the dynamic entries may reach.
    pub fn max_size(&self) -> (r: u32)
        ensures
            r == self@.max_size,
    {
        self.max_size
    }

    /// Drops the oldest entries until the rest fits `room`.
    fn evict(&mut self, room: usize)
        requires
            old(self).size == entries_size(header_list(old(self).entries@)),
        ensures
            final(self).size == entries_size(header_list(final(self).entries@)),
            final(self).size <= room,
            header_list(final(self).entries@) == evicted(header_list(old(self).entries@), room as nat),
            final(self).max_size == old(self).max_size,
    {
        while self.size > room
            invariant
                self.size == entries_size(header_list(self.entries@)),
                evicted(header_list(self.entries@), room as nat) == evicted(
                    header_list(old(self).entries@),
                    room as nat,
                ),
                self.max_size == old(self).max_size,
            decreases self.entries.len(),
        {
            let ghost before = header_list(self.entries@);
            let last = self.entries.pop().unwrap();
            assert(header_list(self.entries@) =~= before.drop_last());
            self.size = self.size - (last.0.len() + last.1.len() + ENTRY_OVERHEAD);
        }
    }

    /// Sets the size that the entries may reach.
    pub fn resize(&mut self, max_size: u32)
        requires
            old(self).wf(),
        ensures
            final(self).wf(),
            final(self)@ == old(self)@.resized(max_size as nat),
    {
        self.evict(max_size as usize);
        self.max_size = max_size;
    }

    /// Adds a field as the newest entry.
    pub fn insert(&mut self, name: Vec<u8>, value: Vec<u8>)
        requires
            old(self).wf(),
        ensures
            final(self).wf(),
            final(self)@ == old(self)@.with((name@, value@)),
    {
        let max: usize = self.max_size as usize;
        if name.len() > max || value.len() > max - name.len() || max - name.len() - value.len()
            < ENTRY_OVERHEAD {
            self.entries.clear();
            self.size = 0;
            assert(header_list(self.entries@) =~= Seq::<FieldText>::empty());
            return ;
        }
        let need: usize = name.len() + value.len() + ENTRY_OVERHEAD;
        self.evict(max - need);
        let ghost kept = header_list(self.entries@);
        let ghost field = (name@, value@);
        self.entries.insert(0, (name, value));
        self.size = self.size + need;
        proof {
            assert(header_list(self.entries@) =~= seq![field] + kept);
            lemma_size_front(field, kept);
        }
    }

    /// The field at an index, if the index is in use.
    pub fn get(&self, index: u64) -> (r: Option<(Vec<u8>, Vec<u8>)>)
        ensures
            match self@.field(index as int) {
                Some(field) => r matches Some(f) && (f.0@, f.1@) == field,
                None => r is None,
            },
    {
        if index == 0 {
            None
        } else if index <= STATIC_ENTRIES as u64 {
            let entry = static_entry(index as usize);
            Some((vstd::slice::slice_to_vec(entry.0), vstd::slice::slice_to_vec(entry.1)))
        } else if index - STATIC_ENTRIES as u64 - 1 < self.entries.len() as u64 {
            let at: usize = (index - STATIC_ENTRIES as u64 - 1) as usize;
            Some((self.entries[at].0.clone(), self.entries[at].1.clone()))
        } else {
            None
        }
    }

    /// Looks a field up for the encoder: the lowest index that holds the
    /// field, or 0; and the lowest index that holds a field of that
    /// name, or 0.
    pub fn find(&self, name: &[u8], value: &[u8]) -> (r: (u64, u64))
        requires
            self.wf(),
        ensures
            r.0 == self@.find_full((name@, value@)),
            r.1 == self@.find_name(name@),
    {
        let ghost table = self@;
        let ghost field = (name@, value@);
        let mut named: u64 = 0;
        let mut i: usize = 1;
        proof {
            self.lemma_wf();
        }
        while i <= STATIC_ENTRIES
            invariant
                1 <= i <= STATIC_ENTRIES + 1,
                table == self@,
                field == (name@, value@),
                table.find_full(field) == table.full_from(field, i as int),
                named == 0 ==> table.find_name(name@) == table.name_from(name@, i as int),
                named != 0 ==> table.find_name(name@) == named,
            decreases STATIC_ENTRIES + 1 - i,
        {
            let entry = static_entry(i);
            if bytes_eq(entry.0, name) {
                if named == 0 {
                    named = i as u64;
                }
                if bytes_eq(entry.1, value) {
                    return (i as u64, named);
                }
                if named == 0 {
                    named = i as u64;
                }
            }
            i += 1;
        }
        let mut k: usize = 0;
        while k < self.entries.len()
            invariant
                k <= self.entries.len(),
                table == self@,
                table.count() <= MAX_INTEGER,
                field == (name@, value@),
                table.find_full(field) == table.full_from(field, STATIC_ENTRIES + 1 + k),
                named == 0 ==> table.find_name(name@) == table.name_from(name@, STATIC_ENTRIES + 1 + k),
                named != 0 ==> table.find_name(name@) == named,
            decreases self.entries.len() - k,
        {
            let index: u64 = k as u64 + STATIC_ENTRIES as u64 + 1;
            if bytes_eq(self.entries[k].0.as_slice(), name) {
                if named == 0 {
                    named = index;
                }
                if bytes_eq(self.entries[k].1.as_slice(), value) {
                    return (index, named);
                }
                if named == 0 {
                    named = index;
                }
            }
            k += 1;
        }
        (0, named)
    }
}

/// A header field as the encoder takes it and as the decoder gives it.
#[derive(Debug, Clone, PartialEq, Eq)]
pub struct HeaderField {
    /// The name.
    pub name: Vec<u8>,
    /// The value.
    pub value: Vec<u8>,
    /// Whether the field must never enter a table.
    pub sensitive: bool,
}

/// Mathematical value of a header field.
pub struct FieldModel {
    pub name: Seq<u8>,
    pub value: Seq<u8>,
    pub sensitive: bool,
}

impl View for HeaderField {
    type V = FieldModel;

    open spec fn view(&self) -> FieldModel {
        FieldModel { name: self.name@, value: self.value@, sensitive: self.sensitive }
    }
}

/// The values of a list of header fields.
pub open spec fn field_list(fields: Seq<HeaderField>) -> Seq<FieldModel> {
    Seq::new(fields.len(), |i: int| fields[i]@)
}

/// Whether name and value are short enough to be written.
pub open spec fn is_short(field: FieldModel) -> bool {
    field.name.len() <= MAX_INTEGER && field.value.len() <= MAX_INTEGER
}

/// Whether every field of a list is short enough to be written.
pub open spec fn all_short(fields: Seq<FieldModel>) -> bool {
    forall|i: int| 0 <= i < fields.len() ==> is_short(#[trigger] fields[i])
}

/// The name of a literal field behind the tag `base`: the lowest index
/// of a field of that name, or 0 and the name as a string.
pub open spec fn name_code(table: TableModel, base: nat, limit: nat, name: Seq<u8>) -> Seq<u8> {
    let index = table.find_name(name);
    if index > 0 {
        int_code(base, limit, index as nat)
    } else {
        seq![base as u8] + string_code(name)
    }
}

/// The representation that the encoder picks for a field. A sensitive
/// field is written literally and marked as never to be indexed. Any
/// other field is written as an index where the table holds it, else
/// literally, and is then added to the table.
#[verifier::opaque]
pub open spec fn field_code(table: TableModel, field: FieldModel) -> Seq<u8> {
    if field.sensitive {
        name_code(table, 16, 15, field.name) + string_code(field.value)
    } else if table.find_full((field.name, field.value)) > 0 {
        int_code(128, 127, table.find_full((field.name, field.value)) as nat)
    } else {
        name_code(table, 64, 63, field.name) + string_code(field.value)
    }
}

/// The table after the encoder has written a field.
pub open spec fn table_after(table: TableModel, field: FieldModel) -> TableModel {
    if field.sensitive || table.find_full((field.name, field.value)) > 0 {
        table
    } else {
        table.with((field.name, field.value))
    }
}

/// The representations of a list of fields, one after the other.
pub open spec fn block_code(table: TableModel, fields: Seq<FieldModel>) -> Seq<u8>
    decreases fields.len(),
{
    if fields.len() == 0 {
        Seq::empty()
    } else {
        field_code(table, fields[0]) + block_code(table_after(table, fields[0]), fields.skip(1))
    }
}

/// The table after the encoder has written a list of fields.
pub open spec fn table_after_all(table: TableModel, fields: Seq<FieldModel>) -> TableModel
    decreases fields.len(),
{
    if fields.len() == 0 {
        table
    } else {
        table_after_all(table_after(table, fields[0]), fields.skip(1))
    }
}

/// The literal field at the start of `s`, whose first octet is tagged
/// `base`, and how many octets it takes.
pub open spec fn literal_at(table: TableModel, s: Seq<u8>, base: nat, limit: nat) -> Result<
    (FieldText, nat),
    HpackError,
> {
    match int_value(limit, (s[0] - base) as nat, s.skip(1)) {
        Err(e) => Err(e),
        Ok((index, k)) => if index == 0 {
            match string_value(s.skip((1 + k) as int)) {
                Err(e) => Err(e),
                Ok((name, kn)) => match string_value(s.skip((1 + k + kn) as int)) {
                    Err(e) => Err(e),
                    Ok((value, kv)) => Ok(((name, value), 1 + k + kn + kv)),
                },
            }
        } else {
            match table.field(index as int) {
                None => Err(HpackError::InvalidIndex),
                Some(field) => match string_value(s.skip((1 + k) as int)) {
                    Err(e) => Err(e),
                    Ok((value, kv)) => Ok(((field.0, value), 1 + k + kv)),
                },
            }
        }
    }
}

/// What one representation at the start of `s` says: the field, if it
/// is one; the table afterwards; and how many octets it takes. `limit`
/// is the largest size that a change of size may ask for, and `fresh`
/// says whether no field of the block has come yet.
#[verifier::opaque]
pub open spec fn item_at(table: TableModel, limit: nat, s: Seq<u8>, fresh: bool) -> Result<
    (Option<FieldModel>, TableModel, nat),
    HpackError,
> {
    if s.len() == 0 {
        Err(HpackError::Truncated)
    } else if s[0] >= 128 {
        match int_value(127, (s[0] - 128) as nat, s.skip(1)) {
            Err(e) => Err(e),
            Ok((index, k)) => match table.field(index as int) {
                None => Err(HpackError::InvalidIndex),
                Some(field) => Ok(
                    (Some(FieldModel { name: field.0, value: field.1, sensitive: false }), table, 1 + k),
                ),
            },
        }
    } else if s[0] >= 64 {
        match literal_at(table, s, 64, 63) {
            Err(e) => Err(e),
            Ok((field, used)) => Ok(
                (
                    Some(FieldModel { name: field.0, value: field.1, sensitive: false }),
                    table.with(field),
                    used,
                ),
            ),
        }
    } else if s[0] >= 32 {
        match int_value(31, (s[0] - 32) as nat, s.skip(1)) {
            Err(e) => Err(e),
            Ok((size, k)) => if !fresh || size > limit {
                Err(HpackError::InvalidSizeUpdate)
            } else {
                Ok((None, table.resized(size), 1 + k))
            },
        }
    } else if s[0] >= 16 {
        match literal_at(table, s, 16, 15) {
            Err(e) => Err(e),
            Ok((field, used)) => Ok(
                (Some(FieldModel { name: field.0, value: field.1, sensitive: true }), table, used),
            ),
        }
    } else {
        match literal_at(table, s, 0, 15) {
            Err(e) => Err(e),
            Ok((field, used)) => Ok(
                (Some(FieldModel { name: field.0, value: field.1, sensitive: false }), table, used),
            ),
        }
    }
}

/// A representation takes at least one octet and no more than there
/// are.
pub proof fn lemma_item_used(table: TableModel, limit: nat, s: Seq<u8>, fresh: bool)
    ensures
        item_at(table, limit, s, fresh) matches Ok((_, _, used)) ==> 1 <= used <= s.len(),
{
    reveal(int_value);
    reveal(string_value);
    reveal(item_at);
    if s.len() > 0 {
        lemma_tail_bound(s.skip(1), MAX_INTEGER_TAIL as nat);
        let base: nat = if s[0] >= 64 {
            64
        } else if s[0] >= 16 {
            16
        } else {
            0
        };
        let limit: nat = if s[0] >= 64 {
            63
        } else {
            15
        };
        if let Ok((index, k)) = int_value(limit, (s[0] - base) as nat, s.skip(1)) {
            if let Ok((name, kn)) = string_value(s.skip((1 + k) as int)) {
                lemma_tail_bound(s.skip((1 + k) as int).skip(1), MAX_INTEGER_TAIL as nat);
                if let Ok((value, kv)) = string_value(s.skip((1 + k + kn) as int)) {
                    lemma_tail_bound(s.skip((1 + k + kn) as int).skip(1), MAX_INTEGER_TAIL as nat);
                }
            }
        }
    }
}

/// The fields with one more in front, where there are any.
pub open spec fn with_front(
    field: Option<FieldModel>,
    rest: Result<(Seq<FieldModel>, TableModel), HpackError>,
) -> Result<(Seq<FieldModel>, TableModel), HpackError> {
    match rest {
        Err(e) => Err(e),
        Ok((fields, table)) => match field {
            Some(f) => Ok((seq![f] + fields, table)),
            None => Ok((fields, table)),
        },
    }
}

/// What a header block says: its fields in order, and the table after
/// the last of them.
pub open spec fn block_value(table: TableModel, limit: nat, s: Seq<u8>, fresh: bool) -> Result<
    (Seq<FieldModel>, TableModel),
    HpackError,
>
    decreases s.len(),
{
    if s.len() == 0 {
        Ok((Seq::empty(), table))
    } else {
        match item_at(table, limit, s, fresh) {
            Err(e) => Err(e),
            Ok((field, next, used)) => {
                proof {
                    lemma_item_used(table, limit, s, fresh);
                }
                with_front(field, block_value(next, limit, s.skip(used as int), fresh && field is None))
            },
        }
    }
}

/// A literal field read back gives name and value again, whatever
/// follows it.
pub proof fn lemma_literal_roundtrip(
    table: TableModel,
    base: nat,
    limit: nat,
    name: Seq<u8>,
    value: Seq<u8>,
    rest: Seq<u8>,
)
    requires
        table.count() <= MAX_INTEGER,
        base + limit <= 255,
        limit >= 1,
        name.len() <= MAX_INTEGER,
        value.len() <= MAX_INTEGER,
    ensures
        ({
            let code = name_code(table, base, limit, name) + string_code(value);
            &&& code.len() >= 1
            &&& base <= code[0] <= base + limit
            &&& literal_at(table, code + rest, base, limit) == Ok::<(FieldText, nat), HpackError>(
                ((name, value), code.len()),
            )
        }),
{
    let code = name_code(table, base, limit, name) + string_code(value);
    let s = code + rest;
    let index = table.find_name(name);
    let tail = string_code(value) + rest;
    lemma_name_from(table, name, 1);
    lemma_string_roundtrip(value, rest);
    if index > 0 {
        let head = int_code(base, limit, index as nat);
        lemma_int_roundtrip(base, limit, index as nat, tail);
        assert(code =~= head + string_code(value));
        assert(s =~= head + tail);
        assert(s[0] == head[0]);
        assert(code[0] == head[0]);
        assert(s.skip(1) == (head + tail).skip(1));
        assert(int_value(limit, (s[0] - base) as nat, s.skip(1)) == Ok::<(nat, nat), HpackError>(
            (index as nat, (head.len() - 1) as nat),
        ));
        assert(s.skip(head.len() as int) =~= tail);
        assert(table.field(index) is Some && table.field(index).unwrap().0 == name);
        assert(code.len() == head.len() + string_code(value).len());
    } else {
        let named = string_code(name) + tail;
        assert(code =~= seq![base as u8] + string_code(name) + string_code(value));
        assert(s =~= seq![base as u8] + named);
        assert(s[0] == base as u8);
        assert(code[0] == base as u8);
        assert(s.skip(1) =~= named);
        assert(int_value(limit, (s[0] - base) as nat, s.skip(1)) == Ok::<(nat, nat), HpackError>((0, 0))) by {
            reveal(int_value);
        }
        lemma_string_roundtrip(name, tail);
        assert(s.skip(1 + string_code(name).len() as int) =~= tail);
        assert(code.len() == 1 + string_code(name).len() + string_code(value).len());
    }
}

/// A field read back gives the field again and leaves the decoder's
/// table as the encoder's, whatever follows the field.
pub proof fn lemma_field_roundtrip(table: TableModel, limit: nat, field: FieldModel, rest: Seq<u8>, fresh: bool)
    requires
        table.count() <= MAX_INTEGER,
        is_short(field),
    ensures
        ({
            let code = field_code(table, field);
            &&& code.len() >= 1
            &&& item_at(table, limit, code + rest, fresh) == Ok::<
                (Option<FieldModel>, TableModel, nat),
                HpackError,
            >((Some(field), table_after(table, field), code.len()))
        }),
{
    reveal(item_at);
    reveal(field_code);
    let full = table.find_full((field.name, field.value));
    if field.sensitive {
        lemma_literal_roundtrip(table, 16, 15, field.name, field.value, rest);
    } else if full > 0 {
        lemma_full_from(table, (field.name, field.value), 1);
        lemma_int_roundtrip(128, 127, full as nat, rest);
    } else {
        lemma_literal_roundtrip(table, 64, 63, field.name, field.value, rest);
    }
}

/// Adding a field or changing the size keeps a table well formed.
pub proof fn lemma_table_steps(table: TableModel, field: FieldText, size: nat)
    requires
        table.wf(),
    ensures
        table.with(field).wf(),
        table.with(field).count() <= MAX_INTEGER,
        table.count() <= MAX_INTEGER,
        size <= MAX_INTEGER ==> table.resized(size).wf(),
{
    lemma_size_counts(table.entries);
    lemma_evicted_fits(table.entries, size);
    if entry_size(field) <= table.max_size {
        let room = (table.max_size - entry_size(field)) as nat;
        lemma_evicted_fits(table.entries, room);
        lemma_size_front(field, evicted(table.entries, room));
    }
    lemma_size_counts(table.with(field).entries);
}

/// The encoder's step keeps a table well formed and at its size.
pub proof fn lemma_table_after(table: TableModel, field: FieldModel)
    requires
        table.wf(),
    ensures
        table_after(table, field).wf(),
        table_after(table, field).max_size == table.max_size,
        table.count() <= MAX_INTEGER,
{
    lemma_table_steps(table, (field.name, field.value), 0);
}

/// The table stays well formed and at its size while the encoder
/// writes.
pub proof fn lemma_table_after_all(table: TableModel, fields: Seq<FieldModel>)
    requires
        table.wf(),
    ensures
        table_after_all(table, fields).wf(),
        table_after_all(table, fields).max_size == table.max_size,
    decreases fields.len(),
{
    if fields.len() > 0 {
        lemma_table_after(table, fields[0]);
        lemma_table_after_all(table_after(table, fields[0]), fields.skip(1));
    }
}

/// A block of fields read back gives the fields again, in order, and
/// leaves the decoder's table as the encoder's.
pub proof fn lemma_block_roundtrip(table: TableModel, limit: nat, fields: Seq<FieldModel>, fresh: bool)
    requires
        table.wf(),
        all_short(fields),
    ensures
        block_value(table, limit, block_code(table, fields), fresh) == Ok::<
            (Seq<FieldModel>, TableModel),
            HpackError,
        >((fields, table_after_all(table, fields))),
    decreases fields.len(),
{
    let s = block_code(table, fields);
    if fields.len() == 0 {
        assert(fields =~= Seq::<FieldModel>::empty());
    } else {
        let first = fields[0];
        let code = field_code(table, first);
        let next = table_after(table, first);
        let rest = block_code(next, fields.skip(1));
        lemma_table_after(table, first);
        lemma_field_roundtrip(table, limit, first, rest, fresh);
        assert(s.skip(code.len() as int) =~= rest);
        assert(all_short(fields.skip(1))) by {
            assert forall|i: int| 0 <= i < fields.skip(1).len() implies is_short(#[trigger] fields.skip(1)[i]) by {
            }
        }
        lemma_block_roundtrip(next, limit, fields.skip(1), false);
        assert(seq![first] + fields.skip(1) =~= fields);
    }
}

/// Size of the dynamic table before any change of size.
pub const DEFAULT_TABLE_SIZE: u32 = 4096;

/// Mathematical value of an encoder: its table, and the lowest size that
/// the table was set to since the last block, if it was set.
pub struct EncoderModel {
    pub table: TableModel,
    pub lowest: Option<nat>,
}

/// The code of a change of the table's size.
pub open spec fn size_code(size: nat) -> Seq<u8> {
    int_code(32, 31, size)
}

impl EncoderModel {
    /// The table is well formed, and was never set lower than noted.
    pub open spec fn wf(self) -> bool {
        &&& self.table.wf()
        &&& self.lowest matches Some(low) ==> low <= self.table.max_size
    }

    /// What the encoder says of the table's size at the start of the
    /// next block: nothing, if the size was not set; else the lowest
    /// size it was set to, if that is lower than the last, and the last.
    pub open spec fn update_code(self) -> Seq<u8> {
        match self.lowest {
            None => Seq::empty(),
            Some(low) => if low < self.table.max_size {
                size_code(low) + size_code(self.table.max_size)
            } else {
                size_code(self.table.max_size)
            },
        }
    }

    /// The header block for a list of fields.
    pub open spec fn output(self, fields: Seq<FieldModel>) -> Seq<u8> {
        self.update_code() + block_code(self.table, fields)
    }

    /// The encoder after it has written a list of fields.
    pub open spec fn after(self, fields: Seq<FieldModel>) -> EncoderModel {
        EncoderModel { table: table_after_all(self.table, fields), lowest: None }
    }

    /// The encoder after the size of its table was set.
    pub open spec fn resized(self, size: nat) -> EncoderModel {
        EncoderModel {
            table: self.table.resized(size),
            lowest: match self.lowest {
                Some(low) => if low < size {
                    Some(low)
                } else {
                    Some(size)
                },
                None => Some(size),
            },
        }
    }
}

/// Mathematical value of a decoder: its table, and the largest size
/// that the peer may set it to.
pub struct DecoderModel {
    pub table: TableModel,
    pub limit: nat,
}

impl DecoderModel {
    /// The table is well formed and the limit can be written.
    pub open spec fn wf(self) -> bool {
        self.table.wf() && self.limit <= MAX_INTEGER
    }

    /// What the decoder makes of a header block: the fields, and itself
    /// afterwards.
    pub open spec fn read(self, block: Seq<u8>) -> Result<(Seq<FieldModel>, DecoderModel), HpackError> {
        match block_value(self.table, self.limit, block, true) {
            Ok((fields, table)) => Ok((fields, DecoderModel { table, limit: self.limit })),
            Err(e) => Err(e),
        }
    }
}

/// Whether a decoder has read all that an encoder has written: their
/// tables are the same, but for the changes of size that the encoder
/// will announce with its next block.
pub open spec fn in_sync(encoder: EncoderModel, decoder: DecoderModel) -> bool {
    &&& encoder.table.max_size <= decoder.limit
    &&& match encoder.lowest {
        None => encoder.table == decoder.table,
        Some(low) => encoder.table == decoder.table.resized(low).resized(encoder.table.max_size),
    }
}

/// A change of size at the start of a block sets the decoder's table and
/// gives no field.
pub proof fn lemma_size_update(table: TableModel, limit: nat, size: nat, rest: Seq<u8>)
    requires
        size <= limit <= MAX_INTEGER,
    ensures
        block_value(table, limit, size_code(size) + rest, true) == block_value(
            table.resized(size),
            limit,
            rest,
            true,
        ),
{
    reveal(item_at);
    let code = size_code(size);
    let s = code + rest;
    lemma_int_roundtrip(32, 31, size, rest);
    assert(s.skip(code.len() as int) =~= rest);
}

/// The law of header compression: what an encoder writes for a list of
/// fields, a decoder in sync with it reads as that list, in order and
/// with its duplicates; and the two are in sync again afterwards.
pub proof fn lemma_roundtrip(encoder: EncoderModel, decoder: DecoderModel, fields: Seq<FieldModel>)
    requires
        encoder.wf(),
        decoder.wf(),
        in_sync(encoder, decoder),
        all_short(fields),
    ensures
        decoder.read(encoder.output(fields)) == Ok::<(Seq<FieldModel>, DecoderModel), HpackError>(
            (fields, DecoderModel { table: encoder.after(fields).table, limit: decoder.limit }),
        ),
        in_sync(encoder.after(fields), DecoderModel { table: encoder.after(fields).table, limit: decoder.limit }),
        encoder.after(fields).wf(),
{
    let block = block_code(encoder.table, fields);
    let max = encoder.table.max_size;
    lemma_block_roundtrip(encoder.table, decoder.limit, fields, true);
    lemma_table_after_all(encoder.table, fields);
    match encoder.lowest {
        None => {
        },
        Some(low) => {
            if low < max {
                assert(encoder.output(fields) =~= size_code(low) + (size_code(max) + block));
                lemma_size_update(decoder.table, decoder.limit, low, size_code(max) + block);
                lemma_size_update(decoder.table.resized(low), decoder.limit, max, block);
            } else {
                lemma_size_update(decoder.table, decoder.limit, max, block);
                lemma_evicted_fits(decoder.table.entries, max);
            }
        },
    }
}

/// Setting the size of the encoder's table keeps a decoder in sync that
/// allows that size.
pub proof fn lemma_resize_keeps_sync(encoder: EncoderModel, decoder: DecoderModel, size: nat)
    requires
        encoder.wf(),
        in_sync(encoder, decoder),
        size <= decoder.limit <= MAX_INTEGER,
    ensures
        encoder.resized(size).wf(),
        in_sync(encoder.resized(size), decoder),
{
    let entries = decoder.table.entries;
    lemma_evicted_fits(encoder.table.entries, size);
    match encoder.lowest {
        None => {
            lemma_evicted_fits(entries, size);
        },
        Some(low) => {
            lemma_evicted_twice(entries, low, encoder.table.max_size);
            lemma_evicted_twice(entries, low, size);
            lemma_evicted_twice(evicted(entries, low), encoder.table.max_size, size);
            if low >= size {
                lemma_evicted_fits(entries, size);
            }
        },
    }
}

/// The encoder before its first block: an empty table of the given
/// size, which is announced unless it is the default.
pub open spec fn new_encoder(size: nat) -> EncoderModel {
    EncoderModel {
        table: TableModel { entries: Seq::empty(), max_size: size },
        lowest: if size == DEFAULT_TABLE_SIZE {
            None
        } else {
            Some(size)
        },
    }
}

/// The decoder before its first block: an empty table of the default
/// size.
pub open spec fn new_decoder(limit: nat) -> DecoderModel {
    DecoderModel { table: TableModel { entries: Seq::empty(), max_size: DEFAULT_TABLE_SIZE as nat }, limit }
}

/// A new encoder and a new decoder are in sync, where the decoder
/// allows the size of the encoder's table.
pub proof fn lemma_new_in_sync(size: nat, limit: nat)
    requires
        size <= limit <= MAX_INTEGER,
    ensures
        in_sync(new_encoder(size), new_decoder(limit)),
        new_encoder(size).wf(),
        new_decoder(limit).wf(),
{
}

impl HeaderField {
    /// A field that may enter the tables.
    pub fn new(name: Vec<u8>, value: Vec<u8>) -> (r: Self)
        ensures
            r@ == (FieldModel { name: name@, value: value@, sensitive: false }),
    {
        HeaderField { name, value, sensitive: false }
    }

    /// A field that must never enter a table.
    pub fn sensitive(name: Vec<u8>, value: Vec<u8>) -> (r: Self)
        ensures
            r@ == (FieldModel { name: name@, value: value@, sensitive: true }),
    {
        HeaderField { name, value, sensitive: true }
    }
}

/// Appends the name of a literal field behind the tag `base`; `named` is
/// the lowest index of a field of that name, or 0.
fn push_name(out: &mut Vec<u8>, table: &HeaderTable, base: u8, limit: u8, name: &[u8], named: u64)
    requires
        base + limit <= 255,
        named == table@.find_name(name@),
    ensures
        final(out)@ == old(out)@ + name_code(table@, base as nat, limit as nat, name@),
{
    if named > 0 {
        push_int(out, base, limit, named);
    } else {
        out.push(base);
        push_string(out, name);
    }
}

/// Appends the representation of a field and brings the table up to
/// date.
fn push_field(out: &mut Vec<u8>, table: &mut HeaderTable, field: &HeaderField)
    requires
        old(table).wf(),
    ensures
        final(table).wf(),
        final(table)@ == table_after(old(table)@, field@),
        final(out)@ == old(out)@ + field_code(old(table)@, field@),
{
    reveal(field_code);
    let found = table.find(field.name.as_slice(), field.value.as_slice());
    if field.sensitive {
        push_name(out, table, 16, 15, field.name.as_slice(), found.1);
        push_string(out, field.value.as_slice());
    } else if found.0 > 0 {
        push_int(out, 128, 127, found.0);
    } else {
        push_name(out, table, 64, 63, field.name.as_slice(), found.1);
        push_string(out, field.value.as_slice());
        table.insert(field.name.clone(), field.value.clone());
    }
}

/// Whether every field of a list is short enough to be written.
pub fn fields_are_short(fields: &[HeaderField]) -> (r: bool)
    ensures
        r == all_short(field_list(fields@)),
{
    let mut i: usize = 0;
    while i < fields.len()
        invariant
            i <= fields.len(),
            forall|j: int| 0 <= j < i ==> is_short(#[trigger] field_list(fields@)[j]),
        decreases fields.len() - i,
    {
        if fields[i].name.len() as u64 > MAX_INTEGER || fields[i].value.len() as u64 > MAX_INTEGER {
            assert(!is_short(field_list(fields@)[i as int]));
            return false;
        }
        i += 1;
    }
    true
}

/// The encoder of one connection.
#[derive(Debug, Clone)]
pub struct HpackEncoder {
    table: HeaderTable,
    lowest: Option<u32>,
}

impl View for HpackEncoder {
    type V = EncoderModel;

    closed spec fn view(&self) -> EncoderModel {
        EncoderModel {
            table: self.table@,
            lowest: match self.lowest {
                Some(low) => Some(low as nat),
                None => None,
            },
        }
    }
}

impl HpackEncoder {
    /// The table keeps to its size, and was never set lower than noted.
    pub closed spec fn wf(&self) -> bool {
        &&& self.table.wf()
        &&& self.lowest matches Some(low) ==> low <= self.table@.max_size
    }

    /// What follows from `wf` for the model.
    pub proof fn lemma_wf(&self)
        requires
            self.wf(),
        ensures
            self@.wf(),
    {
        self.table.lemma_wf();
    }

    /// An encoder with an empty table of the given size. Its first block
    /// announces the size, unless it is the default.
    pub fn new(max_table_size: u32) -> (r: Self)
        ensures
            r.wf(),
            r@ == new_encoder(max_table_size as nat),
    {
        let lowest = if max_table_size == DEFAULT_TABLE_SIZE {
            None
        } else {
            Some(max_table_size)
        };
        HpackEncoder { table: HeaderTable::new(max_table_size), lowest }
    }

    /// Sets the size of the table, as the peer's settings ask. Entries
    /// that no longer fit leave at once; the next block announces the
    /// change.
    pub fn set_max_table_size(&mut self, size: u32)
        requires
            old(self).wf(),
        ensures
            final(self).wf(),
            final(self)@ == old(self)@.resized(size as nat),
    {
        self.table.resize(size);
        self.lowest = match self.lowest {
            Some(low) => if low < size {
                Some(low)
            } else {
                Some(size)
            },
            None => Some(size),
        };
    }

    /// The size that the table may reach.
    pub fn max_table_size(&self) -> (r: u32)
        ensures
            r == self@.table.max_size,
    {
        self.table.max_size()
    }

    /// Writes the header block for a list of fields. A list with a name
    /// or a value longer than `MAX_INTEGER` is refused, and nothing
    /// changes.
    pub fn encode(&mut self, fields: &[HeaderField]) -> (r: Result<Vec<u8>, HpackError>)
        requires
            old(self).wf(),
        ensures
            final(self).wf(),
            all_short(field_list(fields@)) ==> {
                &&& r matches Ok(block)
                &&& block@ == old(self)@.output(field_list(fields@))
                &&& final(self)@ == old(self)@.after(field_list(fields@))
            },
            !all_short(field_list(fields@)) ==> {
                &&& r == Err::<Vec<u8>, HpackError>(HpackError::FieldTooLong)
                &&& final(self)@ == old(self)@
            },
    {
        if !fields_are_short(fields) {
            return Err(HpackError::FieldTooLong);
        }
        let ghost all = field_list(fields@);
        let ghost start = self@;
        let mut out: Vec<u8> = Vec::new();
        match self.lowest {
            Some(low) => {
                if low < self.table.max_size() {
                    push_int(&mut out, 32, 31, low as u64);
                }
                push_int(&mut out, 32, 31, self.table.max_size() as u64);
            },
            None => {},
        }
        self.lowest = None;
        let mut i: usize = 0;
        assert(all.skip(0) =~= all);
        while i < fields.len()
            invariant
                i <= fields.len(),
                all == field_list(fields@),
                self.wf(),
                self.lowest is None,
                start.update_code() + block_code(start.table, all) == out@ + block_code(
                    self.table@,
                    all.skip(i as int),
                ),
                table_after_all(start.table, all) == table_after_all(self.table@, all.skip(i as int)),
            decreases fields.len() - i,
        {
            let ghost before = out@;
            let ghost table = self.table@;
            let ghost rest = all.skip(i as int);
            assert(rest.skip(1) =~= all.skip(i + 1));
            push_field(&mut out, &mut self.table, &fields[i]);
            assert(out@ + block_code(self.table@, all.skip(i + 1)) =~= before + block_code(table, rest));
            i += 1;
        }
        Ok(out)
    }
}

/// Reads the literal field at `pos`, whose first octet is tagged `base`.
/// Returns the field and how many octets it took.
fn read_literal(table: &HeaderTable, s: &[u8], pos: usize, base: u8, limit: u8) -> (r: Result<
    (HeaderField, usize),
    HpackError,
>)
    requires
        pos < s.len(),
        base + limit <= 255,
        base <= s@[pos as int] <= base + limit,
    ensures
        match literal_at(table@, s@.skip(pos as int), base as nat, limit as nat) {
            Ok((field, used)) => {
                &&& r matches Ok((f, k))
                &&& (f.name@, f.value@) == field
                &&& !f.sensitive
                &&& k == used
                &&& 1 <= k
                &&& pos + k <= s.len()
            },
            Err(e) => r == Err::<(HeaderField, usize), HpackError>(e),
        },
{
    let ghost rest = s@.skip(pos as int);
    assert(rest.skip(1) =~= s@.skip(pos + 1));
    let first: u8 = s[pos] - base;
    let (index, k) = match read_int(s, pos + 1, limit, first) {
        Ok(found) => found,
        Err(e) => {
            return Err(e);
        },
    };
    assert(rest.skip((1 + k) as int) =~= s@.skip(pos + 1 + k));
    if index == 0 {
        let (name, kn) = match read_string(s, pos + 1 + k) {
            Ok(found) => found,
            Err(e) => {
                return Err(e);
            },
        };
        assert(rest.skip((1 + k + kn) as int) =~= s@.skip(pos + 1 + k + kn));
        let (value, kv) = match read_string(s, pos + 1 + k + kn) {
            Ok(found) => found,
            Err(e) => {
                return Err(e);
            },
        };
        Ok((HeaderField { name, value, sensitive: false }, 1 + k + kn + kv))
    } else {
        let name = match table.get(index) {
            Some(field) => field.0,
            None => {
                return Err(HpackError::InvalidIndex);
            },
        };
        let (value, kv) = match read_string(s, pos + 1 + k) {
            Ok(found) => found,
            Err(e) => {
                return Err(e);
            },
        };
        Ok((HeaderField { name, value, sensitive: false }, 1 + k + kv))
    }
}

/// The decoder of one connection.
#[derive(Debug, Clone)]
pub struct HpackDecoder {
    table: HeaderTable,
    limit: u32,
}

impl View for HpackDecoder {
    type V = DecoderModel;

    closed spec fn view(&self) -> DecoderModel {
        DecoderModel { table: self.table@, limit: self.limit as nat }
    }
}

impl HpackDecoder {
    /// The table keeps to its size.
    pub closed spec fn wf(&self) -> bool {
        self.table.wf()
    }

    /// What follows from `wf` for the model.
    pub proof fn lemma_wf(&self)
        requires
            self.wf(),
        ensures
            self@.wf(),
    {
        self.table.lemma_wf();
    }

    /// A decoder with an empty table of the default size, which the
    /// peer may set to `limit` at most.
    pub fn new(limit: u32) -> (r: Self)
        ensures
            r.wf(),
            r@ == new_decoder(limit as nat),
    {
        HpackDecoder { table: HeaderTable::new(DEFAULT_TABLE_SIZE), limit }
    }

    /// Sets the largest size that the peer may set the table to.
    pub fn set_limit(&mut self, limit: u32)
        requires
            old(self).wf(),
        ensures
            final(self).wf(),
            final(self)@ == (DecoderModel { table: old(self)@.table, limit: limit as nat }),
    {
        self.limit = limit;
    }

    /// Reads the representation at `pos`. Returns the field, if it is
    /// one, and how many octets it took.
    fn read_item(&mut self, s: &[u8], pos: usize, fresh: bool) -> (r: Result<(Option<HeaderField>, usize), HpackError>)
        requires
            old(self).wf(),
            pos < s.len(),
        ensures
            final(self).wf(),
            final(self)@.limit == old(self)@.limit,
            match item_at(old(self)@.table, old(self)@.limit, s@.skip(pos as int), fresh) {
                Ok((field, table, used)) => {
                    &&& r matches Ok((f, k))
                    &&& match field {
                        Some(model) => f matches Some(h) && h@ == model,
                        None => f is None,
                    }
                    &&& final(self)@.table == table
                    &&& k == used
                    &&& 1 <= k
                    &&& pos + k <= s.len()
                },
                Err(e) => r == Err::<(Option<HeaderField>, usize), HpackError>(e),
            },
    {
        reveal(item_at);
        let ghost rest = s@.skip(pos as int);
        assert(rest.skip(1) =~= s@.skip(pos + 1));
        let b: u8 = s[pos];
        if b >= 128 {
            let (index, k) = match read_int(s, pos + 1, 127, b - 128) {
                Ok(found) => found,
                Err(e) => {
                    return Err(e);
                },
            };
            match self.table.get(index) {
                Some(field) => Ok((Some(HeaderField { name: field.0, value: field.1, sensitive: false }), 1 + k)),
                None => Err(HpackError::InvalidIndex),
            }
        } else if b >= 64 {
            let (field, k) = match read_literal(&self.table, s, pos, 64, 63) {
                Ok(found) => found,
                Err(e) => {
                    return Err(e);
                },
            };
            self.table.insert(field.name.clone(), field.value.clone());
            Ok((Some(field), k))
        } else if b >= 32 {
            let (size, k) = match read_int(s, pos + 1, 31, b - 32) {
                Ok(found) => found,
                Err(e) => {
                    return Err(e);
                },
            };
            if !fresh || size > self.limit as u64 {
                return Err(HpackError::InvalidSizeUpdate);
            }
            self.table.resize(size as u32);
            Ok((None, 1 + k))
        } else if b >= 16 {
            let (field, k) = match read_literal(&self.table, s, pos, 16, 15) {
                Ok(found) => found,
                Err(e) => {
                    return Err(e);
                },
            };
            Ok((Some(HeaderField { name: field.name, value: field.value, sensitive: true }), k))
        } else {
            let (field, k) = match read_literal(&self.table, s, pos, 0, 15) {
                Ok(found) => found,
                Err(e) => {
                    return Err(e);
                },
            };
            Ok((Some(field), k))
        }
    }

    /// Reads a header block. On an error the connection is beyond
    /// repair: the table may have taken in a part of the block.
    pub fn decode(&mut self, block: &[u8]) -> (r: Result<Vec<HeaderField>, HpackError>)
        requires
            old(self).wf(),
        ensures
            final(self).wf(),
            final(self)@.limit == old(self)@.limit,
            match old(self)@.read(block@) {
                Ok((fields, decoder)) => {
                    &&& r matches Ok(list)
                    &&& field_list(list@) == fields
                    &&& final(self)@ == decoder
                },
                Err(e) => r == Err::<Vec<HeaderField>, HpackError>(e),
            },
    {
        let ghost start = self@;
        let mut out: Vec<HeaderField> = Vec::new();
        let mut pos: usize = 0;
        let mut fresh = true;
        assert(block@.skip(0) =~= block@);
        while pos < block.len()
            invariant
                pos <= block.len(),
                self.wf(),
                start == old(self)@,
                self@.limit == start.limit,
                block_value(start.table, start.limit, block@, true) == joined(
                    field_list(out@),
                    block_value(self@.table, start.limit, block@.skip(pos as int), fresh),
                ),
            decreases block.len() - pos,
        {
            let ghost table = self@.table;
            let ghost rest = block@.skip(pos as int);
            let ghost before = field_list(out@);
            proof {
                lemma_item_used(table, start.limit, rest, fresh);
            }
            let (field, used) = match self.read_item(block, pos, fresh) {
                Ok(found) => found,
                Err(e) => {
                    return Err(e);
                },
            };
            assert(rest.skip(used as int) =~= block@.skip(pos + used));
            match field {
                Some(f) => {
                    fresh = false;
                    out.push(f);
                    assert(field_list(out@) =~= before.push(f@));
                    proof {
                        lemma_joined_front(
                            before,
                            f@,
                            block_value(self@.table, start.limit, block@.skip(pos + used), false),
                        );
                    }
                },
                None => {},
            }
            pos += used;
        }
        Ok(out)
    }
}

/// The fields read so far, then those of the rest.
pub open spec fn joined(
    before: Seq<FieldModel>,
    rest: Result<(Seq<FieldModel>, TableModel), HpackError>,
) -> Result<(Seq<FieldModel>, TableModel), HpackError> {
    match rest {
        Err(e) => Err(e),
        Ok((fields, table)) => Ok((before + fields, table)),
    }
}

/// A field may be counted with those read so far or with the rest.
pub proof fn lemma_joined_front(
    before: Seq<FieldModel>,
    field: FieldModel,
    rest: Result<(Seq<FieldModel>, TableModel), HpackError>,
)
    ensures
        joined(before, with_front(Some(field), rest)) == joined(before.push(field), rest),
{
    if let Ok((fields, table)) = rest {
        assert(before + (seq![field] + fields) =~= before.push(field) + fields);
    }
}

} // verus!
