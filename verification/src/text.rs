//! Text and byte-string helpers shared by the protocol modules.
//!
//! Strings are modelled by their sequence of characters (`s@`), byte strings
//! by their sequence of bytes. The few conversions between `str`, `String`
//! and vectors that the standard library alone can perform are wrapped here;
//! their contracts are stated, not proved.

use vstd::prelude::*;
use vstd::utf8::{decode_utf8, valid_utf8};

verus! {

/// The characters of `s`, in order.
///
/// Wraps `str::chars` collected into a vector: the result holds exactly the
/// characters of the string.
#[verifier::external_body]
pub(crate) fn str_chars(s: &str) -> (r: Vec<char>)
    ensures
        r@ == s@,
{
    s.chars().collect()
}

/// The string made of the characters `chars`, in order.
///
/// Wraps `String::from_iter` over a slice of characters.
#[verifier::external_body]
pub(crate) fn string_from_chars(chars: &[char]) -> (r: String)
    ensures
        r@ == chars@,
{
    chars.iter().collect()
}

/// The string that `bytes` encode in UTF-8, or `None` where they are not
/// valid UTF-8.
///
/// Wraps `std::str::from_utf8`, which succeeds exactly on valid UTF-8 and
/// then yields the decoded characters.
#[verifier::external_body]
pub(crate) fn utf8_to_string(bytes: &[u8]) -> (r: Option<String>)
    ensures
        r is Some <==> valid_utf8(bytes@),
        r matches Some(s) ==> s@ == decode_utf8(bytes@),
{
    match std::str::from_utf8(bytes) {
        Ok(s) => Some(s.to_string()),
        Err(_) => None,
    }
}

/// What `String::from_utf8_lossy` makes of a byte string that is not
/// valid UTF-8: the text of its well-formed stretches, with each
/// malformed stretch replaced by U+FFFD.
pub uninterp spec fn utf8_replaced(bytes: Seq<u8>) -> Seq<char>;

/// The text of a byte string, read leniently: the decoded text where the
/// bytes are valid UTF-8, and what `String::from_utf8_lossy` makes of
/// them where they are not.
pub open spec fn utf8_lossy(bytes: Seq<u8>) -> Seq<char> {
    if valid_utf8(bytes) {
        decode_utf8(bytes)
    } else {
        utf8_replaced(bytes)
    }
}

/// Wraps `String::from_utf8_lossy`: on valid UTF-8 the result is the
/// decoded text; otherwise it is named by [`utf8_replaced`].
#[verifier::external_body]
pub(crate) fn utf8_lossy_string(bytes: &[u8]) -> (r: String)
    ensures
        valid_utf8(bytes@) ==> r@ == decode_utf8(bytes@),
        !valid_utf8(bytes@) ==> r@ == utf8_replaced(bytes@),
        r@ == utf8_lossy(bytes@),
{
    String::from_utf8_lossy(bytes).to_string()
}

/// What `str::to_lowercase` makes of a text (Unicode lower-casing).
pub uninterp spec fn lowercase(text: Seq<char>) -> Seq<char>;

/// Wraps `str::to_lowercase`. The result is named by [`lowercase`].
#[verifier::external_body]
pub(crate) fn to_lowercase(s: &str) -> (r: String)
    ensures
        r@ == lowercase(s@),
{
    s.to_lowercase()
}

/// The code point of a character.
pub fn char_code(c: char) -> (r: u32)
    ensures
        r as int == c as int,
        r <= 0x10ffff,
{
    c as u32
}

/// The value of a list of headers: each name and value as a byte string.
pub open spec fn header_list(headers: Seq<(Vec<u8>, Vec<u8>)>) -> Seq<(Seq<u8>, Seq<u8>)> {
    Seq::new(headers.len(), |i: int| (headers[i].0@, headers[i].1@))
}

/// What `str::replace` makes of a text: every match of `from` replaced by
/// `to`, matches being taken from left to right without overlap.
pub uninterp spec fn replaced(text: Seq<char>, from: Seq<char>, to: Seq<char>) -> Seq<char>;

/// Wraps `str::replace`. The result is named by [`replaced`].
#[verifier::external_body]
pub(crate) fn str_replace(text: &str, from: &str, to: &str) -> (r: String)
    ensures
        r@ == replaced(text@, from@, to@),
{
    text.replace(from, to)
}

/// ASCII lower-casing of one byte.
pub open spec fn ascii_lower(b: u8) -> u8 {
    if 0x41 <= b <= 0x5a {
        (b + 0x20) as u8
    } else {
        b
    }
}

/// Whether two byte strings are equal up to ASCII letter case.
pub open spec fn eq_ignore_case(a: Seq<u8>, b: Seq<u8>) -> bool {
    &&& a.len() == b.len()
    &&& forall|i: int| 0 <= i < a.len() ==> ascii_lower(#[trigger] a[i]) == ascii_lower(b[i])
}

/// Whether `s` starts with `prefix`.
pub open spec fn has_prefix<T>(s: Seq<T>, prefix: Seq<T>) -> bool {
    prefix.len() <= s.len() && s.subrange(0, prefix.len() as int) == prefix
}

/// Whether `s` ends with `suffix`.
pub open spec fn has_suffix<T>(s: Seq<T>, suffix: Seq<T>) -> bool {
    suffix.len() <= s.len() && s.subrange(s.len() - suffix.len(), s.len() as int) == suffix
}

/// Whether `s` starts with `prefix` up to ASCII letter case.
pub open spec fn has_prefix_ignore_case(s: Seq<u8>, prefix: Seq<u8>) -> bool {
    prefix.len() <= s.len() && eq_ignore_case(s.subrange(0, prefix.len() as int), prefix)
}

/// The bytes of an ASCII text.
pub open spec fn ascii_bytes(text: Seq<char>) -> Seq<u8> {
    Seq::new(text.len(), |i: int| text[i] as u8)
}

/// The characters of an ASCII byte string.
pub open spec fn ascii_chars(bytes: Seq<u8>) -> Seq<char> {
    Seq::new(bytes.len(), |i: int| bytes[i] as char)
}

pub fn lower_byte(b: u8) -> (r: u8)
    ensures
        r == ascii_lower(b),
{
    if 0x41 <= b && b <= 0x5a {
        b + 0x20
    } else {
        b
    }
}

/// Case-insensitive comparison of two byte strings (ASCII letters only).
pub fn bytes_eq_ignore_case(a: &[u8], b: &[u8]) -> (r: bool)
    ensures
        r == eq_ignore_case(a@, b@),
{
    if a.len() != b.len() {
        return false;
    }
    let mut i: usize = 0;
    while i < a.len()
        invariant
            i <= a.len(),
            a.len() == b.len(),
            forall|j: int| 0 <= j < i ==> ascii_lower(#[trigger] a@[j]) == ascii_lower(b@[j]),
        decreases a.len() - i,
    {
        if lower_byte(a[i]) != lower_byte(b[i]) {
            return false;
        }
        i += 1;
    }
    true
}

/// Whether `s` starts with `prefix`, compared without regard to ASCII case.
pub fn bytes_start_with_ignore_case(s: &[u8], prefix: &[u8]) -> (r: bool)
    ensures
        r == has_prefix_ignore_case(s@, prefix@),
{
    if s.len() < prefix.len() {
        return false;
    }
    bytes_eq_ignore_case(vstd::slice::slice_subrange(s, 0, prefix.len()), prefix)
}

/// Equality of two byte strings.
pub fn bytes_eq(a: &[u8], b: &[u8]) -> (r: bool)
    ensures
        r == (a@ == b@),
{
    if a.len() != b.len() {
        return false;
    }
    let mut i: usize = 0;
    while i < a.len()
        invariant
            i <= a.len(),
            a.len() == b.len(),
            forall|j: int| 0 <= j < i ==> a@[j] == b@[j],
        decreases a.len() - i,
    {
        if a[i] != b[i] {
            return false;
        }
        i += 1;
    }
    assert(a@ =~= b@);
    true
}

/// Whether `s` starts with `prefix`.
pub fn bytes_start_with(s: &[u8], prefix: &[u8]) -> (r: bool)
    ensures
        r == has_prefix(s@, prefix@),
{
    if s.len() < prefix.len() {
        return false;
    }
    bytes_eq(vstd::slice::slice_subrange(s, 0, prefix.len()), prefix)
}

/// The characters of an ASCII byte string, as a vector.
pub fn ascii_to_chars(bytes: &[u8]) -> (r: Vec<char>)
    ensures
        r@ == ascii_chars(bytes@),
{
    let mut out: Vec<char> = Vec::new();
    let mut i: usize = 0;
    while i < bytes.len()
        invariant
            i <= bytes.len(),
            out@ == ascii_chars(bytes@.subrange(0, i as int)),
        decreases bytes.len() - i,
    {
        out.push(bytes[i] as char);
        assert(out@ =~= ascii_chars(bytes@.subrange(0, i + 1)));
        i += 1;
    }
    assert(bytes@.subrange(0, bytes.len() as int) =~= bytes@);
    out
}

/// Whether `b` is an ASCII decimal digit.
pub open spec fn is_digit(b: u8) -> bool {
    0x30 <= b <= 0x39
}

/// Whether every byte of `s` is an ASCII decimal digit.
pub open spec fn all_digits(s: Seq<u8>) -> bool {
    forall|i: int| 0 <= i < s.len() ==> is_digit(#[trigger] s[i])
}

/// The number that a string of decimal digits denotes.
pub open spec fn digits_value(s: Seq<u8>) -> nat
    decreases s.len(),
{
    if s.len() == 0 {
        0
    } else {
        digits_value(s.drop_last()) * 10 + (s.last() - 0x30) as nat
    }
}

/// A decimal numeral without its optional leading `+`.
pub open spec fn unsigned_digits(s: Seq<u8>) -> Seq<u8> {
    if s.len() > 0 && s[0] == 0x2b {
        s.drop_first()
    } else {
        s
    }
}

/// The value of an unsigned decimal numeral that is at most `max`: an
/// optional `+`, then one or more digits and nothing else. This is the
/// grammar of the standard library's integer parsing for unsigned types.
pub open spec fn parse_unsigned(s: Seq<u8>, max: nat) -> Option<nat> {
    let d = unsigned_digits(s);
    if d.len() > 0 && all_digits(d) && digits_value(d) <= max {
        Some(digits_value(d))
    } else {
        None
    }
}

/// The decimal numeral of `n`, without sign or leading zeros.
pub open spec fn decimal_digits(n: nat) -> Seq<u8>
    decreases n,
{
    if n < 10 {
        seq![(0x30 + n) as u8]
    } else {
        decimal_digits(n / 10).push((0x30 + n % 10) as u8)
    }
}

/// Appending a digit multiplies the value by ten and adds the digit.
pub proof fn lemma_digits_value_push(s: Seq<u8>, d: u8)
    ensures
        digits_value(s.push(d)) == digits_value(s) * 10 + (d - 0x30) as nat,
{
    assert(s.push(d).drop_last() =~= s);
}

/// The numeral of a number consists of digits and denotes that number.
pub proof fn lemma_decimal_digits(n: nat)
    ensures
        decimal_digits(n).len() > 0,
        all_digits(decimal_digits(n)),
        digits_value(decimal_digits(n)) == n,
        decimal_digits(n)[0] != 0x2b,
    decreases n,
{
    if n < 10 {
        let s = seq![(0x30 + n) as u8];
        assert(s.drop_last() =~= Seq::<u8>::empty());
        assert(digits_value(Seq::<u8>::empty()) == 0);
    } else {
        lemma_decimal_digits(n / 10);
        lemma_digits_value_push(decimal_digits(n / 10), (0x30 + n % 10) as u8);
    }
}

/// Parsing the numeral of a number gives the number back.
pub proof fn lemma_parse_decimal(n: nat, max: nat)
    requires
        n <= max,
    ensures
        parse_unsigned(decimal_digits(n), max) == Some(n),
{
    lemma_decimal_digits(n);
}

/// Parses an unsigned decimal numeral whose value is at most `max`.
pub fn parse_decimal(s: &[u8], max: u64) -> (r: Option<u64>)
    ensures
        match r {
            Some(v) => parse_unsigned(s@, max as nat) == Some(v as nat),
            None => parse_unsigned(s@, max as nat) is None,
        },
{
    let start: usize = if s.len() > 0 && s[0] == 0x2b { 1 } else { 0 };
    let ghost d = unsigned_digits(s@);
    assert(d =~= s@.subrange(start as int, s.len() as int));
    if start == s.len() {
        return None;
    }
    let mut value: u64 = 0;
    let mut i: usize = start;
    while i < s.len()
        invariant
            start <= i <= s.len(),
            d == unsigned_digits(s@),
            d == s@.subrange(start as int, s.len() as int),
            all_digits(d.subrange(0, i - start)),
            value == digits_value(d.subrange(0, i - start)),
            value <= max,
        decreases s.len() - i,
    {
        let b = s[i];
        if !(0x30 <= b && b <= 0x39) {
            assert(!is_digit(d[i - start]));
            return None;
        }
        let digit: u64 = (b - 0x30) as u64;
        proof {
            let prev = d.subrange(0, i - start);
            let next = d.subrange(0, i + 1 - start);
            assert(next =~= prev.push(b));
            lemma_digits_value_push(prev, b);
            lemma_value_prefix(d, i + 1 - start);
        }
        if digit > max || value > (max - digit) / 10 {
            return None;
        }
        value = value * 10 + digit;
        i += 1;
    }
    assert(d.subrange(0, s.len() - start) =~= d);
    Some(value)
}

/// The value of a prefix of a digit string never exceeds that of the whole.
pub proof fn lemma_value_prefix(s: Seq<u8>, k: int)
    requires
        0 <= k <= s.len(),
    ensures
        digits_value(s.subrange(0, k)) <= digits_value(s),
    decreases s.len() - k,
{
    if k < s.len() {
        lemma_value_prefix(s, k + 1);
        assert(s.subrange(0, k + 1).drop_last() =~= s.subrange(0, k));
    } else {
        assert(s.subrange(0, k) =~= s);
    }
}

/// Appends the decimal numeral of `n` to `out`.
pub fn push_decimal(out: &mut Vec<u8>, n: u128)
    ensures
        final(out)@ == old(out)@ + decimal_digits(n as nat),
    decreases n,
{
    if n >= 10 {
        push_decimal(out, n / 10);
    }
    let digit: u8 = (0x30 + n % 10) as u8;
    out.push(digit);
    assert(out@ =~= old(out)@ + decimal_digits(n as nat));
}

/// The decimal numeral of `n`.
pub fn decimal_bytes(n: u128) -> (r: Vec<u8>)
    ensures
        r@ == decimal_digits(n as nat),
{
    let mut out: Vec<u8> = Vec::new();
    push_decimal(&mut out, n);
    assert(out@ =~= decimal_digits(n as nat));
    out
}

/// The decimal numeral of `n`, as a string.
pub fn decimal_string(n: u128) -> (r: String)
    ensures
        r@ == ascii_chars(decimal_digits(n as nat)),
{
    let digits = decimal_bytes(n);
    let chars = ascii_to_chars(digits.as_slice());
    string_from_chars(chars.as_slice())
}

/// Whether `k` is where `x` first occurs in `s`, or the length of `s` where
/// it does not occur.
pub open spec fn is_first_index<T>(s: Seq<T>, x: T, k: int) -> bool {
    &&& 0 <= k <= s.len()
    &&& forall|j: int| 0 <= j < k ==> #[trigger] s[j] != x
    &&& k < s.len() ==> s[k] == x
}

/// Where `x` first occurs in `s`; the length of `s` where it does not.
pub open spec fn first_index<T>(s: Seq<T>, x: T) -> int {
    choose|k: int| is_first_index(s, x, k)
}

/// Whether `k` is where `x` last occurs in `s`, or -1 where it does not
/// occur.
pub open spec fn is_last_index<T>(s: Seq<T>, x: T, k: int) -> bool {
    &&& -1 <= k < s.len()
    &&& forall|j: int| k < j < s.len() ==> #[trigger] s[j] != x
    &&& 0 <= k ==> s[k] == x
}

/// Where `x` last occurs in `s`; -1 where it does not.
pub open spec fn last_index<T>(s: Seq<T>, x: T) -> int {
    choose|k: int| is_last_index(s, x, k)
}

/// A position that meets the description of the first occurrence is the
/// first occurrence.
pub proof fn lemma_first_index<T>(s: Seq<T>, x: T, k: int)
    requires
        is_first_index(s, x, k),
    ensures
        first_index(s, x) == k,
{
    let c = first_index(s, x);
    assert(is_first_index(s, x, c));
    if c < k {
        assert(s[c] != x);
    }
    if k < c {
        assert(s[k] != x);
    }
}

/// A position that meets the description of the last occurrence is the
/// last occurrence.
pub proof fn lemma_last_index<T>(s: Seq<T>, x: T, k: int)
    requires
        is_last_index(s, x, k),
    ensures
        last_index(s, x) == k,
{
    let c = last_index(s, x);
    assert(is_last_index(s, x, c));
    if c < k {
        assert(s[k] != x);
    }
    if k < c {
        assert(s[c] != x);
    }
}

/// Where `c` first occurs in `s` at or after `from`, as an offset from
/// `from`; the number of characters after `from` where it does not.
pub fn find_char(s: &[char], from: usize, c: char) -> (k: usize)
    requires
        from <= s.len(),
    ensures
        k == first_index(s@.skip(from as int), c),
        from + k <= s.len(),
{
    let mut i: usize = from;
    while i < s.len()
        invariant
            from <= i <= s.len(),
            forall|j: int| from <= j < i ==> s@[j] != c,
        decreases s.len() - i,
    {
        if s[i] == c {
            proof {
                lemma_first_index(s@.skip(from as int), c, i - from);
            }
            return i - from;
        }
        i += 1;
    }
    proof {
        lemma_first_index(s@.skip(from as int), c, i - from);
    }
    i - from
}

/// Where `b` first occurs in `s` at or after `from`, as an offset from
/// `from`; the number of bytes after `from` where it does not.
pub fn find_byte(s: &[u8], from: usize, b: u8) -> (k: usize)
    requires
        from <= s.len(),
    ensures
        k == first_index(s@.skip(from as int), b),
        from + k <= s.len(),
{
    let mut i: usize = from;
    while i < s.len()
        invariant
            from <= i <= s.len(),
            forall|j: int| from <= j < i ==> s@[j] != b,
        decreases s.len() - i,
    {
        if s[i] == b {
            proof {
                lemma_first_index(s@.skip(from as int), b, i - from);
            }
            return i - from;
        }
        i += 1;
    }
    proof {
        lemma_first_index(s@.skip(from as int), b, i - from);
    }
    i - from
}

/// Where `c` last occurs in `s`, if it does.
pub fn rfind_char(s: &[char], c: char) -> (r: Option<usize>)
    ensures
        match r {
            Some(k) => last_index(s@, c) == k && k < s.len(),
            None => last_index(s@, c) == -1,
        },
{
    let mut i: usize = s.len();
    while i > 0
        invariant
            i <= s.len(),
            forall|j: int| i <= j < s.len() ==> s@[j] != c,
        decreases i,
    {
        if s[i - 1] == c {
            proof {
                lemma_last_index(s@, c, i - 1);
            }
            return Some(i - 1);
        }
        i -= 1;
    }
    proof {
        lemma_last_index(s@, c, -1);
    }
    None
}

/// Whether a character has the Unicode property `White_Space`.
pub open spec fn is_whitespace(c: char) -> bool {
    let n = c as int;
    (0x09 <= n <= 0x0d) || n == 0x20 || n == 0x85 || n == 0xa0 || n == 0x1680 || (0x2000 <= n
        <= 0x200a) || n == 0x2028 || n == 0x2029 || n == 0x202f || n == 0x205f || n == 0x3000
}

/// A text without its leading and trailing white space.
pub open spec fn trim(s: Seq<char>) -> Seq<char>
    decreases s.len(),
{
    if s.len() > 0 && is_whitespace(s[0]) {
        trim(s.drop_first())
    } else if s.len() > 0 && is_whitespace(s.last()) {
        trim(s.drop_last())
    } else {
        s
    }
}

/// A text without its leading white space.
pub open spec fn trim_start(s: Seq<char>) -> Seq<char>
    decreases s.len(),
{
    if s.len() > 0 && is_whitespace(s[0]) {
        trim_start(s.drop_first())
    } else {
        s
    }
}

/// Whether a character is white space.
pub fn char_is_whitespace(c: char) -> (r: bool)
    ensures
        r == is_whitespace(c),
{
    let n: u32 = c as u32;
    (0x09 <= n && n <= 0x0d) || n == 0x20 || n == 0x85 || n == 0xa0 || n == 0x1680 || (0x2000 <= n && n
        <= 0x200a) || n == 0x2028 || n == 0x2029 || n == 0x202f || n == 0x205f || n == 0x3000
}

/// The bounds of the part of `s[from..to]` that is left once leading and
/// trailing white space is removed.
pub fn trim_bounds(s: &[char], from: usize, to: usize) -> (r: (usize, usize))
    requires
        from <= to <= s.len(),
    ensures
        from <= r.0 <= r.1 <= to,
        s@.subrange(r.0 as int, r.1 as int) == trim(s@.subrange(from as int, to as int)),
{
    let mut start: usize = from;
    while start < to && char_is_whitespace(s[start])
        invariant
            from <= start <= to <= s.len(),
            trim(s@.subrange(start as int, to as int)) == trim(s@.subrange(from as int, to as int)),
        decreases to - start,
    {
        assert(s@.subrange(start as int, to as int).drop_first() =~= s@.subrange(start + 1, to as int));
        start += 1;
    }
    let mut end: usize = to;
    while end > start && char_is_whitespace(s[end - 1])
        invariant
            start <= end <= to <= s.len(),
            start < to ==> !is_whitespace(s@[start as int]),
            trim(s@.subrange(start as int, end as int)) == trim(s@.subrange(from as int, to as int)),
        decreases end - start,
    {
        assert(s@.subrange(start as int, end as int).drop_last() =~= s@.subrange(start as int, end - 1));
        end -= 1;
    }
    (start, end)
}

/// A copy of `s[from..to]`.
pub fn copy_chars(s: &[char], from: usize, to: usize) -> (r: Vec<char>)
    requires
        from <= to <= s.len(),
    ensures
        r@ == s@.subrange(from as int, to as int),
{
    let mut out: Vec<char> = Vec::new();
    let mut i: usize = from;
    while i < to
        invariant
            from <= i <= to <= s.len(),
            out@ == s@.subrange(from as int, i as int),
        decreases to - i,
    {
        out.push(s[i]);
        assert(out@ =~= s@.subrange(from as int, i + 1));
        i += 1;
    }
    out
}

/// Equality of two strings.
pub fn str_eq(a: &str, b: &str) -> (r: bool)
    ensures
        r == (a@ == b@),
{
    let r = bytes_eq(a.as_bytes(), b.as_bytes());
    proof {
        vstd::utf8::encode_utf8_decode_utf8(a@);
        vstd::utf8::encode_utf8_decode_utf8(b@);
    }
    r
}

/// The texts of a list of strings.
pub open spec fn texts(list: Seq<String>) -> Seq<Seq<char>> {
    Seq::new(list.len(), |i: int| list[i]@)
}

/// The UTF-8 bytes of a list of texts, joined by `sep`.
pub open spec fn joined_utf8(list: Seq<Seq<char>>, sep: Seq<u8>) -> Seq<u8>
    decreases list.len(),
{
    if list.len() == 0 {
        Seq::empty()
    } else if list.len() == 1 {
        vstd::utf8::encode_utf8(list[0])
    } else {
        joined_utf8(list.drop_last(), sep) + sep + vstd::utf8::encode_utf8(list.last())
    }
}

/// The UTF-8 bytes of a list of strings, joined by `sep`.
pub fn join_utf8(list: &Vec<String>, sep: &[u8]) -> (r: Vec<u8>)
    ensures
        r@ == joined_utf8(texts(list@), sep@),
{
    let mut out: Vec<u8> = Vec::new();
    let mut i: usize = 0;
    while i < list.len()
        invariant
            i <= list.len(),
            out@ == joined_utf8(texts(list@).subrange(0, i as int), sep@),
        decreases list.len() - i,
    {
        let ghost prefix = texts(list@).subrange(0, i + 1);
        assert(prefix.drop_last() =~= texts(list@).subrange(0, i as int));
        assert(prefix.last() == list@[i as int]@);
        if i > 0 {
            out.extend_from_slice(sep);
        }
        out.extend_from_slice(list[i].as_str().as_bytes());
        assert(out@ =~= joined_utf8(prefix, sep@));
        i += 1;
    }
    assert(texts(list@).subrange(0, list.len() as int) =~= texts(list@));
    out
}

/// Equality of two character strings.
pub fn chars_eq(a: &[char], b: &[char]) -> (r: bool)
    ensures
        r == (a@ == b@),
{
    if a.len() != b.len() {
        return false;
    }
    let mut i: usize = 0;
    while i < a.len()
        invariant
            i <= a.len(),
            a.len() == b.len(),
            forall|j: int| 0 <= j < i ==> a@[j] == b@[j],
        decreases a.len() - i,
    {
        if a[i] != b[i] {
            return false;
        }
        i += 1;
    }
    assert(a@ =~= b@);
    true
}

/// Whether `s` starts with `prefix`.
pub fn chars_start_with(s: &[char], prefix: &[char]) -> (r: bool)
    ensures
        r == has_prefix(s@, prefix@),
{
    if s.len() < prefix.len() {
        return false;
    }
    chars_eq(vstd::slice::slice_subrange(s, 0, prefix.len()), prefix)
}

/// Whether `s` ends with `suffix`.
pub fn chars_end_with(s: &[char], suffix: &[char]) -> (r: bool)
    ensures
        r == has_suffix(s@, suffix@),
{
    if s.len() < suffix.len() {
        return false;
    }
    chars_eq(vstd::slice::slice_subrange(s, s.len() - suffix.len(), s.len()), suffix)
}

/// Whether `c` occurs among the first `to` characters of `s`.
pub fn chars_contain(s: &[char], to: usize, c: char) -> (r: bool)
    requires
        to <= s.len(),
    ensures
        r == s@.take(to as int).contains(c),
{
    let mut i: usize = 0;
    while i < to
        invariant
            i <= to <= s.len(),
            forall|j: int| 0 <= j < i ==> s@[j] != c,
        decreases to - i,
    {
        if s[i] == c {
            assert(s@.take(to as int)[i as int] == c);
            return true;
        }
        i += 1;
    }
    false
}

/// Whether `pattern` stands in `s` at position `k`.
pub open spec fn occurs_at<T>(s: Seq<T>, pattern: Seq<T>, k: int) -> bool {
    0 <= k && k + pattern.len() <= s.len() && s.subrange(k, k + pattern.len()) == pattern
}

/// Whether `k` is where `pattern` first occurs in `s`, or the length of
/// `s` where it does not occur.
pub open spec fn is_first_match<T>(s: Seq<T>, pattern: Seq<T>, k: int) -> bool {
    &&& 0 <= k <= s.len()
    &&& forall|j: int| 0 <= j < k ==> !#[trigger] occurs_at(s, pattern, j)
    &&& k < s.len() ==> occurs_at(s, pattern, k)
    &&& k == s.len() ==> !occurs_at(s, pattern, k)
}

/// Where `pattern` first occurs in `s`; the length of `s` where it does
/// not.
pub open spec fn first_match<T>(s: Seq<T>, pattern: Seq<T>) -> int {
    choose|k: int| is_first_match(s, pattern, k)
}

/// A position that meets the description of the first match is the first
/// match.
pub proof fn lemma_first_match<T>(s: Seq<T>, pattern: Seq<T>, k: int)
    requires
        is_first_match(s, pattern, k),
    ensures
        first_match(s, pattern) == k,
{
    let c = first_match(s, pattern);
    assert(is_first_match(s, pattern, c));
    if c < k {
        assert(!occurs_at(s, pattern, c));
    }
    if k < c {
        assert(!occurs_at(s, pattern, k));
    }
}

/// Where `pattern` first occurs in `s`; the length of `s` where it does
/// not. The pattern must not be empty.
pub fn find_chars(s: &[char], pattern: &[char]) -> (k: usize)
    requires
        pattern@.len() > 0,
    ensures
        k == first_match(s@, pattern@),
        k <= s.len(),
        k < s.len() ==> occurs_at(s@, pattern@, k as int),
{
    let mut i: usize = 0;
    while i < s.len()
        invariant
            i <= s.len(),
            pattern@.len() > 0,
            forall|j: int| 0 <= j < i ==> !#[trigger] occurs_at(s@, pattern@, j),
        decreases s.len() - i,
    {
        if s.len() - i >= pattern.len() && chars_eq(
            vstd::slice::slice_subrange(s, i, i + pattern.len()),
            pattern,
        ) {
            proof {
                lemma_first_match(s@, pattern@, i as int);
            }
            return i;
        }
        i += 1;
    }
    proof {
        lemma_first_match(s@, pattern@, i as int);
    }
    i
}

/// Where `pattern` first occurs in `s`; the length of `s` where it does
/// not. The pattern must not be empty.
pub fn find_bytes(s: &[u8], pattern: &[u8]) -> (k: usize)
    requires
        pattern@.len() > 0,
    ensures
        k == first_match(s@, pattern@),
        k <= s.len(),
        k < s.len() ==> occurs_at(s@, pattern@, k as int),
{
    let mut i: usize = 0;
    while i < s.len()
        invariant
            i <= s.len(),
            pattern@.len() > 0,
            forall|j: int| 0 <= j < i ==> !#[trigger] occurs_at(s@, pattern@, j),
        decreases s.len() - i,
    {
        if s.len() - i >= pattern.len() && bytes_eq(
            vstd::slice::slice_subrange(s, i, i + pattern.len()),
            pattern,
        ) {
            proof {
                lemma_first_match(s@, pattern@, i as int);
            }
            return i;
        }
        i += 1;
    }
    proof {
        lemma_first_match(s@, pattern@, i as int);
    }
    i
}

/// A line without the carriage return at its end, if it has one.
pub open spec fn strip_cr(line: Seq<char>) -> Seq<char> {
    if line.len() > 0 && line.last() == '\r' {
        line.drop_last()
    } else {
        line
    }
}

/// The lines of a text. Lines end with a line feed, which is dropped
/// together with a carriage return before it. What follows the last line
/// feed is a line as it stands, unless it is empty.
pub open spec fn lines(text: Seq<char>) -> Seq<Seq<char>>
    decreases text.len(),
{
    if text.len() == 0 {
        Seq::empty()
    } else {
        let k = first_index(text, '\n');
        if 0 <= k < text.len() {
            seq![strip_cr(text.take(k))] + lines(text.skip(k + 1))
        } else {
            seq![text]
        }
    }
}

/// The bounds of the lines of `s[from..to]`, each as a pair of positions
/// in `s`.
pub fn line_bounds(s: &[char], from: usize, to: usize) -> (r: Vec<(usize, usize)>)
    requires
        from <= to <= s.len(),
    ensures
        r@.len() == lines(s@.subrange(from as int, to as int)).len(),
        forall|i: int|
            0 <= i < r@.len() ==> from <= (#[trigger] r@[i]).0 <= r@[i].1 <= to && s@.subrange(
                r@[i].0 as int,
                r@[i].1 as int,
            ) == lines(s@.subrange(from as int, to as int))[i],
{
    let mut out: Vec<(usize, usize)> = Vec::new();
    let mut pos: usize = from;
    let ghost all = lines(s@.subrange(from as int, to as int));
    assert(Seq::<Seq<char>>::empty() + lines(s@.subrange(pos as int, to as int)) =~= all);
    while pos < to
        invariant
            from <= pos <= to <= s.len(),
            all == lines(s@.subrange(from as int, to as int)),
            out@.len() + lines(s@.subrange(pos as int, to as int)).len() == all.len(),
            forall|i: int|
                0 <= i < out@.len() ==> from <= (#[trigger] out@[i]).0 <= out@[i].1 <= to && s@.subrange(
                    out@[i].0 as int,
                    out@[i].1 as int,
                ) == all[i],
            forall|i: int|
                0 <= i < lines(s@.subrange(pos as int, to as int)).len() ==> #[trigger] lines(
                    s@.subrange(pos as int, to as int),
                )[i] == all[out@.len() + i],
        decreases to - pos,
    {
        let ghost rest = s@.subrange(pos as int, to as int);
        let ghost before = out@;
        let part = vstd::slice::slice_subrange(s, pos, to);
        let k = find_char(part, 0, '\n');
        assert(part@.skip(0) =~= part@);
        if k < part.len() {
            let end = if k > 0 && s[pos + k - 1] == '\r' {
                pos + k - 1
            } else {
                pos + k
            };
            assert(s@.subrange(pos as int, end as int) =~= strip_cr(rest.take(k as int)));
            out.push((pos, end));
            assert(rest.skip(k + 1) =~= s@.subrange(pos + k + 1, to as int));
            let ghost tail = lines(s@.subrange(pos + k + 1, to as int));
            assert(lines(rest) == seq![strip_cr(rest.take(k as int))] + tail);
            assert forall|i: int| 0 <= i < tail.len() implies #[trigger] tail[i] == all[out@.len() + i] by {
                assert(lines(rest)[i + 1] == tail[i]);
            }
            assert(lines(rest)[0] == all[before.len() as int]);
            pos = pos + k + 1;
        } else {
            out.push((pos, to));
            assert(lines(rest) == seq![rest]);
            assert(lines(rest)[0] == all[before.len() as int]);
            pos = to;
            assert(s@.subrange(to as int, to as int) =~= Seq::<char>::empty());
        }
    }
    out
}

/// The number of bytes that a character takes in UTF-8.
pub open spec fn utf8_width(c: char) -> nat {
    if (c as int) < 0x80 {
        1
    } else if (c as int) < 0x800 {
        2
    } else if (c as int) < 0x10000 {
        3
    } else {
        4
    }
}

/// The number of bytes that a text takes in UTF-8.
pub open spec fn utf8_len(text: Seq<char>) -> nat
    decreases text.len(),
{
    if text.len() == 0 {
        0
    } else {
        utf8_len(text.drop_last()) + utf8_width(text.last())
    }
}

/// The number of bytes that the first `to` characters of `s` take in
/// UTF-8; `None` where it exceeds `limit`.
pub fn utf8_len_of(s: &[char], to: usize, limit: usize) -> (r: Option<usize>)
    requires
        to <= s.len(),
    ensures
        match r {
            Some(n) => n == utf8_len(s@.take(to as int)) && n <= limit,
            None => utf8_len(s@.take(to as int)) > limit,
        },
{
    let mut n: usize = 0;
    let mut i: usize = 0;
    assert(s@.take(0) =~= Seq::<char>::empty());
    while i < to
        invariant
            i <= to <= s.len(),
            n == utf8_len(s@.take(i as int)),
            n <= limit,
        decreases to - i,
    {
        let code = char_code(s[i]);
        let w: usize = if code < 0x80 {
            1
        } else if code < 0x800 {
            2
        } else if code < 0x10000 {
            3
        } else {
            4
        };
        assert(s@.take(i + 1).drop_last() =~= s@.take(i as int));
        if w > limit - n {
            proof {
                lemma_utf8_len_prefix(s@.take(to as int), i + 1);
                assert(s@.take(to as int).take(i + 1) =~= s@.take(i + 1));
            }
            return None;
        }
        n += w;
        i += 1;
    }
    Some(n)
}

/// The UTF-8 length of a prefix of a text never exceeds that of the text.
pub proof fn lemma_utf8_len_prefix(text: Seq<char>, k: int)
    requires
        0 <= k <= text.len(),
    ensures
        utf8_len(text.take(k)) <= utf8_len(text),
    decreases text.len() - k,
{
    if k < text.len() {
        lemma_utf8_len_prefix(text, k + 1);
        assert(text.take(k + 1).drop_last() =~= text.take(k));
    } else {
        assert(text.take(k) =~= text);
    }
}

/// A text without the characters `c` at its start.
pub open spec fn trim_start_char(s: Seq<char>, c: char) -> Seq<char>
    decreases s.len(),
{
    if s.len() > 0 && s[0] == c {
        trim_start_char(s.drop_first(), c)
    } else {
        s
    }
}

/// A text without the characters `c` at its end.
pub open spec fn trim_end_char(s: Seq<char>, c: char) -> Seq<char>
    decreases s.len(),
{
    if s.len() > 0 && s.last() == c {
        trim_end_char(s.drop_last(), c)
    } else {
        s
    }
}

/// Where `s[from..to]` starts once the characters `c` at its start are
/// dropped.
pub fn skip_start_char(s: &[char], from: usize, to: usize, c: char) -> (r: usize)
    requires
        from <= to <= s.len(),
    ensures
        from <= r <= to,
        s@.subrange(r as int, to as int) == trim_start_char(s@.subrange(from as int, to as int), c),
{
    let mut start: usize = from;
    while start < to && s[start] == c
        invariant
            from <= start <= to <= s.len(),
            trim_start_char(s@.subrange(start as int, to as int), c) == trim_start_char(
                s@.subrange(from as int, to as int),
                c,
            ),
        decreases to - start,
    {
        assert(s@.subrange(start as int, to as int).drop_first() =~= s@.subrange(start + 1, to as int));
        start += 1;
    }
    start
}

/// Where `s[from..to]` ends once the characters `c` at its end are
/// dropped.
pub fn skip_end_char(s: &[char], from: usize, to: usize, c: char) -> (r: usize)
    requires
        from <= to <= s.len(),
    ensures
        from <= r <= to,
        s@.subrange(from as int, r as int) == trim_end_char(s@.subrange(from as int, to as int), c),
{
    let mut end: usize = to;
    while end > from && s[end - 1] == c
        invariant
            from <= end <= to <= s.len(),
            trim_end_char(s@.subrange(from as int, end as int), c) == trim_end_char(
                s@.subrange(from as int, to as int),
                c,
            ),
        decreases end - from,
    {
        assert(s@.subrange(from as int, end as int).drop_last() =~= s@.subrange(from as int, end - 1));
        end -= 1;
    }
    end
}

/// The text that bytes hold, or `default` where they are not valid UTF-8.
pub open spec fn text_or(bytes: Seq<u8>, default: Seq<char>) -> Seq<char> {
    if vstd::utf8::valid_utf8(bytes) {
        vstd::utf8::decode_utf8(bytes)
    } else {
        default
    }
}

/// The characters of the text that bytes hold, or of `default` where the
/// bytes are not valid UTF-8.
pub fn chars_or(bytes: &[u8], default: &str) -> (r: Vec<char>)
    ensures
        r@ == text_or(bytes@, default@),
{
    match utf8_to_string(bytes) {
        Some(text) => str_chars(text.as_str()),
        None => str_chars(default),
    }
}

} // verus!
