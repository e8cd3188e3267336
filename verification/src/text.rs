//! Byte-level text helpers: prefixes, byte search, decimal numbers and
//! UTF-8 character boundaries.

use vstd::prelude::*;
use vstd::string::StringSliceAdditionalSpecFns;
use vstd::utf8::{
    encode_utf8_valid_utf8, is_char_boundary, is_char_boundary_iff_not_is_continuation_byte,
    is_char_boundary_start_end_of_seq, is_continuation_byte, length_of_first_scalar,
    pop_first_scalar, valid_first_scalar, valid_utf8, valid_utf8_split,
};

verus! {

/// True when `s` starts with `p`.
pub open spec fn has_prefix(s: Seq<u8>, p: Seq<u8>) -> bool {
    p.len() <= s.len() && s.subrange(0, p.len() as int) == p
}

/// Whether `data` starts with `prefix`.
pub fn bytes_start_with(data: &[u8], prefix: &[u8]) -> (r: bool)
    ensures
        r == has_prefix(data@, prefix@),
{
    if prefix.len() > data.len() {
        return false;
    }
    let mut i: usize = 0;
    while i < prefix.len()
        invariant
            prefix.len() <= data.len(),
            i <= prefix.len(),
            forall|j: int| 0 <= j < i ==> data@[j] == prefix@[j],
        decreases prefix.len() - i,
    {
        if data[i] != prefix[i] {
            proof {
                assert(data@.subrange(0, prefix@.len() as int)[i as int] != prefix@[i as int]);
            }
            return false;
        }
        i += 1;
    }
    proof {
        assert(data@.subrange(0, prefix@.len() as int) =~= prefix@);
    }
    true
}

/// Index of the first `b` in `s` at or after `from`, or -1 when there is none.
pub open spec fn find_byte(s: Seq<u8>, b: u8, from: int) -> int
    decreases s.len() - from,
{
    if from < 0 || from >= s.len() {
        -1
    } else if s[from] == b {
        from
    } else {
        find_byte(s, b, from + 1)
    }
}

/// What `find_byte` returns: -1, or an index at or after `from` that holds
/// `b`, with no `b` between `from` and it.
pub proof fn lemma_find_byte(s: Seq<u8>, b: u8, from: int)
    requires
        0 <= from,
    ensures
        find_byte(s, b, from) == -1 || (from <= find_byte(s, b, from) < s.len() && s[find_byte(
            s,
            b,
            from,
        )] == b),
        forall|j: int| from <= j < s.len() && (find_byte(s, b, from) == -1 || j < find_byte(s, b, from)) ==> s[j] != b,
    decreases s.len() - from,
{
    if from < s.len() && s[from] != b {
        lemma_find_byte(s, b, from + 1);
    }
}

/// Index of the first `b` in `data` at or after `from`.
pub fn find_byte_from(data: &[u8], b: u8, from: usize) -> (r: Option<usize>)
    ensures
        match r {
            Some(i) => find_byte(data@, b, from as int) == i as int,
            None => find_byte(data@, b, from as int) == -1,
        },
{
    let mut i = from;
    while i < data.len()
        invariant
            from <= i,
            find_byte(data@, b, from as int) == find_byte(data@, b, i as int),
        decreases data.len() - i,
    {
        if data[i] == b {
            return Some(i);
        }
        i += 1;
    }
    None
}

/// True for the ASCII digits `0`..`9`.
pub open spec fn is_digit(b: u8) -> bool {
    0x30 <= b <= 0x39
}

/// The value of a string of decimal digits.
pub open spec fn decimal_value(s: Seq<u8>) -> nat
    decreases s.len(),
{
    if s.len() == 0 {
        0
    } else {
        decimal_value(s.drop_last()) * 10 + (s.last() - 0x30) as nat
    }
}

/// The text after an optional leading `+`.
pub open spec fn unsigned_digits(s: Seq<u8>) -> Seq<u8> {
    if s.len() > 0 && s[0] == 0x2B {
        s.drop_first()
    } else {
        s
    }
}

/// True when every byte is an ASCII digit.
pub open spec fn all_digits(s: Seq<u8>) -> bool {
    forall|i: int| 0 <= i < s.len() ==> is_digit(#[trigger] s[i])
}

/// The grammar of an unsigned decimal number: an optional `+` followed by
/// at least one digit and nothing else; `None` when the text does not match
/// or the value does not fit in a `u32`.
pub open spec fn parse_u32_spec(s: Seq<u8>) -> Option<u32> {
    let digits = unsigned_digits(s);
    if digits.len() == 0 || !all_digits(digits) || decimal_value(digits) > u32::MAX {
        None
    } else {
        Some(decimal_value(digits) as u32)
    }
}

/// Parses an unsigned decimal number (optional `+`, then digits).
pub fn parse_u32(s: &[u8]) -> (r: Option<u32>)
    ensures
        r == parse_u32_spec(s@),
{
    let start: usize = if s.len() > 0 && s[0] == 0x2B {
        1
    } else {
        0
    };
    let ghost digits = unsigned_digits(s@);
    proof {
        assert(digits =~= s@.subrange(start as int, s@.len() as int));
    }
    if start >= s.len() {
        return None;
    }
    let mut value: u64 = 0;
    let mut overflow = false;
    let mut i = start;
    while i < s.len()
        invariant
            start <= i <= s.len(),
            digits == s@.subrange(start as int, s@.len() as int),
            digits == unsigned_digits(s@),
            forall|j: int| start <= j < i ==> is_digit(#[trigger] s@[j]),
            !overflow ==> value == decimal_value(s@.subrange(start as int, i as int)) && value
                <= u32::MAX,
            overflow ==> decimal_value(s@.subrange(start as int, i as int)) > u32::MAX,
        decreases s.len() - i,
    {
        let c = s[i];
        if c < 0x30 || c > 0x39 {
            proof {
                assert(digits[i - start] == c);
                assert(!is_digit(digits[i - start]));
                assert(digits.len() > 0);
                assert(!all_digits(digits));
            }
            return None;
        }
        proof {
            let pre = s@.subrange(start as int, i as int);
            assert(s@.subrange(start as int, i + 1) =~= pre.push(c));
            assert(pre.push(c).drop_last() =~= pre);
        }
        if !overflow {
            value = value * 10 + (c - 0x30) as u64;
            if value > 0xFFFF_FFFF {
                overflow = true;
            }
        }
        i += 1;
    }
    proof {
        assert(s@.subrange(start as int, s@.len() as int) =~= digits);
        assert forall|j: int| 0 <= j < digits.len() implies is_digit(#[trigger] digits[j]) by {
            assert(digits[j] == s@[start + j]);
        }
        assert(all_digits(digits));
    }
    if overflow {
        None
    } else {
        Some(value as u32)
    }
}

/// An ASCII byte of valid UTF-8 sits on a character boundary, and so does
/// the position right after it.
pub proof fn lemma_ascii_boundaries(b: Seq<u8>, i: int)
    requires
        valid_utf8(b),
        0 <= i < b.len(),
        b[i] < 0x80,
    ensures
        is_char_boundary(b, i),
        is_char_boundary(b, i + 1),
{
    is_char_boundary_iff_not_is_continuation_byte(b, i);
    if i + 1 == b.len() {
        is_char_boundary_start_end_of_seq(b);
    } else {
        valid_utf8_split(b, i);
        let t = b.subrange(i, b.len() as int);
        assert(valid_utf8(t));
        assert(t[0] == b[i]);
        assert(length_of_first_scalar(t) == 1);
        let p = pop_first_scalar(t);
        assert(p =~= b.subrange(i + 1, b.len() as int));
        assert(valid_utf8(p));
        assert(valid_first_scalar(p));
        assert(p[0] == b[i + 1]);
        assert(!is_continuation_byte(b[i + 1]));
        is_char_boundary_iff_not_is_continuation_byte(b, i + 1);
    }
}


/// The character starting at boundary `p` ends at a boundary no further
/// than the end of the text.
pub proof fn lemma_next_boundary(b: Seq<u8>, p: int)
    requires
        valid_utf8(b),
        0 <= p < b.len(),
        is_char_boundary(b, p),
    ensures
        1 <= length_of_first_scalar(b.subrange(p, b.len() as int)),
        p + length_of_first_scalar(b.subrange(p, b.len() as int)) <= b.len(),
        is_char_boundary(b, p + length_of_first_scalar(b.subrange(p, b.len() as int))),
{
    valid_utf8_split(b, p);
    let t = b.subrange(p, b.len() as int);
    assert(valid_utf8(t));
    assert(valid_first_scalar(t));
    let l = length_of_first_scalar(t);
    let rest = pop_first_scalar(t);
    assert(rest =~= b.subrange(p + l, b.len() as int));
    if p + l == b.len() {
        is_char_boundary_start_end_of_seq(b);
    } else {
        assert(valid_utf8(rest));
        assert(valid_first_scalar(rest));
        assert(rest[0] == b[p + l]);
        is_char_boundary_iff_not_is_continuation_byte(b, p + l);
    }
}

/// Character boundaries of a prefix are those of the whole text.
pub proof fn lemma_boundary_in_suffix(b: Seq<u8>, from: int, i: int)
    requires
        valid_utf8(b),
        0 <= from <= i <= b.len(),
        is_char_boundary(b, from),
        is_char_boundary(b, i),
    ensures
        valid_utf8(b.subrange(from, b.len() as int)),
        is_char_boundary(b.subrange(from, b.len() as int), i - from),
{
    valid_utf8_split(b, from);
    let t = b.subrange(from, b.len() as int);
    if i == b.len() {
        is_char_boundary_start_end_of_seq(t);
    } else {
        is_char_boundary_iff_not_is_continuation_byte(b, i);
        assert(t[i - from] == b[i]);
        is_char_boundary_iff_not_is_continuation_byte(t, i - from);
    }
}

/// The text between two character boundaries.
pub fn str_slice(s: &str, from: usize, to: usize) -> (r: &str)
    requires
        from <= to <= s.spec_bytes().len(),
        is_char_boundary(s.spec_bytes(), from as int),
        is_char_boundary(s.spec_bytes(), to as int),
    ensures
        r.spec_bytes() == s.spec_bytes().subrange(from as int, to as int),
{
    proof {
        encode_utf8_valid_utf8(s@);
        lemma_boundary_in_suffix(s.spec_bytes(), from as int, to as int);
    }
    let (_head, tail) = s.split_at(from);
    let (mid, _rest) = tail.split_at(to - from);
    proof {
        assert(mid.spec_bytes() =~= s.spec_bytes().subrange(from as int, to as int));
    }
    mid
}

/// The largest character boundary at or below `x`.
pub open spec fn floor_boundary(b: Seq<u8>, x: int) -> int
    decreases x,
{
    if x <= 0 {
        0
    } else if is_char_boundary(b, x) {
        x
    } else {
        floor_boundary(b, x - 1)
    }
}

/// `floor_boundary` is a boundary, at most `x`, and every boundary at most
/// `x` is at most it.
pub proof fn lemma_floor_boundary(b: Seq<u8>, x: int, q: int)
    requires
        valid_utf8(b),
        0 <= x <= b.len(),
    ensures
        0 <= floor_boundary(b, x) <= x,
        is_char_boundary(b, floor_boundary(b, x)),
        0 <= q <= x && is_char_boundary(b, q) ==> q <= floor_boundary(b, x),
    decreases x,
{
    is_char_boundary_start_end_of_seq(b);
    if x > 0 && !is_char_boundary(b, x) {
        lemma_floor_boundary(b, x - 1, q);
    }
}

/// The largest character boundary of `s` at or below `x` (at most the length).
pub fn floor_char_boundary(s: &str, x: usize) -> (r: usize)
    requires
        x <= s.spec_bytes().len(),
    ensures
        r == floor_boundary(s.spec_bytes(), x as int),
{
    let mut i = x;
    while i > 0 && !s.is_char_boundary(i)
        invariant
            i <= x,
            floor_boundary(s.spec_bytes(), x as int) == floor_boundary(s.spec_bytes(), i as int),
        decreases i,
    {
        i -= 1;
    }
    i
}

/// True when every character of the text takes at most `n` bytes.
pub open spec fn chars_fit(b: Seq<u8>, n: int) -> bool {
    forall|p: int|
        0 <= p < b.len() && is_char_boundary(b, p) ==> #[trigger] length_of_first_scalar(
            b.subrange(p, b.len() as int),
        ) <= n
}

/// No UTF-8 character takes more than four bytes, so every text meets a
/// limit of four bytes or more.
pub proof fn lemma_chars_fit(b: Seq<u8>, n: int)
    requires
        n >= 4,
    ensures
        chars_fit(b, n),
{
}

/// From a boundary before the end, taking up to `n` bytes (with every
/// character at most `n` bytes) reaches a later boundary.
pub proof fn lemma_floor_progress(b: Seq<u8>, p: int, n: int)
    requires
        valid_utf8(b),
        0 <= p < b.len(),
        is_char_boundary(b, p),
        chars_fit(b, n),
    ensures
        n >= 1,
        p < floor_boundary(b, if n < b.len() - p { p + n } else { b.len() as int }),
{
    lemma_next_boundary(b, p);
    let x = if n < b.len() - p {
        p + n
    } else {
        b.len() as int
    };
    lemma_floor_boundary(b, x, p + length_of_first_scalar(b.subrange(p, b.len() as int)));
}

/// Index of the last `c` in `s`, or -1 when there is none.
pub open spec fn rfind_byte(s: Seq<u8>, c: u8) -> int
    decreases s.len(),
{
    if s.len() == 0 {
        -1
    } else if s.last() == c {
        s.len() - 1
    } else {
        rfind_byte(s.drop_last(), c)
    }
}

/// What `rfind_byte` returns: -1 or an index holding `c` with no `c` after it.
pub proof fn lemma_rfind_byte(s: Seq<u8>, c: u8)
    ensures
        -1 <= rfind_byte(s, c) < s.len(),
        rfind_byte(s, c) >= 0 ==> s[rfind_byte(s, c)] == c,
        forall|j: int| rfind_byte(s, c) < j < s.len() ==> s[j] != c,
    decreases s.len(),
{
    if s.len() > 0 && s.last() != c {
        lemma_rfind_byte(s.drop_last(), c);
        assert forall|j: int| rfind_byte(s, c) < j < s.len() implies s[j] != c by {
            if j < s.len() - 1 {
                assert(s.drop_last()[j] == s[j]);
            }
        }
    }
}

/// Index of the last `c` in `data`.
pub fn rfind_byte_in(data: &[u8], c: u8) -> (r: Option<usize>)
    ensures
        match r {
            Some(i) => rfind_byte(data@, c) == i as int,
            None => rfind_byte(data@, c) == -1,
        },
{
    let mut i = data.len();
    proof {
        assert(data@.subrange(0, data@.len() as int) =~= data@);
    }
    while i > 0
        invariant
            i <= data@.len(),
            rfind_byte(data@, c) == rfind_byte(data@.subrange(0, i as int), c),
        decreases i,
    {
        proof {
            assert(data@.subrange(0, i as int).drop_last() =~= data@.subrange(0, i - 1));
        }
        if data[i - 1] == c {
            return Some(i - 1);
        }
        i -= 1;
    }
    None
}

/// The bytes of `data` between `from` and `to`.
pub fn sub_bytes(data: &[u8], from: usize, to: usize) -> (r: &[u8])
    requires
        from <= to <= data@.len(),
    ensures
        r@ == data@.subrange(from as int, to as int),
{
    let (_head, tail) = data.split_at(from);
    let (mid, _rest) = tail.split_at(to - from);
    proof {
        assert(mid@ =~= data@.subrange(from as int, to as int));
    }
    mid
}

} // verus!
