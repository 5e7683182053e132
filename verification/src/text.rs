//! Byte-level text handling: prefixes and separators.

use vstd::prelude::*;
use vstd::string::StringSliceAdditionalSpecFns;
use vstd::utf8::{
    encode_utf8_valid_utf8, is_char_boundary, is_char_boundary_iff_not_is_continuation_byte,
};

verus! {

/// ASCII `0`.
pub const ZERO: u8 = 0x30;

/// ASCII `9`.
pub const NINE: u8 = 0x39;

/// ASCII `+`.
pub const PLUS: u8 = 0x2b;

/// ASCII `-`.
pub const MINUS: u8 = 0x2d;

/// ASCII `_`.
pub const UNDERSCORE: u8 = 0x5f;

/// ASCII `,`, which separates the fields of a list.
pub const COMMA: u8 = 0x2c;

/// ASCII `:`, which separates a type name from its value.
pub const COLON: u8 = 0x3a;

/// ASCII `x`, which separates the two sizes of a fixed-point type.
pub const LETTER_X: u8 = 0x78;

/// The index of the first `c` in `s`, or `s.len()` where there is none.
pub open spec fn find(s: Seq<u8>, c: u8) -> nat
    decreases s.len(),
{
    if s.len() == 0 || s[0] == c {
        0
    } else {
        1 + find(s.skip(1), c)
    }
}

/// `s` without `p` in front, where `p` stands in front; else `s`.
pub open spec fn without_prefix(s: Seq<u8>, p: Seq<u8>) -> Seq<u8> {
    if p.is_prefix_of(s) {
        s.skip(p.len() as int)
    } else {
        s
    }
}

/// The parts of `s` before and after the one `c` that it holds; `None` where
/// it holds none, or more than one.
pub open spec fn split_once(s: Seq<u8>, c: u8) -> Option<(Seq<u8>, Seq<u8>)> {
    let at = find(s, c) as int;
    if at >= s.len() || s.skip(at + 1).contains(c) {
        None
    } else {
        Some((s.take(at), s.skip(at + 1)))
    }
}

/// `find` gives the first place of `c`: it lies within `s`, holds `c` unless
/// it is the end, and no place before it holds `c`.
pub proof fn lemma_find_bounds(s: Seq<u8>, c: u8)
    ensures
        find(s, c) <= s.len(),
        find(s, c) < s.len() ==> s[find(s, c) as int] == c,
        forall|j: int| 0 <= j < find(s, c) ==> s[j] != c,
        find(s, c) == s.len() <==> !s.contains(c),
    decreases s.len(),
{
    if s.len() == 0 || s[0] == c {
    } else {
        let t = s.skip(1);
        lemma_find_bounds(t, c);
        assert forall|j: int| 0 <= j < find(s, c) implies s[j] != c by {
            if j > 0 {
                assert(t[j - 1] == s[j]);
            }
        }
        if find(t, c) < t.len() {
            assert(t[find(t, c) as int] == s[find(s, c) as int]);
        }
    }
    if find(s, c) < s.len() {
        assert(s.contains(c));
    } else {
        assert forall|j: int| 0 <= j < s.len() implies s[j] != c by {}
    }
}

/// Whether `p` stands in `s` at offset `from`.
pub fn has_prefix_at(s: &[u8], from: usize, p: &[u8]) -> (r: bool)
    requires
        from <= s.len(),
    ensures
        r == p@.is_prefix_of(s@.skip(from as int)),
{
    if p.len() > s.len() - from {
        return false;
    }
    let mut i: usize = 0;
    while i < p.len()
        invariant
            from <= s.len(),
            p.len() <= s.len() - from,
            i <= p.len(),
            forall|j: int| 0 <= j < i ==> p@[j] == s@[from + j],
        decreases p.len() - i,
    {
        if p[i] != s[from + i] {
            assert(s@.skip(from as int)[i as int] == s@[from + i]);
            return false;
        }
        i = i + 1;
    }
    assert(p@ =~= s@.skip(from as int).subrange(0, p@.len() as int));
    true
}

/// Whether `s` starts with `p`.
pub fn has_prefix(s: &[u8], p: &[u8]) -> (r: bool)
    ensures
        r == p@.is_prefix_of(s@),
{
    assert(s@.skip(0) =~= s@);
    has_prefix_at(s, 0, p)
}

/// The offset at which `s` continues after `p`, where `p` stands in front;
/// else zero.
pub fn prefix_offset(s: &[u8], p: &[u8]) -> (at: usize)
    ensures
        at <= s.len(),
        s@.skip(at as int) == without_prefix(s@, p@),
{
    assert(s@.skip(0) =~= s@);
    if has_prefix(s, p) {
        p.len()
    } else {
        0
    }
}

/// The offset of the first `c` in `s` at or after `from`, or `s.len()`.
pub fn find_from(s: &[u8], from: usize, c: u8) -> (at: usize)
    requires
        from <= s.len(),
    ensures
        at == from + find(s@.skip(from as int), c),
        from <= at <= s.len(),
{
    let mut at: usize = from;
    proof {
        lemma_find_bounds(s@.skip(from as int), c);
    }
    while at < s.len() && s[at] != c
        invariant
            from <= at <= s.len(),
            from + find(s@.skip(from as int), c) == at + find(s@.skip(at as int), c),
        decreases s.len() - at,
    {
        assert(s@.skip(at as int).skip(1) =~= s@.skip(at + 1));
        at = at + 1;
    }
    at
}

/// The offset of the one `c` in `s` at or after `from`; `None` where there is
/// none, or more than one.
pub fn split_once_from(s: &[u8], from: usize, c: u8) -> (r: Option<usize>)
    requires
        from <= s.len(),
    ensures
        match split_once(s@.skip(from as int), c) {
            None => r is None,
            Some((before, after)) => r matches Some(at) && from <= at < s.len() && s@[at as int]
                == c && before == s@.subrange(from as int, at as int) && after == s@.skip(
                at + 1,
            ),
        },
{
    let ghost rest = s@.skip(from as int);
    let at = find_from(s, from, c);
    proof {
        lemma_find_bounds(rest, c);
    }
    if at == s.len() {
        return None;
    }
    let ghost after = rest.skip(at - from + 1);
    assert(after =~= s@.skip(at + 1));
    assert(rest.take(at - from) =~= s@.subrange(from as int, at as int));
    assert(rest[at - from] == s@[at as int]);
    let second = find_from(s, at + 1, c);
    proof {
        lemma_find_bounds(after, c);
    }
    if second != s.len() {
        return None;
    }
    Some(at)
}

/// Whether `a` and `b` hold the same bytes.
pub fn same_bytes(a: &[u8], b: &[u8]) -> (r: bool)
    ensures
        r == (a@ == b@),
{
    if a.len() != b.len() {
        return false;
    }
    let r = has_prefix_at(a, 0, b);
    proof {
        assert(a@.skip(0) =~= a@);
        if r {
            assert(a@ =~= b@);
        }
    }
    r
}

/// The parts of `s` before and after the byte at `at`, which must be ASCII:
/// such a byte is a character of its own, so both parts are text again.
pub fn split_around<'a>(s: &'a str, at: usize) -> (r: (&'a str, &'a str))
    requires
        at < s.spec_bytes().len(),
        s.spec_bytes()[at as int] <= 0x7f,
    ensures
        r.0.spec_bytes() == s.spec_bytes().take(at as int),
        r.1.spec_bytes() == s.spec_bytes().skip(at + 1),
{
    proof {
        encode_utf8_valid_utf8(s@);
        is_char_boundary_iff_not_is_continuation_byte(s.spec_bytes(), at as int);
    }
    let (head, tail) = s.split_at(at);
    proof {
        encode_utf8_valid_utf8(tail@);
        reveal_with_fuel(is_char_boundary, 2);
        assert(tail.spec_bytes()[0] == s.spec_bytes()[at as int]);
        assert(is_char_boundary(tail.spec_bytes(), 1));
    }
    let (_, rest) = tail.split_at(1);
    assert(rest.spec_bytes() =~= s.spec_bytes().skip(at + 1));
    assert(head.spec_bytes() =~= s.spec_bytes().take(at as int));
    (head, rest)
}

/// The parts of `s` before and after the one `c` that it holds, where `c` is
/// ASCII; `None` where it holds none, or more than one.
pub fn split_text_once<'a>(s: &'a str, c: u8) -> (r: Option<(&'a str, &'a str)>)
    requires
        c <= 0x7f,
    ensures
        match split_once(s.spec_bytes(), c) {
            None => r is None,
            Some((before, after)) => r matches Some(parts) && parts.0.spec_bytes() == before
                && parts.1.spec_bytes() == after,
        },
{
    let bytes = s.as_bytes();
    assert(bytes@.skip(0) =~= bytes@);
    match split_once_from(bytes, 0, c) {
        None => None,
        Some(at) => {
            assert(bytes@.subrange(0, at as int) =~= bytes@.take(at as int));
            Some(split_around(s, at))
        },
    }
}

} // verus!
