//! Big-endian byte strings read as numbers, unsigned and two's complement.

use vstd::arithmetic::div_mod::{
    lemma_breakdown, lemma_fundamental_div_mod_converse, lemma_small_mod,
};
use vstd::arithmetic::power2::{lemma2_to64, lemma_pow2_adds, pow2};
use vstd::prelude::*;

verus! {

/// 256 to the power `n`: the number of values that `n` bytes can hold.
pub open spec fn pow256(n: nat) -> nat
    decreases n,
{
    if n == 0 {
        1
    } else {
        256 * pow256((n - 1) as nat)
    }
}

/// The unsigned number that `b` spells, most significant byte first.
pub open spec fn be_value(b: Seq<u8>) -> nat
    decreases b.len(),
{
    if b.len() == 0 {
        0
    } else {
        be_value(b.drop_last()) * 256 + b.last() as nat
    }
}

/// The two's-complement number that `b` spells, most significant byte first.
/// The empty string spells zero.
pub open spec fn be_signed_value(b: Seq<u8>) -> int {
    if b.len() > 0 && b[0] >= 0x80 {
        be_value(b) - pow256(b.len())
    } else {
        be_value(b) as int
    }
}

/// The `width` low-order base-256 digits of `v`, most significant first.
pub open spec fn be_bytes(v: nat, width: nat) -> Seq<u8>
    decreases width,
{
    if width == 0 {
        Seq::empty()
    } else {
        be_bytes(v / 256, (width - 1) as nat).push((v % 256) as u8)
    }
}

/// The two's-complement representation of `v` in `width` bytes.
pub open spec fn be_signed_bytes(v: int, width: nat) -> Seq<u8> {
    be_bytes((v % (pow256(width) as int)) as nat, width)
}

/// `n` copies of `fill`.
pub open spec fn repeat(fill: u8, n: nat) -> Seq<u8> {
    Seq::new(n, |i: int| fill)
}

/// A power of 256 is at least 1.
pub proof fn lemma_pow256_positive(n: nat)
    ensures
        pow256(n) >= 1,
    decreases n,
{
    if n > 0 {
        lemma_pow256_positive((n - 1) as nat);
    }
}

/// A larger exponent gives a power of 256 that is no smaller.
pub proof fn lemma_pow256_monotonic(a: nat, b: nat)
    requires
        a <= b,
    ensures
        pow256(a) <= pow256(b),
    decreases b,
{
    if a < b {
        lemma_pow256_monotonic(a, (b - 1) as nat);
    }
}

/// A byte string of length `n` spells a number below `256^n`.
pub proof fn lemma_be_value_bound(b: Seq<u8>)
    ensures
        be_value(b) < pow256(b.len()),
    decreases b.len(),
{
    if b.len() > 0 {
        lemma_be_value_bound(b.drop_last());
    }
}

/// `256^n` is `2^(8n)`.
pub proof fn lemma_pow256_is_pow2(n: nat)
    ensures
        pow256(n) == pow2(8 * n),
    decreases n,
{
    lemma2_to64();
    if n > 0 {
        lemma_pow256_is_pow2((n - 1) as nat);
        lemma_pow2_adds(8, 8 * ((n - 1) as nat));
        assert(8 + 8 * ((n - 1) as nat) == 8 * n);
    }
}

/// The `width` low-order digits are `width` in number.
pub proof fn lemma_be_bytes_len(v: nat, width: nat)
    ensures
        be_bytes(v, width).len() == width,
    decreases width,
{
    if width > 0 {
        lemma_be_bytes_len(v / 256, (width - 1) as nat);
    }
}

/// Reading back the `width` low-order digits of `v` gives `v` modulo `256^width`.
pub proof fn lemma_be_value_of_bytes(v: nat, width: nat)
    ensures
        be_value(be_bytes(v, width)) == v % pow256(width),
    decreases width,
{
    if width > 0 {
        let rest = (width - 1) as nat;
        let init = be_bytes(v / 256, rest);
        let b = be_bytes(v, width);
        lemma_be_value_of_bytes(v / 256, rest);
        lemma_pow256_positive(rest);
        assert(b.drop_last() =~= init);
        assert(b.last() == (v % 256) as u8);
        lemma_breakdown(v as int, 256, pow256(rest) as int);
    }
}

/// Writing the number that `b` spells in `b.len()` digits gives `b` back.
pub proof fn lemma_be_bytes_of_value(b: Seq<u8>)
    ensures
        be_bytes(be_value(b), b.len()) == b,
    decreases b.len(),
{
    if b.len() > 0 {
        let init = b.drop_last();
        let v = be_value(b);
        lemma_be_bytes_of_value(init);
        lemma_fundamental_div_mod_converse(v as int, 256, be_value(init) as int, b.last() as int);
        assert(be_bytes(v, b.len()) =~= init.push(b.last()));
        assert(init.push(b.last()) =~= b);
    } else {
        assert(be_bytes(be_value(b), b.len()) =~= b);
    }
}

/// The number spelled by `a` followed by `b`.
pub proof fn lemma_be_value_concat(a: Seq<u8>, b: Seq<u8>)
    ensures
        be_value(a + b) == be_value(a) * pow256(b.len()) + be_value(b),
    decreases b.len(),
{
    if b.len() == 0 {
        assert(a + b =~= a);
        assert(pow256(b.len()) == 1);
        assert(be_value(b) == 0);
    } else {
        let init = b.drop_last();
        lemma_be_value_concat(a, init);
        assert((a + b).drop_last() =~= a + init);
        assert((a + b).last() == b.last());
        assert(be_value(a + b) == be_value(a + init) * 256 + b.last());
        assert(be_value(b) == be_value(init) * 256 + b.last());
        let high = be_value(a);
        let unit = pow256(init.len());
        let low = be_value(init);
        assert(b.len() - 1 == init.len());
        assert(pow256(b.len()) == 256 * unit);
        assert((high * unit + low) * 256 == high * (256 * unit) + low * 256)
            by (nonlinear_arith);
    }
}

/// Leading zero bytes do not change the number.
pub proof fn lemma_be_value_zero_fill(n: nat)
    ensures
        be_value(repeat(0, n)) == 0,
    decreases n,
{
    if n > 0 {
        lemma_be_value_zero_fill((n - 1) as nat);
        assert(repeat(0, n).drop_last() =~= repeat(0, (n - 1) as nat));
    }
}

/// `n` bytes of `0xff` spell `256^n - 1`.
pub proof fn lemma_be_value_ones_fill(n: nat)
    ensures
        be_value(repeat(0xff, n)) == pow256(n) - 1,
    decreases n,
{
    if n > 0 {
        lemma_be_value_ones_fill((n - 1) as nat);
        assert(repeat(0xff, n).drop_last() =~= repeat(0xff, (n - 1) as nat));
    }
}

/// The first byte is the quotient of the number by `256^(len - 1)`.
pub proof fn lemma_be_value_split_first(b: Seq<u8>)
    requires
        b.len() >= 1,
    ensures
        be_value(b) == b[0] * pow256((b.len() - 1) as nat) + be_value(b.skip(1)),
        be_value(b.skip(1)) < pow256((b.len() - 1) as nat),
{
    let head = seq![b[0]];
    let tail = b.skip(1);
    assert(head + tail =~= b);
    lemma_be_value_concat(head, tail);
    lemma_be_value_bound(tail);
    assert(head.drop_last() =~= Seq::<u8>::empty());
    assert(be_value(head) == b[0] as nat) by {
        reveal_with_fuel(be_value, 2);
    }
}

/// Powers of 256 multiply as their exponents add.
pub proof fn lemma_pow256_adds(a: nat, b: nat)
    ensures
        pow256(a + b) == pow256(a) * pow256(b),
    decreases a,
{
    if a > 0 {
        let rest = (a - 1) as nat;
        lemma_pow256_adds(rest, b);
        assert(((a + b) - 1) as nat == rest + b);
        assert(pow256(a + b) == 256 * pow256(rest + b));
        assert(pow256(a) == 256 * pow256(rest));
        assert(256 * (pow256(rest) * pow256(b)) == (256 * pow256(rest)) * pow256(b))
            by (nonlinear_arith);
    } else {
        assert(pow256(a) == 1);
        assert(a + b == b);
    }
}

/// The largest magnitude of a negative number in `width` bytes: `2^(8 * width - 1)`.
pub open spec fn signed_limit(width: nat) -> nat
    recommends
        width >= 1,
{
    128 * pow256((width - 1) as nat)
}

/// The limit of `width` bytes is `2^(8 * width - 1)`.
pub proof fn lemma_signed_limit_is_pow2(width: nat)
    requires
        width >= 1,
    ensures
        signed_limit(width) == pow2((8 * width - 1) as nat),
{
    let rest = (width - 1) as nat;
    lemma2_to64();
    lemma_pow256_is_pow2(rest);
    lemma_pow2_adds(7, 8 * rest);
    assert(7 + 8 * rest == 8 * width - 1);
}

/// The shortest unsigned spelling of a number: at least one byte, and no
/// leading zero byte in front of another byte.
pub open spec fn is_minimal_unsigned(b: Seq<u8>) -> bool {
    b.len() >= 1 && (b.len() == 1 || b[0] != 0)
}

/// The shortest two's-complement spelling of a number: at least one byte, and
/// a first byte that cannot be dropped without changing the sign or the value.
pub open spec fn is_minimal_signed(b: Seq<u8>) -> bool {
    b.len() >= 1 && (b.len() == 1 || (!(b[0] == 0 && b[1] < 0x80) && !(b[0] == 0xff && b[1]
        >= 0x80)))
}

/// The byte that extends `b` to the left without changing the signed number
/// it spells.
pub open spec fn sign_fill(b: Seq<u8>) -> u8 {
    if b.len() > 0 && b[0] >= 0x80 {
        0xff
    } else {
        0
    }
}

/// A shortest unsigned spelling has at most `width` bytes exactly when the
/// number is below `256^width`.
pub proof fn lemma_minimal_unsigned_fits(b: Seq<u8>, width: nat)
    requires
        is_minimal_unsigned(b),
        width >= 1,
    ensures
        b.len() <= width <==> be_value(b) < pow256(width),
{
    lemma_be_value_bound(b);
    if b.len() <= width {
        lemma_pow256_monotonic(b.len(), width);
    } else {
        let unit = pow256((b.len() - 1) as nat);
        lemma_be_value_split_first(b);
        lemma_pow256_monotonic(width, (b.len() - 1) as nat);
        assert(b[0] * unit >= unit) by (nonlinear_arith)
            requires
                b[0] >= 1,
                unit >= 0,
        ;
    }
}

/// A two's-complement spelling of `n >= 1` bytes holds a number in
/// `-2^(8n-1) .. 2^(8n-1)`.
pub proof fn lemma_be_signed_value_bound(b: Seq<u8>)
    requires
        b.len() >= 1,
    ensures
        -(signed_limit(b.len()) as int) <= be_signed_value(b) < signed_limit(b.len()),
{
    let unit = pow256((b.len() - 1) as nat);
    let first = b[0] as int;
    let rest = be_value(b.skip(1)) as int;
    lemma_be_value_split_first(b);
    assert(pow256(b.len()) == 256 * unit);
    assert(be_value(b) == first * unit + rest);
    if first < 128 {
        assert(0 <= first * unit && first * unit + unit <= 128 * unit) by (nonlinear_arith)
            requires
                0 <= first < 128,
                unit >= 0,
        ;
    } else {
        assert(128 * unit <= first * unit <= 255 * unit) by (nonlinear_arith)
            requires
                128 <= first <= 255,
                unit >= 0,
        ;
    }
}

/// A shortest two's-complement spelling has at most `width` bytes exactly
/// when the number lies in `-2^(8 * width - 1) .. 2^(8 * width - 1)`.
pub proof fn lemma_minimal_signed_fits(b: Seq<u8>, width: nat)
    requires
        is_minimal_signed(b),
        width >= 1,
    ensures
        b.len() <= width <==> -(signed_limit(width) as int) <= be_signed_value(b) < signed_limit(
            width,
        ),
{
    lemma_be_signed_value_bound(b);
    if b.len() <= width {
        lemma_pow256_monotonic((b.len() - 1) as nat, (width - 1) as nat);
    } else {
        let tail = b.skip(1);
        let small = pow256((b.len() - 2) as nat);
        let unit = pow256((b.len() - 1) as nat);
        let first = b[0] as int;
        let second = b[1] as int;
        lemma_be_value_split_first(b);
        lemma_be_value_split_first(tail);
        lemma_pow256_monotonic((width - 1) as nat, (b.len() - 2) as nat);
        assert(tail[0] == b[1]);
        assert(tail.len() - 1 == b.len() - 2);
        assert(unit == 256 * small);
        assert(pow256(b.len()) == 256 * unit);
        lemma_pow256_positive((b.len() - 2) as nat);
        if first == 0 {
            assert(second * small >= 128 * small) by (nonlinear_arith)
                requires
                    second >= 128,
                    small >= 0,
            ;
        } else if first < 128 {
            assert(first * unit >= unit) by (nonlinear_arith)
                requires
                    first >= 1,
                    unit >= 0,
            ;
        } else if first < 255 {
            assert(first * unit <= 254 * unit) by (nonlinear_arith)
                requires
                    first <= 254,
                    unit >= 0,
            ;
        } else {
            assert(second * small <= 127 * small) by (nonlinear_arith)
                requires
                    second <= 127,
                    small >= 0,
            ;
        }
    }
}

/// Left-padding with zero bytes up to `width` gives the `width`-byte spelling
/// of the same unsigned number.
pub proof fn lemma_zero_extend(b: Seq<u8>, width: nat)
    requires
        b.len() <= width,
    ensures
        repeat(0, (width - b.len()) as nat) + b == be_bytes(be_value(b), width),
{
    let pad = repeat(0, (width - b.len()) as nat);
    let whole = pad + b;
    lemma_be_value_concat(pad, b);
    lemma_be_value_zero_fill(pad.len());
    assert(be_value(whole) == be_value(b)) by (nonlinear_arith)
        requires
            be_value(whole) == be_value(pad) * pow256(b.len()) + be_value(b),
            be_value(pad) == 0,
    ;
    lemma_be_bytes_of_value(whole);
}

/// Left-padding with the sign byte up to `width` gives the `width`-byte
/// two's-complement spelling of the same signed number.
pub proof fn lemma_sign_extend(b: Seq<u8>, width: nat)
    requires
        1 <= b.len() <= width,
    ensures
        repeat(sign_fill(b), (width - b.len()) as nat) + b == be_signed_bytes(
            be_signed_value(b),
            width,
        ),
{
    let extra = (width - b.len()) as nat;
    let pad = repeat(sign_fill(b), extra);
    let whole = pad + b;
    let v = be_signed_value(b);
    let modulus = pow256(width);
    lemma_be_value_concat(pad, b);
    lemma_be_value_bound(b);
    lemma_be_value_bound(whole);
    lemma_pow256_adds(extra, b.len());
    lemma_pow256_positive(width);
    lemma_be_bytes_of_value(whole);
    if b[0] >= 0x80 {
        lemma_be_value_ones_fill(extra);
        assert(be_value(whole) == v + modulus) by (nonlinear_arith)
            requires
                be_value(whole) == be_value(pad) * pow256(b.len()) + be_value(b),
                be_value(pad) == pow256(extra) - 1,
                modulus == pow256(extra) * pow256(b.len()),
                v == be_value(b) - pow256(b.len()),
        ;
        lemma_fundamental_div_mod_converse(v, modulus as int, -1, v + modulus);
    } else {
        lemma_be_value_zero_fill(extra);
        assert(be_value(whole) == v) by (nonlinear_arith)
            requires
                be_value(whole) == be_value(pad) * pow256(b.len()) + be_value(b),
                be_value(pad) == 0,
                v == be_value(b),
        ;
        lemma_small_mod(v as nat, modulus);
    }
}

/// Any number below `2^bits` is recovered from its `bits / 8` big-endian
/// bytes.
pub proof fn lemma_unsigned_round_trip(v: nat, bits: nat)
    requires
        bits % 8 == 0,
        v < pow2(bits),
    ensures
        be_bytes(v, bits / 8).len() == bits / 8,
        be_value(be_bytes(v, bits / 8)) == v,
{
    let width = bits / 8;
    assert(8 * width == bits);
    lemma_pow256_is_pow2(width);
    lemma_be_bytes_len(v, width);
    lemma_be_value_of_bytes(v, width);
    lemma_small_mod(v, pow256(width));
}

/// Any number in `-2^(bits-1) .. 2^(bits-1)` is recovered from its `bits / 8`
/// two's-complement big-endian bytes.
pub proof fn lemma_signed_round_trip(v: int, bits: nat)
    requires
        bits % 8 == 0,
        bits >= 8,
        -(pow2((bits - 1) as nat) as int) <= v < pow2((bits - 1) as nat),
    ensures
        be_signed_bytes(v, bits / 8).len() == bits / 8,
        be_signed_value(be_signed_bytes(v, bits / 8)) == v,
{
    let width = bits / 8;
    let modulus = pow256(width);
    let unit = pow256((width - 1) as nat);
    assert(8 * width == bits);
    lemma_signed_limit_is_pow2(width);
    assert(modulus == 256 * unit);
    let low = (v % (modulus as int)) as nat;
    if v >= 0 {
        lemma_small_mod(v as nat, modulus);
    } else {
        lemma_fundamental_div_mod_converse(v, modulus as int, -1, v + modulus);
    }
    let b = be_signed_bytes(v, width);
    lemma_be_bytes_len(low, width);
    lemma_be_value_of_bytes(low, width);
    lemma_small_mod(low, modulus);
    lemma_be_value_split_first(b);
    let first = b[0] as int;
    let rest = be_value(b.skip(1)) as int;
    if v >= 0 {
        assert(first < 128) by (nonlinear_arith)
            requires
                first * unit + rest < 128 * unit,
                rest >= 0,
                unit > 0,
        ;
    } else {
        assert(first >= 128) by (nonlinear_arith)
            requires
                first * unit + rest >= 128 * unit,
                rest < unit,
                unit > 0,
        ;
    }
}

/// A vector of `n` copies of `fill`.
pub fn filled(fill: u8, n: usize) -> (out: Vec<u8>)
    ensures
        out@ == repeat(fill, n as nat),
{
    let mut out: Vec<u8> = Vec::new();
    let mut i: usize = 0;
    while i < n
        invariant
            i <= n,
            out@ == repeat(fill, i as nat),
        decreases n - i,
    {
        out.push(fill);
        i = i + 1;
        assert(out@ =~= repeat(fill, i as nat));
    }
    out
}

} // verus!
