//! Mathematical meaning of fixed-width integers stored as bytes.
use vstd::prelude::*;

verus! {

/// `256` raised to the power `n`: the number of distinct values `n` bytes hold.
pub open spec fn pow256(n: nat) -> int
    decreases n,
{
    if n == 0 {
        1
    } else {
        256 * pow256((n - 1) as nat)
    }
}

/// The unsigned value of `bytes` read with the most significant byte first.
pub open spec fn be_value(bytes: Seq<u8>) -> int
    decreases bytes.len(),
{
    if bytes.len() == 0 {
        0
    } else {
        be_value(bytes.drop_last()) * 256 + bytes.last()
    }
}

/// The unsigned value of `bytes` read with the least significant byte first.
pub open spec fn le_value(bytes: Seq<u8>) -> int
    decreases bytes.len(),
{
    if bytes.len() == 0 {
        0
    } else {
        bytes[0] + 256 * le_value(bytes.drop_first())
    }
}

/// The two's-complement reading of the unsigned `n`-byte value `v`.
pub open spec fn to_signed(v: int, n: nat) -> int {
    if v >= pow256(n) / 2 {
        v - pow256(n)
    } else {
        v
    }
}

/// The unsigned `n`-byte bit pattern of the signed value `x` (two's complement).
pub open spec fn from_signed(x: int, n: nat) -> int {
    if x < 0 {
        x + pow256(n)
    } else {
        x
    }
}

/// The `n` bytes that store `v` most significant byte first.
pub open spec fn be_bytes(v: int, n: nat) -> Seq<u8>
    decreases n,
{
    if n == 0 {
        seq![]
    } else {
        be_bytes(v / 256, (n - 1) as nat).push((v % 256) as u8)
    }
}

/// The `n` bytes that store `v` least significant byte first.
pub open spec fn le_bytes(v: int, n: nat) -> Seq<u8>
    decreases n,
{
    if n == 0 {
        seq![]
    } else {
        seq![(v % 256) as u8] + le_bytes(v / 256, (n - 1) as nat)
    }
}

pub proof fn lemma_pow256_facts(n: nat)
    ensures
        pow256(n) > 0,
        pow256(n + 1) == 256 * pow256(n),
    decreases n,
{
    if n > 0 {
        lemma_pow256_facts((n - 1) as nat);
    }
}

pub proof fn lemma_pow256_mono(m: nat, n: nat)
    requires
        m <= n,
    ensures
        pow256(m) <= pow256(n),
    decreases n,
{
    lemma_pow256_facts(n);
    if m < n {
        lemma_pow256_mono(m, (n - 1) as nat);
        lemma_pow256_facts((n - 1) as nat);
    }
}

/// The powers of 256 that native integer widths use.
pub proof fn lemma_pow256_values()
    ensures
        pow256(1) == 0x100,
        pow256(2) == 0x1_0000,
        pow256(3) == 0x100_0000,
        pow256(4) == 0x1_0000_0000,
        pow256(6) == 0x1_0000_0000_0000,
        pow256(8) == 0x1_0000_0000_0000_0000,
        pow256(16) == 0x1_0000_0000_0000_0000_0000_0000_0000_0000,
{
    reveal_with_fuel(pow256, 17);
}

pub proof fn lemma_be_bound(bytes: Seq<u8>)
    ensures
        0 <= be_value(bytes) < pow256(bytes.len()),
    decreases bytes.len(),
{
    if bytes.len() > 0 {
        let init = bytes.drop_last();
        lemma_be_bound(init);
        lemma_pow256_facts(init.len());
    }
}

pub proof fn lemma_le_bound(bytes: Seq<u8>)
    ensures
        0 <= le_value(bytes) < pow256(bytes.len()),
    decreases bytes.len(),
{
    if bytes.len() > 0 {
        let tail = bytes.drop_first();
        lemma_le_bound(tail);
        lemma_pow256_facts(tail.len());
    }
}

/// Big-endian value of a concatenation: the front part is the high part.
pub proof fn lemma_be_concat(a: Seq<u8>, b: Seq<u8>)
    ensures
        be_value(a + b) == be_value(a) * pow256(b.len()) + be_value(b),
    decreases b.len(),
{
    if b.len() == 0 {
        assert(a + b =~= a);
    } else {
        let b0 = b.drop_last();
        lemma_be_concat(a, b0);
        assert((a + b).drop_last() =~= a + b0);
        lemma_pow256_facts(b0.len());
        assert(be_value(a) * pow256(b.len()) == be_value(a) * pow256(b0.len()) * 256)
            by (nonlinear_arith)
            requires
                pow256(b.len()) == 256 * pow256(b0.len()),
        ;
    }
}

/// Little-endian value of a concatenation: the front part is the low part.
pub proof fn lemma_le_concat(a: Seq<u8>, b: Seq<u8>)
    ensures
        le_value(a + b) == le_value(a) + pow256(a.len()) * le_value(b),
    decreases a.len(),
{
    if a.len() == 0 {
        assert(a + b =~= b);
    } else {
        let a0 = a.drop_first();
        lemma_le_concat(a0, b);
        assert((a + b).drop_first() =~= a0 + b);
        lemma_pow256_facts(a0.len());
        assert(256 * (pow256(a0.len()) * le_value(b)) == pow256(a.len()) * le_value(b))
            by (nonlinear_arith)
            requires
                pow256(a.len()) == 256 * pow256(a0.len()),
        ;
    }
}

/// The first `k + 1` bytes read big-endian extend the first `k` by one low byte.
pub proof fn lemma_be_take_step(s: Seq<u8>, k: int)
    requires
        0 <= k < s.len(),
    ensures
        be_value(s.take(k + 1)) == be_value(s.take(k)) * 256 + s[k],
{
    assert(s.take(k + 1).drop_last() =~= s.take(k));
}

/// Adding one more byte in front of the `n` low bytes of `v`.
pub proof fn lemma_be_bytes_front(v: int, n: nat)
    requires
        v >= 0,
    ensures
        be_bytes(v, n + 1) == seq![((v / pow256(n)) % 256) as u8] + be_bytes(v, n),
    decreases n,
{
    lemma_pow256_facts(n);
    if n == 0 {
        assert(be_bytes(v, 1) == be_bytes(v / 256, 0).push((v % 256) as u8));
        assert(be_bytes(v, 1) =~= seq![((v / pow256(0)) % 256) as u8] + be_bytes(v, 0));
    } else {
        let m = (n - 1) as nat;
        lemma_be_bytes_front(v / 256, m);
        lemma_pow256_facts(m);
        vstd::arithmetic::div_mod::lemma_div_denominator(v, 256, pow256(m));
        assert(be_bytes(v, n + 1) =~= seq![((v / pow256(n)) % 256) as u8] + be_bytes(v, n));
    }
}

/// Writing a value into `n` bytes and reading them back gives the value,
/// big-endian.
pub proof fn lemma_be_bytes_value(v: int, n: nat)
    requires
        0 <= v < pow256(n),
    ensures
        be_bytes(v, n).len() == n,
        be_value(be_bytes(v, n)) == v,
    decreases n,
{
    if n > 0 {
        let m = (n - 1) as nat;
        lemma_pow256_facts(m);
        vstd::arithmetic::div_mod::lemma_fundamental_div_mod(v, 256);
        assert(v / 256 < pow256(m)) by {
            vstd::arithmetic::div_mod::lemma_div_by_multiple_is_strongly_ordered(v, pow256(m) * 256, pow256(m), 256);
        }
        lemma_be_bytes_value(v / 256, m);
        assert(be_bytes(v, n).drop_last() =~= be_bytes(v / 256, m));
    }
}

/// Reading `n` bytes and writing the value back into `n` bytes gives the
/// bytes, big-endian.
pub proof fn lemma_be_value_bytes(s: Seq<u8>)
    ensures
        be_bytes(be_value(s), s.len()) == s,
    decreases s.len(),
{
    if s.len() > 0 {
        let init = s.drop_last();
        lemma_be_bound(init);
        lemma_be_value_bytes(init);
        vstd::arithmetic::div_mod::lemma_fundamental_div_mod_converse(be_value(s), 256, be_value(init), s.last() as int);
        assert(be_bytes(be_value(s), s.len()) =~= s);
    }
}

/// Writing a value into `n` bytes and reading them back gives the value,
/// little-endian.
pub proof fn lemma_le_bytes_value(v: int, n: nat)
    requires
        0 <= v < pow256(n),
    ensures
        le_bytes(v, n).len() == n,
        le_value(le_bytes(v, n)) == v,
    decreases n,
{
    if n > 0 {
        let m = (n - 1) as nat;
        lemma_pow256_facts(m);
        vstd::arithmetic::div_mod::lemma_fundamental_div_mod(v, 256);
        assert(v / 256 < pow256(m)) by {
            vstd::arithmetic::div_mod::lemma_div_by_multiple_is_strongly_ordered(v, pow256(m) * 256, pow256(m), 256);
        }
        lemma_le_bytes_value(v / 256, m);
        assert(le_bytes(v, n).drop_first() =~= le_bytes(v / 256, m));
    }
}

/// Reading little-endian is reading the reversed bytes big-endian.
pub proof fn lemma_le_is_reversed_be(s: Seq<u8>)
    ensures
        le_value(s) == be_value(s.reverse()),
    decreases s.len(),
{
    if s.len() > 0 {
        let tail = s.drop_first();
        lemma_le_is_reversed_be(tail);
        assert(s.reverse().drop_last() =~= tail.reverse());
    }
}

/// Equally long byte runs with the same big-endian value are equal.
pub proof fn lemma_be_injective(a: Seq<u8>, b: Seq<u8>)
    requires
        a.len() == b.len(),
        be_value(a) == be_value(b),
    ensures
        a == b,
    decreases a.len(),
{
    if a.len() > 0 {
        let (a0, b0) = (a.drop_last(), b.drop_last());
        lemma_be_bound(a0);
        lemma_be_bound(b0);
        vstd::arithmetic::div_mod::lemma_fundamental_div_mod_converse(be_value(a), 256, be_value(a0), a.last() as int);
        vstd::arithmetic::div_mod::lemma_fundamental_div_mod_converse(be_value(b), 256, be_value(b0), b.last() as int);
        lemma_be_injective(a0, b0);
        assert(a =~= a0.push(a.last()));
        assert(b =~= b0.push(b.last()));
    }
}

/// The value of at most sixteen bytes read most significant byte first.
pub(crate) fn be_uint(bytes: &[u8]) -> (v: u128)
    requires
        bytes@.len() <= 16,
    ensures
        v == be_value(bytes@),
{
    let mut v: u128 = 0;
    let mut i: usize = 0;
    while i < bytes.len()
        invariant
            0 <= i <= bytes@.len() <= 16,
            v == be_value(bytes@.take(i as int)),
        decreases bytes@.len() - i,
    {
        proof {
            lemma_be_bound(bytes@.take(i as int));
            lemma_pow256_mono(i as nat, 15);
            lemma_pow256_values();
            lemma_pow256_facts(15);
            lemma_be_take_step(bytes@, i as int);
        }
        v = v * 256 + bytes[i] as u128;
        i = i + 1;
    }
    assert(bytes@.take(i as int) =~= bytes@);
    v
}

/// The value of at most sixteen bytes read least significant byte first.
pub(crate) fn le_uint(bytes: &[u8]) -> (v: u128)
    requires
        bytes@.len() <= 16,
    ensures
        v == le_value(bytes@),
{
    let mut v: u128 = 0;
    let mut j: usize = bytes.len();
    assert(bytes@.skip(j as int) =~= Seq::<u8>::empty());
    while j > 0
        invariant
            0 <= j <= bytes@.len() <= 16,
            v == le_value(bytes@.skip(j as int)),
        decreases j,
    {
        proof {
            let tail = bytes@.skip(j as int);
            lemma_le_bound(tail);
            lemma_pow256_mono(tail.len(), 15);
            lemma_pow256_values();
            lemma_pow256_facts(15);
            assert(bytes@.skip(j - 1).drop_first() =~= tail);
        }
        v = bytes[j - 1] as u128 + 256 * v;
        j = j - 1;
    }
    assert(bytes@.skip(0) =~= bytes@);
    v
}

/// Stores `v` into all of `out`, most significant byte first.
pub(crate) fn store_be(out: &mut [u8], v: u128)
    requires
        old(out)@.len() <= 16,
    ensures
        final(out)@ == be_bytes(v as int, old(out)@.len()),
{
    let n = out.len();
    let mut w: u128 = v;
    let mut i: usize = n;
    assert(pow256(0) == 1 && v as int / 1 == v);
    while i > 0
        invariant
            n == out@.len(),
            0 <= i <= n <= 16,
            w == v as int / pow256((n - i) as nat),
            out@.skip(i as int) == be_bytes(v as int, (n - i) as nat),
        decreases i,
    {
        proof {
            lemma_be_bytes_front(v as int, (n - i) as nat);
            lemma_pow256_facts((n - i) as nat);
            vstd::arithmetic::div_mod::lemma_div_denominator(v as int, pow256((n - i) as nat), 256);
        }
        out[i - 1] = (w % 256) as u8;
        w = w / 256;
        i = i - 1;
        assert(out@.skip(i as int) =~= seq![out@[i as int]] + out@.skip(i + 1));
    }
    assert(out@.skip(0) =~= out@);
}

/// Two's-complement reinterpretation of an 8-bit pattern.
pub(crate) fn sign8(u: u8) -> (r: i8)
    ensures
        r == to_signed(u as int, 1),
{
    proof {
        lemma_pow256_values();
    }
    let r = u as i8;
    assert(u >= 0x80 ==> r == u - 0x100) by (bit_vector)
        requires
            r == u as i8,
    ;
    assert(u < 0x80 ==> r == u) by (bit_vector)
        requires
            r == u as i8,
    ;
    r
}

/// Two's-complement reinterpretation of a 16-bit pattern.
pub(crate) fn sign16(u: u16) -> (r: i16)
    ensures
        r == to_signed(u as int, 2),
{
    proof {
        lemma_pow256_values();
    }
    let r = u as i16;
    assert(u >= 0x8000 ==> r == u - 0x1_0000) by (bit_vector)
        requires
            r == u as i16,
    ;
    assert(u < 0x8000 ==> r == u) by (bit_vector)
        requires
            r == u as i16,
    ;
    r
}

/// Two's-complement reinterpretation of a 32-bit pattern.
pub(crate) fn sign32(u: u32) -> (r: i32)
    ensures
        r == to_signed(u as int, 4),
{
    proof {
        lemma_pow256_values();
    }
    let r = u as i32;
    assert(u >= 0x8000_0000 ==> r == u - 0x1_0000_0000) by (bit_vector)
        requires
            r == u as i32,
    ;
    assert(u < 0x8000_0000 ==> r == u) by (bit_vector)
        requires
            r == u as i32,
    ;
    r
}

/// Two's-complement reinterpretation of a 64-bit pattern.
pub(crate) fn sign64(u: u64) -> (r: i64)
    ensures
        r == to_signed(u as int, 8),
{
    proof {
        lemma_pow256_values();
    }
    let r = u as i64;
    assert(u >= 0x8000_0000_0000_0000 ==> r == u - 0x1_0000_0000_0000_0000) by (bit_vector)
        requires
            r == u as i64,
    ;
    assert(u < 0x8000_0000_0000_0000 ==> r == u) by (bit_vector)
        requires
            r == u as i64,
    ;
    r
}

/// Two's-complement reinterpretation of a 128-bit pattern.
pub(crate) fn sign128(u: u128) -> (r: i128)
    ensures
        r == to_signed(u as int, 16),
{
    proof {
        lemma_pow256_values();
    }
    let r = u as i128;
    assert(u >= 0x8000_0000_0000_0000_0000_0000_0000_0000 ==> r == u
        - 0x1_0000_0000_0000_0000_0000_0000_0000_0000) by (bit_vector)
        requires
            r == u as i128,
    ;
    assert(u < 0x8000_0000_0000_0000_0000_0000_0000_0000 ==> r == u) by (bit_vector)
        requires
            r == u as i128,
    ;
    r
}

} // verus!
