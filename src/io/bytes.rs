use vstd::prelude::*;

verus! {

/// The `n` low-order bytes of `v`, least significant first.
pub open spec fn le_bytes(v: u64, n: nat) -> Seq<u8> {
    Seq::new(n, |i: int| (v >> (8 * i) as u64) as u8)
}

/// The 16-bit little-endian integer held in the first two bytes of `b`.
pub open spec fn u16_of(b: Seq<u8>) -> u16 {
    ((b[0] as u16) | ((b[1] as u16) << 8u16)) as u16
}

/// The 32-bit little-endian integer held in the first four bytes of `b`.
pub open spec fn u32_of(b: Seq<u8>) -> u32 {
    ((b[0] as u32) | ((b[1] as u32) << 8u32) | ((b[2] as u32) << 16u32) | ((b[3] as u32)
        << 24u32)) as u32
}

/// The little-endian integer held in the first `n` bytes of `b` (at most eight).
pub open spec fn u64_of(b: Seq<u8>, n: nat) -> u64
    decreases n,
{
    if n == 0 {
        0
    } else {
        u64_of(b, (n - 1) as nat) | ((b[n - 1] as u64) << (8 * (n - 1)) as u64)
    }
}

pub proof fn lemma_u16_round_trip(v: u16)
    ensures
        u16_of(le_bytes(v as u64, 2)) == v,
        le_bytes(v as u64, 2).len() == 2,
{
    let b = le_bytes(v as u64, 2);
    assert(b[0] == (v as u64 >> 0u64) as u8);
    assert(b[1] == (v as u64 >> 8u64) as u8);
    assert((((v as u64 >> 0u64) as u8) as u16 | ((((v as u64 >> 8u64) as u8) as u16) << 8u16))
        == v) by (bit_vector);
}

pub proof fn lemma_u32_round_trip(v: u32)
    ensures
        u32_of(le_bytes(v as u64, 4)) == v,
        le_bytes(v as u64, 4).len() == 4,
{
    let b = le_bytes(v as u64, 4);
    assert(b[0] == (v as u64 >> 0u64) as u8);
    assert(b[1] == (v as u64 >> 8u64) as u8);
    assert(b[2] == (v as u64 >> 16u64) as u8);
    assert(b[3] == (v as u64 >> 24u64) as u8);
    assert(((v as u64 >> 0u64) as u8) as u32 | ((((v as u64 >> 8u64) as u8) as u32) << 8u32) | ((((
    v as u64 >> 16u64) as u8) as u32) << 16u32) | ((((v as u64 >> 24u64) as u8) as u32) << 24u32)
        == v) by (bit_vector);
}

/// Four bytes read as a little-endian integer and written back are the same bytes.
pub proof fn lemma_u32_bytes_round_trip(b: Seq<u8>)
    requires
        b.len() == 4,
    ensures
        le_bytes(u32_of(b) as u64, 4) == b,
{
    let v = u32_of(b);
    let (b0, b1, b2, b3) = (b[0], b[1], b[2], b[3]);
    assert(v == (b0 as u32 | ((b1 as u32) << 8u32) | ((b2 as u32) << 16u32) | ((b3 as u32)
        << 24u32)));
    assert((v as u64 >> 0u64) as u8 == b0 && (v as u64 >> 8u64) as u8 == b1 && (v as u64
        >> 16u64) as u8 == b2 && (v as u64 >> 24u64) as u8 == b3) by (bit_vector)
        requires
            v == (b0 as u32 | ((b1 as u32) << 8u32) | ((b2 as u32) << 16u32) | ((b3 as u32)
                << 24u32)),
    ;
    assert(le_bytes(v as u64, 4) =~= b);
}

/// A signature written as its `n` low bytes reads back whole, provided that
/// nothing was set above those bytes.
pub proof fn lemma_u64_round_trip(v: u64, n: nat)
    requires
        n == 6 || n == 8,
        n == 6 ==> v >> 48u64 == 0,
    ensures
        u64_of(le_bytes(v, n), n) == v,
{
    let b = le_bytes(v, n);
    reveal_with_fuel(u64_of, 9);
    let b0 = (v >> 0u64) as u8;
    let b1 = (v >> 8u64) as u8;
    let b2 = (v >> 16u64) as u8;
    let b3 = (v >> 24u64) as u8;
    let b4 = (v >> 32u64) as u8;
    let b5 = (v >> 40u64) as u8;
    assert(b[0] == b0 && b[1] == b1 && b[2] == b2 && b[3] == b3 && b[4] == b4 && b[5] == b5);
    if n == 8 {
        let b6 = (v >> 48u64) as u8;
        let b7 = (v >> 56u64) as u8;
        assert(b[6] == b6 && b[7] == b7);
        assert(0u64 | ((b0 as u64) << 0u64) | ((b1 as u64) << 8u64) | ((b2 as u64) << 16u64) | ((
        b3 as u64) << 24u64) | ((b4 as u64) << 32u64) | ((b5 as u64) << 40u64) | ((b6 as u64)
            << 48u64) | ((b7 as u64) << 56u64) == v) by (bit_vector)
            requires
                b0 == (v >> 0u64) as u8,
                b1 == (v >> 8u64) as u8,
                b2 == (v >> 16u64) as u8,
                b3 == (v >> 24u64) as u8,
                b4 == (v >> 32u64) as u8,
                b5 == (v >> 40u64) as u8,
                b6 == (v >> 48u64) as u8,
                b7 == (v >> 56u64) as u8,
        ;
    } else {
        assert(0u64 | ((b0 as u64) << 0u64) | ((b1 as u64) << 8u64) | ((b2 as u64) << 16u64) | ((
        b3 as u64) << 24u64) | ((b4 as u64) << 32u64) | ((b5 as u64) << 40u64) == v)
            by (bit_vector)
            requires
                v >> 48u64 == 0,
                b0 == (v >> 0u64) as u8,
                b1 == (v >> 8u64) as u8,
                b2 == (v >> 16u64) as u8,
                b3 == (v >> 24u64) as u8,
                b4 == (v >> 32u64) as u8,
                b5 == (v >> 40u64) as u8,
        ;
    }
}

/// The four bytes of `bytes` from `at` on, as a little-endian integer.
pub fn read_u32_at(bytes: &[u8], at: usize) -> (r: u32)
    requires
        at + 4 <= bytes@.len(),
    ensures
        r == u32_of(bytes@.subrange(at as int, at + 4)),
{
    let b0 = bytes[at];
    let b1 = bytes[at + 1];
    let b2 = bytes[at + 2];
    let b3 = bytes[at + 3];
    (b0 as u32) | ((b1 as u32) << 8u32) | ((b2 as u32) << 16u32) | ((b3 as u32) << 24u32)
}

/// Reading an integer looks at its own bytes only.
pub proof fn lemma_read_prefix(b: Seq<u8>, rest: Seq<u8>, n: nat)
    requires
        b.len() >= n,
        n <= 8,
    ensures
        n >= 2 ==> u16_of(b + rest) == u16_of(b),
        n >= 4 ==> u32_of(b + rest) == u32_of(b),
        u64_of(b + rest, n) == u64_of(b, n),
    decreases n,
{
    if n >= 2 {
        assert((b + rest)[0] == b[0] && (b + rest)[1] == b[1]);
    }
    if n >= 4 {
        assert((b + rest)[2] == b[2] && (b + rest)[3] == b[3]);
    }
    if n > 0 {
        lemma_read_prefix(b, rest, (n - 1) as nat);
        assert((b + rest)[n - 1] == b[n - 1]);
    }
}

/// Appending a flag of width `w` above a signature and shifting the whole by `w`.
pub proof fn lemma_flags_shift(f0: u64, a: u64, f: u64, s: u64, w: u64)
    requires
        1 <= w <= 3,
        s + w < 64,
    ensures
        f0 | ((a | (f << s)) << w) == (f0 | (a << w)) | (f << ((s + w) as u64)),
{
    assert(f0 | ((a | (f << s)) << w) == (f0 | (a << w)) | (f << ((s + w) as u64))) by (bit_vector)
        requires
            1 <= w <= 3,
            s + w < 64,
    ;
}

/// The lowest flag of a signature, and what is left above it.
pub proof fn lemma_flags_split(f0: u64, a: u64, w: u64, mask: u64)
    requires
        w == 1 && mask == 1 || w == 2 && mask == 3 || w == 3 && mask == 7,
        f0 >> w == 0,
        a >> ((64 - w) as u64) == 0,
    ensures
        (f0 | (a << w)) & mask == f0,
        (f0 | (a << w)) >> w == a,
{
    assert((f0 | (a << w)) & mask == f0 && (f0 | (a << w)) >> w == a) by (bit_vector)
        requires
            w == 1 && mask == 1 || w == 2 && mask == 3 || w == 3 && mask == 7,
            f0 >> w == 0,
            a >> ((64 - w) as u64) == 0,
    ;
}

/// A signature whose bits above `s` are clear keeps them clear when a flag is
/// put below them.
pub proof fn lemma_flags_bound(f0: u64, a: u64, s: u64, w: u64)
    requires
        1 <= w <= 3,
        s + w < 64,
        f0 >> w == 0,
        a >> s == 0,
    ensures
        (f0 | (a << w)) >> ((s + w) as u64) == 0,
{
    assert((f0 | (a << w)) >> ((s + w) as u64) == 0) by (bit_vector)
        requires
            1 <= w <= 3,
            s + w < 64,
            f0 >> w == 0,
            a >> s == 0,
    ;
}

/// Bits clear from `s` up are clear from any higher `t` up.
pub proof fn lemma_shift_clear(a: u64, s: u64, t: u64)
    requires
        s <= t < 64,
        a >> s == 0,
    ensures
        a >> t == 0,
{
    assert(a >> t == 0) by (bit_vector)
        requires
            s <= t < 64,
            a >> s == 0,
    ;
}

} // verus!
