//! Little-endian byte layouts for the wire messages, with exact encode and
//! decode functions and their round-trip laws.

use vstd::prelude::*;
use vstd::arithmetic::div_mod::{lemma_div_denominator, lemma_fundamental_div_mod};

verus! {

/// Little-endian bytes of a `u16`.
pub open spec fn s_u16_le(v: u16) -> Seq<u8> {
    seq![(v % 256) as u8, ((v / 256) % 256) as u8]
}

/// Little-endian bytes of a `u32`.
pub open spec fn s_u32_le(v: u32) -> Seq<u8> {
    seq![
        (v % 256) as u8,
        ((v / 0x100) % 256) as u8,
        ((v / 0x1_0000) % 256) as u8,
        ((v / 0x100_0000) % 256) as u8,
    ]
}

/// Little-endian bytes of a `u64`.
pub open spec fn s_u64_le(v: u64) -> Seq<u8> {
    seq![
        (v % 256) as u8,
        ((v / 0x100) % 256) as u8,
        ((v / 0x1_0000) % 256) as u8,
        ((v / 0x100_0000) % 256) as u8,
        ((v / 0x1_0000_0000) % 256) as u8,
        ((v / 0x100_0000_0000) % 256) as u8,
        ((v / 0x1_0000_0000_0000) % 256) as u8,
        ((v / 0x100_0000_0000_0000) % 256) as u8,
    ]
}

/// The `u16` two little-endian bytes denote.
pub open spec fn s_dec_u16(b0: u8, b1: u8) -> u16 {
    (b0 + 256 * b1) as u16
}

/// The `u32` four little-endian bytes denote.
pub open spec fn s_dec_u32(b0: u8, b1: u8, b2: u8, b3: u8) -> u32 {
    (b0 + 0x100 * b1 + 0x1_0000 * b2 + 0x100_0000 * b3) as u32
}

/// The `u64` eight little-endian bytes denote.
pub open spec fn s_dec_u64(
    b0: u8,
    b1: u8,
    b2: u8,
    b3: u8,
    b4: u8,
    b5: u8,
    b6: u8,
    b7: u8,
) -> u64 {
    (b0 + 0x100 * b1 + 0x1_0000 * b2 + 0x100_0000 * b3 + 0x1_0000_0000 * b4 + 0x100_0000_0000 * b5
        + 0x1_0000_0000_0000 * b6 + 0x100_0000_0000_0000 * b7) as u64
}

/// Base-256 digits reassemble to the value they came from.
pub proof fn lemma_u64_le_round_trip(v: u64)
    ensures
        s_dec_u64(
            s_u64_le(v)[0],
            s_u64_le(v)[1],
            s_u64_le(v)[2],
            s_u64_le(v)[3],
            s_u64_le(v)[4],
            s_u64_le(v)[5],
            s_u64_le(v)[6],
            s_u64_le(v)[7],
        ) == v,
{
    lemma_fundamental_div_mod(v as int, 0x100);
    lemma_fundamental_div_mod(v as int / 0x100, 0x100);
    lemma_fundamental_div_mod(v as int / 0x1_0000, 0x100);
    lemma_fundamental_div_mod(v as int / 0x100_0000, 0x100);
    lemma_fundamental_div_mod(v as int / 0x1_0000_0000, 0x100);
    lemma_fundamental_div_mod(v as int / 0x100_0000_0000, 0x100);
    lemma_fundamental_div_mod(v as int / 0x1_0000_0000_0000, 0x100);
    lemma_div_denominator(v as int, 0x100, 0x100);
    lemma_div_denominator(v as int, 0x1_0000, 0x100);
    lemma_div_denominator(v as int, 0x100_0000, 0x100);
    lemma_div_denominator(v as int, 0x1_0000_0000, 0x100);
    lemma_div_denominator(v as int, 0x100_0000_0000, 0x100);
    lemma_div_denominator(v as int, 0x1_0000_0000_0000, 0x100);
}

pub proof fn lemma_u32_le_round_trip(v: u32)
    ensures
        s_dec_u32(s_u32_le(v)[0], s_u32_le(v)[1], s_u32_le(v)[2], s_u32_le(v)[3]) == v,
{
    lemma_fundamental_div_mod(v as int, 0x100);
    lemma_fundamental_div_mod(v as int / 0x100, 0x100);
    lemma_fundamental_div_mod(v as int / 0x1_0000, 0x100);
    lemma_div_denominator(v as int, 0x100, 0x100);
    lemma_div_denominator(v as int, 0x1_0000, 0x100);
}

pub proof fn lemma_u16_le_round_trip(v: u16)
    ensures
        s_dec_u16(s_u16_le(v)[0], s_u16_le(v)[1]) == v,
{
    lemma_fundamental_div_mod(v as int, 0x100);
}

pub fn push_u16(out: &mut Vec<u8>, v: u16)
    ensures
        final(out)@ == old(out)@ + s_u16_le(v),
{
    out.push((v % 256) as u8);
    out.push((v / 256) as u8);
    proof {
        assert((v / 256) % 256 == v / 256);
        assert(final(out)@ =~= old(out)@ + s_u16_le(v));
    }
}

pub fn push_u32(out: &mut Vec<u8>, v: u32)
    ensures
        final(out)@ == old(out)@ + s_u32_le(v),
{
    out.push((v % 256) as u8);
    out.push(((v / 0x100) % 256) as u8);
    out.push(((v / 0x1_0000) % 256) as u8);
    out.push(((v / 0x100_0000) % 256) as u8);
    proof {
        assert(final(out)@ =~= old(out)@ + s_u32_le(v));
    }
}

pub fn push_u64(out: &mut Vec<u8>, v: u64)
    ensures
        final(out)@ == old(out)@ + s_u64_le(v),
{
    out.push((v % 256) as u8);
    out.push(((v / 0x100) % 256) as u8);
    out.push(((v / 0x1_0000) % 256) as u8);
    out.push(((v / 0x100_0000) % 256) as u8);
    out.push(((v / 0x1_0000_0000) % 256) as u8);
    out.push(((v / 0x100_0000_0000) % 256) as u8);
    out.push(((v / 0x1_0000_0000_0000) % 256) as u8);
    out.push(((v / 0x100_0000_0000_0000) % 256) as u8);
    proof {
        assert(final(out)@ =~= old(out)@ + s_u64_le(v));
    }
}

pub fn read_u16(s: &[u8], off: usize) -> (r: u16)
    requires
        off + 2 <= s@.len(),
    ensures
        r == s_dec_u16(s@[off as int], s@[off + 1]),
{
    (s[off] as u16) + 256 * (s[off + 1] as u16)
}

pub fn read_u32(s: &[u8], off: usize) -> (r: u32)
    requires
        off + 4 <= s@.len(),
    ensures
        r == s_dec_u32(s@[off as int], s@[off + 1], s@[off + 2], s@[off + 3]),
{
    (s[off] as u32) + 0x100 * (s[off + 1] as u32) + 0x1_0000 * (s[off + 2] as u32) + 0x100_0000
        * (s[off + 3] as u32)
}

pub fn read_u64(s: &[u8], off: usize) -> (r: u64)
    requires
        off + 8 <= s@.len(),
    ensures
        r == s_dec_u64(
            s@[off as int],
            s@[off + 1],
            s@[off + 2],
            s@[off + 3],
            s@[off + 4],
            s@[off + 5],
            s@[off + 6],
            s@[off + 7],
        ),
{
    (s[off] as u64) + 0x100 * (s[off + 1] as u64) + 0x1_0000 * (s[off + 2] as u64) + 0x100_0000
        * (s[off + 3] as u64) + 0x1_0000_0000 * (s[off + 4] as u64) + 0x100_0000_0000 * (s[off
        + 5] as u64) + 0x1_0000_0000_0000 * (s[off + 6] as u64) + 0x100_0000_0000_0000 * (s[off
        + 7] as u64)
}

/// Concatenation is associative.
pub proof fn lemma_seq_assoc<T>(a: Seq<T>, b: Seq<T>, c: Seq<T>)
    ensures
        (a + b) + c == a + (b + c),
{
    assert((a + b) + c =~= a + (b + c));
}

/// The empty sequence is a concatenation unit.
pub proof fn lemma_seq_empty_unit<T>(a: Seq<T>)
    ensures
        a + Seq::<T>::empty() == a,
        Seq::<T>::empty() + a == a,
{
    assert(a + Seq::<T>::empty() =~= a);
    assert(Seq::<T>::empty() + a =~= a);
}

/// Reassociation of a seven-part concatenation.
pub proof fn lemma_seq_concat7<T>(
    o: Seq<T>,
    a: Seq<T>,
    b: Seq<T>,
    c: Seq<T>,
    d: Seq<T>,
    e: Seq<T>,
    f: Seq<T>,
)
    ensures
        o + a + b + c + d + e + f == o + (a + (b + (c + (d + (e + f))))),
{
    assert(o + a + b + c + d + e + f =~= o + (a + (b + (c + (d + (e + f))))));
}

/// Where each part of a six-part concatenation lands.
pub proof fn lemma_seq_concat6_index<T>(
    a: Seq<T>,
    b: Seq<T>,
    c: Seq<T>,
    d: Seq<T>,
    e: Seq<T>,
    f: Seq<T>,
    s: Seq<T>,
)
    requires
        s == a + b + c + d + e + f,
    ensures
        s.len() == a.len() + b.len() + c.len() + d.len() + e.len() + f.len(),
        forall|i: int| 0 <= i < a.len() ==> s[i] == #[trigger] a[i],
        forall|i: int| 0 <= i < b.len() ==> s[a.len() + i] == #[trigger] b[i],
        forall|i: int| 0 <= i < c.len() ==> s[a.len() + b.len() + i] == #[trigger] c[i],
        forall|i: int| 0 <= i < d.len() ==> s[a.len() + b.len() + c.len() + i] == #[trigger] d[i],
        forall|i: int|
            0 <= i < e.len() ==> s[a.len() + b.len() + c.len() + d.len() + i] == #[trigger] e[i],
        forall|i: int|
            0 <= i < f.len() ==> s[a.len() + b.len() + c.len() + d.len() + e.len() + i]
                == #[trigger] f[i],
{
}

} // verus!
