//! The cross-host wire messages and their compact little-endian binary
//! encoding. The encoding is not self-describing: each channel knows which
//! message it carries. Timestamps are nanoseconds since the epoch; the 32-bit
//! fields of poses carry IEEE-754 bit patterns, which the library treats as
//! opaque words (their finiteness is a plain test on the exponent bits).

use vstd::prelude::*;
use crate::bytes::{lemma_u32_le_round_trip, lemma_u64_le_round_trip, push_u32, push_u64,
    read_u32, read_u64, s_dec_u32, s_dec_u64, s_u32_le, s_u64_le};

verus! {

/// The bit patterns of a three-component single-precision vector.
#[derive(Clone, Copy, Debug, PartialEq, Eq, Structural)]
pub struct Vec3Bits {
    pub x: u32,
    pub y: u32,
    pub z: u32,
}

/// The bit patterns of a single-precision quaternion.
#[derive(Clone, Copy, Debug, PartialEq, Eq, Structural)]
pub struct QuatBits {
    pub x: u32,
    pub y: u32,
    pub z: u32,
    pub w: u32,
}

/// A pose sample: wall-clock stamp, translation and unit-quaternion rotation
/// as raw single-precision words.
#[derive(Clone, Copy, Debug, PartialEq, Eq, Structural)]
pub struct OdometryMessage {
    pub stamp: u64,
    pub translation: Vec3Bits,
    pub rotation: QuatBits,
}

/// A single-precision word denotes a finite number exactly when its exponent
/// bits are not all ones.
pub open spec fn s_f32_bits_finite(b: u32) -> bool {
    (b / 0x80_0000) % 256 != 255
}

pub fn f32_bits_finite(b: u32) -> (r: bool)
    ensures
        r == s_f32_bits_finite(b),
{
    (b / 0x80_0000) % 256 != 255
}

/// Every component of the pose is finite; non-finite odometry is dropped
/// before broadcast.
pub open spec fn s_odometry_finite(m: OdometryMessage) -> bool {
    &&& s_f32_bits_finite(m.translation.x)
    &&& s_f32_bits_finite(m.translation.y)
    &&& s_f32_bits_finite(m.translation.z)
    &&& s_f32_bits_finite(m.rotation.x)
    &&& s_f32_bits_finite(m.rotation.y)
    &&& s_f32_bits_finite(m.rotation.z)
    &&& s_f32_bits_finite(m.rotation.w)
}

pub fn odometry_finite(m: &OdometryMessage) -> (r: bool)
    ensures
        r == s_odometry_finite(*m),
{
    f32_bits_finite(m.translation.x) && f32_bits_finite(m.translation.y) && f32_bits_finite(
        m.translation.z,
    ) && f32_bits_finite(m.rotation.x) && f32_bits_finite(m.rotation.y) && f32_bits_finite(
        m.rotation.z,
    ) && f32_bits_finite(m.rotation.w)
}

/// A ping carries the client's send time.
#[derive(Clone, Copy, Debug, PartialEq, Eq, Structural)]
pub struct PingMessage {
    pub client_time: u64,
}

/// A pong echoes the ping's client time and adds the server's own clock.
#[derive(Clone, Copy, Debug, PartialEq, Eq, Structural)]
pub struct PongMessage {
    pub client_time: u64,
    pub server_time: u64,
}

/// What a client sends on the datagram channel.
#[derive(Clone, Copy, Debug, PartialEq, Eq, Structural)]
pub enum UdpClientMessage {
    Ping(PingMessage),
}

/// What the server sends on the datagram channel.
#[derive(Clone, Copy, Debug, PartialEq, Eq, Structural)]
pub enum UdpServerMessage {
    Odometry(OdometryMessage),
    Pong(PongMessage),
}

#[verifier::opaque]
pub open spec fn s_enc_odometry(m: OdometryMessage) -> Seq<u8> {
    s_u64_le(m.stamp) + s_u32_le(m.translation.x) + s_u32_le(m.translation.y) + s_u32_le(
        m.translation.z,
    ) + s_u32_le(m.rotation.x) + s_u32_le(m.rotation.y) + s_u32_le(m.rotation.z) + s_u32_le(
        m.rotation.w,
    )
}

/// Read one `u32` at `off`.
pub open spec fn s_at_u32(s: Seq<u8>, off: int) -> u32 {
    s_dec_u32(s[off], s[off + 1], s[off + 2], s[off + 3])
}

/// Read one `u64` at `off`.
pub open spec fn s_at_u64(s: Seq<u8>, off: int) -> u64 {
    s_dec_u64(s[off], s[off + 1], s[off + 2], s[off + 3], s[off + 4], s[off + 5], s[off + 6], s[off
        + 7])
}

/// Parse an odometry record out of `s` at `off` (fixed 36 bytes).
#[verifier::opaque]
pub open spec fn s_dec_odometry_at(s: Seq<u8>, off: int) -> OdometryMessage {
    OdometryMessage {
        stamp: s_at_u64(s, off),
        translation: Vec3Bits {
            x: s_at_u32(s, off + 8),
            y: s_at_u32(s, off + 12),
            z: s_at_u32(s, off + 16),
        },
        rotation: QuatBits {
            x: s_at_u32(s, off + 20),
            y: s_at_u32(s, off + 24),
            z: s_at_u32(s, off + 28),
            w: s_at_u32(s, off + 32),
        },
    }
}

/// Size of an encoded odometry record.
pub const ODOMETRY_WIRE_LEN: usize = 36;

#[verifier::rlimit(100)]
pub proof fn lemma_enc_odometry_len(m: OdometryMessage)
    ensures
        s_enc_odometry(m).len() == ODOMETRY_WIRE_LEN,
{
    reveal(s_enc_odometry);
    assert(s_u64_le(m.stamp).len() == 8);
    assert(s_u32_le(m.translation.x).len() == 4);
    assert(s_u32_le(m.translation.y).len() == 4);
    assert(s_u32_le(m.translation.z).len() == 4);
    assert(s_u32_le(m.rotation.x).len() == 4);
    assert(s_u32_le(m.rotation.y).len() == 4);
    assert(s_u32_le(m.rotation.z).len() == 4);
    assert(s_u32_le(m.rotation.w).len() == 4);
}

pub fn encode_odometry(m: &OdometryMessage, out: &mut Vec<u8>)
    ensures
        final(out)@ == old(out)@ + s_enc_odometry(*m),
{
    push_u64(out, m.stamp);
    push_u32(out, m.translation.x);
    push_u32(out, m.translation.y);
    push_u32(out, m.translation.z);
    push_u32(out, m.rotation.x);
    push_u32(out, m.rotation.y);
    push_u32(out, m.rotation.z);
    push_u32(out, m.rotation.w);
    proof {
        reveal(s_enc_odometry);
        assert(final(out)@ =~= old(out)@ + s_enc_odometry(*m));
    }
}

pub fn decode_odometry_at(s: &[u8], off: usize) -> (r: OdometryMessage)
    requires
        off + ODOMETRY_WIRE_LEN <= s@.len(),
    ensures
        r == s_dec_odometry_at(s@, off as int),
{
    let n = s.len();
    proof {
        reveal(s_dec_odometry_at);
        assert(off + ODOMETRY_WIRE_LEN <= n);
    }
    OdometryMessage {
        stamp: read_u64(s, off),
        translation: Vec3Bits {
            x: read_u32(s, off + 8),
            y: read_u32(s, off + 12),
            z: read_u32(s, off + 16),
        },
        rotation: QuatBits {
            x: read_u32(s, off + 20),
            y: read_u32(s, off + 24),
            z: read_u32(s, off + 28),
            w: read_u32(s, off + 32),
        },
    }
}

/// An odometry record decodes to itself wherever its encoding stands.
#[verifier::rlimit(100)]
pub proof fn lemma_odometry_round_trip(m: OdometryMessage, s: Seq<u8>, off: int)
    requires
        0 <= off,
        off + ODOMETRY_WIRE_LEN <= s.len(),
        s.subrange(off, off + ODOMETRY_WIRE_LEN) == s_enc_odometry(m),
    ensures
        s_dec_odometry_at(s, off) == m,
{
    reveal(s_enc_odometry);
    reveal(s_dec_odometry_at);
    let e = s_enc_odometry(m);
    assert(s[off + 0] == e[0]) by {
        assert(s.subrange(off, off + 36)[0] == s[off + 0]);
    }
    assert(s[off + 1] == e[1]) by {
        assert(s.subrange(off, off + 36)[1] == s[off + 1]);
    }
    assert(s[off + 2] == e[2]) by {
        assert(s.subrange(off, off + 36)[2] == s[off + 2]);
    }
    assert(s[off + 3] == e[3]) by {
        assert(s.subrange(off, off + 36)[3] == s[off + 3]);
    }
    assert(s[off + 4] == e[4]) by {
        assert(s.subrange(off, off + 36)[4] == s[off + 4]);
    }
    assert(s[off + 5] == e[5]) by {
        assert(s.subrange(off, off + 36)[5] == s[off + 5]);
    }
    assert(s[off + 6] == e[6]) by {
        assert(s.subrange(off, off + 36)[6] == s[off + 6]);
    }
    assert(s[off + 7] == e[7]) by {
        assert(s.subrange(off, off + 36)[7] == s[off + 7]);
    }
    assert(s[off + 8] == e[8]) by {
        assert(s.subrange(off, off + 36)[8] == s[off + 8]);
    }
    assert(s[off + 9] == e[9]) by {
        assert(s.subrange(off, off + 36)[9] == s[off + 9]);
    }
    assert(s[off + 10] == e[10]) by {
        assert(s.subrange(off, off + 36)[10] == s[off + 10]);
    }
    assert(s[off + 11] == e[11]) by {
        assert(s.subrange(off, off + 36)[11] == s[off + 11]);
    }
    assert(s[off + 12] == e[12]) by {
        assert(s.subrange(off, off + 36)[12] == s[off + 12]);
    }
    assert(s[off + 13] == e[13]) by {
        assert(s.subrange(off, off + 36)[13] == s[off + 13]);
    }
    assert(s[off + 14] == e[14]) by {
        assert(s.subrange(off, off + 36)[14] == s[off + 14]);
    }
    assert(s[off + 15] == e[15]) by {
        assert(s.subrange(off, off + 36)[15] == s[off + 15]);
    }
    assert(s[off + 16] == e[16]) by {
        assert(s.subrange(off, off + 36)[16] == s[off + 16]);
    }
    assert(s[off + 17] == e[17]) by {
        assert(s.subrange(off, off + 36)[17] == s[off + 17]);
    }
    assert(s[off + 18] == e[18]) by {
        assert(s.subrange(off, off + 36)[18] == s[off + 18]);
    }
    assert(s[off + 19] == e[19]) by {
        assert(s.subrange(off, off + 36)[19] == s[off + 19]);
    }
    assert(s[off + 20] == e[20]) by {
        assert(s.subrange(off, off + 36)[20] == s[off + 20]);
    }
    assert(s[off + 21] == e[21]) by {
        assert(s.subrange(off, off + 36)[21] == s[off + 21]);
    }
    assert(s[off + 22] == e[22]) by {
        assert(s.subrange(off, off + 36)[22] == s[off + 22]);
    }
    assert(s[off + 23] == e[23]) by {
        assert(s.subrange(off, off + 36)[23] == s[off + 23]);
    }
    assert(s[off + 24] == e[24]) by {
        assert(s.subrange(off, off + 36)[24] == s[off + 24]);
    }
    assert(s[off + 25] == e[25]) by {
        assert(s.subrange(off, off + 36)[25] == s[off + 25]);
    }
    assert(s[off + 26] == e[26]) by {
        assert(s.subrange(off, off + 36)[26] == s[off + 26]);
    }
    assert(s[off + 27] == e[27]) by {
        assert(s.subrange(off, off + 36)[27] == s[off + 27]);
    }
    assert(s[off + 28] == e[28]) by {
        assert(s.subrange(off, off + 36)[28] == s[off + 28]);
    }
    assert(s[off + 29] == e[29]) by {
        assert(s.subrange(off, off + 36)[29] == s[off + 29]);
    }
    assert(s[off + 30] == e[30]) by {
        assert(s.subrange(off, off + 36)[30] == s[off + 30]);
    }
    assert(s[off + 31] == e[31]) by {
        assert(s.subrange(off, off + 36)[31] == s[off + 31]);
    }
    assert(s[off + 32] == e[32]) by {
        assert(s.subrange(off, off + 36)[32] == s[off + 32]);
    }
    assert(s[off + 33] == e[33]) by {
        assert(s.subrange(off, off + 36)[33] == s[off + 33]);
    }
    assert(s[off + 34] == e[34]) by {
        assert(s.subrange(off, off + 36)[34] == s[off + 34]);
    }
    assert(s[off + 35] == e[35]) by {
        assert(s.subrange(off, off + 36)[35] == s[off + 35]);
    }
    lemma_u64_le_round_trip(m.stamp);
    lemma_u32_le_round_trip(m.translation.x);
    lemma_u32_le_round_trip(m.translation.y);
    lemma_u32_le_round_trip(m.translation.z);
    lemma_u32_le_round_trip(m.rotation.x);
    lemma_u32_le_round_trip(m.rotation.y);
    lemma_u32_le_round_trip(m.rotation.z);
    lemma_u32_le_round_trip(m.rotation.w);
}

/// The bytes of a client datagram: a tag, then the ping.
pub open spec fn s_enc_udp_client(m: UdpClientMessage) -> Seq<u8> {
    match m {
        UdpClientMessage::Ping(p) => seq![0u8] + s_u64_le(p.client_time),
    }
}

/// What a client datagram's bytes denote.
pub open spec fn s_dec_udp_client(s: Seq<u8>) -> Option<UdpClientMessage> {
    if s.len() == 9 && s[0] == 0 {
        Some(UdpClientMessage::Ping(PingMessage { client_time: s_at_u64(s, 1) }))
    } else {
        None
    }
}

pub fn encode_udp_client(m: &UdpClientMessage) -> (out: Vec<u8>)
    ensures
        out@ == s_enc_udp_client(*m),
{
    let mut out: Vec<u8> = Vec::new();
    match m {
        UdpClientMessage::Ping(p) => {
            out.push(0);
            push_u64(&mut out, p.client_time);
        },
    }
    proof {
        assert(out@ =~= s_enc_udp_client(*m));
    }
    out
}

pub fn decode_udp_client(s: &[u8]) -> (r: Option<UdpClientMessage>)
    ensures
        r == s_dec_udp_client(s@),
{
    if s.len() == 9 {
        if s[0] == 0 {
            return Some(UdpClientMessage::Ping(PingMessage { client_time: read_u64(s, 1) }));
        }
    }
    None
}

pub proof fn lemma_udp_client_round_trip(m: UdpClientMessage)
    ensures
        s_dec_udp_client(s_enc_udp_client(m)) == Some(m),
{
    match m {
        UdpClientMessage::Ping(p) => {
            lemma_u64_le_round_trip(p.client_time);
        },
    }
}

/// The bytes of a server datagram: a tag, then the record.
pub open spec fn s_enc_udp_server(m: UdpServerMessage) -> Seq<u8> {
    match m {
        UdpServerMessage::Odometry(o) => seq![0u8] + s_enc_odometry(o),
        UdpServerMessage::Pong(p) => seq![1u8] + s_u64_le(p.client_time) + s_u64_le(p.server_time),
    }
}

/// What a server datagram's bytes denote.
pub open spec fn s_dec_udp_server(s: Seq<u8>) -> Option<UdpServerMessage> {
    if s.len() == 1 + ODOMETRY_WIRE_LEN && s[0] == 0 {
        Some(UdpServerMessage::Odometry(s_dec_odometry_at(s, 1)))
    } else if s.len() == 17 && s[0] == 1 {
        Some(
            UdpServerMessage::Pong(
                PongMessage { client_time: s_at_u64(s, 1), server_time: s_at_u64(s, 9) },
            ),
        )
    } else {
        None
    }
}

pub fn encode_udp_server(m: &UdpServerMessage) -> (out: Vec<u8>)
    ensures
        out@ == s_enc_udp_server(*m),
{
    let mut out: Vec<u8> = Vec::new();
    match m {
        UdpServerMessage::Odometry(o) => {
            out.push(0);
            encode_odometry(o, &mut out);
        },
        UdpServerMessage::Pong(p) => {
            out.push(1);
            push_u64(&mut out, p.client_time);
            push_u64(&mut out, p.server_time);
        },
    }
    proof {
        assert(out@ =~= s_enc_udp_server(*m));
    }
    out
}

pub fn decode_udp_server(s: &[u8]) -> (r: Option<UdpServerMessage>)
    ensures
        r == s_dec_udp_server(s@),
{
    if s.len() == 1 + ODOMETRY_WIRE_LEN {
        if s[0] == 0 {
            return Some(UdpServerMessage::Odometry(decode_odometry_at(s, 1)));
        }
    }
    if s.len() == 17 {
        if s[0] == 1 {
            return Some(
                UdpServerMessage::Pong(
                    PongMessage { client_time: read_u64(s, 1), server_time: read_u64(s, 9) },
                ),
            );
        }
    }
    None
}

#[verifier::rlimit(100)]
pub proof fn lemma_udp_server_round_trip(m: UdpServerMessage)
    ensures
        s_dec_udp_server(s_enc_udp_server(m)) == Some(m),
{
    match m {
        UdpServerMessage::Odometry(o) => {
            let e = s_enc_odometry(o);
            lemma_enc_odometry_len(o);
            let s = s_enc_udp_server(m);
            assert(s == seq![0u8] + e);
            assert(s.len() == 37);
            assert(s[0] == 0);
            assert forall|i: int| 0 <= i < 36 implies s.subrange(1, 37)[i] == e[i] by {
                assert(s.subrange(1, 37)[i] == s[1 + i]);
                assert(s[1 + i] == e[i]);
            }
            assert(s.subrange(1, 1 + ODOMETRY_WIRE_LEN) =~= e);
            lemma_odometry_round_trip(o, s, 1);
        },
        UdpServerMessage::Pong(p) => {
            lemma_u64_le_round_trip(p.client_time);
            lemma_u64_le_round_trip(p.server_time);
        },
    }
}

/// The items of a `u64` vector, each in little-endian order.
pub open spec fn s_enc_u64_items(v: Seq<u64>) -> Seq<u8>
    decreases v.len(),
{
    if v.len() == 0 {
        Seq::empty()
    } else {
        s_enc_u64_items(v.drop_last()) + s_u64_le(v.last())
    }
}

/// The encoding also splits at the front.
pub proof fn lemma_enc_u64_items_front(v: Seq<u64>)
    requires
        v.len() > 0,
    ensures
        s_enc_u64_items(v) == s_u64_le(v[0]) + s_enc_u64_items(v.skip(1)),
    decreases v.len(),
{
    if v.len() == 1 {
        assert(v.drop_last() =~= Seq::<u64>::empty());
        assert(v.skip(1) =~= Seq::<u64>::empty());
        crate::bytes::lemma_seq_empty_unit(s_u64_le(v[0]));
    } else {
        let dl = v.drop_last();
        lemma_enc_u64_items_front(dl);
        assert(v.skip(1).drop_last() =~= dl.skip(1));
        assert(v.skip(1).last() == v.last());
        crate::bytes::lemma_seq_assoc(
            s_u64_le(v[0]),
            s_enc_u64_items(dl.skip(1)),
            s_u64_le(v.last()),
        );
    }
}

pub proof fn lemma_enc_u64_items_len(v: Seq<u64>)
    ensures
        s_enc_u64_items(v).len() == 8 * v.len(),
    decreases v.len(),
{
    if v.len() > 0 {
        lemma_enc_u64_items_len(v.drop_last());
    }
}

/// Appending one item appends its eight bytes.
pub proof fn lemma_enc_u64_items_push(v: Seq<u64>, x: u64)
    ensures
        s_enc_u64_items(v.push(x)) == s_enc_u64_items(v) + s_u64_le(x),
{
    assert(v.push(x).drop_last() =~= v);
    assert(v.push(x).last() == x);
}

/// The `n` consecutive `u64` values at `off`.
pub open spec fn s_u64s_at(s: Seq<u8>, off: int, n: int) -> Seq<u64> {
    Seq::new(n as nat, |i: int| s_at_u64(s, off + 8 * i))
}

/// A vector of items embedded in a larger sequence reads back as itself.
pub proof fn lemma_u64_items_round_trip(v: Seq<u64>, s: Seq<u8>, off: int)
    requires
        0 <= off,
        off + 8 * v.len() <= s.len(),
        s.subrange(off, off + 8 * v.len()) == s_enc_u64_items(v),
    ensures
        s_u64s_at(s, off, v.len() as int) =~= v,
    decreases v.len(),
{
    lemma_enc_u64_items_len(v);
    if v.len() > 0 {
        let e = s_enc_u64_items(v);
        let head = s_u64_le(v[0]);
        lemma_enc_u64_items_len(v.skip(1));
        assert(s[off + 0] == e[0]) by {
            assert(s.subrange(off, off + 8 * v.len())[0] == s[off + 0]);
        }
        assert(s[off + 1] == e[1]) by {
            assert(s.subrange(off, off + 8 * v.len())[1] == s[off + 1]);
        }
        assert(s[off + 2] == e[2]) by {
            assert(s.subrange(off, off + 8 * v.len())[2] == s[off + 2]);
        }
        assert(s[off + 3] == e[3]) by {
            assert(s.subrange(off, off + 8 * v.len())[3] == s[off + 3]);
        }
        assert(s[off + 4] == e[4]) by {
            assert(s.subrange(off, off + 8 * v.len())[4] == s[off + 4]);
        }
        assert(s[off + 5] == e[5]) by {
            assert(s.subrange(off, off + 8 * v.len())[5] == s[off + 5]);
        }
        assert(s[off + 6] == e[6]) by {
            assert(s.subrange(off, off + 8 * v.len())[6] == s[off + 6]);
        }
        assert(s[off + 7] == e[7]) by {
            assert(s.subrange(off, off + 8 * v.len())[7] == s[off + 7]);
        }
        lemma_enc_u64_items_front(v);
        lemma_u64_le_round_trip(v[0]);
        assert(s_at_u64(s, off) == v[0]);
        assert(s.subrange(off + 8, off + 8 + 8 * v.skip(1).len()) =~= s_enc_u64_items(
            v.skip(1),
        )) by {
            assert forall|i: int| 0 <= i < 8 * v.skip(1).len() implies s.subrange(
                off + 8,
                off + 8 + 8 * v.skip(1).len(),
            )[i] == s_enc_u64_items(v.skip(1))[i] by {
                assert(s.subrange(off + 8, off + 8 + 8 * v.skip(1).len())[i] == s[off + 8 + i]);
                assert(s.subrange(off, off + 8 * v.len())[8 + i] == s[off + 8 + i]);
                assert(e[8 + i] == s_enc_u64_items(v.skip(1))[i]);
            }
        }
        lemma_u64_items_round_trip(v.skip(1), s, off + 8);
        assert forall|i: int| 0 <= i < v.len() implies s_u64s_at(s, off, v.len() as int)[i]
            == v[i] by {
            if i > 0 {
                assert(s_u64s_at(s, off + 8, v.skip(1).len() as int)[i - 1] == v.skip(1)[i - 1]);
                assert(off + 8 + 8 * (i - 1) == off + 8 * i);
            }
        }
    }
}

/// Append the items of `v`.
pub fn push_u64_items(out: &mut Vec<u8>, v: &Vec<u64>)
    ensures
        final(out)@ == old(out)@ + s_enc_u64_items(v@),
{
    let ghost base = out@;
    let mut i: usize = 0;
    while i < v.len()
        invariant
            i <= v@.len(),
            out@ == base + s_enc_u64_items(v@.take(i as int)),
        decreases v@.len() - i,
    {
        proof {
            lemma_enc_u64_items_push(v@.take(i as int), v@[i as int]);
            assert(v@.take(i as int).push(v@[i as int]) =~= v@.take(i + 1));
        }
        push_u64(out, v[i]);
        i += 1;
    }
    proof {
        assert(v@.take(v@.len() as int) =~= v@);
    }
}

/// Read `n` consecutive `u64` values at `off`.
pub fn read_u64_items(s: &[u8], off: usize, n: usize) -> (r: Vec<u64>)
    requires
        off + 8 * n <= s@.len(),
    ensures
        r@ =~= s_u64s_at(s@, off as int, n as int),
{
    let total = s.len();
    let mut out: Vec<u64> = Vec::new();
    let mut i: usize = 0;
    while i < n
        invariant
            i <= n,
            off + 8 * n <= s@.len(),
            s@.len() <= usize::MAX,
            out@ =~= s_u64s_at(s@, off as int, i as int),
        decreases n - i,
    {
        let x = read_u64(s, off + 8 * i);
        proof {
            assert(s_u64s_at(s@, off as int, i as int).push(x) =~= s_u64s_at(
                s@,
                off as int,
                i + 1,
            ));
        }
        out.push(x);
        i += 1;
    }
    out
}

/// A length-prefixed `u64` vector: a `u32` count, then the items.
pub open spec fn s_enc_u64_vec(v: Seq<u64>) -> Seq<u8> {
    s_u32_le(v.len() as u32) + s_enc_u64_items(v)
}

/// Parse a length-prefixed `u64` vector from the front of `s`, returning the
/// items and the remainder.
pub open spec fn s_dec_u64_vec(s: Seq<u8>) -> Option<(Seq<u64>, Seq<u8>)> {
    if s.len() < 4 {
        None
    } else {
        let n = s_at_u32(s, 0) as int;
        if s.len() < 4 + 8 * n {
            None
        } else {
            Some((s_u64s_at(s, 4, n), s.skip(4 + 8 * n)))
        }
    }
}

/// Reading one value from a suffix reads it at the shifted offset.
proof fn lemma_at_u64_skip(s: Seq<u8>, off: int, k: int)
    requires
        0 <= off,
        0 <= k,
        off + k + 8 <= s.len(),
    ensures
        s_at_u64(s.skip(off), k) == s_at_u64(s, off + k),
{
    assert forall|j: int| 0 <= j < 8 implies #[trigger] s.skip(off)[k + j] == s[off + k + j] by {}
}

/// A vector encoding at the front of a stream parses back to the vector.
pub proof fn lemma_u64_vec_round_trip(v: Seq<u64>, rest: Seq<u8>)
    requires
        v.len() < 0x1_0000_0000,
    ensures
        s_dec_u64_vec(s_enc_u64_vec(v) + rest) == Some((v, rest)),
{
    let items = s_enc_u64_items(v);
    let pre = s_u32_le(v.len() as u32);
    let s = s_enc_u64_vec(v) + rest;
    lemma_enc_u64_items_len(v);
    crate::bytes::lemma_seq_assoc(pre, items, rest);
    assert(s == pre + (items + rest));
    assert(s[0] == pre[0] && s[1] == pre[1] && s[2] == pre[2] && s[3] == pre[3]);
    lemma_u32_le_round_trip(v.len() as u32);
    assert(s_at_u32(s, 0) == v.len() as u32);
    assert(s.subrange(4, 4 + 8 * v.len() as int) =~= items) by {
        assert forall|i: int|
            0 <= i < 8 * v.len() implies s.subrange(4, 4 + 8 * v.len() as int)[i] == items[i] by {
            assert(s.subrange(4, 4 + 8 * v.len() as int)[i] == s[4 + i]);
            assert(s[4 + i] == (items + rest)[i]);
        }
    }
    lemma_u64_items_round_trip(v, s, 4);
    assert(s.skip(4 + 8 * v.len() as int) =~= rest);
    assert(s_u64s_at(s, 4, v.len() as int) =~= v);
}

/// Parse a length-prefixed `u64` vector at `off`; on success also say where
/// parsing stopped.
pub fn read_u64_vec(s: &[u8], off: usize) -> (r: Option<(Vec<u64>, usize)>)
    requires
        off <= s@.len(),
    ensures
        match r {
            Option::Some(t) => {
                &&& s_dec_u64_vec(s@.skip(off as int)) == Some((t.0@, s@.skip(t.1 as int)))
                &&& off <= t.1 <= s@.len()
            },
            Option::None => s_dec_u64_vec(s@.skip(off as int)) is None,
        },
{
    let total = s.len();
    if total - off < 4 {
        return None;
    }
    let n32 = read_u32(s, off);
    proof {
        assert(s@.skip(off as int)[0] == s@[off as int]);
        assert(s@.skip(off as int)[1] == s@[off + 1]);
        assert(s@.skip(off as int)[2] == s@[off + 2]);
        assert(s@.skip(off as int)[3] == s@[off + 3]);
        assert(s_at_u32(s@.skip(off as int), 0) == n32);
    }
    let n = n32 as usize;
    if (total - off - 4) / 8 < n {
        proof {
            assert(s@.skip(off as int).len() < 4 + 8 * (n as int)) by (nonlinear_arith)
                requires
                    s@.skip(off as int).len() == total - off,
                    total >= off + 4,
                    ((total - off - 4) as usize / 8) < n,
                    total == s@.len(),
            ;
        }
        return None;
    }
    proof {
        assert(4 + 8 * (n as int) <= s@.skip(off as int).len()) by (nonlinear_arith)
            requires
                s@.skip(off as int).len() == total - off,
                total >= off + 4,
                ((total - off - 4) as usize / 8) >= n,
                total == s@.len(),
        ;
    }
    let items = read_u64_items(s, off + 4, n);
    let end = off + 4 + 8 * n;
    proof {
        assert forall|i: int| 0 <= i < n implies s_u64s_at(s@.skip(off as int), 4, n as int)[i]
            == items@[i] by {
            lemma_at_u64_skip(s@, off as int, 4 + 8 * i);
        }
        assert(s_u64s_at(s@.skip(off as int), 4, n as int) =~= items@);
        assert(s@.skip(off as int).skip(4 + 8 * (n as int)) =~= s@.skip(end as int));
    }
    Some((items, end))
}

/// Append one length-prefixed vector.
pub fn push_u64_vec(out: &mut Vec<u8>, v: &Vec<u64>)
    requires
        v@.len() < 0x1_0000_0000,
    ensures
        final(out)@ == old(out)@ + s_enc_u64_vec(v@),
{
    let ghost mid_target = old(out)@ + s_u32_le(v@.len() as u32);
    push_u32(out, v.len() as u32);
    push_u64_items(out, v);
    proof {
        crate::bytes::lemma_seq_assoc(old(out)@, s_u32_le(v@.len() as u32), s_enc_u64_items(v@));
    }
}

/// Per-session statistics: parallel stamp, size and latency records for the
/// image stream and the odometry stream. Latencies are signed nanoseconds.
#[derive(Clone, Debug)]
pub struct Stats {
    pub images_stamps: Vec<u64>,
    pub images_original_sizes: Vec<u64>,
    pub images_latencies: Vec<i64>,
    pub odometry_stamps: Vec<u64>,
    pub odometry_original_sizes: Vec<u64>,
    pub odometry_latencies: Vec<i64>,
}

/// Signed values carried as two's-complement words.
pub open spec fn s_bits_of_i64s(v: Seq<i64>) -> Seq<u64> {
    Seq::new(v.len(), |i: int| v[i] as u64)
}

pub proof fn lemma_i64_bits_round_trip(v: Seq<i64>)
    ensures
        Seq::new(s_bits_of_i64s(v).len(), |i: int| s_bits_of_i64s(v)[i] as i64) =~= v,
{
    assert forall|i: int| 0 <= i < v.len() implies (v[i] as u64) as i64 == v[i] by {
        let x = v[i];
        assert((x as u64) as i64 == x) by (bit_vector);
    }
}

fn i64s_to_bits(v: &Vec<i64>) -> (r: Vec<u64>)
    ensures
        r@ == s_bits_of_i64s(v@),
{
    let mut out: Vec<u64> = Vec::new();
    let mut i: usize = 0;
    while i < v.len()
        invariant
            i <= v@.len(),
            out@ =~= s_bits_of_i64s(v@.take(i as int)),
        decreases v@.len() - i,
    {
        proof {
            assert(s_bits_of_i64s(v@.take(i as int)).push(v@[i as int] as u64) =~= s_bits_of_i64s(
                v@.take(i + 1),
            ));
        }
        out.push(v[i] as u64);
        i += 1;
    }
    proof {
        assert(v@.take(v@.len() as int) =~= v@);
        assert(out@ =~= s_bits_of_i64s(v@));
    }
    out
}

fn bits_to_i64s(v: Vec<u64>) -> (r: Vec<i64>)
    ensures
        r@ == Seq::new(v@.len(), |i: int| v@[i] as i64),
{
    let mut out: Vec<i64> = Vec::new();
    let mut i: usize = 0;
    while i < v.len()
        invariant
            i <= v@.len(),
            out@ =~= Seq::new(i as nat, |j: int| v@[j] as i64),
        decreases v@.len() - i,
    {
        proof {
            assert(Seq::new(i as nat, |j: int| v@[j] as i64).push(v@[i as int] as i64)
                =~= Seq::new((i + 1) as nat, |j: int| v@[j] as i64));
        }
        out.push(v[i] as i64);
        i += 1;
    }
    proof {
        assert(out@ =~= Seq::new(v@.len(), |i: int| v@[i] as i64));
    }
    out
}

/// The wire form of `Stats`: its six vectors, in declaration order.
pub open spec fn s_enc_stats(st: Stats) -> Seq<u8> {
    s_enc_u64_vec(st.images_stamps@) + (s_enc_u64_vec(st.images_original_sizes@) + (s_enc_u64_vec(
        s_bits_of_i64s(st.images_latencies@),
    ) + (s_enc_u64_vec(st.odometry_stamps@) + (s_enc_u64_vec(st.odometry_original_sizes@)
        + s_enc_u64_vec(s_bits_of_i64s(st.odometry_latencies@))))))
}

/// Abstract form of parsed statistics, as value sequences.
pub open spec fn s_stats_view(st: Stats) -> (Seq<u64>, Seq<u64>, Seq<i64>, Seq<u64>, Seq<u64>, Seq<
    i64,
>) {
    (
        st.images_stamps@,
        st.images_original_sizes@,
        st.images_latencies@,
        st.odometry_stamps@,
        st.odometry_original_sizes@,
        st.odometry_latencies@,
    )
}

/// What a byte stream parses to as `Stats` (it must be consumed exactly).
pub open spec fn s_dec_stats(s: Seq<u8>) -> Option<(Seq<u64>, Seq<u64>, Seq<i64>, Seq<u64>, Seq<
    u64,
>, Seq<i64>)> {
    match s_dec_u64_vec(s) {
        Option::None => None,
        Option::Some((v1, r1)) => match s_dec_u64_vec(r1) {
            Option::None => None,
            Option::Some((v2, r2)) => match s_dec_u64_vec(r2) {
                Option::None => None,
                Option::Some((v3, r3)) => match s_dec_u64_vec(r3) {
                    Option::None => None,
                    Option::Some((v4, r4)) => match s_dec_u64_vec(r4) {
                        Option::None => None,
                        Option::Some((v5, r5)) => match s_dec_u64_vec(r5) {
                            Option::None => None,
                            Option::Some((v6, r6)) => if r6.len() == 0 {
                                Some(
                                    (
                                        v1,
                                        v2,
                                        Seq::new(v3.len(), |i: int| v3[i] as i64),
                                        v4,
                                        v5,
                                        Seq::new(v6.len(), |i: int| v6[i] as i64),
                                    ),
                                )
                            } else {
                                None
                            },
                        },
                    },
                },
            },
        },
    }
}

/// Every vector short enough to carry a length prefix.
pub open spec fn s_stats_wf(st: Stats) -> bool {
    &&& st.images_stamps@.len() < 0x1_0000_0000
    &&& st.images_original_sizes@.len() < 0x1_0000_0000
    &&& st.images_latencies@.len() < 0x1_0000_0000
    &&& st.odometry_stamps@.len() < 0x1_0000_0000
    &&& st.odometry_original_sizes@.len() < 0x1_0000_0000
    &&& st.odometry_latencies@.len() < 0x1_0000_0000
}

pub fn encode_stats(st: &Stats, out: &mut Vec<u8>)
    requires
        s_stats_wf(*st),
    ensures
        final(out)@ == old(out)@ + s_enc_stats(*st),
{
    push_u64_vec(out, &st.images_stamps);
    push_u64_vec(out, &st.images_original_sizes);
    let lat1 = i64s_to_bits(&st.images_latencies);
    push_u64_vec(out, &lat1);
    push_u64_vec(out, &st.odometry_stamps);
    push_u64_vec(out, &st.odometry_original_sizes);
    let lat2 = i64s_to_bits(&st.odometry_latencies);
    push_u64_vec(out, &lat2);
    proof {
        crate::bytes::lemma_seq_concat7(
            old(out)@,
            s_enc_u64_vec(st.images_stamps@),
            s_enc_u64_vec(st.images_original_sizes@),
            s_enc_u64_vec(s_bits_of_i64s(st.images_latencies@)),
            s_enc_u64_vec(st.odometry_stamps@),
            s_enc_u64_vec(st.odometry_original_sizes@),
            s_enc_u64_vec(s_bits_of_i64s(st.odometry_latencies@)),
        );
    }
}

pub fn decode_stats(s: &[u8]) -> (r: Option<Stats>)
    ensures
        match r {
            Option::Some(st) => s_dec_stats(s@) == Some(s_stats_view(st)),
            Option::None => s_dec_stats(s@) is None,
        },
{
    proof {
        assert(s@.skip(0) =~= s@);
    }
    let r1 = match read_u64_vec(s, 0) {
        Option::Some(t) => t,
        Option::None => {
            return None;
        },
    };
    let r2 = match read_u64_vec(s, r1.1) {
        Option::Some(t) => t,
        Option::None => {
            return None;
        },
    };
    let r3 = match read_u64_vec(s, r2.1) {
        Option::Some(t) => t,
        Option::None => {
            return None;
        },
    };
    let r4 = match read_u64_vec(s, r3.1) {
        Option::Some(t) => t,
        Option::None => {
            return None;
        },
    };
    let r5 = match read_u64_vec(s, r4.1) {
        Option::Some(t) => t,
        Option::None => {
            return None;
        },
    };
    let r6 = match read_u64_vec(s, r5.1) {
        Option::Some(t) => t,
        Option::None => {
            return None;
        },
    };
    if r6.1 != s.len() {
        proof {
            assert(s@.skip(r6.1 as int).len() != 0);
        }
        return None;
    }
    proof {
        assert(s@.skip(r6.1 as int).len() == 0);
    }
    Some(
        Stats {
            images_stamps: r1.0,
            images_original_sizes: r2.0,
            images_latencies: bits_to_i64s(r3.0),
            odometry_stamps: r4.0,
            odometry_original_sizes: r5.0,
            odometry_latencies: bits_to_i64s(r6.0),
        },
    )
}

/// Encoding statistics and parsing them back yields the same records.
pub proof fn lemma_stats_round_trip(st: Stats)
    requires
        s_stats_wf(st),
    ensures
        s_dec_stats(s_enc_stats(st)) == Some(s_stats_view(st)),
{
    let e1 = s_enc_u64_vec(st.images_stamps@);
    let e2 = s_enc_u64_vec(st.images_original_sizes@);
    let e3 = s_enc_u64_vec(s_bits_of_i64s(st.images_latencies@));
    let e4 = s_enc_u64_vec(st.odometry_stamps@);
    let e5 = s_enc_u64_vec(st.odometry_original_sizes@);
    let e6 = s_enc_u64_vec(s_bits_of_i64s(st.odometry_latencies@));
    let rest5 = e6 + Seq::<u8>::empty();
    crate::bytes::lemma_seq_empty_unit(e6);
    lemma_u64_vec_round_trip(st.images_stamps@, e2 + (e3 + (e4 + (e5 + e6))));
    lemma_u64_vec_round_trip(st.images_original_sizes@, e3 + (e4 + (e5 + e6)));
    lemma_u64_vec_round_trip(s_bits_of_i64s(st.images_latencies@), e4 + (e5 + e6));
    lemma_u64_vec_round_trip(st.odometry_stamps@, e5 + e6);
    lemma_u64_vec_round_trip(st.odometry_original_sizes@, e6);
    lemma_u64_vec_round_trip(s_bits_of_i64s(st.odometry_latencies@), Seq::<u8>::empty());
    lemma_i64_bits_round_trip(st.images_latencies@);
    lemma_i64_bits_round_trip(st.odometry_latencies@);
}

/// A command from a viewer to the robot host.
#[derive(Clone, Debug)]
pub enum Command {
    Reset,
    SaveStats(Stats),
}

/// The wire form of a command: a tag, then any payload.
pub open spec fn s_enc_command(c: Command) -> Seq<u8> {
    match c {
        Command::Reset => seq![0u8],
        Command::SaveStats(st) => seq![1u8] + s_enc_stats(st),
    }
}

/// What a command's bytes denote, at the level of record sequences.
pub open spec fn s_dec_command(s: Seq<u8>) -> Option<Option<(Seq<u64>, Seq<u64>, Seq<i64>, Seq<
    u64,
>, Seq<u64>, Seq<i64>)>> {
    if s.len() == 1 && s[0] == 0 {
        Some(None)
    } else if s.len() >= 1 && s[0] == 1 {
        match s_dec_stats(s.skip(1)) {
            Option::None => None,
            Option::Some(v) => Some(Some(v)),
        }
    } else {
        None
    }
}

pub fn encode_command(c: &Command) -> (out: Vec<u8>)
    requires
        match c {
            Command::Reset => true,
            Command::SaveStats(st) => s_stats_wf(*st),
        },
    ensures
        out@ == s_enc_command(*c),
{
    let mut out: Vec<u8> = Vec::new();
    match c {
        Command::Reset => {
            out.push(0);
        },
        Command::SaveStats(st) => {
            out.push(1);
            encode_stats(st, &mut out);
        },
    }
    proof {
        assert(out@ =~= s_enc_command(*c));
    }
    out
}

pub fn decode_command(s: &[u8]) -> (r: Option<Command>)
    ensures
        match r {
            Option::Some(c) => match c {
                Command::Reset => s_dec_command(s@) == Some(
                    None::<(Seq<u64>, Seq<u64>, Seq<i64>, Seq<u64>, Seq<u64>, Seq<i64>)>,
                ),
                Command::SaveStats(st) => s_dec_command(s@) == Some(Some(s_stats_view(st))),
            },
            Option::None => s_dec_command(s@) is None,
        },
{
    if s.len() == 1 {
        if s[0] == 0 {
            return Some(Command::Reset);
        }
    }
    if s.len() >= 1 {
        if s[0] == 1 {
            let rest = s.len() - 1;
            let mut body: Vec<u8> = Vec::new();
            let mut i: usize = 0;
            while i < rest
                invariant
                    i <= rest,
                    rest == s@.len() - 1,
                    body@ =~= s@.subrange(1, 1 + i as int),
                decreases rest - i,
            {
                proof {
                    assert(s@.subrange(1, 1 + i as int).push(s@[1 + i]) =~= s@.subrange(
                        1,
                        1 + (i + 1),
                    ));
                }
                body.push(s[1 + i]);
                i += 1;
            }
            proof {
                assert(body@ =~= s@.skip(1));
            }
            return match decode_stats(body.as_slice()) {
                Option::Some(st) => Some(Command::SaveStats(st)),
                Option::None => None,
            };
        }
    }
    None
}

/// A command decodes back to itself.
pub proof fn lemma_command_round_trip(c: Command)
    requires
        match c {
            Command::Reset => true,
            Command::SaveStats(st) => s_stats_wf(st),
        },
    ensures
        match c {
            Command::Reset => s_dec_command(s_enc_command(c)) == Some(
                None::<(Seq<u64>, Seq<u64>, Seq<i64>, Seq<u64>, Seq<u64>, Seq<i64>)>,
            ),
            Command::SaveStats(st) => s_dec_command(s_enc_command(c)) == Some(
                Some(s_stats_view(st)),
            ),
        },
{
    match c {
        Command::Reset => {},
        Command::SaveStats(st) => {
            let e = s_enc_command(c);
            assert(e.skip(1) =~= s_enc_stats(st));
            lemma_stats_round_trip(st);
        },
    }
}

/// Pinhole intrinsics on the wire: width, height, then the four fixed-point
/// parameters as two's-complement words (40 bytes).
#[verifier::opaque]
pub open spec fn s_enc_intrinsics(c: crate::geom::CameraIntrinsics) -> Seq<u8> {
    s_u32_le(c.width) + (s_u32_le(c.height) + (s_u64_le(c.fx as u64) + (s_u64_le(c.fy as u64) + (
    s_u64_le(c.cx as u64) + s_u64_le(c.cy as u64)))))
}

#[verifier::opaque]
pub open spec fn s_dec_intrinsics_at(s: Seq<u8>, off: int) -> crate::geom::CameraIntrinsics {
    crate::geom::CameraIntrinsics {
        width: s_at_u32(s, off),
        height: s_at_u32(s, off + 4),
        fx: s_at_u64(s, off + 8) as i64,
        fy: s_at_u64(s, off + 16) as i64,
        cx: s_at_u64(s, off + 24) as i64,
        cy: s_at_u64(s, off + 32) as i64,
    }
}

/// Size of encoded intrinsics.
pub const INTRINSICS_WIRE_LEN: usize = 40;

#[verifier::rlimit(100)]
pub proof fn lemma_enc_intrinsics_len(c: crate::geom::CameraIntrinsics)
    ensures
        s_enc_intrinsics(c).len() == INTRINSICS_WIRE_LEN,
{
    reveal(s_enc_intrinsics);
    assert(s_u32_le(c.width).len() == 4);
    assert(s_u32_le(c.height).len() == 4);
    assert(s_u64_le(c.fx as u64).len() == 8);
    assert(s_u64_le(c.fy as u64).len() == 8);
    assert(s_u64_le(c.cx as u64).len() == 8);
    assert(s_u64_le(c.cy as u64).len() == 8);
}

pub fn encode_intrinsics(c: &crate::geom::CameraIntrinsics, out: &mut Vec<u8>)
    ensures
        final(out)@ == old(out)@ + s_enc_intrinsics(*c),
{
    push_u32(out, c.width);
    push_u32(out, c.height);
    push_u64(out, c.fx as u64);
    push_u64(out, c.fy as u64);
    push_u64(out, c.cx as u64);
    push_u64(out, c.cy as u64);
    proof {
        reveal(s_enc_intrinsics);
        crate::bytes::lemma_seq_concat7(
            old(out)@,
            s_u32_le(c.width),
            s_u32_le(c.height),
            s_u64_le(c.fx as u64),
            s_u64_le(c.fy as u64),
            s_u64_le(c.cx as u64),
            s_u64_le(c.cy as u64),
        );
    }
}

pub fn decode_intrinsics_at(s: &[u8], off: usize) -> (r: crate::geom::CameraIntrinsics)
    requires
        off + INTRINSICS_WIRE_LEN <= s@.len(),
    ensures
        r == s_dec_intrinsics_at(s@, off as int),
{
    let n = s.len();
    proof {
        reveal(s_dec_intrinsics_at);
        assert(off + INTRINSICS_WIRE_LEN <= n);
    }
    crate::geom::CameraIntrinsics {
        width: read_u32(s, off),
        height: read_u32(s, off + 4),
        fx: read_u64(s, off + 8) as i64,
        fy: read_u64(s, off + 16) as i64,
        cx: read_u64(s, off + 24) as i64,
        cy: read_u64(s, off + 32) as i64,
    }
}

/// Intrinsics read back from their own encoding.
#[verifier::rlimit(100)]
pub proof fn lemma_intrinsics_round_trip(c: crate::geom::CameraIntrinsics)
    ensures
        s_dec_intrinsics_at(s_enc_intrinsics(c), 0) == c,
{
    reveal(s_enc_intrinsics);
    reveal(s_dec_intrinsics_at);
    let a = s_u32_le(c.width);
    let b = s_u32_le(c.height);
    let x = s_u64_le(c.fx as u64);
    let y = s_u64_le(c.fy as u64);
    let z = s_u64_le(c.cx as u64);
    let w = s_u64_le(c.cy as u64);
    let s = s_enc_intrinsics(c);
    crate::bytes::lemma_seq_concat7(Seq::<u8>::empty(), a, b, x, y, z, w);
    crate::bytes::lemma_seq_empty_unit(a + b + x + y + z + w);
    crate::bytes::lemma_seq_empty_unit(a + (b + (x + (y + (z + w)))));
    assert(s == a + b + x + y + z + w);
    crate::bytes::lemma_seq_concat6_index(a, b, x, y, z, w, s);
    lemma_u32_le_round_trip(c.width);
    assert(s[0int] == a[0] && s[1int] == a[1] && s[2int] == a[2] && s[3int] == a[3]);
    assert(s[4int + 0] == b[0] && s[4int + 1] == b[1] && s[4int + 2] == b[2] && s[4int + 3]
        == b[3]);
    lemma_u32_le_round_trip(c.height);
    assert(s[8int + 0] == x[0] && s[8int + 1] == x[1] && s[8int + 2] == x[2] && s[8int + 3] == x[3]
        && s[8int + 4] == x[4] && s[8int + 5] == x[5] && s[8int + 6] == x[6] && s[8int + 7]
        == x[7]);
    lemma_u64_le_round_trip(c.fx as u64);
    assert(s[16int + 0] == y[0] && s[16int + 1] == y[1] && s[16int + 2] == y[2] && s[16int + 3]
        == y[3] && s[16int + 4] == y[4] && s[16int + 5] == y[5] && s[16int + 6] == y[6] && s[16int
        + 7] == y[7]);
    lemma_u64_le_round_trip(c.fy as u64);
    assert(s[24int + 0] == z[0] && s[24int + 1] == z[1] && s[24int + 2] == z[2] && s[24int + 3]
        == z[3] && s[24int + 4] == z[4] && s[24int + 5] == z[5] && s[24int + 6] == z[6] && s[24int
        + 7] == z[7]);
    lemma_u64_le_round_trip(c.cx as u64);
    assert(s[32int + 0] == w[0] && s[32int + 1] == w[1] && s[32int + 2] == w[2] && s[32int + 3]
        == w[3] && s[32int + 4] == w[4] && s[32int + 5] == w[5] && s[32int + 6] == w[6] && s[32int
        + 7] == w[7]);
    lemma_u64_le_round_trip(c.cy as u64);
    let fx = c.fx;
    let fy = c.fy;
    let cx = c.cx;
    let cy = c.cy;
    assert((fx as u64) as i64 == fx) by (bit_vector);
    assert((fy as u64) as i64 == fy) by (bit_vector);
    assert((cx as u64) as i64 == cx) by (bit_vector);
    assert((cy as u64) as i64 == cy) by (bit_vector);
}

/// A length-prefixed chunk of raw bytes.
pub open spec fn s_enc_chunk(v: Seq<u8>) -> Seq<u8> {
    s_u32_le(v.len() as u32) + v
}

/// Parse one length-prefixed chunk from the front of `s`, returning it and
/// the remainder.
pub open spec fn s_dec_chunk(s: Seq<u8>) -> Option<(Seq<u8>, Seq<u8>)> {
    if s.len() < 4 {
        None
    } else {
        let n = s_at_u32(s, 0) as int;
        if s.len() < 4 + n {
            None
        } else {
            Some((s.subrange(4, 4 + n), s.skip(4 + n)))
        }
    }
}

/// A chunk at the front of a stream parses back to itself.
pub proof fn lemma_chunk_round_trip(v: Seq<u8>, rest: Seq<u8>)
    requires
        v.len() < 0x1_0000_0000,
    ensures
        s_dec_chunk(s_enc_chunk(v) + rest) == Some((v, rest)),
{
    let pre = s_u32_le(v.len() as u32);
    let s = s_enc_chunk(v) + rest;
    crate::bytes::lemma_seq_assoc(pre, v, rest);
    assert(s == pre + (v + rest));
    assert(s[0] == pre[0] && s[1] == pre[1] && s[2] == pre[2] && s[3] == pre[3]);
    lemma_u32_le_round_trip(v.len() as u32);
    assert(s_at_u32(s, 0) == v.len() as u32);
    assert(s.subrange(4, 4 + v.len() as int) =~= v) by {
        assert forall|i: int| 0 <= i < v.len() implies s.subrange(4, 4 + v.len() as int)[i]
            == v[i] by {
            assert(s.subrange(4, 4 + v.len() as int)[i] == s[4 + i]);
            assert(s[4 + i] == (v + rest)[i]);
        }
    }
    assert(s.skip(4 + v.len() as int) =~= rest);
}

fn push_bytes(out: &mut Vec<u8>, v: &Vec<u8>)
    ensures
        final(out)@ == old(out)@ + v@,
{
    let mut i: usize = 0;
    while i < v.len()
        invariant
            i <= v@.len(),
            out@ == old(out)@ + v@.take(i as int),
        decreases v@.len() - i,
    {
        proof {
            assert(v@.take(i as int).push(v@[i as int]) =~= v@.take(i + 1));
        }
        out.push(v[i]);
        i += 1;
    }
    proof {
        assert(v@.take(v@.len() as int) =~= v@);
    }
}

fn read_bytes(s: &[u8], off: usize, n: usize) -> (r: Vec<u8>)
    requires
        off + n <= s@.len(),
    ensures
        r@ == s@.subrange(off as int, off + n),
{
    let total = s.len();
    let mut out: Vec<u8> = Vec::new();
    let mut i: usize = 0;
    while i < n
        invariant
            i <= n,
            off + n <= s@.len(),
            s@.len() <= usize::MAX,
            out@ == s@.subrange(off as int, off + i),
        decreases n - i,
    {
        proof {
            assert(s@.subrange(off as int, off + i).push(s@[off + i]) =~= s@.subrange(
                off as int,
                off + (i + 1),
            ));
        }
        out.push(s[off + i]);
        i += 1;
    }
    out
}

/// Append one length-prefixed chunk.
pub fn push_chunk(out: &mut Vec<u8>, v: &Vec<u8>)
    requires
        v@.len() < 0x1_0000_0000,
    ensures
        final(out)@ == old(out)@ + s_enc_chunk(v@),
{
    push_u32(out, v.len() as u32);
    push_bytes(out, v);
    proof {
        crate::bytes::lemma_seq_assoc(old(out)@, s_u32_le(v@.len() as u32), v@);
    }
}

/// Parse one length-prefixed chunk at `off`; on success also say where
/// parsing stopped.
pub fn read_chunk(s: &[u8], off: usize) -> (r: Option<(Vec<u8>, usize)>)
    requires
        off <= s@.len(),
    ensures
        match r {
            Option::Some(t) => {
                &&& s_dec_chunk(s@.skip(off as int)) == Some((t.0@, s@.skip(t.1 as int)))
                &&& off <= t.1 <= s@.len()
            },
            Option::None => s_dec_chunk(s@.skip(off as int)) is None,
        },
{
    let total = s.len();
    if total - off < 4 {
        return None;
    }
    let n32 = read_u32(s, off);
    proof {
        assert(s@.skip(off as int)[0] == s@[off as int]);
        assert(s@.skip(off as int)[1] == s@[off + 1]);
        assert(s@.skip(off as int)[2] == s@[off + 2]);
        assert(s@.skip(off as int)[3] == s@[off + 3]);
        assert(s_at_u32(s@.skip(off as int), 0) == n32);
    }
    let n = n32 as usize;
    if total - off - 4 < n {
        return None;
    }
    let body = read_bytes(s, off + 4, n);
    let end = off + 4 + n;
    proof {
        assert(s@.skip(off as int).subrange(4, 4 + n as int) =~= body@) by {
            assert forall|i: int|
                0 <= i < n implies #[trigger] s@.skip(off as int).subrange(4, 4 + n as int)[i]
                == body@[i] by {
                assert(s@.skip(off as int).subrange(4, 4 + n as int)[i] == s@.skip(off as int)[4
                    + i]);
                assert(s@.skip(off as int)[4 + i] == s@[off + 4 + i]);
                assert(body@[i] == s@[off + 4 + i]);
            }
        }
        assert(s@.skip(off as int).skip(4 + n as int) =~= s@.skip(end as int));
    }
    Some((body, end))
}

/// The over-the-wire frame: the capture pose, the compressed color and depth
/// images with their intrinsics, and the depth scale in micrometers.
#[derive(Clone, Debug)]
pub struct EncodedImagesMessage {
    pub odometry: OdometryMessage,
    pub color_image: Vec<u8>,
    pub color_intrinsics: crate::geom::CameraIntrinsics,
    pub depth_image: Vec<u8>,
    pub depth_intrinsics: crate::geom::CameraIntrinsics,
    pub depth_unit_um: u32,
}

pub open spec fn s_images_wf(m: EncodedImagesMessage) -> bool {
    m.color_image@.len() < 0x1_0000_0000 && m.depth_image@.len() < 0x1_0000_0000
}

/// The wire form: six length-prefixed chunks, in order the odometry record,
/// the color bytes, the color intrinsics, the depth bytes, the depth
/// intrinsics, and the depth unit.
pub open spec fn s_enc_images(m: EncodedImagesMessage) -> Seq<u8> {
    s_enc_chunk(s_enc_odometry(m.odometry)) + (s_enc_chunk(m.color_image@) + (s_enc_chunk(
        s_enc_intrinsics(m.color_intrinsics),
    ) + (s_enc_chunk(m.depth_image@) + (s_enc_chunk(s_enc_intrinsics(m.depth_intrinsics))
        + s_enc_chunk(s_u32_le(m.depth_unit_um))))))
}

/// Abstract form of a parsed images message.
pub open spec fn s_images_view(m: EncodedImagesMessage) -> (
    OdometryMessage,
    Seq<u8>,
    crate::geom::CameraIntrinsics,
    Seq<u8>,
    crate::geom::CameraIntrinsics,
    u32,
) {
    (
        m.odometry,
        m.color_image@,
        m.color_intrinsics,
        m.depth_image@,
        m.depth_intrinsics,
        m.depth_unit_um,
    )
}

/// What a byte stream parses to as an images message.
pub open spec fn s_dec_images(s: Seq<u8>) -> Option<(
    OdometryMessage,
    Seq<u8>,
    crate::geom::CameraIntrinsics,
    Seq<u8>,
    crate::geom::CameraIntrinsics,
    u32,
)> {
    match s_dec_chunk(s) {
        Option::None => None,
        Option::Some((c1, r1)) => match s_dec_chunk(r1) {
            Option::None => None,
            Option::Some((c2, r2)) => match s_dec_chunk(r2) {
                Option::None => None,
                Option::Some((c3, r3)) => match s_dec_chunk(r3) {
                    Option::None => None,
                    Option::Some((c4, r4)) => match s_dec_chunk(r4) {
                        Option::None => None,
                        Option::Some((c5, r5)) => match s_dec_chunk(r5) {
                            Option::None => None,
                            Option::Some((c6, r6)) => if r6.len() == 0 && c1.len() == 36
                                && c3.len() == 40 && c5.len() == 40 && c6.len() == 4 {
                                Some(
                                    (
                                        s_dec_odometry_at(c1, 0),
                                        c2,
                                        s_dec_intrinsics_at(c3, 0),
                                        c4,
                                        s_dec_intrinsics_at(c5, 0),
                                        s_at_u32(c6, 0),
                                    ),
                                )
                            } else {
                                None
                            },
                        },
                    },
                },
            },
        },
    }
}

pub fn encode_images(m: &EncodedImagesMessage) -> (out: Vec<u8>)
    requires
        s_images_wf(*m),
    ensures
        out@ == s_enc_images(*m),
{
    let mut out: Vec<u8> = Vec::new();
    let mut odo: Vec<u8> = Vec::new();
    encode_odometry(&m.odometry, &mut odo);
    proof {
        lemma_enc_odometry_len(m.odometry);
        lemma_enc_intrinsics_len(m.color_intrinsics);
        lemma_enc_intrinsics_len(m.depth_intrinsics);
        crate::bytes::lemma_seq_empty_unit(s_enc_odometry(m.odometry));
    }
    push_chunk(&mut out, &odo);
    push_chunk(&mut out, &m.color_image);
    let mut cintr: Vec<u8> = Vec::new();
    encode_intrinsics(&m.color_intrinsics, &mut cintr);
    proof {
        crate::bytes::lemma_seq_empty_unit(s_enc_intrinsics(m.color_intrinsics));
    }
    push_chunk(&mut out, &cintr);
    push_chunk(&mut out, &m.depth_image);
    let mut dintr: Vec<u8> = Vec::new();
    encode_intrinsics(&m.depth_intrinsics, &mut dintr);
    proof {
        crate::bytes::lemma_seq_empty_unit(s_enc_intrinsics(m.depth_intrinsics));
    }
    push_chunk(&mut out, &dintr);
    let mut unit: Vec<u8> = Vec::new();
    push_u32(&mut unit, m.depth_unit_um);
    push_chunk(&mut out, &unit);
    proof {
        crate::bytes::lemma_seq_empty_unit(s_enc_odometry(m.odometry));
        crate::bytes::lemma_seq_empty_unit(s_enc_intrinsics(m.color_intrinsics));
        crate::bytes::lemma_seq_empty_unit(s_enc_intrinsics(m.depth_intrinsics));
        crate::bytes::lemma_seq_empty_unit(s_u32_le(m.depth_unit_um));
        crate::bytes::lemma_seq_concat7(
            Seq::<u8>::empty(),
            s_enc_chunk(s_enc_odometry(m.odometry)),
            s_enc_chunk(m.color_image@),
            s_enc_chunk(s_enc_intrinsics(m.color_intrinsics)),
            s_enc_chunk(m.depth_image@),
            s_enc_chunk(s_enc_intrinsics(m.depth_intrinsics)),
            s_enc_chunk(s_u32_le(m.depth_unit_um)),
        );
        crate::bytes::lemma_seq_empty_unit(
            s_enc_chunk(s_enc_odometry(m.odometry)) + s_enc_chunk(m.color_image@) + s_enc_chunk(
                s_enc_intrinsics(m.color_intrinsics),
            ) + s_enc_chunk(m.depth_image@) + s_enc_chunk(s_enc_intrinsics(m.depth_intrinsics))
                + s_enc_chunk(s_u32_le(m.depth_unit_um)),
        );
        crate::bytes::lemma_seq_empty_unit(s_enc_images(*m));
    }
    out
}

pub fn decode_images(s: &[u8]) -> (r: Option<EncodedImagesMessage>)
    ensures
        match r {
            Option::Some(m) => s_dec_images(s@) == Some(s_images_view(m)),
            Option::None => s_dec_images(s@) is None,
        },
{
    proof {
        assert(s@.skip(0) =~= s@);
    }
    let c1 = match read_chunk(s, 0) {
        Option::Some(t) => t,
        Option::None => {
            return None;
        },
    };
    let c2 = match read_chunk(s, c1.1) {
        Option::Some(t) => t,
        Option::None => {
            return None;
        },
    };
    let c3 = match read_chunk(s, c2.1) {
        Option::Some(t) => t,
        Option::None => {
            return None;
        },
    };
    let c4 = match read_chunk(s, c3.1) {
        Option::Some(t) => t,
        Option::None => {
            return None;
        },
    };
    let c5 = match read_chunk(s, c4.1) {
        Option::Some(t) => t,
        Option::None => {
            return None;
        },
    };
    let c6 = match read_chunk(s, c5.1) {
        Option::Some(t) => t,
        Option::None => {
            return None;
        },
    };
    if c6.1 != s.len() {
        proof {
            assert(s@.skip(c6.1 as int).len() != 0);
        }
        return None;
    }
    proof {
        assert(s@.skip(c6.1 as int).len() == 0);
    }
    let chunk1 = c1.0;
    let chunk3 = c3.0;
    let chunk5 = c5.0;
    let chunk6 = c6.0;
    if chunk1.len() != 36 || chunk3.len() != 40 || chunk5.len() != 40 || chunk6.len() != 4 {
        return None;
    }
    let odometry = decode_odometry_at(chunk1.as_slice(), 0);
    let color_intrinsics = decode_intrinsics_at(chunk3.as_slice(), 0);
    let depth_intrinsics = decode_intrinsics_at(chunk5.as_slice(), 0);
    let depth_unit_um = read_u32(chunk6.as_slice(), 0);
    Some(
        EncodedImagesMessage {
            odometry,
            color_image: c2.0,
            color_intrinsics,
            depth_image: c4.0,
            depth_intrinsics,
            depth_unit_um,
        },
    )
}

/// An images message decodes back to its own records.
#[verifier::rlimit(100)]
#[verifier::spinoff_prover]
pub proof fn lemma_images_round_trip(m: EncodedImagesMessage)
    requires
        s_images_wf(m),
    ensures
        s_dec_images(s_enc_images(m)) == Some(s_images_view(m)),
{
    let odo = s_enc_odometry(m.odometry);
    let ci = s_enc_intrinsics(m.color_intrinsics);
    let di = s_enc_intrinsics(m.depth_intrinsics);
    let un = s_u32_le(m.depth_unit_um);
    let k1 = s_enc_chunk(odo);
    let k2 = s_enc_chunk(m.color_image@);
    let k3 = s_enc_chunk(ci);
    let k4 = s_enc_chunk(m.depth_image@);
    let k5 = s_enc_chunk(di);
    let k6 = s_enc_chunk(un);
    let s = s_enc_images(m);
    lemma_enc_odometry_len(m.odometry);
    lemma_enc_intrinsics_len(m.color_intrinsics);
    lemma_enc_intrinsics_len(m.depth_intrinsics);
    crate::bytes::lemma_seq_empty_unit(k6);
    let r1 = k2 + (k3 + (k4 + (k5 + k6)));
    let r2 = k3 + (k4 + (k5 + k6));
    let r3 = k4 + (k5 + k6);
    let r4 = k5 + k6;
    let r5 = k6;
    lemma_chunk_round_trip(odo, r1);
    assert(s_dec_chunk(s) == Some((odo, r1)));
    lemma_chunk_round_trip(m.color_image@, r2);
    assert(s_dec_chunk(r1) == Some((m.color_image@, r2)));
    lemma_chunk_round_trip(ci, r3);
    assert(s_dec_chunk(r2) == Some((ci, r3)));
    lemma_chunk_round_trip(m.depth_image@, r4);
    assert(s_dec_chunk(r3) == Some((m.depth_image@, r4)));
    lemma_chunk_round_trip(di, r5);
    assert(s_dec_chunk(r4) == Some((di, r5)));
    lemma_chunk_round_trip(un, Seq::<u8>::empty());
    assert(s_dec_chunk(r5) == Some((un, Seq::<u8>::empty())));
    assert(odo.subrange(0, 36) =~= odo);
    lemma_odometry_round_trip(m.odometry, odo, 0);
    assert(s_dec_odometry_at(odo, 0) == m.odometry);
    lemma_intrinsics_round_trip(m.color_intrinsics);
    lemma_intrinsics_round_trip(m.depth_intrinsics);
    lemma_u32_le_round_trip(m.depth_unit_um);
    assert(s_at_u32(un, 0) == m.depth_unit_um);
    assert(s_dec_images(s) == Some(s_images_view(m)));
}

} // verus!
