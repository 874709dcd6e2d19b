//! Message framing over a raw serial byte stream: each frame is
//! `COBS(payload || CRC16_XMODEM_LE(payload)) || 0x00`. The terminating zero
//! is the frame delimiter; the encoded body contains no zero, so a receiver
//! that starts mid-stream resynchronizes on the next zero byte.

use vstd::prelude::*;
use crate::checksum::{crc16, crc16_xmodem};
use crate::cobs::{cobs_dec, cobs_decode, cobs_enc, cobs_encode, first_zero, lemma_cobs_enc_len,
    lemma_cobs_enc_zero_free, lemma_cobs_round_trip, lemma_first_zero, lemma_first_zero_is,
    zero_free};

verus! {

/// Size of the frame buffer: a frame whose encoded body reaches this many
/// bytes without a terminator overflows the receiver, and a payload that
/// cannot be framed within this many bytes overflows the sender.
pub const DEFAULT_BUF_SIZE: usize = 256;

#[derive(Clone, Copy, Debug, PartialEq, Eq, Structural)]
pub enum Error {
    IoError,
    BufferOverflow,
    InvalidMessage,
}

/// A source of bytes (a serial port, or an in-memory buffer). `incoming`
/// models the bytes the source will deliver, in order; `read_byte` either
/// delivers the next one or fails without consuming anything.
pub trait ByteReader: Sized {
    spec fn incoming(&self) -> Seq<u8>;

    fn read_byte(&mut self) -> (r: Result<u8, ()>)
        ensures
            match r {
                Result::Ok(b) => old(self).incoming().len() > 0 && b == old(
                    self,
                ).incoming()[0] && final(self).incoming() == old(self).incoming().skip(1),
                Result::Err(_) => final(self).incoming() == old(self).incoming(),
            },
    ;
}

/// A sink of bytes. `written` models everything written so far; a failing
/// write may leave any prefix of the attempted bytes behind.
pub trait ByteWriter: Sized {
    spec fn written(&self) -> Seq<u8>;

    fn write_all_bytes(&mut self, data: &[u8]) -> (r: Result<(), ()>)
        ensures
            match r {
                Result::Ok(_) => final(self).written() == old(self).written() + data@,
                Result::Err(_) => exists|k: int|
                    0 <= k <= data@.len() && final(self).written() == old(self).written()
                        + data@.take(k),
            },
    ;
}

/// An in-memory byte source, for loopback use and tests.
pub struct MemReader {
    data: Vec<u8>,
    pos: usize,
}

impl MemReader {
    pub fn new(data: Vec<u8>) -> (r: Self)
        ensures
            r.incoming() == data@,
    {
        proof {
            assert(data@.skip(0) =~= data@);
        }
        MemReader { data, pos: 0 }
    }
}

impl MemReader {
    /// How many bytes are still unread.
    pub fn remaining_len(&self) -> (r: usize)
        ensures
            r == self.incoming().len(),
    {
        if self.pos <= self.data.len() {
            self.data.len() - self.pos
        } else {
            0
        }
    }
}

impl ByteReader for MemReader {
    closed spec fn incoming(&self) -> Seq<u8> {
        if self.pos <= self.data@.len() {
            self.data@.skip(self.pos as int)
        } else {
            Seq::empty()
        }
    }

    fn read_byte(&mut self) -> (r: Result<u8, ()>) {
        if self.pos < self.data.len() {
            let b = self.data[self.pos];
            self.pos = self.pos + 1;
            proof {
                assert(old(self).incoming().skip(1) =~= self.data@.skip(self.pos as int));
            }
            Ok(b)
        } else {
            Err(())
        }
    }
}

/// An in-memory byte sink, for loopback use and tests.
pub struct MemWriter {
    data: Vec<u8>,
}

impl MemWriter {
    pub fn new() -> (r: Self)
        ensures
            r.written() == Seq::<u8>::empty(),
    {
        MemWriter { data: Vec::new() }
    }

    /// The bytes written so far.
    pub fn bytes(&self) -> (r: &Vec<u8>)
        ensures
            r@ == self.written(),
    {
        &self.data
    }

    /// Hand the written bytes over, leaving the sink empty.
    pub fn take_bytes(&mut self) -> (r: Vec<u8>)
        ensures
            r@ == old(self).written(),
            final(self).written() == Seq::<u8>::empty(),
    {
        let mut out: Vec<u8> = Vec::new();
        core::mem::swap(&mut out, &mut self.data);
        out
    }
}

impl ByteWriter for MemWriter {
    closed spec fn written(&self) -> Seq<u8> {
        self.data@
    }

    fn write_all_bytes(&mut self, data: &[u8]) -> (r: Result<(), ()>) {
        let mut i: usize = 0;
        while i < data.len()
            invariant
                i <= data@.len(),
                self.data@ == old(self).data@ + data@.take(i as int),
            decreases data@.len() - i,
        {
            proof {
                assert(data@.take(i as int).push(data@[i as int]) =~= data@.take(i + 1));
            }
            self.data.push(data[i]);
            i += 1;
        }
        proof {
            assert(data@.take(data@.len() as int) =~= data@);
        }
        Ok(())
    }
}

/// Low CRC byte, as sent on the wire (little-endian).
pub open spec fn crc_lo(p: Seq<u8>) -> u8 {
    (crc16_xmodem(p) % 256) as u8
}

/// High CRC byte.
pub open spec fn crc_hi(p: Seq<u8>) -> u8 {
    (crc16_xmodem(p) / 256) as u8
}

/// The two CRC bytes appended to a payload before encoding.
pub open spec fn crc_le(p: Seq<u8>) -> Seq<u8> {
    seq![crc_lo(p), crc_hi(p)]
}

/// The COBS-encoded body of a frame for payload `p` (everything but the
/// terminating zero).
pub open spec fn frame_body(p: Seq<u8>) -> Seq<u8> {
    cobs_enc(p + crc_le(p))
}

/// The complete wire frame for payload `p`.
pub open spec fn frame_bytes(p: Seq<u8>) -> Seq<u8> {
    frame_body(p).push(0)
}

/// A payload too large for the frame buffer: either its length check fails
/// outright, or its encoded body does not fit.
pub open spec fn frame_too_big(p: Seq<u8>) -> bool {
    p.len() + 2 > DEFAULT_BUF_SIZE || frame_body(p).len() > DEFAULT_BUF_SIZE
}

/// What decoding and checking one frame body (the bytes before a terminator)
/// yields.
pub open spec fn parse_frame(body: Seq<u8>) -> Result<Seq<u8>, Error> {
    match cobs_dec(body) {
        Option::None => Err(Error::InvalidMessage),
        Option::Some(d) => if d.len() < 2 {
            Err(Error::InvalidMessage)
        } else {
            let payload = d.take(d.len() - 2);
            if d[d.len() - 2] == crc_lo(payload) && d[d.len() - 1] == crc_hi(payload) {
                Ok(payload)
            } else {
                Err(Error::InvalidMessage)
            }
        },
    }
}

/// What one receive yields from a synchronized stream `s`.
pub open spec fn recv_synced(s: Seq<u8>) -> Result<Seq<u8>, Error> {
    let j = first_zero(s);
    if j >= DEFAULT_BUF_SIZE {
        Err(Error::BufferOverflow)
    } else if j == s.len() {
        Err(Error::IoError)
    } else {
        parse_frame(s.take(j))
    }
}

/// How many bytes one receive consumes from a synchronized stream.
pub open spec fn recv_synced_used(s: Seq<u8>) -> int {
    let j = first_zero(s);
    if j >= DEFAULT_BUF_SIZE {
        DEFAULT_BUF_SIZE as int
    } else if j == s.len() {
        j
    } else {
        j + 1
    }
}

/// What one receive yields from stream `s`, hunting for a delimiter first
/// when not synchronized.
pub open spec fn recv_spec(s: Seq<u8>, synced: bool) -> Result<Seq<u8>, Error> {
    if synced {
        recv_synced(s)
    } else {
        let i = first_zero(s);
        if i == s.len() {
            Err(Error::IoError)
        } else {
            recv_synced(s.skip(i + 1))
        }
    }
}

/// How many bytes one receive consumes from stream `s`.
pub open spec fn recv_used(s: Seq<u8>, synced: bool) -> int {
    if synced {
        recv_synced_used(s)
    } else {
        let i = first_zero(s);
        if i == s.len() {
            i
        } else {
            i + 1 + recv_synced_used(s.skip(i + 1))
        }
    }
}

/// Synchronous framed messaging over a byte reader and a byte writer.
pub struct Bridge<Reader, Writer> {
    reader: Reader,
    writer: Writer,
    synced: bool,
}

impl<R: ByteReader, W: ByteWriter> Bridge<R, W> {
    pub closed spec fn spec_reader(&self) -> R {
        self.reader
    }

    pub closed spec fn spec_writer(&self) -> W {
        self.writer
    }

    pub closed spec fn spec_synced(&self) -> bool {
        self.synced
    }

    pub fn new(reader: R, writer: W) -> (b: Self)
        ensures
            b.spec_reader() == reader,
            b.spec_writer() == writer,
            b.spec_synced(),
    {
        Bridge { reader, writer, synced: true }
    }

    /// The writer, for callers that need the bytes written so far.
    pub fn writer(&self) -> (r: &W)
        ensures
            *r == self.spec_writer(),
    {
        &self.writer
    }

    /// Take the framer apart, handing its reader and writer back.
    pub fn into_parts(self) -> (r: (R, W))
        ensures
            r.0 == self.spec_reader(),
            r.1 == self.spec_writer(),
    {
        let Bridge { reader, writer, synced: _ } = self;
        (reader, writer)
    }

    /// Frame `data` and write the frame. Fails with `BufferOverflow`, writing
    /// nothing, exactly when the payload does not fit the frame buffer; an
    /// `IoError` may leave a prefix of the frame behind.
    pub fn send(&mut self, data: &[u8]) -> (r: Result<(), Error>)
        ensures
            final(self).spec_reader() == old(self).spec_reader(),
            final(self).spec_synced() == old(self).spec_synced(),
            match r {
                Result::Ok(_) => !frame_too_big(data@) && final(self).spec_writer().written()
                    == old(self).spec_writer().written() + frame_bytes(data@),
                Result::Err(e) => if e == Error::BufferOverflow {
                    frame_too_big(data@) && final(self).spec_writer().written() == old(
                        self,
                    ).spec_writer().written()
                } else {
                    e == Error::IoError && !frame_too_big(data@) && exists|k: int|
                        0 <= k <= frame_bytes(data@).len() && final(self).spec_writer().written()
                            == old(self).spec_writer().written() + frame_bytes(data@).take(k)
                },
            },
    {
        if data.len() > DEFAULT_BUF_SIZE - 2 {
            return Err(Error::BufferOverflow);
        }
        let mut msg: Vec<u8> = Vec::new();
        let mut i: usize = 0;
        while i < data.len()
            invariant
                i <= data@.len(),
                msg@ == data@.take(i as int),
            decreases data@.len() - i,
        {
            proof {
                assert(data@.take(i as int).push(data@[i as int]) =~= data@.take(i + 1));
            }
            msg.push(data[i]);
            i += 1;
        }
        proof {
            assert(data@.take(data@.len() as int) =~= data@);
        }
        let c = crc16(msg.as_slice());
        msg.push((c % 256) as u8);
        msg.push((c / 256) as u8);
        proof {
            assert(msg@ =~= data@ + crc_le(data@));
        }
        let mut encoded = cobs_encode(msg.as_slice());
        if encoded.len() > DEFAULT_BUF_SIZE {
            return Err(Error::BufferOverflow);
        }
        encoded.push(0);
        proof {
            assert(encoded@ == frame_bytes(data@));
        }
        match self.writer.write_all_bytes(encoded.as_slice()) {
            Result::Ok(_) => Ok(()),
            Result::Err(_) => Err(Error::IoError),
        }
    }

    /// Read one frame: hunt for a delimiter if out of sync, take bytes up to
    /// the next delimiter, COBS-decode them and check the CRC. On success the
    /// payload replaces `dest`'s contents. Every outcome other than `IoError`
    /// is the pure function `recv_spec` of the incoming bytes; an `IoError`
    /// clears the synchronization flag.
    pub fn recv(&mut self, dest: &mut Vec<u8>) -> (r: Result<usize, Error>)
        ensures
            final(self).spec_writer() == old(self).spec_writer(),
            match r {
                Result::Ok(n) => {
                    &&& recv_spec(old(self).spec_reader().incoming(), old(self).spec_synced())
                        == Ok::<Seq<u8>, Error>(final(dest)@)
                    &&& n == final(dest)@.len()
                    &&& final(self).spec_synced()
                    &&& final(self).spec_reader().incoming() == old(
                        self,
                    ).spec_reader().incoming().skip(
                        recv_used(old(self).spec_reader().incoming(), old(self).spec_synced()),
                    )
                },
                Result::Err(e) => {
                    &&& final(dest)@ == old(dest)@
                    &&& if e == Error::IoError {
                        !final(self).spec_synced()
                    } else {
                        recv_spec(old(self).spec_reader().incoming(), old(self).spec_synced())
                            == Err::<Seq<u8>, Error>(e) && final(self).spec_synced()
                            && final(self).spec_reader().incoming() == old(
                            self,
                        ).spec_reader().incoming().skip(
                            recv_used(old(self).spec_reader().incoming(), old(self).spec_synced()),
                        )
                    }
                },
            },
    {
        let ghost s0 = self.reader.incoming();
        let ghost synced0 = self.synced;
        proof {
            lemma_first_zero(s0);
        }
        if !self.synced {
            let ghost mut k: int = 0;
            loop
                invariant_except_break
                    self.reader.incoming() == s0.skip(k),
                    !self.synced,
                invariant
                    s0 == old(self).spec_reader().incoming(),
                    synced0 == old(self).spec_synced(),
                    0 <= k <= s0.len(),
                    forall|t: int| 0 <= t < k ==> s0[t] != 0,
                    self.writer == old(self).spec_writer(),
                    dest@ == old(dest)@,
                ensures
                    self.synced,
                    self.writer == old(self).spec_writer(),
                    first_zero(s0) < s0.len(),
                    self.reader.incoming() == s0.skip(first_zero(s0) + 1),
                decreases s0.len() - k,
            {
                match self.reader.read_byte() {
                    Result::Err(_) => {
                        return Err(Error::IoError);
                    },
                    Result::Ok(b) => {
                        proof {
                            assert(s0.skip(k).len() > 0);
                            assert(b == s0[k]);
                        }
                        if b == 0 {
                            self.synced = true;
                            proof {
                                lemma_first_zero_is(s0, k);
                                assert(s0.skip(k).skip(1) =~= s0.skip(k + 1));
                            }
                            break ;
                        }
                        proof {
                            assert(s0.skip(k).skip(1) =~= s0.skip(k + 1));
                            k = k + 1;
                        }
                    },
                }
            }
        }
        let ghost s1 = self.reader.incoming();
        proof {
            lemma_first_zero(s1);
        }
        let mut buf: Vec<u8> = Vec::new();
        loop
            invariant_except_break
                self.reader.incoming() == s1.skip(buf@.len() as int),
            invariant
                s0 == old(self).spec_reader().incoming(),
                synced0 == old(self).spec_synced(),
                buf@.len() <= s1.len(),
                buf@.len() <= DEFAULT_BUF_SIZE,
                buf@ == s1.take(buf@.len() as int),
                forall|t: int| 0 <= t < buf@.len() ==> s1[t] != 0,
                self.synced,
                self.writer == old(self).spec_writer(),
                dest@ == old(dest)@,
                synced0 ==> s1 == s0,
                !synced0 ==> first_zero(s0) < s0.len() && s1 == s0.skip(first_zero(s0) + 1),
            ensures
                self.synced,
                self.writer == old(self).spec_writer(),
                first_zero(s1) == buf@.len() < DEFAULT_BUF_SIZE,
                buf@ == s1.take(buf@.len() as int),
                first_zero(s1) < s1.len(),
                self.reader.incoming() == s1.skip(buf@.len() as int + 1),
            decreases s1.len() - buf@.len(),
        {
            if buf.len() >= DEFAULT_BUF_SIZE {
                proof {
                    assert(buf@.len() == DEFAULT_BUF_SIZE);
                    assert(self.reader.incoming() == s1.skip(DEFAULT_BUF_SIZE as int));
                    lemma_first_zero(s0);
                    lemma_first_zero(s1);
                    if first_zero(s1) < DEFAULT_BUF_SIZE {
                        assert(s1[first_zero(s1)] != 0);
                    }
                    assert(recv_synced(s1) == Err::<Seq<u8>, Error>(Error::BufferOverflow));
                    assert(recv_synced_used(s1) == DEFAULT_BUF_SIZE as int);
                    if !synced0 {
                        vstd::seq_lib::lemma_seq_skip_of_skip(
                            s0,
                            first_zero(s0) + 1,
                            DEFAULT_BUF_SIZE as int,
                        );
                    }
                    assert(recv_used(s0, synced0) == if synced0 {
                        256int
                    } else {
                        first_zero(s0) + 1 + 256
                    });
                    if synced0 {
                        assert(self.reader.incoming() == s0.skip(256));
                    } else {
                        assert(self.reader.incoming() == s0.skip(first_zero(s0) + 1 + 256));
                    }
                    assert(self.reader.incoming() == s0.skip(recv_used(s0, synced0)));
                    assert(recv_spec(s0, synced0) == Err::<Seq<u8>, Error>(Error::BufferOverflow));
                }
                return Err(Error::BufferOverflow);
            }
            match self.reader.read_byte() {
                Result::Err(_) => {
                    self.synced = false;
                    return Err(Error::IoError);
                },
                Result::Ok(b) => {
                    proof {
                        assert(s1.skip(buf@.len() as int).len() > 0);
                        assert(b == s1[buf@.len() as int]);
                    }
                    if b == 0 {
                        proof {
                            lemma_first_zero_is(s1, buf@.len() as int);
                            assert(s1.skip(buf@.len() as int).skip(1) =~= s1.skip(
                                buf@.len() as int + 1,
                            ));
                        }
                        break ;
                    }
                    proof {
                        assert(s1.take(buf@.len() as int).push(b) =~= s1.take(buf@.len() as int + 1));
                        assert(s1.skip(buf@.len() as int).skip(1) =~= s1.skip(buf@.len() as int + 1));
                    }
                    buf.push(b);
                },
            }
        }
        let ghost j = first_zero(s1);
        proof {
            lemma_first_zero(s0);
            lemma_first_zero(s1);
            assert(recv_synced(s1) == parse_frame(s1.take(j)));
            assert(recv_synced_used(s1) == j + 1);
            assert(buf@ == s1.take(j));
            if !synced0 {
                vstd::seq_lib::lemma_seq_skip_of_skip(s0, first_zero(s0) + 1, j + 1);
            }
            assert(self.reader.incoming() == s0.skip(recv_used(s0, synced0)));
            assert(recv_spec(s0, synced0) == parse_frame(buf@));
        }
        let decoded = cobs_decode(buf.as_slice());
        match decoded {
            Option::None => Err(Error::InvalidMessage),
            Option::Some(mut d) => {
                if d.len() < 2 {
                    return Err(Error::InvalidMessage);
                }
                let plen = d.len() - 2;
                let rx_lo = d[plen];
                let rx_hi = d[plen + 1];
                d.truncate(plen);
                proof {
                    assert(d@ =~= cobs_dec(buf@)->Some_0.take(plen as int));
                }
                let c = crc16(d.as_slice());
                if rx_lo != (c % 256) as u8 || rx_hi != (c / 256) as u8 {
                    return Err(Error::InvalidMessage);
                }
                let n = d.len();
                *dest = d;
                Ok(n)
            },
        }
    }
}

/// Any payload up to this length frames and is received back whatever its
/// bytes; longer payloads can still frame when their content stuffs compactly.
pub const MAX_ROUND_TRIP_PAYLOAD: usize = 251;

/// A complete frame at the head of a synchronized stream is received as its
/// payload, consuming exactly the frame.
pub proof fn lemma_recv_synced_frame(p: Seq<u8>, rest: Seq<u8>)
    requires
        p.len() <= MAX_ROUND_TRIP_PAYLOAD,
    ensures
        recv_synced(frame_bytes(p) + rest) == Ok::<Seq<u8>, Error>(p),
        recv_synced_used(frame_bytes(p) + rest) == frame_bytes(p).len(),
        !frame_too_big(p),
{
    let body = p + crc_le(p);
    let e = cobs_enc(body);
    lemma_cobs_enc_zero_free(body);
    lemma_cobs_enc_len(body);
    lemma_cobs_round_trip(body);
    assert(e.len() <= 255);
    let s = frame_bytes(p) + rest;
    assert forall|t: int| 0 <= t < e.len() implies s[t] != 0 by {
        assert(s[t] == e[t]);
    }
    assert(s[e.len() as int] == 0);
    lemma_first_zero_is(s, e.len() as int);
    assert(s.take(e.len() as int) =~= e);
    assert(body.take(body.len() - 2) =~= p);
    assert(body[body.len() - 2] == crc_lo(p));
    assert(body[body.len() - 1] == crc_hi(p));
    assert(parse_frame(e) == Ok::<Seq<u8>, Error>(p));
}

/// Framer round trip: a frame sent for any payload of at most
/// `MAX_ROUND_TRIP_PAYLOAD` bytes is read back as exactly that payload by a
/// synchronized receiver, whatever follows it on the stream.
pub proof fn lemma_framer_round_trip(p: Seq<u8>, rest: Seq<u8>)
    requires
        p.len() <= MAX_ROUND_TRIP_PAYLOAD,
    ensures
        !frame_too_big(p),
        recv_spec(frame_bytes(p) + rest, true) == Ok::<Seq<u8>, Error>(p),
        recv_used(frame_bytes(p) + rest, true) == frame_bytes(p).len(),
{
    lemma_recv_synced_frame(p, rest);
}

/// Framer resynchronization: an unsynchronized receiver reading arbitrary
/// zero-free junk, a delimiter, then a valid frame yields that frame's
/// payload on its first receive.
pub proof fn lemma_framer_resync(junk: Seq<u8>, p: Seq<u8>)
    requires
        p.len() <= MAX_ROUND_TRIP_PAYLOAD,
        zero_free(junk),
    ensures
        recv_spec(junk + seq![0u8] + frame_bytes(p), false) == Ok::<Seq<u8>, Error>(p),
{
    let s = junk + seq![0u8] + frame_bytes(p);
    assert(s[junk.len() as int] == 0);
    lemma_first_zero_is(s, junk.len() as int);
    lemma_recv_synced_frame(p, Seq::empty());
    assert(s.skip(junk.len() as int + 1) =~= frame_bytes(p) + Seq::<u8>::empty());
}

} // verus!
