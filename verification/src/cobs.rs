//! Consistent Overhead Byte Stuffing: encodes arbitrary bytes into a stream
//! that contains no zero byte, so that a single zero can delimit frames on a
//! serial link. The encoding is a series of blocks, each a code byte `n`
//! (1..=255) followed by `n - 1` non-zero data bytes; a block with `n < 255`
//! that is not the last block stands for its data bytes followed by one zero.

use vstd::prelude::*;

verus! {

/// No byte of `s` is zero.
pub open spec fn zero_free(s: Seq<u8>) -> bool {
    forall|i: int| 0 <= i < s.len() ==> s[i] != 0
}

/// Index of the first zero byte of `s`, or `s.len()` if none occurs.
pub open spec fn first_zero(s: Seq<u8>) -> int
    decreases s.len(),
{
    if s.len() == 0 {
        0
    } else if s[0] == 0 {
        0
    } else {
        1 + first_zero(s.skip(1))
    }
}

/// `first_zero` points at the first zero: everything before it is non-zero,
/// and it is in bounds exactly when `s` holds a zero at all.
pub proof fn lemma_first_zero(s: Seq<u8>)
    ensures
        0 <= first_zero(s) <= s.len(),
        first_zero(s) < s.len() ==> s[first_zero(s)] == 0,
        forall|i: int| 0 <= i < first_zero(s) ==> s[i] != 0,
    decreases s.len(),
{
    if s.len() == 0 {
    } else if s[0] == 0 {
    } else {
        lemma_first_zero(s.skip(1));
        assert forall|i: int| 0 <= i < first_zero(s) implies s[i] != 0 by {
            if i > 0 {
                assert(s.skip(1)[i - 1] != 0);
            }
        }
    }
}

/// A zero at `i` behind a zero-free prefix is the first zero.
pub proof fn lemma_first_zero_is(s: Seq<u8>, i: int)
    requires
        0 <= i <= s.len(),
        forall|t: int| 0 <= t < i ==> s[t] != 0,
        i < s.len() ==> s[i] == 0,
    ensures
        first_zero(s) == i,
{
    lemma_first_zero(s);
    if first_zero(s) < i {
        assert(s[first_zero(s)] != 0);
    }
}

/// The COBS encoding of `s`.
pub open spec fn cobs_enc(s: Seq<u8>) -> Seq<u8>
    decreases s.len(),
{
    let fz = first_zero(s);
    if 0 <= fz < 254 && fz < s.len() {
        seq![(fz + 1) as u8] + s.take(fz) + cobs_enc(s.skip(fz + 1))
    } else if s.len() <= 253 {
        seq![(s.len() + 1) as u8] + s
    } else if s.len() == 254 {
        seq![255u8] + s
    } else {
        seq![255u8] + s.take(254) + cobs_enc(s.skip(254))
    }
}

/// The COBS decoding of `s`: `None` when `s` is not a well-formed encoding.
pub open spec fn cobs_dec(s: Seq<u8>) -> Option<Seq<u8>>
    decreases s.len(),
{
    if s.len() == 0 {
        Some(Seq::empty())
    } else {
        let n = s[0] as int;
        if n == 0 {
            None
        } else if s.len() < n {
            None
        } else {
            let chunk = s.subrange(1, n);
            let rest = s.skip(n);
            if rest.len() == 0 {
                Some(chunk)
            } else {
                match cobs_dec(rest) {
                    Option::None => None,
                    Option::Some(t) => Some(
                        chunk + (if n < 255 {
                            seq![0u8]
                        } else {
                            Seq::empty()
                        }) + t,
                    ),
                }
            }
        }
    }
}

/// An encoding is never empty.
pub proof fn lemma_cobs_enc_nonempty(s: Seq<u8>)
    ensures
        cobs_enc(s).len() >= 1,
{
}

/// The encoding contains no zero byte: a zero can delimit frames.
pub proof fn lemma_cobs_enc_zero_free(s: Seq<u8>)
    ensures
        zero_free(cobs_enc(s)),
    decreases s.len(),
{
    lemma_first_zero(s);
    let fz = first_zero(s);
    if 0 <= fz < 254 && fz < s.len() {
        lemma_cobs_enc_zero_free(s.skip(fz + 1));
        assert forall|i: int| 0 <= i < cobs_enc(s).len() implies cobs_enc(s)[i] != 0 by {
            if 1 <= i < 1 + fz {
                assert(cobs_enc(s)[i] == s[i - 1]);
            } else if i >= 1 + fz {
                assert(cobs_enc(s)[i] == cobs_enc(s.skip(fz + 1))[i - 1 - fz]);
            }
        }
    } else if s.len() <= 253 {
        assert forall|i: int| 0 <= i < cobs_enc(s).len() implies cobs_enc(s)[i] != 0 by {
            if i >= 1 {
                assert(cobs_enc(s)[i] == s[i - 1]);
                assert(s[i - 1] != 0);
            }
        }
    } else if s.len() == 254 {
        assert forall|i: int| 0 <= i < cobs_enc(s).len() implies cobs_enc(s)[i] != 0 by {
            if i >= 1 {
                assert(cobs_enc(s)[i] == s[i - 1]);
                assert(s[i - 1] != 0);
            }
        }
    } else {
        lemma_cobs_enc_zero_free(s.skip(254));
        assert forall|i: int| 0 <= i < cobs_enc(s).len() implies cobs_enc(s)[i] != 0 by {
            if 1 <= i < 255 {
                assert(cobs_enc(s)[i] == s[i - 1]);
                assert(s[i - 1] != 0);
            } else if i >= 255 {
                assert(cobs_enc(s)[i] == cobs_enc(s.skip(254))[i - 255]);
            }
        }
    }
}

/// Decoding inverts encoding.
pub proof fn lemma_cobs_round_trip(s: Seq<u8>)
    ensures
        cobs_dec(cobs_enc(s)) == Some(s),
    decreases s.len(),
{
    lemma_first_zero(s);
    let fz = first_zero(s);
    let e = cobs_enc(s);
    if 0 <= fz < 254 && fz < s.len() {
        lemma_cobs_round_trip(s.skip(fz + 1));
        lemma_cobs_enc_nonempty(s.skip(fz + 1));
        let n = e[0] as int;
        assert(n == fz + 1);
        assert(e.subrange(1, n) =~= s.take(fz));
        assert(e.skip(n) =~= cobs_enc(s.skip(fz + 1)));
        assert(s.take(fz) + seq![0u8] + s.skip(fz + 1) =~= s);
    } else if s.len() <= 253 {
        let n = e[0] as int;
        assert(n == s.len() + 1);
        assert(e.subrange(1, n) =~= s);
        assert(e.skip(n) =~= Seq::<u8>::empty());
    } else if s.len() == 254 {
        let n = e[0] as int;
        assert(n == 255);
        assert(e.subrange(1, n) =~= s);
        assert(e.skip(n) =~= Seq::<u8>::empty());
    } else {
        lemma_cobs_round_trip(s.skip(254));
        lemma_cobs_enc_nonempty(s.skip(254));
        let n = e[0] as int;
        assert(n == 255);
        assert(e.subrange(1, n) =~= s.take(254));
        assert(e.skip(n) =~= cobs_enc(s.skip(254)));
        assert(s.take(254) + Seq::<u8>::empty() + s.skip(254) =~= s);
    }
}

/// Linear bound on the encoded length: at most one byte of overhead for each
/// 254 bytes of input, plus the leading code byte. Stated multiplicatively to
/// avoid division.
pub proof fn lemma_cobs_enc_len(s: Seq<u8>)
    ensures
        254 * cobs_enc(s).len() <= 255 * s.len() + 254,
        cobs_enc(s).len() >= s.len() + 1,
    decreases s.len(),
{
    lemma_first_zero(s);
    let fz = first_zero(s);
    if 0 <= fz < 254 && fz < s.len() {
        lemma_cobs_enc_len(s.skip(fz + 1));
    } else if s.len() <= 254 {
    } else {
        lemma_cobs_enc_len(s.skip(254));
    }
}

/// COBS-encode `data`.
pub fn cobs_encode(data: &[u8]) -> (out: Vec<u8>)
    ensures
        out@ == cobs_enc(data@),
{
    let mut out: Vec<u8> = Vec::new();
    let mut pos: usize = 0;
    proof {
        assert(data@.skip(0) =~= data@);
        assert(Seq::<u8>::empty() + cobs_enc(data@) =~= cobs_enc(data@));
    }
    loop
        invariant_except_break
            pos <= data@.len(),
            cobs_enc(data@) == out@ + cobs_enc(data@.skip(pos as int)),
        ensures
            out@ == cobs_enc(data@),
        decreases data@.len() - pos,
    {
        let ghost rem = data@.skip(pos as int);
        let ghost base = out@;
        let n = data.len() - pos;
        let limit = if n < 254 {
            n
        } else {
            254
        };
        let mut i: usize = 0;
        let mut found = false;
        while i < limit && !found
            invariant
                limit <= n,
                n == data@.len() - pos,
                pos <= data@.len(),
                data@.len() <= usize::MAX,
                i <= limit,
                rem == data@.skip(pos as int),
                forall|t: int| 0 <= t < i ==> rem[t] != 0,
                found ==> i < limit && rem[i as int] == 0,
            decreases limit - i + (if found {
                0int
            } else {
                1int
            }),
        {
            if data[pos + i] == 0 {
                found = true;
            } else {
                i += 1;
            }
        }
        if found {
            // A zero ends this block; the block stands for the bytes before it
            // plus that zero.
            proof {
                lemma_first_zero_is(rem, i as int);
            }
            out.push((i + 1) as u8);
            let mut t: usize = 0;
            while t < i
                invariant
                    t <= i,
                    i < limit <= n,
                    n == data@.len() - pos,
                    pos <= data@.len(),
                    data@.len() <= usize::MAX,
                    rem == data@.skip(pos as int),
                    out@ == base + seq![(i + 1) as u8] + rem.take(t as int),
                decreases i - t,
            {
                proof {
                    assert(rem.take(t as int).push(rem[t as int]) =~= rem.take(t + 1));
                }
                out.push(data[pos + t]);
                t += 1;
            }
            proof {
                assert(cobs_enc(rem) == seq![(i + 1) as u8] + rem.take(i as int) + cobs_enc(
                    rem.skip(i + 1),
                ));
                assert(rem.skip(i + 1) =~= data@.skip(pos + i + 1));
                assert(out@ == base + (seq![(i + 1) as u8] + rem.take(i as int)));
                assert(cobs_enc(data@) == out@ + cobs_enc(data@.skip(pos + i + 1)));
            }
            pos = pos + i + 1;
        } else if limit == 254 && n > 254 {
            // 254 zero-free bytes with more to come: a full block with no
            // implied zero.
            proof {
                lemma_first_zero(rem);
                if first_zero(rem) < 254 {
                    assert(rem[first_zero(rem)] != 0);
                }
            }
            out.push(255);
            let mut t: usize = 0;
            while t < 254
                invariant
                    t <= 254,
                    254 <= n,
                    n == data@.len() - pos,
                    pos <= data@.len(),
                    data@.len() <= usize::MAX,
                    rem == data@.skip(pos as int),
                    out@ == base + seq![255u8] + rem.take(t as int),
                decreases 254 - t,
            {
                proof {
                    assert(rem.take(t as int).push(rem[t as int]) =~= rem.take(t + 1));
                }
                out.push(data[pos + t]);
                t += 1;
            }
            proof {
                assert(cobs_enc(rem) == seq![255u8] + rem.take(254) + cobs_enc(rem.skip(254)));
                assert(rem.skip(254) =~= data@.skip(pos + 254));
                assert(out@ == base + (seq![255u8] + rem.take(254)));
                assert(cobs_enc(data@) == out@ + cobs_enc(data@.skip(pos + 254)));
            }
            pos = pos + 254;
        } else {
            // The remainder is zero-free and fits one final block: code byte
            // 255 for exactly 254 bytes, the remainder's length plus one
            // otherwise.
            proof {
                lemma_first_zero_is(rem, rem.len() as int);
            }
            if n == 254 {
                out.push(255);
            } else {
                out.push((n + 1) as u8);
            }
            let ghost code: u8 = if n == 254 {
                255u8
            } else {
                (n + 1) as u8
            };
            let mut t: usize = 0;
            while t < n
                invariant
                    t <= n,
                    n == data@.len() - pos,
                    pos <= data@.len(),
                    n <= 254,
                    data@.len() <= usize::MAX,
                    rem == data@.skip(pos as int),
                    code == if n == 254 {
                        255u8
                    } else {
                        (n + 1) as u8
                    },
                    out@ == base + seq![code] + rem.take(t as int),
                decreases n - t,
            {
                proof {
                    assert(rem.take(t as int).push(rem[t as int]) =~= rem.take(t + 1));
                }
                out.push(data[pos + t]);
                t += 1;
            }
            proof {
                assert(rem.take(n as int) =~= rem);
                assert(cobs_enc(rem) == seq![code] + rem);
                assert(out@ == base + (seq![code] + rem));
                assert(out@ == cobs_enc(data@));
            }
            break ;
        }
    }
    out
}

/// COBS-decode `data`; `None` when `data` is not a well-formed encoding.
pub fn cobs_decode(data: &[u8]) -> (r: Option<Vec<u8>>)
    ensures
        match r {
            Option::Some(v) => cobs_dec(data@) == Some(v@),
            Option::None => cobs_dec(data@) is None,
        },
{
    let mut out: Vec<u8> = Vec::new();
    let mut pos: usize = 0;
    if data.len() == 0 {
        return Some(out);
    }
    proof {
        assert(data@.skip(0) =~= data@);
        if cobs_dec(data@) is Some {
            assert(cobs_dec(data@)->Some_0 =~= out@ + cobs_dec(data@)->Some_0);
        }
    }
    loop
        invariant
            0 <= pos < data@.len(),
            match cobs_dec(data@) {
                Option::None => cobs_dec(data@.skip(pos as int)) is None,
                Option::Some(full) => cobs_dec(data@.skip(pos as int)) is Some && full == out@
                    + cobs_dec(data@.skip(pos as int))->Some_0,
            },
        decreases data@.len() - pos,
    {
        let ghost rem = data@.skip(pos as int);
        let ghost base = out@;
        let code = data[pos];
        if code == 0 {
            return None;
        }
        let n = code as usize;
        if data.len() - pos < n {
            return None;
        }
        let mut t: usize = 1;
        while t < n
            invariant
                1 <= t <= n,
                pos + n <= data@.len(),
                data@.len() <= usize::MAX,
                rem == data@.skip(pos as int),
                out@ == base + rem.subrange(1, t as int),
            decreases n - t,
        {
            proof {
                assert(rem.subrange(1, t as int).push(rem[t as int]) =~= rem.subrange(1, t + 1));
            }
            out.push(data[pos + t]);
            t += 1;
        }
        proof {
            assert(rem.skip(n as int) =~= data@.skip(pos + n));
        }
        pos = pos + n;
        if pos == data.len() {
            proof {
                assert(rem.skip(n as int).len() == 0);
                assert(cobs_dec(rem) == Some(rem.subrange(1, n as int)));
            }
            return Some(out);
        }
        if code < 255 {
            out.push(0);
        }
        proof {
            let rest = data@.skip(pos as int);
            assert(rest.len() > 0);
            if code < 255 {
                assert(out@ == base + rem.subrange(1, n as int) + seq![0u8]);
                if cobs_dec(rest) is Some {
                    assert((base + rem.subrange(1, n as int) + seq![0u8]) + cobs_dec(rest)->Some_0
                        =~= base + (rem.subrange(1, n as int) + seq![0u8] + cobs_dec(
                        rest,
                    )->Some_0));
                }
            } else {
                assert(out@ == base + rem.subrange(1, n as int));
                if cobs_dec(rest) is Some {
                    assert((base + rem.subrange(1, n as int)) + cobs_dec(rest)->Some_0 =~= base + (
                    rem.subrange(1, n as int) + Seq::<u8>::empty() + cobs_dec(rest)->Some_0));
                }
            }
        }
    }
}

} // verus!
