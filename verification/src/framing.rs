//! Wire framing: an unsigned varint length prefix followed by the frame's
//! bytes. The reader enforces a maximum frame size and reports a frame
//! whose declared length is over it as `FrameTooLarge`.

use vstd::prelude::*;

verus! {

/// Why a frame or an encoded value was refused.
#[derive(Clone, Copy, Debug, PartialEq, Eq, Structural)]
pub enum CodecError {
    /// The declared length of a frame is over the reader's maximum.
    FrameTooLarge,
    /// The bytes do not hold a well-formed encoding.
    Malformed,
}

/// The default maximum frame size: one mebibyte.
pub const DEFAULT_MAX_FRAME: usize = 1048576;

/// The varint encoding of `v`: seven bits per byte, lowest bits first,
/// the high bit of a byte marking that more bytes follow.
pub open spec fn varint_enc(v: u64) -> Seq<u8>
    decreases v,
{
    if v < 128 {
        seq![v as u8]
    } else {
        seq![(v % 128 + 128) as u8] + varint_enc(v / 128)
    }
}

/// What a varint at the head of `s` denotes: the value (as an unbounded
/// integer) and how many bytes it took, or `None` if `s` ends inside it.
pub open spec fn varint_parse(s: Seq<u8>) -> Option<(int, int)>
    decreases s.len(),
{
    if s.len() == 0 {
        None
    } else if s[0] < 128 {
        Some((s[0] as int, 1))
    } else {
        match varint_parse(s.skip(1)) {
            None => None,
            Some((v, n)) => Some(((s[0] - 128) as int + 128 * v, n + 1)),
        }
    }
}

/// A parsed varint took at least one byte and no more than the bytes
/// that are there.
pub proof fn lemma_varint_parse_len(s: Seq<u8>)
    ensures
        varint_parse(s) is Some ==> {
            let (v, n) = varint_parse(s)->Some_0;
            &&& 0 < n <= s.len()
            &&& v >= 0
        },
    decreases s.len(),
{
    if s.len() > 0 && s[0] >= 128 {
        lemma_varint_parse_len(s.skip(1));
        if varint_parse(s.skip(1)) is Some {
            let (v, n) = varint_parse(s.skip(1))->Some_0;
            assert((s[0] - 128) as int + 128 * v >= 0) by (nonlinear_arith)
                requires
                    v >= 0,
                    s[0] >= 128,
            ;
        }
    }
}

/// A varint encoding parses back to the value it was made from, whatever
/// follows it.
pub proof fn lemma_varint_round_trip(v: u64, rest: Seq<u8>)
    ensures
        varint_parse(varint_enc(v) + rest) == Some(
            (v as int, varint_enc(v).len() as int),
        ),
    decreases v,
{
    let s = varint_enc(v) + rest;
    if v < 128 {
        assert(s[0] == v as u8);
    } else {
        lemma_varint_round_trip(v / 128, rest);
        assert(s.skip(1) =~= varint_enc(v / 128) + rest);
        assert(s[0] == (v % 128 + 128) as u8);
        assert((s[0] - 128) as int + 128 * ((v / 128) as int) == v as int) by (nonlinear_arith)
            requires
                s[0] == (v % 128 + 128) as u8,
                v >= 128,
        ;
    }
}

/// Appends the bytes of `src` to `out`.
pub fn push_bytes(out: &mut Vec<u8>, src: &Vec<u8>)
    ensures
        final(out)@ == old(out)@ + src@,
{
    let mut i: usize = 0;
    while i < src.len()
        invariant
            i <= src.len(),
            out@ == old(out)@ + src@.take(i as int),
        decreases src.len() - i,
    {
        out.push(src[i]);
        proof {
            assert(old(out)@ + src@.take(i as int + 1) =~= (old(out)@ + src@.take(i as int)).push(
                src@[i as int],
            ));
        }
        i = i + 1;
    }
    proof {
        assert(src@.take(src@.len() as int) =~= src@);
    }
}

/// Appends the varint encoding of `v` to `out`.
pub fn write_varint(out: &mut Vec<u8>, v: u64)
    ensures
        final(out)@ == old(out)@ + varint_enc(v),
{
    let mut rem = v;
    while rem >= 128
        invariant
            out@ + varint_enc(rem) == old(out)@ + varint_enc(v),
        decreases rem,
    {
        let ghost before = out@;
        out.push((rem % 128 + 128) as u8);
        proof {
            assert(out@ + varint_enc(rem / 128) =~= before + varint_enc(rem));
        }
        rem = rem / 128;
    }
    let ghost before = out@;
    out.push(rem as u8);
    proof {
        assert(out@ =~= before + varint_enc(rem));
    }
}

/// Reads the varint starting at `pos`. Returns the value and the
/// position just after it, `None` where the buffer ends inside the
/// varint or the value does not fit in 64 bits.
pub fn read_varint(buf: &Vec<u8>, pos: usize) -> (r: Option<(u64, usize)>)
    requires
        pos <= buf@.len(),
    ensures
        match varint_parse(buf@.skip(pos as int)) {
            None => r is None,
            Some((v, n)) => {
                if v <= u64::MAX {
                    r == Some((v as u64, (pos + n) as usize))
                } else {
                    r is None
                }
            },
        },
    decreases buf@.len() - pos,
{
    if pos == buf.len() {
        return None;
    }
    let b = buf[pos];
    if b < 128 {
        return Some((b as u64, pos + 1));
    }
    proof {
        assert(buf@.skip(pos as int).skip(1) =~= buf@.skip(pos as int + 1));
    }
    match read_varint(buf, pos + 1) {
        None => {
            proof {
                let tail = buf@.skip(pos as int);
                if varint_parse(tail) is Some {
                    let (v, n) = varint_parse(tail.skip(1))->Some_0;
                    lemma_varint_parse_len(tail.skip(1));
                    assert((b - 128) as int + 128 * v > u64::MAX) by (nonlinear_arith)
                        requires
                            v > u64::MAX,
                            b >= 128,
                    ;
                }
            }
            None
        },
        Some((high, next)) => {
            proof {
                lemma_varint_parse_len(buf@.skip(pos as int + 1));
            }
            let low = (b - 128) as u64;
            if high <= (u64::MAX - low) / 128 {
                proof {
                    assert(low as int + 128 * (high as int) <= u64::MAX) by (nonlinear_arith)
                        requires
                            high <= (u64::MAX - low) / 128,
                            low < 128,
                    ;
                }
                Some((low + 128 * high, next))
            } else {
                proof {
                    assert(low as int + 128 * (high as int) > u64::MAX) by (nonlinear_arith)
                        requires
                            high > (u64::MAX - low) / 128,
                            low < 128,
                    ;
                }
                None
            }
        },
    }
}


/// Whether the varint starting at `pos` is complete: some byte of the
/// buffer ends it. A complete varint parses, whatever its value.
pub fn varint_complete(buf: &Vec<u8>, pos: usize) -> (r: bool)
    requires
        pos <= buf@.len(),
    ensures
        r == (varint_parse(buf@.skip(pos as int)) is Some),
{
    let mut i: usize = pos;
    while i < buf.len()
        invariant
            pos <= i <= buf@.len(),
            (varint_parse(buf@.skip(pos as int)) is Some) == (varint_parse(
                buf@.skip(i as int),
            ) is Some),
        decreases buf@.len() - i,
    {
        if buf[i] < 128 {
            proof {
                assert(buf@.skip(i as int)[0] == buf@[i as int]);
            }
            return true;
        }
        proof {
            assert(buf@.skip(i as int)[0] == buf@[i as int]);
            assert(buf@.skip(i as int).skip(1) =~= buf@.skip(i as int + 1));
        }
        i = i + 1;
    }
    proof {
        assert(buf@.skip(buf@.len() as int) =~= Seq::<u8>::empty());
    }
    false
}

/// The framing of `d`: its length as a varint, then its bytes.
pub open spec fn frame_enc(d: Seq<u8>) -> Seq<u8> {
    varint_enc(d.len() as u64) + d
}

/// A frame parses back to the bytes it was made from: the varint at the
/// head denotes the payload length, and the payload follows it.
pub proof fn lemma_frame_round_trip(d: Seq<u8>, rest: Seq<u8>)
    requires
        d.len() <= u64::MAX,
    ensures
        varint_parse(frame_enc(d) + rest) == Some(
            (d.len() as int, varint_enc(d.len() as u64).len() as int),
        ),
        (frame_enc(d) + rest).skip(varint_enc(d.len() as u64).len() as int).take(d.len() as int)
            =~= d,
{
    lemma_varint_round_trip(d.len() as u64, d + rest);
    assert(frame_enc(d) + rest =~= varint_enc(d.len() as u64) + (d + rest));
    assert((frame_enc(d) + rest).skip(varint_enc(d.len() as u64).len() as int).take(d.len() as int)
        =~= d);
}

/// Appends the framing of `data` to `out`.
pub fn write_frame(out: &mut Vec<u8>, data: &Vec<u8>)
    ensures
        final(out)@ == old(out)@ + frame_enc(data@),
{
    write_varint(out, data.len() as u64);
    push_bytes(out, data);
    proof {
        assert(out@ =~= old(out)@ + frame_enc(data@));
    }
}

/// Reads one frame starting at `pos`, holding its payload to at most
/// `max` bytes.
///
/// Returns `Ok(Some((payload, next)))` for a complete frame within the
/// limit, `Err(FrameTooLarge)` where the declared length is over `max`
/// (an over-64-bit declaration included), and `Ok(None)` where the
/// buffer ends before the frame does.
pub fn read_frame(buf: &Vec<u8>, pos: usize, max: usize) -> (r: Result<
    Option<(Vec<u8>, usize)>,
    CodecError,
>)
    requires
        pos <= buf@.len(),
    ensures
        ({
            let tail = buf@.skip(pos as int);
            match varint_parse(tail) {
                None => r == Result::<Option<(Vec<u8>, usize)>, CodecError>::Ok(
                    Option::<(Vec<u8>, usize)>::None,
                ),
                Some((v, n)) => {
                    if v > max {
                        r == Result::<Option<(Vec<u8>, usize)>, CodecError>::Err(
                            CodecError::FrameTooLarge,
                        )
                    } else if tail.len() < n + v {
                        r == Result::<Option<(Vec<u8>, usize)>, CodecError>::Ok(
                            Option::<(Vec<u8>, usize)>::None,
                        )
                    } else {
                        &&& r is Ok
                        &&& r->Ok_0 is Some
                        &&& r->Ok_0->Some_0.0@ == tail.subrange(n, n + v)
                        &&& r->Ok_0->Some_0.1 == pos + n + v
                    }
                },
            }
        }),
{
    let buf_len = buf.len();
    proof {
        lemma_varint_parse_len(buf@.skip(pos as int));
    }
    let parsed = read_varint(buf, pos);
    match parsed {
        None => {
            // a complete varint that read_varint refused declares a
            // length over 64 bits: over any limit
            if varint_complete(buf, pos) {
                proof {
                    let (v, n) = varint_parse(buf@.skip(pos as int))->Some_0;
                    assert(v > u64::MAX);
                    assert(max == (max as u64) <= u64::MAX);
                }
                Err(CodecError::FrameTooLarge)
            } else {
                Ok(None)
            }
        },
        Some((len, after)) => {
            if len > max as u64 {
                return Err(CodecError::FrameTooLarge);
            }
            let len_us = len as usize;
            if buf.len() - after < len_us {
                return Ok(None);
            }
            let mut data: Vec<u8> = Vec::new();
            let mut i: usize = 0;
            while i < len_us
                invariant
                    i <= len_us,
                    after + len_us <= buf@.len(),
                    buf@.len() <= usize::MAX,
                    data@ == buf@.subrange(after as int, after as int + i as int),
                decreases len_us - i,
            {
                data.push(buf[after + i]);
                proof {
                    assert(buf@.subrange(after as int, after as int + i as int + 1) =~= buf@
                        .subrange(after as int, after as int + i as int).push(
                        buf@[after as int + i],
                    ));
                }
                i = i + 1;
            }
            proof {
                let tail = buf@.skip(pos as int);
                let (v, n) = varint_parse(tail)->Some_0;
                assert(data@ =~= tail.subrange(n, n + v));
            }
            Ok(Some((data, after + len_us)))
        },
    }
}

} // verus!
