//! Length-prefixed framing, with the optional per-packet compression layer.
use vstd::prelude::*;

use crate::bindings::{zlib_compress, zlib_compressed, zlib_decompress, zlib_decompressed};
use crate::error::ProtoError;
use crate::read::read_varint;
use crate::reader::Reader;
use crate::wire::{leb_len, leb_value, parse_varint, varint_bytes};
use crate::write::{write_bytearray, write_varint};

verus! {

/// The largest frame body this library sends or accepts, in bytes.
pub const MAX_FRAME_LEN: usize = 0x7fff_0000;

/// A packet body `b` framed for the wire. Without compression:
/// `varint(|b|) || b`. With threshold `t` and `|b| < t`, or an empty body:
/// `varint(|b| + 1) || varint(0) || b`. With `|b| >= t` and `b` not empty:
/// `varint(|inner|) || inner` where `inner = varint(|b|) || zlib(b)`. An
/// empty body is never compressed, as an uncompressed length of 0 marks an
/// uncompressed packet.
pub open spec fn frame_bytes(b: Seq<u8>, threshold: Option<usize>) -> Seq<u8> {
    match threshold {
        None => varint_bytes(b.len() as i32) + b,
        Some(t) => if b.len() >= t && b.len() > 0 {
            let inner = varint_bytes(b.len() as i32) + zlib_compressed(b);
            varint_bytes(inner.len() as i32) + inner
        } else {
            varint_bytes((b.len() + 1) as i32) + varint_bytes(0) + b
        },
    }
}

/// Frame a packet body for the wire, compressing it when compression is on
/// and the body reaches the threshold.
pub fn frame_packet(body: &[u8], threshold: Option<usize>) -> (r: Result<Vec<u8>, ProtoError>)
    ensures
        body@.len() > MAX_FRAME_LEN ==> r is Err && r.unwrap_err() is InvalidOutbound,
        body@.len() <= MAX_FRAME_LEN && (threshold is Some && body@.len() >= threshold.unwrap()
            && body@.len() > 0 ==> zlib_compressed(body@).len() <= MAX_FRAME_LEN) ==> r is Ok,
        r is Ok ==> r.unwrap()@.len() <= MAX_FRAME_LEN + 10,
        r is Err ==> r.unwrap_err() is InvalidOutbound,
        r is Ok ==> r.unwrap()@ == frame_bytes(body@, threshold),
        r is Ok && threshold is Some && body@.len() >= threshold.unwrap() && body@.len() > 0
            ==> zlib_decompressed(
            zlib_compressed(body@),
        ) == Some(body@),
{
    if body.len() > MAX_FRAME_LEN {
        return Err(ProtoError::InvalidOutbound { reason: crate::error::reason("packet too long") });
    }
    let mut out: Vec<u8> = Vec::new();
    let n = body.len();
    match threshold {
        Some(t) if n >= t && n > 0 => {
            let compressed = match zlib_compress(body) {
                Some(c) => c,
                None => return Err(ProtoError::InvalidOutbound { reason: crate::error::reason("compression failed") }),
            };
            let mut inner: Vec<u8> = Vec::new();
            write_varint(&(n as i32), &mut inner)?;
            proof {
                crate::wire::lemma_varint_round_trip(n as i32, seq![]);
            }
            if compressed.len() > MAX_FRAME_LEN {
                return Err(ProtoError::InvalidOutbound { reason: crate::error::reason("packet too long") });
            }
            write_bytearray(&compressed, &mut inner)?;
            write_varint(&(inner.len() as i32), &mut out)?;
            write_bytearray(&inner, &mut out)?;
        },
        Some(_) => {
            write_varint(&((n + 1) as i32), &mut out)?;
            write_varint(&0, &mut out)?;
            write_bytearray(&vstd::slice::slice_to_vec(body), &mut out)?;
        },
        None => {
            write_varint(&(n as i32), &mut out)?;
            write_bytearray(&vstd::slice::slice_to_vec(body), &mut out)?;
        },
    }
    assert(out@ =~= frame_bytes(body@, threshold));
    proof {
        crate::wire::lemma_varint_round_trip(n as i32, seq![]);
        crate::wire::lemma_varint_round_trip((n + 1) as i32, seq![]);
        crate::wire::lemma_varint_round_trip(0, seq![]);
        if threshold is Some && n >= threshold.unwrap() && n > 0 {
            let inner_len = (varint_bytes(n as i32) + zlib_compressed(body@)).len();
            crate::wire::lemma_varint_round_trip(inner_len as i32, seq![]);
        }
    }
    Ok(out)
}

/// What the front of the received stream holds.
pub enum FrameParse {
    /// A whole frame: its body and what follows it.
    Complete(Seq<u8>, Seq<u8>),
    /// Not enough bytes yet.
    Incomplete,
    /// A length header that cannot be valid.
    Malformed,
}

/// Parse the frame at the front of the received bytes `s`: a varint length of
/// at most five bytes that must be a non-negative `i32`, then that many bytes.
pub open spec fn parse_frame(s: Seq<u8>) -> FrameParse {
    match leb_len(s, 5) {
        Some(l) => {
            let n = leb_value(s.take(l as int));
            if n >= 0x8000_0000 {
                FrameParse::Malformed
            } else if s.len() - l >= n {
                FrameParse::Complete(
                    s.subrange(l as int, (l + n) as int),
                    s.skip((l + n) as int),
                )
            } else {
                FrameParse::Incomplete
            }
        },
        None => if s.len() < 5 {
            FrameParse::Incomplete
        } else {
            FrameParse::Malformed
        },
    }
}

/// The packet inside a frame body. With compression on, the body starts with
/// a varint uncompressed length: 0 means the rest is the packet as it is;
/// otherwise the rest must decompress to exactly that many bytes.
pub open spec fn frame_payload(body: Seq<u8>, compressed: bool) -> Option<Seq<u8>> {
    if !compressed {
        Some(body)
    } else {
        match parse_varint(body) {
            Some((n, rest)) => if n == 0 {
                Some(rest)
            } else if n > 0 {
                match zlib_decompressed(rest) {
                    Some(p) => if p.len() == n {
                        Some(p)
                    } else {
                        None
                    },
                    None => None,
                }
            } else {
                None
            },
            None => None,
        }
    }
}

/// Take the packet out of a frame body.
pub fn unwrap_frame(body: Vec<u8>, compressed: bool) -> (r: Result<Vec<u8>, ProtoError>)
    ensures
        r is Ok <==> frame_payload(body@, compressed) is Some,
        r is Ok ==> frame_payload(body@, compressed) == Some(r.unwrap()@),
        !compressed ==> r is Ok,
        compressed && parse_varint(body@) is Some && parse_varint(body@).unwrap().0 == 0 ==> r is Ok,
        r is Err ==> r.unwrap_err() is Malformed,
{
    if !compressed {
        return Ok(body);
    }
    let mut rd = Reader::new(body);
    let n = match read_varint(&mut rd) {
        Ok(n) => n,
        Err(_) => return Err(ProtoError::Malformed),
    };
    let rest = rd.take_rest();
    if n == 0 {
        Ok(rest)
    } else if n > 0 {
        match zlib_decompress(rest.as_slice()) {
            Some(p) => if p.len() == n as usize {
                Ok(p)
            } else {
                Err(ProtoError::Malformed)
            },
            None => Err(ProtoError::Malformed),
        }
    } else {
        Err(ProtoError::Malformed)
    }
}

proof fn lemma_leb_len_extend(s: Seq<u8>, t: Seq<u8>, max: nat)
    ensures
        leb_len(s, max) is Some ==> leb_len(s + t, max) == leb_len(s, max),
        s.len() >= max && leb_len(s, max) is None ==> leb_len(s + t, max) is None,
    decreases max,
{
    if max > 0 && s.len() > 0 {
        assert((s + t)[0] == s[0]);
        if s[0] >= 128 {
            assert((s + t).drop_first() =~= s.drop_first() + t);
            lemma_leb_len_extend(s.drop_first(), t, (max - 1) as nat);
        }
    }
}

/// Frames are cut the same way however the bytes arrive: a complete frame at
/// the front stays the same frame when more bytes follow, and a length header
/// that cannot be valid stays invalid.
pub proof fn lemma_parse_frame_extend(s: Seq<u8>, t: Seq<u8>)
    ensures
        parse_frame(s) is Complete ==> parse_frame(s + t) == FrameParse::Complete(
            parse_frame(s)->Complete_0,
            parse_frame(s)->Complete_1 + t,
        ),
        parse_frame(s) is Malformed ==> parse_frame(s + t) is Malformed,
{
    lemma_leb_len_extend(s, t, 5);
    crate::connection::lemma_leb_len_bound(s, 5);
    match leb_len(s, 5) {
        Some(l) => {
            assert((s + t).take(l as int) =~= s.take(l as int));
            let n = leb_value(s.take(l as int));
            if n < 0x8000_0000 && s.len() - l >= n {
                assert((s + t).subrange(l as int, (l + n) as int) =~= s.subrange(l as int, (l + n) as int));
                assert((s + t).skip((l + n) as int) =~= s.skip((l + n) as int) + t);
            }
        },
        None => {},
    }
}

/// A header and body with a valid length parse as one complete frame.
proof fn lemma_parse_framed(n: i32, x: Seq<u8>, rest: Seq<u8>)
    requires
        0 <= n,
        x.len() == n,
    ensures
        parse_frame(varint_bytes(n) + x + rest) == FrameParse::Complete(x, rest),
{
    let s = varint_bytes(n) + x + rest;
    reveal_with_fuel(crate::wire::pow128, 6);
    crate::wire::lemma_leb_round_trip(n as nat, x + rest, 5);
    assert(s =~= crate::wire::leb128(n as nat) + (x + rest));
    assert(crate::wire::parse_leb(s, 5) == Some((n as nat, x + rest)));
    crate::connection::lemma_leb_len_bound(s, 5);
    let l = leb_len(s, 5).unwrap();
    assert(s.skip(l as int) =~= x + rest);
    assert(leb_value(s.take(l as int)) == n);
    assert(s.subrange(l as int, l + n) =~= x);
    assert(s.skip(l + n) =~= rest);
}

/// What `frame_packet` writes is read back by the frame parser as one frame
/// whose packet is the body. A compressed body must be known to decompress
/// to itself, which `frame_packet` reports when it compresses.
pub proof fn lemma_frame_round_trip(b: Seq<u8>, threshold: Option<usize>, rest: Seq<u8>)
    requires
        b.len() <= MAX_FRAME_LEN,
        threshold is Some && b.len() >= threshold.unwrap() && b.len() > 0 ==> {
            &&& zlib_compressed(b).len() <= MAX_FRAME_LEN
            &&& zlib_decompressed(zlib_compressed(b)) == Some(b)
        },
    ensures
        parse_frame(frame_bytes(b, threshold) + rest) is Complete,
        parse_frame(frame_bytes(b, threshold) + rest)->Complete_1 == rest,
        frame_payload(parse_frame(frame_bytes(b, threshold) + rest)->Complete_0, threshold is Some)
            == Some(b),
{
    match threshold {
        None => {
            lemma_parse_framed(b.len() as i32, b, rest);
        },
        Some(t) => {
            if b.len() >= t && b.len() > 0 {
                let c = zlib_compressed(b);
                let inner = varint_bytes(b.len() as i32) + c;
                crate::wire::lemma_varint_round_trip(b.len() as i32, c);
                lemma_parse_framed(inner.len() as i32, inner, rest);
            } else {
                let inner = varint_bytes(0) + b;
                crate::wire::lemma_varint_round_trip(0, b);
                crate::wire::lemma_varint_round_trip((b.len() + 1) as i32, seq![]);
                assert(varint_bytes((b.len() + 1) as i32) + varint_bytes(0) + b + rest
                    =~= varint_bytes((inner.len()) as i32) + inner + rest);
                lemma_parse_framed(inner.len() as i32, inner, rest);
            }
        },
    }
}

/// Below the threshold a body goes out as `varint(|b| + 1) || varint(0) || b`.
pub proof fn lemma_small_body_frame(b: Seq<u8>, t: usize)
    requires
        b.len() < t || b.len() == 0,
    ensures
        frame_bytes(b, Some(t)) == varint_bytes((b.len() + 1) as i32) + varint_bytes(0) + b,
{
}

/// At or above the threshold a body goes out compressed, after its
/// uncompressed length: `varint(|inner|) || varint(|b|) || zlib(b)`.
pub proof fn lemma_large_body_frame(b: Seq<u8>, t: usize)
    requires
        b.len() >= t,
        b.len() > 0,
    ensures
        frame_bytes(b, Some(t)) == varint_bytes(
            (varint_bytes(b.len() as i32).len() + zlib_compressed(b).len()) as i32,
        ) + varint_bytes(b.len() as i32) + zlib_compressed(b),
{
    assert(frame_bytes(b, Some(t)) =~= varint_bytes(
        (varint_bytes(b.len() as i32).len() + zlib_compressed(b).len()) as i32,
    ) + varint_bytes(b.len() as i32) + zlib_compressed(b));
}

} // verus!
