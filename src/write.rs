//! Writing the protocol's primitives.
use vstd::prelude::*;

use crate::error::ProtoError;
use crate::wire::{
    be_bytes, bool_bytes, lemma_hex_bytes_len, hex_ascii, hex_bytes, leb128, pack_position, position_in_range,
    prefixed_bytes, string_bytes, unsigned_of, uuid_str_bytes, uuid_str_dashes_bytes,
    varint_bytes, varints_bytes, varlong_bytes,
};
use vstd::utf8::encode_utf8;

verus! {

/// Append the 7-bit groups of `n`.
fn write_leb(n: u64, w: &mut Vec<u8>)
    ensures
        final(w)@ == old(w)@ + leb128(n as nat),
{
    let mut m: u64 = n;
    while m >= 128
        invariant
            old(w)@ + leb128(n as nat) == w@ + leb128(m as nat),
        decreases m,
    {
        let b: u8 = (m % 128 + 128) as u8;
        assert(w@ + leb128(m as nat) =~= w@.push(b) + leb128((m / 128) as nat));
        w.push(b);
        m = m / 128;
    }
    assert(leb128(m as nat) =~= seq![m as u8]);
    w.push(m as u8);
}

/// Write `val` as a varint.
pub fn write_varint(val: &i32, w: &mut Vec<u8>) -> (r: Result<(), ProtoError>)
    ensures
        r is Ok,
        final(w)@ == old(w)@ + varint_bytes(*val),
{
    let n: u64 = if *val >= 0 {
        *val as u64
    } else {
        (*val as i64 + 0x1_0000_0000) as u64
    };
    write_leb(n, w);
    Ok(())
}

/// Write `val` as a varlong.
pub fn write_varlong(val: &i64, w: &mut Vec<u8>) -> (r: Result<(), ProtoError>)
    ensures
        r is Ok,
        final(w)@ == old(w)@ + varlong_bytes(*val),
{
    let n: u64 = if *val >= 0 {
        *val as u64
    } else {
        (*val as i128 + 0x1_0000_0000_0000_0000) as u64
    };
    write_leb(n, w);
    Ok(())
}

/// Write a bool as one byte, 1 or 0.
pub fn write_bool(val: &bool, w: &mut Vec<u8>) -> (r: Result<(), ProtoError>)
    ensures
        r is Ok,
        final(w)@ == old(w)@ + bool_bytes(*val),
{
    if *val {
        w.push(1);
    } else {
        w.push(0);
    }
    assert(w@ =~= old(w)@ + bool_bytes(*val));
    Ok(())
}

/// Write one unsigned byte.
pub fn write_u8(val: &u8, w: &mut Vec<u8>) -> (r: Result<(), ProtoError>)
    ensures
        r is Ok,
        final(w)@ == old(w)@ + seq![*val],
{
    w.push(*val);
    assert(w@ =~= old(w)@ + seq![*val]);
    Ok(())
}

/// Write one signed byte, in two's complement.
pub fn write_i8(val: &i8, w: &mut Vec<u8>) -> (r: Result<(), ProtoError>)
    ensures
        r is Ok,
        final(w)@ == old(w)@ + seq![unsigned_of(*val as int, 256) as u8],
{
    let b: u8 = if *val >= 0 {
        *val as u8
    } else {
        (*val as i16 + 256) as u8
    };
    w.push(b);
    assert(w@ =~= old(w)@ + seq![unsigned_of(*val as int, 256) as u8]);
    Ok(())
}

/// Append the low `n` bytes of `v`, most significant first.
fn write_be(v: u128, n: usize, w: &mut Vec<u8>)
    requires
        n <= 16,
    ensures
        final(w)@ == old(w)@ + be_bytes(v as nat, n as nat),
    decreases n,
{
    if n == 0 {
        assert(old(w)@ + be_bytes(v as nat, 0) =~= old(w)@);
    } else {
        write_be(v / 256, n - 1, w);
        w.push((v % 256) as u8);
        assert(w@ =~= old(w)@ + be_bytes(v as nat, n as nat));
    }
}

/// Write a big-endian u16.
pub fn write_u16(val: &u16, w: &mut Vec<u8>) -> (r: Result<(), ProtoError>)
    ensures
        r is Ok,
        final(w)@ == old(w)@ + be_bytes(*val as nat, 2),
{
    write_be(*val as u128, 2, w);
    Ok(())
}

/// Write a big-endian two's-complement i16.
pub fn write_i16(val: &i16, w: &mut Vec<u8>) -> (r: Result<(), ProtoError>)
    ensures
        r is Ok,
        final(w)@ == old(w)@ + be_bytes(unsigned_of(*val as int, 0x1_0000), 2),
{
    let u: u128 = if *val >= 0 {
        *val as u128
    } else {
        (*val as i32 + 0x1_0000) as u128
    };
    write_be(u, 2, w);
    Ok(())
}

/// Write a big-endian u32.
pub fn write_u32(val: &u32, w: &mut Vec<u8>) -> (r: Result<(), ProtoError>)
    ensures
        r is Ok,
        final(w)@ == old(w)@ + be_bytes(*val as nat, 4),
{
    write_be(*val as u128, 4, w);
    Ok(())
}

/// Write a big-endian two's-complement i32.
pub fn write_i32(val: &i32, w: &mut Vec<u8>) -> (r: Result<(), ProtoError>)
    ensures
        r is Ok,
        final(w)@ == old(w)@ + be_bytes(unsigned_of(*val as int, 0x1_0000_0000), 4),
{
    let u: u128 = if *val >= 0 {
        *val as u128
    } else {
        (*val as i64 + 0x1_0000_0000) as u128
    };
    write_be(u, 4, w);
    Ok(())
}

/// Write a big-endian u64.
pub fn write_u64(val: &u64, w: &mut Vec<u8>) -> (r: Result<(), ProtoError>)
    ensures
        r is Ok,
        final(w)@ == old(w)@ + be_bytes(*val as nat, 8),
{
    write_be(*val as u128, 8, w);
    Ok(())
}

/// Write a big-endian two's-complement i64.
pub fn write_i64(val: &i64, w: &mut Vec<u8>) -> (r: Result<(), ProtoError>)
    ensures
        r is Ok,
        final(w)@ == old(w)@ + be_bytes(unsigned_of(*val as int, 0x1_0000_0000_0000_0000), 8),
{
    let u: u128 = if *val >= 0 {
        *val as u128
    } else {
        (*val as i128 + 0x1_0000_0000_0000_0000) as u128
    };
    write_be(u, 8, w);
    Ok(())
}

/// Write a big-endian u128.
pub fn write_u128(val: &u128, w: &mut Vec<u8>) -> (r: Result<(), ProtoError>)
    ensures
        r is Ok,
        final(w)@ == old(w)@ + be_bytes(*val as nat, 16),
{
    write_be(*val, 16, w);
    Ok(())
}

/// Append all of `b`.
fn append_bytes(b: &[u8], w: &mut Vec<u8>)
    ensures
        final(w)@ == old(w)@ + b@,
{
    let mut i: usize = 0;
    while i < b.len()
        invariant
            i <= b@.len(),
            w@ == old(w)@ + b@.take(i as int),
        decreases b.len() - i,
    {
        w.push(b[i]);
        i = i + 1;
        assert(w@ =~= old(w)@ + b@.take(i as int));
    }
    assert(b@.take(b@.len() as int) =~= b@);
}

/// Write a string: its UTF-8 byte count as a varint, then the bytes. A string
/// whose byte count does not fit in an `i32` is refused.
#[allow(non_snake_case)]
pub fn write_String(val: &str, w: &mut Vec<u8>) -> (r: Result<(), ProtoError>)
    ensures
        r is Ok <==> encode_utf8(val@).len() <= i32::MAX,
        r is Ok ==> final(w)@ == old(w)@ + string_bytes(val@),
        r is Err ==> final(w)@ == old(w)@ && r.unwrap_err() is InvalidOutbound,
{
    let bytes = val.as_bytes();
    if bytes.len() > i32::MAX as usize {
        return Err(ProtoError::InvalidOutbound { reason: crate::error::reason("string too long") });
    }
    write_varint(&(bytes.len() as i32), w)?;
    append_bytes(bytes, w);
    assert(w@ =~= old(w)@ + string_bytes(val@));
    Ok(())
}

/// Write a byte array prefixed with its length as a varint. An array whose
/// length does not fit in an `i32` is refused.
pub fn write_prefixed_bytearray(val: &[u8], w: &mut Vec<u8>) -> (r: Result<(), ProtoError>)
    ensures
        r is Ok <==> val@.len() <= i32::MAX,
        r is Ok ==> final(w)@ == old(w)@ + prefixed_bytes(val@),
        r is Err ==> final(w)@ == old(w)@ && r.unwrap_err() is InvalidOutbound,
{
    if val.len() > i32::MAX as usize {
        return Err(ProtoError::InvalidOutbound { reason: crate::error::reason("array too long") });
    }
    write_varint(&(val.len() as i32), w)?;
    append_bytes(val, w);
    assert(w@ =~= old(w)@ + prefixed_bytes(val@));
    Ok(())
}

/// Write a varint count, then each value as a varint. An array whose length
/// does not fit in an `i32` is refused.
pub fn write_prefixed_varintarray(val: &[i32], w: &mut Vec<u8>) -> (r: Result<(), ProtoError>)
    ensures
        r is Ok <==> val@.len() <= i32::MAX,
        r is Ok ==> final(w)@ == old(w)@ + varint_bytes(val@.len() as i32) + varints_bytes(val@),
        r is Err ==> final(w)@ == old(w)@ && r.unwrap_err() is InvalidOutbound,
{
    if val.len() > i32::MAX as usize {
        return Err(ProtoError::InvalidOutbound { reason: crate::error::reason("array too long") });
    }
    write_varint(&(val.len() as i32), w)?;
    let mid = Ghost(w@);
    let mut i: usize = 0;
    assert(val@.take(0) =~= Seq::<i32>::empty());
    while i < val.len()
        invariant
            i <= val@.len(),
            w@ == mid@ + varints_bytes(val@.take(i as int)),
        decreases val.len() - i,
    {
        write_varint(&val[i], w)?;
        assert(val@.take(i + 1).drop_last() =~= val@.take(i as int));
        i = i + 1;
        assert(w@ =~= mid@ + varints_bytes(val@.take(i as int)));
    }
    assert(val@.take(val@.len() as int) =~= val@);
    Ok(())
}

/// Write bytes as they are, with no length prefix.
pub fn write_bytearray(val: &Vec<u8>, w: &mut Vec<u8>) -> (r: Result<(), ProtoError>)
    ensures
        r is Ok,
        final(w)@ == old(w)@ + val@,
{
    append_bytes(val.as_slice(), w);
    Ok(())
}

/// Write bytes as they are, with no length prefix; the same as
/// `write_bytearray`.
pub fn write_bytearray_to_end(val: &Vec<u8>, w: &mut Vec<u8>) -> (r: Result<(), ProtoError>)
    ensures
        r is Ok,
        final(w)@ == old(w)@ + val@,
{
    write_bytearray(val, w)
}

/// Append the low `n` hexadecimal digits of `v` in lowercase ASCII.
fn write_hex(v: u128, n: usize, w: &mut Vec<u8>)
    requires
        n <= 32,
    ensures
        final(w)@ == old(w)@ + hex_bytes(v as nat, n as nat),
    decreases n,
{
    if n == 0 {
        assert(old(w)@ + hex_bytes(v as nat, 0) =~= old(w)@);
    } else {
        write_hex(v / 16, n - 1, w);
        let d = (v % 16) as u8;
        let c: u8 = if d < 10 {
            d + 48
        } else {
            d + 87
        };
        assert(c == hex_ascii(v as nat % 16));
        w.push(c);
        assert(w@ =~= old(w)@ + hex_bytes(v as nat, n as nat));
    }
}

/// Write a uuid as 32 lowercase hexadecimal digits.
pub fn write_uuid_str(val: &u128, w: &mut Vec<u8>) -> (r: Result<(), ProtoError>)
    ensures
        r is Ok,
        final(w)@ == old(w)@ + uuid_str_bytes(*val),
{
    w.push(32);
    write_hex(*val, 32, w);
    assert(w@ =~= old(w)@ + uuid_str_bytes(*val));
    Ok(())
}

/// Write a uuid as lowercase hexadecimal digits in the groups 8-4-4-4-12,
/// joined by dashes.
pub fn write_uuid_str_dashes(val: &u128, w: &mut Vec<u8>) -> (r: Result<(), ProtoError>)
    ensures
        r is Ok,
        final(w)@ == old(w)@ + uuid_str_dashes_bytes(*val),
{
    let mut h: Vec<u8> = Vec::new();
    write_hex(*val, 32, &mut h);
    assert(h@ =~= hex_bytes(*val as nat, 32));
    proof {
        lemma_hex_bytes_len(*val as nat, 32);
    }
    w.push(36);
    append_bytes(slice_range(&h, 0, 8).as_slice(), w);
    w.push(45);
    append_bytes(slice_range(&h, 8, 12).as_slice(), w);
    w.push(45);
    append_bytes(slice_range(&h, 12, 16).as_slice(), w);
    w.push(45);
    append_bytes(slice_range(&h, 16, 20).as_slice(), w);
    w.push(45);
    append_bytes(slice_range(&h, 20, 32).as_slice(), w);
    assert(w@ =~= old(w)@ + uuid_str_dashes_bytes(*val));
    Ok(())
}

/// A copy of `v[from..to]`.
fn slice_range(v: &Vec<u8>, from: usize, to: usize) -> (r: Vec<u8>)
    requires
        from <= to <= v.len(),
    ensures
        r@ == v@.subrange(from as int, to as int),
{
    let mut out: Vec<u8> = Vec::new();
    let mut i: usize = from;
    while i < to
        invariant
            from <= i <= to <= v.len(),
            out@ == v@.subrange(from as int, i as int),
        decreases to - i,
    {
        out.push(v[i]);
        i = i + 1;
        assert(out@ =~= v@.subrange(from as int, i as int));
    }
    out
}

/// Write a position packed in 64 bits: x in the top 26, z in the next 26, y in
/// the low 12. A position out of that range is refused.
pub fn write_position(pos: &(i32, i32, i32), w: &mut Vec<u8>) -> (r: Result<(), ProtoError>)
    ensures
        r is Ok <==> position_in_range(pos.0, pos.1, pos.2),
        r is Ok ==> final(w)@ == old(w)@ + be_bytes(pack_position(pos.0, pos.1, pos.2), 8),
        r is Err ==> final(w)@ == old(w)@ && r.unwrap_err() is Malformed,
{
    let (x, y, z) = *pos;
    if x < -0x200_0000 || x >= 0x200_0000 || y < -0x800 || y >= 0x800 || z < -0x200_0000 || z
        >= 0x200_0000 {
        return Err(ProtoError::Malformed);
    }
    let ux: u64 = if x >= 0 {
        x as u64
    } else {
        (x as i64 + 0x400_0000) as u64
    };
    let uy: u64 = if y >= 0 {
        y as u64
    } else {
        (y as i64 + 0x1000) as u64
    };
    let uz: u64 = if z >= 0 {
        z as u64
    } else {
        (z as i64 + 0x400_0000) as u64
    };
    assert(ux * 0x40_0000_0000 + uz * 0x1000 + uy < 0x1_0000_0000_0000_0000) by (nonlinear_arith)
        requires
            ux < 0x400_0000,
            uy < 0x1000,
            uz < 0x400_0000,
    ;
    let v: u64 = ux * 0x40_0000_0000 + uz * 0x1000 + uy;
    write_be(v as u128, 8, w);
    Ok(())
}

} // verus!
