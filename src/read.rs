//! Reading the protocol's primitives from received bytes.
use vstd::prelude::*;

use crate::error::{reads_as, reads_as_view, ProtoError};
use crate::reader::Reader;
use crate::wire::{
    be_value, hex_digit_value, hex_value, is_dashed_uuid, is_hex_digit, leb_len, leb_value,
    lemma_be_value_bound, lemma_leb_value_bound, lemma_pow128_monotone, parse_be, parse_bool,
    parse_i16, parse_i32, parse_i64, parse_i8, parse_leb, parse_position, parse_prefixed_bytes,
    parse_prefixed_varints, parse_string, parse_u128, parse_u16, parse_u32, parse_u64, parse_u8,
    parse_uuid_str, parse_uuid_str_dashes, parse_varint, parse_varints, parse_varlong, pow128,
    pow256, signed_of, undashed, unpack_position, MAX_STRING_LEN,
};
use crate::bindings::utf8_to_string;
use vstd::string::StrSliceExecFns;

verus! {

/// The length of the group sequence that starts `i` bytes into `rd`.
fn leb_len_at(rd: &Reader, i: usize, max: usize) -> (r: Option<usize>)
    requires
        i <= rd.rest().len(),
        max <= 10,
    ensures
        match r {
            Some(l) => leb_len(rd.rest().skip(i as int), max as nat) == Some(l as nat),
            None => leb_len(rd.rest().skip(i as int), max as nat) is None,
        },
        r is Some ==> r.unwrap() <= max,
    decreases max,
{
    let s = Ghost(rd.rest().skip(i as int));
    let n = rd.len();
    if max == 0 || i >= n {
        return None;
    }
    match rd.peek(i) {
        None => None,
        Some(b) => {
            if b < 128 {
                Some(1)
            } else {
                assert(s@.drop_first() =~= rd.rest().skip(i + 1));
                match leb_len_at(rd, i + 1, max - 1) {
                    Some(l) => Some(l + 1),
                    None => None,
                }
            }
        },
    }
}

/// Read a group sequence of at most `max` bytes.
pub(crate) fn read_leb(rd: &mut Reader, max: usize) -> (r: Result<u128, ProtoError>)
    requires
        1 <= max <= 10,
    ensures
        match r {
            Ok(v) => parse_leb(old(rd).rest(), max as nat) == Some((v as nat, final(rd).rest())),
            Err(e) => parse_leb(old(rd).rest(), max as nat) is None && e is Malformed,
        },
        r is Ok ==> r.unwrap() < pow128(max as nat),
{
    let l = match leb_len_at(rd, 0, max) {
        Some(l) => l,
        None => {
            assert(rd.rest().skip(0) =~= rd.rest());
            return Err(ProtoError::Malformed);
        },
    };
    assert(rd.rest().skip(0) =~= rd.rest());
    proof {
        lemma_leb_len_fits(rd.rest(), max as nat);
    }
    let bytes = match rd.take(l) {
        Some(b) => b,
        None => return Err(ProtoError::Malformed),
    };
    let mut acc: u128 = 0;
    let mut j: usize = l;
    proof {
        reveal_with_fuel(pow128, 11);
        assert(pow128(10) == 0x40_0000_0000_0000_0000u128);
        lemma_pow128_monotone(l as nat, 10);
    }
    assert(bytes@.skip(l as int) =~= Seq::<u8>::empty());
    while j > 0
        invariant
            j <= l,
            l == bytes.len(),
            l <= max <= 10,
            pow128(l as nat) <= pow128(10),
            pow128(10) == 0x40_0000_0000_0000_0000u128,
            acc as nat == leb_value(bytes@.skip(j as int)),
        decreases j,
    {
        let b = bytes[j - 1];
        proof {
            assert(bytes@.skip(j - 1).drop_first() =~= bytes@.skip(j as int));
            lemma_leb_value_bound(bytes@.skip(j - 1));
            lemma_pow128_monotone((l - (j - 1)) as nat, l as nat);
        }
        acc = (b % 128) as u128 + 128 * acc;
        j = j - 1;
    }
    assert(bytes@.skip(0) =~= bytes@);
    proof {
        lemma_leb_value_bound(bytes@);
        lemma_pow128_monotone(l as nat, max as nat);
    }
    Ok(acc)
}

proof fn lemma_leb_len_fits(s: Seq<u8>, max: nat)
    ensures
        leb_len(s, max) is Some ==> leb_len(s, max).unwrap() <= s.len() && leb_len(s, max).unwrap()
            <= max,
    decreases s.len(),
{
    if max > 0 && s.len() > 0 && s[0] >= 128 {
        lemma_leb_len_fits(s.drop_first(), (max - 1) as nat);
    }
}

/// Read a varint: up to five bytes of 7-bit groups, the fifth with its upper
/// four bits clear.
pub fn read_varint(rd: &mut Reader) -> (r: Result<i32, ProtoError>)
    ensures
        reads_as(r, parse_varint(old(rd).rest()), final(rd).rest()),
{
    let v = read_leb(rd, 5)?;
    if v >= 0x1_0000_0000 {
        return Err(ProtoError::Malformed);
    }
    if v < 0x8000_0000 {
        Ok(v as i32)
    } else {
        Ok((v as i64 - 0x1_0000_0000) as i32)
    }
}

/// Read a varlong: up to ten bytes of 7-bit groups, the tenth at most 1.
pub fn read_varlong(rd: &mut Reader) -> (r: Result<i64, ProtoError>)
    ensures
        reads_as(r, parse_varlong(old(rd).rest()), final(rd).rest()),
{
    let v = read_leb(rd, 10)?;
    if v >= 0x1_0000_0000_0000_0000 {
        return Err(ProtoError::Malformed);
    }
    if v < 0x8000_0000_0000_0000 {
        Ok(v as i64)
    } else {
        Ok((v as i128 - 0x1_0000_0000_0000_0000) as i64)
    }
}

/// Read a bool: one byte, 0 or 1.
pub fn read_bool(rd: &mut Reader) -> (r: Result<bool, ProtoError>)
    ensures
        reads_as(r, parse_bool(old(rd).rest()), final(rd).rest()),
{
    match rd.read_byte() {
        Some(0) => Ok(false),
        Some(1) => Ok(true),
        _ => Err(ProtoError::Malformed),
    }
}

/// Read one unsigned byte.
pub fn read_u8(rd: &mut Reader) -> (r: Result<u8, ProtoError>)
    ensures
        reads_as(r, parse_u8(old(rd).rest()), final(rd).rest()),
{
    match rd.read_byte() {
        Some(b) => Ok(b),
        None => Err(ProtoError::Malformed),
    }
}

/// Read one signed byte.
pub fn read_i8(rd: &mut Reader) -> (r: Result<i8, ProtoError>)
    ensures
        reads_as(r, parse_i8(old(rd).rest()), final(rd).rest()),
{
    match rd.read_byte() {
        Some(b) => if b < 128 {
            Ok(b as i8)
        } else {
            Ok((b as i16 - 256) as i8)
        },
        None => Err(ProtoError::Malformed),
    }
}

/// Read `n` bytes as a big-endian number.
fn read_be(rd: &mut Reader, n: usize) -> (r: Result<u128, ProtoError>)
    requires
        1 <= n <= 16,
    ensures
        match r {
            Ok(v) => parse_be(old(rd).rest(), n as nat) == Some((v as nat, final(rd).rest())),
            Err(e) => parse_be(old(rd).rest(), n as nat) is None && e is Malformed,
        },
        r is Ok ==> r.unwrap() < pow256(n as nat),
{
    let bytes = match rd.take(n) {
        Some(b) => b,
        None => return Err(ProtoError::Malformed),
    };
    let mut acc: u128 = 0;
    let mut i: usize = 0;
    proof {
        reveal_with_fuel(pow256, 17);
        assert(pow256(16) == 0x1_0000_0000_0000_0000_0000_0000_0000_0000);
    }
    assert(bytes@.take(0) =~= Seq::<u8>::empty());
    while i < n
        invariant
            i <= n <= 16,
            n == bytes.len(),
            acc as nat == be_value(bytes@.take(i as int)),
            pow256(16) == 0x1_0000_0000_0000_0000_0000_0000_0000_0000,
        decreases n - i,
    {
        proof {
            assert(bytes@.take(i + 1).drop_last() =~= bytes@.take(i as int));
            lemma_be_value_bound(bytes@.take(i + 1));
            lemma_pow256_monotone((i + 1) as nat, 16);
        }
        acc = acc * 256 + bytes[i] as u128;
        i = i + 1;
    }
    assert(bytes@.take(n as int) =~= bytes@);
    proof {
        lemma_be_value_bound(bytes@);
    }
    Ok(acc)
}

proof fn lemma_pow256_monotone(a: nat, b: nat)
    requires
        a <= b,
    ensures
        pow256(a) <= pow256(b),
    decreases b,
{
    if a < b {
        lemma_pow256_monotone(a, (b - 1) as nat);
    }
}

/// Read a big-endian u16.
pub fn read_u16(rd: &mut Reader) -> (r: Result<u16, ProtoError>)
    ensures
        reads_as(r, parse_u16(old(rd).rest()), final(rd).rest()),
{
    proof {
        reveal_with_fuel(pow256, 3);
    }
    let v = read_be(rd, 2)?;
    Ok(v as u16)
}

/// Read a big-endian two's-complement i16.
pub fn read_i16(rd: &mut Reader) -> (r: Result<i16, ProtoError>)
    ensures
        reads_as(r, parse_i16(old(rd).rest()), final(rd).rest()),
{
    proof {
        reveal_with_fuel(pow256, 3);
    }
    let v = read_be(rd, 2)?;
    if v < 0x8000 {
        Ok(v as i16)
    } else {
        Ok((v as i32 - 0x1_0000) as i16)
    }
}

/// Read a big-endian u32.
pub fn read_u32(rd: &mut Reader) -> (r: Result<u32, ProtoError>)
    ensures
        reads_as(r, parse_u32(old(rd).rest()), final(rd).rest()),
{
    proof {
        reveal_with_fuel(pow256, 5);
    }
    let v = read_be(rd, 4)?;
    Ok(v as u32)
}

/// Read a big-endian two's-complement i32.
pub fn read_i32(rd: &mut Reader) -> (r: Result<i32, ProtoError>)
    ensures
        reads_as(r, parse_i32(old(rd).rest()), final(rd).rest()),
{
    proof {
        reveal_with_fuel(pow256, 5);
    }
    let v = read_be(rd, 4)?;
    if v < 0x8000_0000 {
        Ok(v as i32)
    } else {
        Ok((v as i64 - 0x1_0000_0000) as i32)
    }
}

/// Read a big-endian u64.
pub fn read_u64(rd: &mut Reader) -> (r: Result<u64, ProtoError>)
    ensures
        reads_as(r, parse_u64(old(rd).rest()), final(rd).rest()),
{
    proof {
        reveal_with_fuel(pow256, 9);
    }
    let v = read_be(rd, 8)?;
    Ok(v as u64)
}

/// Read a big-endian two's-complement i64.
pub fn read_i64(rd: &mut Reader) -> (r: Result<i64, ProtoError>)
    ensures
        reads_as(r, parse_i64(old(rd).rest()), final(rd).rest()),
{
    proof {
        reveal_with_fuel(pow256, 9);
    }
    let v = read_be(rd, 8)?;
    if v < 0x8000_0000_0000_0000 {
        Ok(v as i64)
    } else {
        Ok((v as i128 - 0x1_0000_0000_0000_0000) as i64)
    }
}

/// Read a big-endian u128.
pub fn read_u128(rd: &mut Reader) -> (r: Result<u128, ProtoError>)
    ensures
        reads_as(r, parse_u128(old(rd).rest()), final(rd).rest()),
{
    let v = read_be(rd, 16)?;
    Ok(v)
}

/// Read a string: a varint byte count of at most 32768, then that many bytes
/// of UTF-8.
#[allow(non_snake_case)]
pub fn read_String(rd: &mut Reader) -> (r: Result<String, ProtoError>)
    ensures
        reads_as_view(r, parse_string(old(rd).rest()), final(rd).rest()),
{
    let n = read_varint(rd)?;
    if n < 0 || n > MAX_STRING_LEN {
        return Err(ProtoError::Malformed);
    }
    let bytes = match rd.take(n as usize) {
        Some(b) => b,
        None => return Err(ProtoError::Malformed),
    };
    match utf8_to_string(bytes) {
        Some(s) => Ok(s),
        None => Err(ProtoError::Malformed),
    }
}

/// Read a byte array prefixed with its length as a varint.
pub fn read_prefixed_bytearray(rd: &mut Reader) -> (r: Result<Vec<u8>, ProtoError>)
    ensures
        reads_as_view(r, parse_prefixed_bytes(old(rd).rest()), final(rd).rest()),
{
    let n = read_varint(rd)?;
    if n < 0 {
        return Err(ProtoError::Malformed);
    }
    match rd.take(n as usize) {
        Some(b) => Ok(b),
        None => Err(ProtoError::Malformed),
    }
}

proof fn lemma_varints_none(s: Seq<u8>, i: nat, k: nat)
    requires
        i <= k,
        parse_varints(s, i) is None,
    ensures
        parse_varints(s, k) is None,
    decreases k,
{
    if i < k {
        lemma_varints_none(s, i, (k - 1) as nat);
    }
}

/// Read a varint count, then that many varints.
pub fn read_prefixed_varintarray(rd: &mut Reader) -> (r: Result<Vec<i32>, ProtoError>)
    ensures
        reads_as_view(r, parse_prefixed_varints(old(rd).rest()), final(rd).rest()),
{
    let n = read_varint(rd)?;
    if n < 0 {
        return Err(ProtoError::Malformed);
    }
    let start = Ghost(rd.rest());
    let mut out: Vec<i32> = Vec::new();
    let mut i: i32 = 0;
    while i < n
        invariant
            0 <= i <= n,
            parse_prefixed_varints(old(rd).rest()) == parse_varints(start@, n as nat),
            parse_varints(start@, i as nat) == Some((out@, rd.rest())),
        decreases n - i,
    {
        let before = Ghost(rd.rest());
        match read_varint(rd) {
            Ok(v) => {
                out.push(v);
            },
            Err(e) => {
                proof {
                    assert(parse_varints(start@, (i + 1) as nat) is None);
                    lemma_varints_none(start@, (i + 1) as nat, n as nat);
                }
                return Err(e);
            },
        }
        i = i + 1;
    }
    Ok(out)
}

/// Read every byte that is left.
pub fn read_bytearray_to_end(rd: &mut Reader) -> (r: Result<Vec<u8>, ProtoError>)
    ensures
        r is Ok,
        r.unwrap()@ == old(rd).rest(),
        final(rd).rest() == Seq::<u8>::empty(),
{
    Ok(rd.take_rest())
}

/// Read every byte that is left; the same as `read_bytearray_to_end`.
pub fn read_bytearray(rd: &mut Reader) -> (r: Result<Vec<u8>, ProtoError>)
    ensures
        r is Ok,
        r.unwrap()@ == old(rd).rest(),
        final(rd).rest() == Seq::<u8>::empty(),
{
    read_bytearray_to_end(rd)
}

/// The value of one hexadecimal digit, if `c` is one.
fn hex_digit(c: char) -> (r: Option<u8>)
    ensures
        r is Some <==> is_hex_digit(c),
        r is Some ==> r.unwrap() as nat == hex_digit_value(c) && r.unwrap() < 16,
{
    if '0' <= c && c <= '9' {
        Some((c as u32 - '0' as u32) as u8)
    } else if 'a' <= c && c <= 'f' {
        Some((c as u32 - 'a' as u32 + 10) as u8)
    } else if 'A' <= c && c <= 'F' {
        Some((c as u32 - 'A' as u32 + 10) as u8)
    } else {
        None
    }
}

proof fn lemma_hex_value_bound(cs: Seq<char>)
    requires
        forall|i: int| 0 <= i < cs.len() ==> is_hex_digit(#[trigger] cs[i]),
    ensures
        hex_value(cs) < hex_pow(cs.len()),
    decreases cs.len(),
{
    if cs.len() > 0 {
        let init = cs.drop_last();
        assert forall|i: int| 0 <= i < init.len() implies is_hex_digit(#[trigger] init[i]) by {
            assert(init[i] == cs[i]);
        }
        lemma_hex_value_bound(init);
        let v = hex_value(init);
        let p = hex_pow(init.len());
        let d = hex_digit_value(cs.last());
        assert(is_hex_digit(cs[cs.len() - 1]));
        assert(v * 16 + d < 16 * p) by (nonlinear_arith)
            requires
                v < p,
                d < 16,
        ;
    }
}

/// `16` to the power `k`.
spec fn hex_pow(k: nat) -> nat
    decreases k,
{
    if k == 0 {
        1
    } else {
        16 * hex_pow((k - 1) as nat)
    }
}

/// The number that the 32 hexadecimal digits `cs` spell, if they all are digits.
fn hex_u128(cs: &Vec<char>) -> (r: Option<u128>)
    requires
        cs.len() == 32,
    ensures
        r is Some <==> forall|i: int| 0 <= i < 32 ==> is_hex_digit(#[trigger] cs@[i]),
        r is Some ==> r.unwrap() as nat == hex_value(cs@),
{
    let mut acc: u128 = 0;
    let mut i: usize = 0;
    proof {
        reveal_with_fuel(hex_pow, 33);
        assert(hex_pow(32) == 0x1_0000_0000_0000_0000_0000_0000_0000_0000);
    }
    assert(cs@.take(0) =~= Seq::<char>::empty());
    while i < 32
        invariant
            i <= 32,
            cs.len() == 32,
            forall|j: int| 0 <= j < i ==> is_hex_digit(#[trigger] cs@[j]),
            acc as nat == hex_value(cs@.take(i as int)),
            hex_pow(32) == 0x1_0000_0000_0000_0000_0000_0000_0000_0000,
        decreases 32 - i,
    {
        let d = match hex_digit(cs[i]) {
            Some(d) => d,
            None => return None,
        };
        proof {
            let t = cs@.take(i + 1);
            assert(t.drop_last() =~= cs@.take(i as int));
            assert forall|j: int| 0 <= j < t.len() implies is_hex_digit(#[trigger] t[j]) by {
                assert(t[j] == cs@[j]);
            }
            lemma_hex_value_bound(t);
            lemma_hex_pow_monotone((i + 1) as nat, 32);
        }
        acc = acc * 16 + d as u128;
        i = i + 1;
    }
    assert(cs@.take(32) =~= cs@);
    Some(acc)
}

proof fn lemma_hex_pow_monotone(a: nat, b: nat)
    requires
        a <= b,
    ensures
        hex_pow(a) <= hex_pow(b),
    decreases b,
{
    if a < b {
        lemma_hex_pow_monotone(a, (b - 1) as nat);
    }
}

/// The characters of `s`.
fn chars_of(s: &String) -> (r: Vec<char>)
    ensures
        r@ == s@,
{
    let t = s.as_str();
    let n = t.unicode_len();
    let mut out: Vec<char> = Vec::new();
    let mut i: usize = 0;
    while i < n
        invariant
            i <= n,
            n == t@.len(),
            t@ == s@,
            out@ == t@.take(i as int),
        decreases n - i,
    {
        out.push(t.get_char(i));
        i = i + 1;
        assert(out@ =~= t@.take(i as int));
    }
    assert(out@ =~= t@);
    out
}

/// Read a uuid written as 32 hexadecimal digits of either case.
pub fn read_uuid_str(rd: &mut Reader) -> (r: Result<u128, ProtoError>)
    ensures
        reads_as(r, parse_uuid_str(old(rd).rest()), final(rd).rest()),
{
    let s = read_String(rd)?;
    let cs = chars_of(&s);
    if cs.len() != 32 {
        return Err(ProtoError::Malformed);
    }
    match hex_u128(&cs) {
        Some(v) => Ok(v),
        None => Err(ProtoError::Malformed),
    }
}

/// Read a uuid written as hexadecimal digits in the groups 8-4-4-4-12 joined
/// by dashes.
pub fn read_uuid_str_dashes(rd: &mut Reader) -> (r: Result<u128, ProtoError>)
    ensures
        reads_as(r, parse_uuid_str_dashes(old(rd).rest()), final(rd).rest()),
{
    let s = read_String(rd)?;
    let cs = chars_of(&s);
    if cs.len() != 36 || cs[8] != '-' || cs[13] != '-' || cs[18] != '-' || cs[23] != '-' {
        return Err(ProtoError::Malformed);
    }
    let mut digits: Vec<char> = Vec::new();
    push_range(&mut digits, &cs, 0, 8);
    push_range(&mut digits, &cs, 9, 13);
    push_range(&mut digits, &cs, 14, 18);
    push_range(&mut digits, &cs, 19, 23);
    push_range(&mut digits, &cs, 24, 36);
    assert(digits@ =~= undashed(cs@));
    match hex_u128(&digits) {
        Some(v) => Ok(v),
        None => Err(ProtoError::Malformed),
    }
}

/// Append `cs[from..to]` to `out`.
fn push_range(out: &mut Vec<char>, cs: &Vec<char>, from: usize, to: usize)
    requires
        from <= to <= cs.len(),
    ensures
        final(out)@ == old(out)@ + cs@.subrange(from as int, to as int),
{
    let mut i: usize = from;
    while i < to
        invariant
            from <= i <= to <= cs.len(),
            out@ == old(out)@ + cs@.subrange(from as int, i as int),
        decreases to - i,
    {
        out.push(cs[i]);
        i = i + 1;
        assert(out@ =~= old(out)@ + cs@.subrange(from as int, i as int));
    }
}

/// Read a position packed in 64 bits: x in the top 26, z in the next 26, y in
/// the low 12.
pub fn read_position(rd: &mut Reader) -> (r: Result<(i32, i32, i32), ProtoError>)
    ensures
        reads_as(r, parse_position(old(rd).rest()), final(rd).rest()),
{
    proof {
        reveal_with_fuel(pow256, 9);
    }
    let v = read_be(rd, 8)?;
    let vx = v / 0x40_0000_0000;
    let vy = v % 0x1000;
    let vz = (v / 0x1000) % 0x400_0000;
    assert(vx < 0x400_0000) by (nonlinear_arith)
        requires
            v < 0x1_0000_0000_0000_0000,
            vx == v / 0x40_0000_0000,
    ;
    let x: i32 = if vx < 0x200_0000 {
        vx as i32
    } else {
        (vx as i64 - 0x400_0000) as i32
    };
    let y: i32 = if vy < 0x800 {
        vy as i32
    } else {
        (vy as i64 - 0x1000) as i32
    };
    let z: i32 = if vz < 0x200_0000 {
        vz as i32
    } else {
        (vz as i64 - 0x400_0000) as i32
    };
    assert(unpack_position(v as nat) == (x, y, z));
    Ok((x, y, z))
}

} // verus!
