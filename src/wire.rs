//! What each primitive looks like on the wire, as spec functions, and the
//! laws that tie the encodings to their parsers.
use vstd::prelude::*;
use vstd::utf8::{
    decode_first_scalar, decode_utf8, encode_utf8, encode_utf8_decode_utf8, encode_utf8_valid_utf8,
    is_leading_byte_width_1, pop_first_scalar, valid_utf8,
};

verus! {

/// `128` to the power `k`.
pub open spec fn pow128(k: nat) -> nat
    decreases k,
{
    if k == 0 {
        1
    } else {
        128 * pow128((k - 1) as nat)
    }
}

/// `256` to the power `k`.
pub open spec fn pow256(k: nat) -> nat
    decreases k,
{
    if k == 0 {
        1
    } else {
        256 * pow256((k - 1) as nat)
    }
}

/// `n` in 7-bit groups, least significant first, the high bit set on every
/// group but the last.
pub open spec fn leb128(n: nat) -> Seq<u8>
    decreases n,
{
    if n < 128 {
        seq![n as u8]
    } else {
        seq![(n % 128 + 128) as u8] + leb128(n / 128)
    }
}

/// The length of the group sequence at the front of `s`: up to and including
/// the first byte without the high bit, if that is among the first `max`.
pub open spec fn leb_len(s: Seq<u8>, max: nat) -> Option<nat>
    decreases s.len(),
{
    if max == 0 || s.len() == 0 {
        None
    } else if s[0] < 128 {
        Some(1)
    } else {
        match leb_len(s.drop_first(), (max - 1) as nat) {
            Some(l) => Some(l + 1),
            None => None,
        }
    }
}

/// The number that the 7-bit groups of `s` spell, least significant first.
pub open spec fn leb_value(s: Seq<u8>) -> nat
    decreases s.len(),
{
    if s.len() == 0 {
        0
    } else {
        (s[0] % 128) as nat + 128 * leb_value(s.drop_first())
    }
}

/// A group sequence of at most `max` bytes at the front of `s`: its value and
/// what follows it.
pub open spec fn parse_leb(s: Seq<u8>, max: nat) -> Option<(nat, Seq<u8>)> {
    match leb_len(s, max) {
        Some(l) => Some((leb_value(s.take(l as int)), s.skip(l as int))),
        None => None,
    }
}

/// The two's-complement bit pattern of `i`, as an unsigned number.
pub open spec fn u32_of_i32(i: i32) -> nat {
    if i >= 0 {
        i as nat
    } else {
        (i + 0x1_0000_0000) as nat
    }
}

/// The signed number whose 32-bit two's-complement pattern is `n`.
pub open spec fn i32_of_u32(n: nat) -> i32
    recommends
        n < 0x1_0000_0000,
{
    if n < 0x8000_0000 {
        n as i32
    } else {
        (n - 0x1_0000_0000) as i32
    }
}

/// The two's-complement bit pattern of `i`, as an unsigned number.
pub open spec fn u64_of_i64(i: i64) -> nat {
    if i >= 0 {
        i as nat
    } else {
        (i + 0x1_0000_0000_0000_0000) as nat
    }
}

/// The signed number whose 64-bit two's-complement pattern is `n`.
pub open spec fn i64_of_u64(n: nat) -> i64
    recommends
        n < 0x1_0000_0000_0000_0000,
{
    if n < 0x8000_0000_0000_0000 {
        n as i64
    } else {
        (n - 0x1_0000_0000_0000_0000) as i64
    }
}

/// The varint encoding of `i`: one to five bytes.
pub open spec fn varint_bytes(i: i32) -> Seq<u8> {
    leb128(u32_of_i32(i))
}

/// The varlong encoding of `i`: one to ten bytes.
pub open spec fn varlong_bytes(i: i64) -> Seq<u8> {
    leb128(u64_of_i64(i))
}

/// A varint at the front of `s`: at most five bytes, the fifth with its upper
/// four bits clear.
pub open spec fn parse_varint(s: Seq<u8>) -> Option<(i32, Seq<u8>)> {
    match parse_leb(s, 5) {
        Some((v, rest)) => if v < 0x1_0000_0000 {
            Some((i32_of_u32(v), rest))
        } else {
            None
        },
        None => None,
    }
}

/// A varlong at the front of `s`: at most ten bytes, the tenth at most 1.
pub open spec fn parse_varlong(s: Seq<u8>) -> Option<(i64, Seq<u8>)> {
    match parse_leb(s, 10) {
        Some((v, rest)) => if v < 0x1_0000_0000_0000_0000 {
            Some((i64_of_u64(v), rest))
        } else {
            None
        },
        None => None,
    }
}

pub proof fn lemma_pow128_monotone(a: nat, b: nat)
    requires
        a <= b,
    ensures
        pow128(a) <= pow128(b),
    decreases b,
{
    if a < b {
        lemma_pow128_monotone(a, (b - 1) as nat);
    }
}

pub proof fn lemma_leb_value_bound(s: Seq<u8>)
    ensures
        leb_value(s) < pow128(s.len()),
    decreases s.len(),
{
    if s.len() > 0 {
        lemma_leb_value_bound(s.drop_first());
        let a = (s[0] % 128) as nat;
        let v = leb_value(s.drop_first());
        let p = pow128(s.drop_first().len());
        assert(a + 128 * v < 128 * p) by (nonlinear_arith)
            requires
                a < 128,
                v < p,
        ;
    }
}

proof fn lemma_leb128_shape(n: nat, rest: Seq<u8>, max: nat)
    requires
        n < pow128(max),
        max > 0,
    ensures
        leb128(n).len() <= max,
        leb_len(leb128(n) + rest, max) == Some(leb128(n).len()),
        leb_value(leb128(n)) == n,
    decreases n,
{
    let s = leb128(n) + rest;
    if n < 128 {
        assert(leb128(n).drop_first() =~= Seq::<u8>::empty());
        assert(leb_value(Seq::<u8>::empty()) == 0);
        assert(leb_value(leb128(n)) == (n as u8 % 128) as nat + 128 * leb_value(leb128(n).drop_first()));
    } else {
        let m = (max - 1) as nat;
        assert(n / 128 < pow128(m)) by (nonlinear_arith)
            requires
                n < 128 * pow128(m),
        ;
        if m == 0 {
            assert(pow128(0) == 1);
        }
        lemma_leb128_shape(n / 128, rest, m);
        assert(((n % 128 + 128) as u8) % 128 == n % 128);
        assert(s.drop_first() =~= leb128(n / 128) + rest);
        assert(leb128(n).drop_first() =~= leb128(n / 128));
        assert(leb_value(leb128(n)) == n % 128 + 128 * leb_value(leb128(n / 128)));
    }
}

/// Parsing what `leb128` wrote gives back the number and leaves what follows.
pub proof fn lemma_leb_round_trip(n: nat, rest: Seq<u8>, max: nat)
    requires
        n < pow128(max),
        max > 0,
    ensures
        parse_leb(leb128(n) + rest, max) == Some((n, rest)),
{
    lemma_leb128_shape(n, rest, max);
    let s = leb128(n) + rest;
    let l = leb128(n).len();
    assert(s.take(l as int) =~= leb128(n));
    assert(s.skip(l as int) =~= rest);
}

/// Decoding the varint encoding of any `i32` gives `i` back, and consumes
/// exactly the encoding.
pub proof fn lemma_varint_round_trip(i: i32, rest: Seq<u8>)
    ensures
        parse_varint(varint_bytes(i) + rest) == Some((i, rest)),
        varint_bytes(i).len() <= 5,
{
    reveal_with_fuel(pow128, 6);
    lemma_leb_round_trip(u32_of_i32(i), rest, 5);
    lemma_leb128_shape(u32_of_i32(i), rest, 5);
}

/// Decoding the varlong encoding of any `i64` gives `i` back, and consumes
/// exactly the encoding.
pub proof fn lemma_varlong_round_trip(i: i64, rest: Seq<u8>)
    ensures
        parse_varlong(varlong_bytes(i) + rest) == Some((i, rest)),
        varlong_bytes(i).len() <= 10,
{
    reveal_with_fuel(pow128, 11);
    lemma_leb_round_trip(u64_of_i64(i), rest, 10);
    lemma_leb128_shape(u64_of_i64(i), rest, 10);
}

/// `v` as `n` bytes, most significant first.
pub open spec fn be_bytes(v: nat, n: nat) -> Seq<u8>
    decreases n,
{
    if n == 0 {
        seq![]
    } else {
        be_bytes(v / 256, (n - 1) as nat).push((v % 256) as u8)
    }
}

/// The number that `s` spells, most significant byte first.
pub open spec fn be_value(s: Seq<u8>) -> nat
    decreases s.len(),
{
    if s.len() == 0 {
        0
    } else {
        be_value(s.drop_last()) * 256 + s.last() as nat
    }
}

/// `n` bytes at the front of `s`, read as a big-endian number.
pub open spec fn parse_be(s: Seq<u8>, n: nat) -> Option<(nat, Seq<u8>)> {
    if s.len() >= n {
        Some((be_value(s.take(n as int)), s.skip(n as int)))
    } else {
        None
    }
}

/// The two's-complement pattern of `v` modulo `m`.
pub open spec fn unsigned_of(v: int, m: nat) -> nat {
    if v >= 0 {
        v as nat
    } else {
        (v + m) as nat
    }
}

/// The signed number whose two's-complement pattern modulo `m` is `n`.
pub open spec fn signed_of(n: nat, m: nat) -> int {
    if n < m / 2 {
        n as int
    } else {
        n - m
    }
}

pub open spec fn parse_bool(s: Seq<u8>) -> Option<(bool, Seq<u8>)> {
    if s.len() >= 1 && s[0] <= 1 {
        Some((s[0] == 1, s.drop_first()))
    } else {
        None
    }
}

pub open spec fn bool_bytes(b: bool) -> Seq<u8> {
    if b {
        seq![1u8]
    } else {
        seq![0u8]
    }
}

pub open spec fn parse_u8(s: Seq<u8>) -> Option<(u8, Seq<u8>)> {
    if s.len() >= 1 {
        Some((s[0], s.drop_first()))
    } else {
        None
    }
}

pub open spec fn parse_i8(s: Seq<u8>) -> Option<(i8, Seq<u8>)> {
    if s.len() >= 1 {
        Some((signed_of(s[0] as nat, 256) as i8, s.drop_first()))
    } else {
        None
    }
}

pub open spec fn parse_u16(s: Seq<u8>) -> Option<(u16, Seq<u8>)> {
    match parse_be(s, 2) {
        Some((v, r)) => Some((v as u16, r)),
        None => None,
    }
}

pub open spec fn parse_i16(s: Seq<u8>) -> Option<(i16, Seq<u8>)> {
    match parse_be(s, 2) {
        Some((v, r)) => Some((signed_of(v, 0x1_0000) as i16, r)),
        None => None,
    }
}

pub open spec fn parse_u32(s: Seq<u8>) -> Option<(u32, Seq<u8>)> {
    match parse_be(s, 4) {
        Some((v, r)) => Some((v as u32, r)),
        None => None,
    }
}

pub open spec fn parse_i32(s: Seq<u8>) -> Option<(i32, Seq<u8>)> {
    match parse_be(s, 4) {
        Some((v, r)) => Some((signed_of(v, 0x1_0000_0000) as i32, r)),
        None => None,
    }
}

pub open spec fn parse_u64(s: Seq<u8>) -> Option<(u64, Seq<u8>)> {
    match parse_be(s, 8) {
        Some((v, r)) => Some((v as u64, r)),
        None => None,
    }
}

pub open spec fn parse_i64(s: Seq<u8>) -> Option<(i64, Seq<u8>)> {
    match parse_be(s, 8) {
        Some((v, r)) => Some((signed_of(v, 0x1_0000_0000_0000_0000) as i64, r)),
        None => None,
    }
}

pub open spec fn parse_u128(s: Seq<u8>) -> Option<(u128, Seq<u8>)> {
    match parse_be(s, 16) {
        Some((v, r)) => Some((v as u128, r)),
        None => None,
    }
}

/// The longest string the protocol lets a peer send, in bytes.
pub const MAX_STRING_LEN: i32 = 32768;

/// A string: a varint byte count of at most 32768, then that many bytes of
/// valid UTF-8.
pub open spec fn parse_string(s: Seq<u8>) -> Option<(Seq<char>, Seq<u8>)> {
    match parse_varint(s) {
        Some((n, r)) => if 0 <= n <= MAX_STRING_LEN && r.len() >= n && valid_utf8(
            r.take(n as int),
        ) {
            Some((decode_utf8(r.take(n as int)), r.skip(n as int)))
        } else {
            None
        },
        None => None,
    }
}

/// The wire form of a string: its UTF-8 byte count as a varint, then the bytes.
pub open spec fn string_bytes(cs: Seq<char>) -> Seq<u8> {
    varint_bytes(encode_utf8(cs).len() as i32) + encode_utf8(cs)
}

/// A byte array prefixed with its length as a varint.
pub open spec fn parse_prefixed_bytes(s: Seq<u8>) -> Option<(Seq<u8>, Seq<u8>)> {
    match parse_varint(s) {
        Some((n, r)) => if 0 <= n && r.len() >= n {
            Some((r.take(n as int), r.skip(n as int)))
        } else {
            None
        },
        None => None,
    }
}

pub open spec fn prefixed_bytes(b: Seq<u8>) -> Seq<u8> {
    varint_bytes(b.len() as i32) + b
}

/// `k` varints one after the other.
pub open spec fn parse_varints(s: Seq<u8>, k: nat) -> Option<(Seq<i32>, Seq<u8>)>
    decreases k,
{
    if k == 0 {
        Some((seq![], s))
    } else {
        match parse_varints(s, (k - 1) as nat) {
            Some((vs, r)) => match parse_varint(r) {
                Some((v, r2)) => Some((vs.push(v), r2)),
                None => None,
            },
            None => None,
        }
    }
}

/// A varint count, then that many varints.
pub open spec fn parse_prefixed_varints(s: Seq<u8>) -> Option<(Seq<i32>, Seq<u8>)> {
    match parse_varint(s) {
        Some((n, r)) => if n >= 0 {
            parse_varints(r, n as nat)
        } else {
            None
        },
        None => None,
    }
}

pub open spec fn varints_bytes(vs: Seq<i32>) -> Seq<u8>
    decreases vs.len(),
{
    if vs.len() == 0 {
        seq![]
    } else {
        varints_bytes(vs.drop_last()) + varint_bytes(vs.last())
    }
}

pub open spec fn is_hex_digit(c: char) -> bool {
    ('0' <= c <= '9') || ('a' <= c <= 'f') || ('A' <= c <= 'F')
}

pub open spec fn hex_digit_value(c: char) -> nat {
    if '0' <= c <= '9' {
        (c as nat - '0' as nat) as nat
    } else if 'a' <= c <= 'f' {
        (c as nat - 'a' as nat + 10) as nat
    } else {
        (c as nat - 'A' as nat + 10) as nat
    }
}

/// The number that the hexadecimal digits `cs` spell, most significant first.
pub open spec fn hex_value(cs: Seq<char>) -> nat
    decreases cs.len(),
{
    if cs.len() == 0 {
        0
    } else {
        hex_value(cs.drop_last()) * 16 + hex_digit_value(cs.last())
    }
}

/// The 32 digits of a uuid written with dashes in the 8-4-4-4-12 grouping.
pub open spec fn undashed(cs: Seq<char>) -> Seq<char> {
    cs.subrange(0, 8) + cs.subrange(9, 13) + cs.subrange(14, 18) + cs.subrange(19, 23)
        + cs.subrange(24, 36)
}

pub open spec fn is_dashed_uuid(cs: Seq<char>) -> bool {
    &&& cs.len() == 36
    &&& cs[8] == '-' && cs[13] == '-' && cs[18] == '-' && cs[23] == '-'
    &&& forall|i: int| 0 <= i < 32 ==> is_hex_digit(#[trigger] undashed(cs)[i])
}

/// A uuid as a string of 32 hexadecimal digits, of either case.
pub open spec fn parse_uuid_str(s: Seq<u8>) -> Option<(u128, Seq<u8>)> {
    match parse_string(s) {
        Some((cs, r)) => if cs.len() == 32 && forall|i: int|
            0 <= i < 32 ==> is_hex_digit(#[trigger] cs[i]) {
            Some((hex_value(cs) as u128, r))
        } else {
            None
        },
        None => None,
    }
}

/// A uuid as a string of 36 characters: hexadecimal digits of either case in
/// the groups 8-4-4-4-12, joined by dashes.
pub open spec fn parse_uuid_str_dashes(s: Seq<u8>) -> Option<(u128, Seq<u8>)> {
    match parse_string(s) {
        Some((cs, r)) => if is_dashed_uuid(cs) {
            Some((hex_value(undashed(cs)) as u128, r))
        } else {
            None
        },
        None => None,
    }
}

/// The lowercase ASCII hexadecimal digit for `d < 16`.
pub open spec fn hex_ascii(d: nat) -> u8 {
    if d < 10 {
        (d + 48) as u8
    } else {
        (d + 87) as u8
    }
}

/// `v` as `n` lowercase hexadecimal digits in ASCII, most significant first.
pub open spec fn hex_bytes(v: nat, n: nat) -> Seq<u8>
    decreases n,
{
    if n == 0 {
        seq![]
    } else {
        hex_bytes(v / 16, (n - 1) as nat).push(hex_ascii(v % 16))
    }
}

/// The wire form of a uuid without dashes: a length byte of 32, then the digits.
pub open spec fn uuid_str_bytes(v: u128) -> Seq<u8> {
    seq![32u8] + hex_bytes(v as nat, 32)
}

/// Hexadecimal digits in the groups 8-4-4-4-12, joined by dashes.
pub open spec fn dashed(h: Seq<u8>) -> Seq<u8> {
    h.subrange(0, 8) + seq![45u8] + h.subrange(8, 12) + seq![45u8] + h.subrange(12, 16) + seq![45u8]
        + h.subrange(16, 20) + seq![45u8] + h.subrange(20, 32)
}

/// The wire form of a uuid with dashes: a length byte of 36, then the digits
/// grouped 8-4-4-4-12.
pub open spec fn uuid_str_dashes_bytes(v: u128) -> Seq<u8> {
    seq![36u8] + dashed(hex_bytes(v as nat, 32))
}

/// A position is in range when x and z fit in 26 bits and y in 12, as
/// two's-complement numbers.
pub open spec fn position_in_range(x: i32, y: i32, z: i32) -> bool {
    &&& -0x200_0000 <= x < 0x200_0000
    &&& -0x800 <= y < 0x800
    &&& -0x200_0000 <= z < 0x200_0000
}

/// A position packed into 64 bits: x in the top 26 bits, z in the next 26, y
/// in the low 12.
pub open spec fn pack_position(x: i32, y: i32, z: i32) -> nat {
    unsigned_of(x as int, 0x400_0000) * 0x40_0000_0000 + unsigned_of(z as int, 0x400_0000) * 0x1000
        + unsigned_of(y as int, 0x1000)
}

/// The position that the 64-bit number `v` packs.
pub open spec fn unpack_position(v: nat) -> (i32, i32, i32) {
    (
        signed_of(v / 0x40_0000_0000, 0x400_0000) as i32,
        signed_of(v % 0x1000, 0x1000) as i32,
        signed_of((v / 0x1000) % 0x400_0000, 0x400_0000) as i32,
    )
}

pub open spec fn parse_position(s: Seq<u8>) -> Option<((i32, i32, i32), Seq<u8>)> {
    match parse_be(s, 8) {
        Some((v, r)) => Some((unpack_position(v), r)),
        None => None,
    }
}

pub proof fn lemma_be_value_bound(s: Seq<u8>)
    ensures
        be_value(s) < pow256(s.len()),
    decreases s.len(),
{
    if s.len() > 0 {
        lemma_be_value_bound(s.drop_last());
        let v = be_value(s.drop_last());
        let p = pow256(s.drop_last().len());
        let b = s.last() as nat;
        assert(v * 256 + b < 256 * p) by (nonlinear_arith)
            requires
                v < p,
                b < 256,
        ;
    }
}

/// Reading the packed form of an in-range position gives the position back.
pub proof fn lemma_position_round_trip(x: i32, y: i32, z: i32)
    requires
        position_in_range(x, y, z),
    ensures
        pack_position(x, y, z) < 0x1_0000_0000_0000_0000,
        unpack_position(pack_position(x, y, z)) == (x, y, z),
{
    let ux = unsigned_of(x as int, 0x400_0000);
    let uy = unsigned_of(y as int, 0x1000);
    let uz = unsigned_of(z as int, 0x400_0000);
    let v = pack_position(x, y, z);
    assert(v / 0x40_0000_0000 == ux && v % 0x1000 == uy && (v / 0x1000) % 0x400_0000 == uz
        && v < 0x1_0000_0000_0000_0000) by (nonlinear_arith)
        requires
            ux < 0x400_0000,
            uy < 0x1000,
            uz < 0x400_0000,
            v == ux * 0x40_0000_0000 + uz * 0x1000 + uy,
    ;
}

/// A string is read back as written, as long as it is short enough to be
/// accepted.
pub proof fn lemma_string_round_trip(cs: Seq<char>, rest: Seq<u8>)
    requires
        encode_utf8(cs).len() <= MAX_STRING_LEN,
    ensures
        parse_string(string_bytes(cs) + rest) == Some((cs, rest)),
{
    let b = encode_utf8(cs);
    let n = b.len() as i32;
    lemma_varint_round_trip(n, b + rest);
    assert(string_bytes(cs) + rest =~= varint_bytes(n) + (b + rest));
    assert((b + rest).take(n as int) =~= b);
    assert((b + rest).skip(n as int) =~= rest);
    encode_utf8_valid_utf8(cs);
    encode_utf8_decode_utf8(cs);
}

pub proof fn lemma_hex_bytes_len(v: nat, n: nat)
    ensures
        hex_bytes(v, n).len() == n,
    decreases n,
{
    if n > 0 {
        lemma_hex_bytes_len(v / 16, (n - 1) as nat);
    }
}

pub proof fn lemma_be_bytes_len(v: nat, n: nat)
    ensures
        be_bytes(v, n).len() == n,
    decreases n,
{
    if n > 0 {
        lemma_be_bytes_len(v / 256, (n - 1) as nat);
    }
}

proof fn lemma_leb_len_all_high(s: Seq<u8>, k: nat)
    requires
        s.len() >= k,
        forall|i: int| 0 <= i < k ==> s[i] >= 128,
    ensures
        leb_len(s, k) is None,
    decreases k,
{
    if k > 0 {
        let t = s.drop_first();
        assert forall|i: int| 0 <= i < k - 1 implies t[i] >= 128 by {
            assert(t[i] == s[i + 1]);
        }
        lemma_leb_len_all_high(t, (k - 1) as nat);
    }
}

/// A varint is at most five bytes long: when the first five bytes all carry
/// the continuation bit, the input is rejected.
pub proof fn lemma_varint_at_most_five_bytes(s: Seq<u8>)
    requires
        s.len() >= 5,
        forall|i: int| 0 <= i < 5 ==> s[i] >= 128,
    ensures
        parse_varint(s) is None,
{
    lemma_leb_len_all_high(s, 5);
}

/// A varlong is at most ten bytes long: when the first ten bytes all carry
/// the continuation bit, the input is rejected.
pub proof fn lemma_varlong_at_most_ten_bytes(s: Seq<u8>)
    requires
        s.len() >= 10,
        forall|i: int| 0 <= i < 10 ==> s[i] >= 128,
    ensures
        parse_varlong(s) is None,
{
    lemma_leb_len_all_high(s, 10);
}

proof fn lemma_be_value_of_bytes(v: nat, n: nat)
    requires
        v < pow256(n),
    ensures
        be_value(be_bytes(v, n)) == v,
    decreases n,
{
    lemma_be_bytes_len(v, n);
    if n > 0 {
        let m = (n - 1) as nat;
        assert(v / 256 < pow256(m)) by (nonlinear_arith)
            requires
                v < 256 * pow256(m),
        ;
        lemma_be_value_of_bytes(v / 256, m);
        let b = be_bytes(v, n);
        assert(b.drop_last() =~= be_bytes(v / 256, m));
    } else {
        assert(v == 0);
    }
}

/// Reading `n` big-endian bytes back gives any number below `256^n` and
/// leaves what follows.
pub proof fn lemma_be_round_trip(v: nat, n: nat, rest: Seq<u8>)
    requires
        v < pow256(n),
    ensures
        parse_be(be_bytes(v, n) + rest, n) == Some((v, rest)),
{
    lemma_be_bytes_len(v, n);
    lemma_be_value_of_bytes(v, n);
    assert((be_bytes(v, n) + rest).take(n as int) =~= be_bytes(v, n));
    assert((be_bytes(v, n) + rest).skip(n as int) =~= rest);
}

/// Every `i32` is read back from its big-endian two's-complement bytes.
pub proof fn lemma_i32_round_trip(i: i32, rest: Seq<u8>)
    ensures
        parse_i32(be_bytes(unsigned_of(i as int, 0x1_0000_0000), 4) + rest) == Some((i, rest)),
{
    reveal_with_fuel(pow256, 5);
    lemma_be_round_trip(unsigned_of(i as int, 0x1_0000_0000), 4, rest);
}

/// Every `i64` is read back from its big-endian two's-complement bytes.
pub proof fn lemma_i64_round_trip(i: i64, rest: Seq<u8>)
    ensures
        parse_i64(be_bytes(unsigned_of(i as int, 0x1_0000_0000_0000_0000), 8) + rest) == Some(
            (i, rest),
        ),
{
    reveal_with_fuel(pow256, 9);
    lemma_be_round_trip(unsigned_of(i as int, 0x1_0000_0000_0000_0000), 8, rest);
}

/// A prefixed byte array is read back as written.
pub proof fn lemma_prefixed_bytes_round_trip(b: Seq<u8>, rest: Seq<u8>)
    requires
        b.len() <= i32::MAX,
    ensures
        parse_prefixed_bytes(prefixed_bytes(b) + rest) == Some((b, rest)),
{
    lemma_varint_round_trip(b.len() as i32, b + rest);
    assert(prefixed_bytes(b) + rest =~= varint_bytes(b.len() as i32) + (b + rest));
    assert((b + rest).take(b.len() as int) =~= b);
    assert((b + rest).skip(b.len() as int) =~= rest);
}

/// Every `u16` is read back from its big-endian bytes.
pub proof fn lemma_u16_round_trip(v: u16, rest: Seq<u8>)
    ensures
        parse_u16(be_bytes(v as nat, 2) + rest) == Some((v, rest)),
{
    reveal_with_fuel(pow256, 3);
    lemma_be_round_trip(v as nat, 2, rest);
}

/// Every `u32` is read back from its big-endian bytes.
pub proof fn lemma_u32_round_trip(v: u32, rest: Seq<u8>)
    ensures
        parse_u32(be_bytes(v as nat, 4) + rest) == Some((v, rest)),
{
    reveal_with_fuel(pow256, 5);
    lemma_be_round_trip(v as nat, 4, rest);
}

/// Every `u64` is read back from its big-endian bytes.
pub proof fn lemma_u64_round_trip(v: u64, rest: Seq<u8>)
    ensures
        parse_u64(be_bytes(v as nat, 8) + rest) == Some((v, rest)),
{
    reveal_with_fuel(pow256, 9);
    lemma_be_round_trip(v as nat, 8, rest);
}

/// Every byte is read back.
pub proof fn lemma_u8_round_trip(v: u8, rest: Seq<u8>)
    ensures
        parse_u8(seq![v] + rest) == Some((v, rest)),
{
    assert((seq![v] + rest).drop_first() =~= rest);
}

/// Every `i8` is read back from its two's-complement byte.
pub proof fn lemma_i8_round_trip(v: i8, rest: Seq<u8>)
    ensures
        parse_i8(seq![unsigned_of(v as int, 256) as u8] + rest) == Some((v, rest)),
{
    assert((seq![unsigned_of(v as int, 256) as u8] + rest).drop_first() =~= rest);
}

/// Every bool is read back.
pub proof fn lemma_bool_round_trip(v: bool, rest: Seq<u8>)
    ensures
        parse_bool(bool_bytes(v) + rest) == Some((v, rest)),
{
    assert((bool_bytes(v) + rest).drop_first() =~= rest);
}

/// The characters that ASCII bytes stand for.
pub open spec fn ascii_chars(b: Seq<u8>) -> Seq<char> {
    Seq::new(b.len(), |i: int| b[i] as char)
}

/// ASCII bytes are valid UTF-8 and decode to the characters they stand for.
pub proof fn lemma_ascii_utf8(b: Seq<u8>)
    requires
        forall|i: int| 0 <= i < b.len() ==> #[trigger] b[i] < 128,
    ensures
        valid_utf8(b),
        decode_utf8(b) == ascii_chars(b),
    decreases b.len(),
{
    if b.len() > 0 {
        let x = b[0];
        assert(x < 128);
        assert(x & 0x7f == x) by (bit_vector)
            requires
                x < 128,
        ;
        assert(is_leading_byte_width_1(x));
        assert(pop_first_scalar(b) =~= b.drop_first());
        let t = b.drop_first();
        assert forall|i: int| 0 <= i < t.len() implies #[trigger] t[i] < 128 by {
            assert(t[i] == b[i + 1]);
        }
        lemma_ascii_utf8(t);
        assert(decode_first_scalar(b) == x as u32);
        assert(decode_utf8(b) =~= ascii_chars(b));
    }
}

#[verifier::rlimit(40)]
proof fn lemma_hex_bytes_ascii(v: nat, n: nat)
    ensures
        forall|i: int| 0 <= i < hex_bytes(v, n).len() ==> #[trigger] hex_bytes(v, n)[i] < 128
            && is_hex_digit(hex_bytes(v, n)[i] as char),
    decreases n,
{
    lemma_hex_bytes_len(v, n);
    if n > 0 {
        lemma_hex_bytes_ascii(v / 16, (n - 1) as nat);
        let d = v % 16;
        let c = hex_ascii(d);
        assert(c < 128 && is_hex_digit(c as char));
        let h = hex_bytes(v, n);
        assert forall|i: int| 0 <= i < h.len() implies #[trigger] h[i] < 128 && is_hex_digit(
            h[i] as char,
        ) by {
            if i < h.len() - 1 {
                assert(h[i] == hex_bytes(v / 16, (n - 1) as nat)[i]);
            }
        }
    }
}

proof fn lemma_hex_value_of_bytes(v: nat, n: nat)
    requires
        v < hex_pow16(n),
    ensures
        hex_value(ascii_chars(hex_bytes(v, n))) == v,
    decreases n,
{
    lemma_hex_bytes_len(v, n);
    if n > 0 {
        let m = (n - 1) as nat;
        assert(v / 16 < hex_pow16(m)) by (nonlinear_arith)
            requires
                v < 16 * hex_pow16(m),
        ;
        lemma_hex_value_of_bytes(v / 16, m);
        let h = hex_bytes(v, n);
        lemma_hex_bytes_len(v / 16, m);
        assert(ascii_chars(h).drop_last() =~= ascii_chars(hex_bytes(v / 16, m)));
        let d = v % 16;
        assert(ascii_chars(h).last() == hex_ascii(d) as char);
        assert(hex_digit_value(hex_ascii(d) as char) == d);
    } else {
        assert(ascii_chars(hex_bytes(v, n)) =~= Seq::<char>::empty());
    }
}

/// `16` to the power `k`.
pub open spec fn hex_pow16(k: nat) -> nat
    decreases k,
{
    if k == 0 {
        1
    } else {
        16 * hex_pow16((k - 1) as nat)
    }
}

/// A uuid written without dashes is read back.
#[verifier::rlimit(40)]
pub proof fn lemma_uuid_str_round_trip(v: u128, rest: Seq<u8>)
    ensures
        parse_uuid_str(uuid_str_bytes(v) + rest) == Some((v, rest)),
{
    let h = hex_bytes(v as nat, 32);
    lemma_hex_bytes_len(v as nat, 32);
    lemma_hex_bytes_ascii(v as nat, 32);
    lemma_ascii_utf8(h);
    reveal_with_fuel(hex_pow16, 33);
    assert(hex_pow16(32) == 0x1_0000_0000_0000_0000_0000_0000_0000_0000);
    lemma_hex_value_of_bytes(v as nat, 32);
    let s = uuid_str_bytes(v) + rest;
    assert(varint_bytes(32) =~= seq![32u8]);
    lemma_varint_round_trip(32, h + rest);
    assert(s =~= varint_bytes(32) + (h + rest));
    assert((h + rest).take(32) =~= h);
    assert((h + rest).skip(32) =~= rest);
    let cs = ascii_chars(h);
    assert forall|i: int| 0 <= i < 32 implies is_hex_digit(#[trigger] cs[i]) by {
        assert(h[i] < 128 && is_hex_digit(h[i] as char));
    }
}

#[verifier::rlimit(40)]
proof fn lemma_dashed_ascii(h: Seq<u8>)
    requires
        h.len() == 32,
        forall|i: int| 0 <= i < 32 ==> #[trigger] h[i] < 128 && is_hex_digit(h[i] as char),
    ensures
        dashed(h).len() == 36,
        forall|i: int| 0 <= i < 36 ==> #[trigger] dashed(h)[i] < 128,
{
    let d = dashed(h);
    assert forall|i: int| 0 <= i < 36 implies #[trigger] d[i] < 128 by {
        if i < 8 {
            assert(d[i] == h[i]);
        } else if i == 8 || i == 13 || i == 18 || i == 23 {
        } else if i < 13 {
            assert(d[i] == h[i - 1]);
        } else if i < 18 {
            assert(d[i] == h[i - 2]);
        } else if i < 23 {
            assert(d[i] == h[i - 3]);
        } else {
            assert(d[i] == h[i - 4]);
        }
    }
}

#[verifier::rlimit(40)]
proof fn lemma_dashed_undashed(h: Seq<u8>)
    requires
        h.len() == 32,
        forall|i: int| 0 <= i < 32 ==> #[trigger] h[i] < 128 && is_hex_digit(h[i] as char),
    ensures
        is_dashed_uuid(ascii_chars(dashed(h))),
        undashed(ascii_chars(dashed(h))) == ascii_chars(h),
{
    let cs = ascii_chars(dashed(h));
    assert(undashed(cs) =~= ascii_chars(h));
    assert(cs[8] == '-' && cs[13] == '-' && cs[18] == '-' && cs[23] == '-');
    assert forall|i: int| 0 <= i < 32 implies is_hex_digit(#[trigger] undashed(cs)[i]) by {
        assert(undashed(cs)[i] == h[i] as char);
    }
}

/// A uuid written with dashes is read back.
#[verifier::rlimit(40)]
pub proof fn lemma_uuid_str_dashes_round_trip(v: u128, rest: Seq<u8>)
    ensures
        parse_uuid_str_dashes(uuid_str_dashes_bytes(v) + rest) == Some((v, rest)),
{
    let h = hex_bytes(v as nat, 32);
    lemma_hex_bytes_len(v as nat, 32);
    lemma_hex_bytes_ascii(v as nat, 32);
    reveal_with_fuel(hex_pow16, 33);
    assert(hex_pow16(32) == 0x1_0000_0000_0000_0000_0000_0000_0000_0000);
    lemma_hex_value_of_bytes(v as nat, 32);
    let d = dashed(h);
    lemma_dashed_ascii(h);
    lemma_dashed_undashed(h);
    lemma_ascii_utf8(d);
    assert(varint_bytes(36) =~= seq![36u8]);
    lemma_varint_round_trip(36, d + rest);
    assert(uuid_str_dashes_bytes(v) + rest =~= varint_bytes(36) + (d + rest));
    assert((d + rest).take(36) =~= d);
    assert((d + rest).skip(36) =~= rest);
}

/// Every `i16` is read back from its big-endian two's-complement bytes.
pub proof fn lemma_i16_round_trip(i: i16, rest: Seq<u8>)
    ensures
        parse_i16(be_bytes(unsigned_of(i as int, 0x1_0000), 2) + rest) == Some((i, rest)),
{
    reveal_with_fuel(pow256, 3);
    lemma_be_round_trip(unsigned_of(i as int, 0x1_0000), 2, rest);
}

/// Every `u128` is read back from its big-endian bytes.
pub proof fn lemma_u128_round_trip(v: u128, rest: Seq<u8>)
    ensures
        parse_u128(be_bytes(v as nat, 16) + rest) == Some((v, rest)),
{
    reveal_with_fuel(pow256, 17);
    assert(pow256(16) == 0x1_0000_0000_0000_0000_0000_0000_0000_0000);
    lemma_be_round_trip(v as nat, 16, rest);
}

/// An in-range position is read back from its packed bytes.
pub proof fn lemma_position_bytes_round_trip(x: i32, y: i32, z: i32, rest: Seq<u8>)
    requires
        position_in_range(x, y, z),
    ensures
        parse_position(be_bytes(pack_position(x, y, z), 8) + rest) == Some(((x, y, z), rest)),
{
    lemma_position_round_trip(x, y, z);
    reveal_with_fuel(pow256, 9);
    lemma_be_round_trip(pack_position(x, y, z), 8, rest);
}

proof fn lemma_varints_round_trip(vs: Seq<i32>, rest: Seq<u8>)
    ensures
        parse_varints(varints_bytes(vs) + rest, vs.len()) == Some((vs, rest)),
    decreases vs.len(),
{
    if vs.len() == 0 {
        assert(varints_bytes(vs) + rest =~= rest);
        assert(vs =~= Seq::<i32>::empty());
    } else {
        let init = vs.drop_last();
        let t = varint_bytes(vs.last()) + rest;
        lemma_varints_round_trip(init, t);
        lemma_varint_round_trip(vs.last(), rest);
        assert(varints_bytes(vs) + rest =~= varints_bytes(init) + t);
        assert(init.push(vs.last()) =~= vs);
    }
}

/// A counted varint array is read back as written.
pub proof fn lemma_prefixed_varints_round_trip(vs: Seq<i32>, rest: Seq<u8>)
    requires
        vs.len() <= i32::MAX,
    ensures
        parse_prefixed_varints(varint_bytes(vs.len() as i32) + varints_bytes(vs) + rest) == Some(
            (vs, rest),
        ),
{
    let t = varints_bytes(vs) + rest;
    assert(varint_bytes(vs.len() as i32) + varints_bytes(vs) + rest =~= varint_bytes(
        vs.len() as i32,
    ) + t);
    lemma_varint_round_trip(vs.len() as i32, t);
    lemma_varints_round_trip(vs, rest);
}

proof fn lemma_leb_value_last(t: Seq<u8>)
    requires
        t.len() >= 1,
    ensures
        leb_value(t) >= (t.last() % 128) as nat * pow128((t.len() - 1) as nat),
    decreases t.len(),
{
    if t.len() == 1 {
        assert(t.drop_first() =~= Seq::<u8>::empty());
        assert(leb_value(Seq::<u8>::empty()) == 0);
        assert(t.last() == t[0]);
        assert(leb_value(t) == (t[0] % 128) as nat + 128 * leb_value(t.drop_first()));
        assert(pow128(0) == 1);
        assert((t.last() % 128) as nat * 1 == (t.last() % 128) as nat);
    } else {
        let u = t.drop_first();
        assert(leb_value(t) == (t[0] % 128) as nat + 128 * leb_value(u));
        lemma_leb_value_last(u);
        assert(u.last() == t.last());
        let a = (t.last() % 128) as nat;
        let p = pow128((u.len() - 1) as nat);
        let lv = leb_value(u);
        assert(128 * lv >= a * (128 * p)) by (nonlinear_arith)
            requires
                lv >= a * p,
        ;
        assert(pow128((t.len() - 1) as nat) == 128 * p);
    }
}

/// A varlong is at most ten bytes long and its tenth byte is at most 1: when
/// the first nine bytes carry the continuation bit and the tenth is above 1,
/// the input is rejected.
pub proof fn lemma_varlong_tenth_byte(s: Seq<u8>)
    requires
        s.len() >= 10,
        forall|j: int| 0 <= j < 9 ==> s[j] >= 128,
        s[9] > 1,
    ensures
        parse_varlong(s) is None,
{
    if s[9] >= 128 {
        lemma_leb_len_all_high(s, 10);
    } else {
        lemma_leb_len_nine_high(s);
        let t = s.take(10);
        assert(t.last() == s[9]);
        lemma_leb_value_last(t);
        reveal_with_fuel(pow128, 10);
        assert(pow128(9) == 0x8000_0000_0000_0000);
        assert((s[9] % 128) as nat * pow128(9) >= 0x1_0000_0000_0000_0000) by (nonlinear_arith)
            requires
                s[9] < 128,
                s[9] > 1,
                pow128(9) == 0x8000_0000_0000_0000,
        ;
    }
}

proof fn lemma_leb_len_nine_high(s: Seq<u8>)
    requires
        s.len() >= 10,
        forall|j: int| 0 <= j < 9 ==> s[j] >= 128,
        s[9] < 128,
    ensures
        leb_len(s, 10) == Some(10nat),
{
    lemma_leb_len_high_prefix(s, 9, 10);
}

proof fn lemma_leb_len_high_prefix(s: Seq<u8>, k: nat, max: nat)
    requires
        s.len() > k,
        k < max,
        forall|j: int| 0 <= j < k ==> s[j] >= 128,
        s[k as int] < 128,
    ensures
        leb_len(s, max) == Some(k + 1),
    decreases k,
{
    if k > 0 {
        let t = s.drop_first();
        assert forall|j: int| 0 <= j < k - 1 implies t[j] >= 128 by {
            assert(t[j] == s[j + 1]);
        }
        assert(t[(k - 1) as int] == s[k as int]);
        lemma_leb_len_high_prefix(t, (k - 1) as nat, (max - 1) as nat);
    }
}

} // verus!
