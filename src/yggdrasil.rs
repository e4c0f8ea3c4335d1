//! The session-join helpers: the server-id hash, the shared secret, and the
//! RSA step of the encryption handshake.
use vstd::prelude::*;

use crate::bindings::{
    fill_random, rsa_public_encrypt, rsa_public_key_from_der, sha1_digest, sha1_of, utf8_to_string,
};
use vstd::string::StringSliceAdditionalSpecFns;
use crate::error::ProtoError;
use crate::wire::{ascii_chars, be_value, lemma_ascii_utf8, pow256};

verus! {

/// The lowercase ASCII hexadecimal digit for `d < 16`.
pub open spec fn hex_digit_byte(d: nat) -> u8 {
    if d < 10 {
        (d + 48) as u8
    } else {
        (d + 87) as u8
    }
}

/// `v` as `n` lowercase hexadecimal digits in ASCII, most significant first.
pub open spec fn hex_digits(v: nat, n: nat) -> Seq<u8>
    decreases n,
{
    if n == 0 {
        seq![]
    } else {
        hex_digits(v / 16, (n - 1) as nat).push(hex_digit_byte(v % 16))
    }
}

/// `s` without its leading ASCII zeros.
pub open spec fn strip_zeros(s: Seq<u8>) -> Seq<u8>
    decreases s.len(),
{
    if s.len() > 0 && s[0] == 48 {
        strip_zeros(s.drop_first())
    } else {
        s
    }
}

/// The server-id hash of a digest, in ASCII: the digest read as a big-endian
/// two's-complement number, in lowercase hexadecimal without leading zeros,
/// with a leading `-` when negative.
pub open spec fn hash_text(d: Seq<u8>) -> Seq<u8> {
    let n = be_value(d);
    let width = 2 * d.len();
    if d.len() > 0 && d[0] >= 128 {
        seq![45u8] + strip_zeros(hex_digits((pow256(d.len()) - n) as nat, width))
    } else {
        strip_zeros(hex_digits(n, width))
    }
}

proof fn lemma_be_value_prepend(a: u8, s: Seq<u8>)
    ensures
        be_value(seq![a] + s) == a * pow256(s.len()) + be_value(s),
    decreases s.len(),
{
    let x = seq![a] + s;
    if s.len() == 0 {
        assert(x.drop_last() =~= Seq::<u8>::empty());
        assert(be_value(Seq::<u8>::empty()) == 0);
        assert(x.last() == a);
        assert(pow256(0) == 1);
        assert(be_value(x) == a);
    } else {
        assert(x.drop_last() =~= seq![a] + s.drop_last());
        assert(x.last() == s.last());
        lemma_be_value_prepend(a, s.drop_last());
        let p = pow256(s.drop_last().len());
        let v = be_value(s.drop_last());
        assert(pow256(s.len()) == 256 * p);
        assert(be_value(s) == v * 256 + s.last());
        assert(be_value(x) == be_value(x.drop_last()) * 256 + x.last());
        assert((a * p + v) * 256 + s.last() == a * (256 * p) + (v * 256 + s.last()))
            by (nonlinear_arith);
    }
}

proof fn lemma_hex_digits_byte(v: nat, b: u8, n: nat)
    ensures
        hex_digits((v * 256 + b) as nat, n + 2) == hex_digits(v, n).push(hex_digit_byte(b as nat / 16)).push(
            hex_digit_byte(b as nat % 16),
        ),
{
    let w = (v * 256 + b) as nat;
    assert(w / 16 == v * 16 + b / 16 && w % 16 == b % 16) by (nonlinear_arith)
        requires
            w == v * 256 + b,
            b < 256,
    ;
    let u = (v * 16 + b / 16) as nat;
    assert(u / 16 == v && u % 16 == b / 16) by (nonlinear_arith)
        requires
            u == v * 16 + b / 16,
            b < 256,
    ;
    assert(hex_digits(w, n + 2) == hex_digits(w / 16, n + 1).push(hex_digit_byte(w % 16)));
    assert(hex_digits(u, n + 1) == hex_digits(u / 16, n).push(hex_digit_byte(u % 16)));
}

/// The server-id hash of a 20-byte SHA-1 digest, as the session service
/// expects it.
#[verifier::rlimit(40)]
pub fn hash_from_digest(digest: &Vec<u8>) -> (r: String)
    requires
        digest.len() == 20,
    ensures
        r@ == ascii_chars(hash_text(digest@)),
{
    let d = digest;
    let negative = d[0] >= 128;
    // The magnitude, least significant byte first, then reversed.
    let mut mag: Vec<u8> = Vec::new();
    let mut i: usize = 20;
    let mut borrow: u8 = 0;
    // mag holds, in order, the low bytes of pow256(k) * borrow - be_value(suffix).
    while i > 0
        invariant
            i <= 20,
            d.len() == 20,
            borrow <= 1,
            mag.len() == 20 - i,
            negative ==> be_value(mag_value_seq(mag@)) + be_value(d@.skip(i as int)) == pow256(
                (20 - i) as nat,
            ) * borrow as nat,
            negative ==> (borrow == 0 <==> be_value(d@.skip(i as int)) == 0),
            !negative ==> mag_value_seq(mag@) == d@.skip(i as int),
        decreases i,
    {
        let x = d[i - 1];
        let r: u8;
        let nb: u8;
        if !negative {
            r = x;
            nb = 0;
        } else if x == 0 && borrow == 0 {
            r = 0;
            nb = 0;
        } else {
            r = (256 - x as u16 - borrow as u16) as u8;
            nb = 1;
        }
        let ghost old_mag = mag@;
        let ghost old_borrow = borrow;
        let ghost k = (20 - i) as nat;
        mag.push(r);
        borrow = nb;
        i = i - 1;
        proof {
            let sfx = d@.skip((i + 1) as int);
            assert(d@.skip(i as int) =~= seq![x] + sfx);
            assert(mag_value_seq(mag@) =~= seq![r] + mag_value_seq(old_mag));
            lemma_mag_len(old_mag);
            lemma_be_value_prepend(x, sfx);
            lemma_be_value_prepend(r, mag_value_seq(old_mag));
            if negative {
                let p = pow256(k);
                crate::wire::lemma_be_value_bound(sfx);
                assert(sfx.len() == k);
                assert(p > 0);
                assert(r + x + old_borrow == nb * 256);
                assert((r + x + old_borrow) * p == nb * (256 * p)) by (nonlinear_arith)
                    requires
                        (r + x + old_borrow) == nb * 256,
                ;
                assert(r * p + x * p + old_borrow * p == (r + x + old_borrow) * p)
                    by (nonlinear_arith);
                assert(pow256((20 - i) as nat) == 256 * p);
                if nb == 0 {
                    assert(x == 0);
                    assert(x * p == 0) by (nonlinear_arith)
                        requires
                            x == 0,
                    ;
                } else {
                    if x == 0 {
                        assert(old_borrow == 1);
                    } else {
                        assert(x * p > 0) by (nonlinear_arith)
                            requires
                                x > 0,
                                p > 0,
                        ;
                    }
                }
            }
        }
    }
    assert(d@.skip(0) =~= d@);
    let ghost m = mag_value_seq(mag@);
    proof {
        lemma_mag_len(mag@);
        if negative {
            crate::wire::lemma_be_value_bound(m);
            crate::wire::lemma_be_value_bound(d@);
            assert(be_value(d@) > 0) by {
                lemma_be_value_prepend(d@[0], d@.drop_first());
                assert(seq![d@[0]] + d@.drop_first() =~= d@);
                assert(d@[0] * pow256(19) >= 0) by (nonlinear_arith)
                    requires
                        d@[0] >= 0,
                ;
                assert(pow256(19) > 0) by {
                    reveal_with_fuel(pow256, 20);
                }
                assert(d@[0] * pow256(19) > 0) by (nonlinear_arith)
                    requires
                        d@[0] >= 128,
                        pow256(19) > 0,
                ;
            }
        }
    }
    // Two hexadecimal digits per byte, most significant byte first.
    let mut hex: Vec<u8> = Vec::new();
    let mut j: usize = 20;
    assert(m.take(0) =~= Seq::<u8>::empty());
    while j > 0
        invariant
            j <= 20,
            mag.len() == 20,
            m == mag_value_seq(mag@),
            m.len() == 20,
            hex@ == hex_digits(be_value(m.take((20 - j) as int)), (2 * (20 - j)) as nat),
            forall|t: int| 0 <= t < hex@.len() ==> #[trigger] hex@[t] < 128,
        decreases j,
    {
        let b = mag[j - 1];
        proof {
            let k = (20 - j) as int;
            assert(m[k] == b);
            assert(m.take(k + 1).drop_last() =~= m.take(k));
            lemma_hex_digits_byte(be_value(m.take(k)), b, (2 * k) as nat);
        }
        hex.push(hex_byte(b / 16));
        hex.push(hex_byte(b % 16));
        j = j - 1;
    }
    assert(m.take(20) =~= m);
    // Strip leading zeros and add the sign.
    let mut out: Vec<u8> = Vec::new();
    if negative {
        out.push(45);
    }
    let mut z: usize = 0;
    assert(hex@.skip(0) =~= hex@);
    while z < hex.len() && hex[z] == 48
        invariant
            z <= hex.len(),
            strip_zeros(hex@) == strip_zeros(hex@.skip(z as int)),
        decreases hex.len() - z,
    {
        assert(hex@.skip(z as int).drop_first() =~= hex@.skip(z + 1));
        z = z + 1;
    }
    proof {
        if z == hex.len() {
            assert(hex@.skip(z as int) =~= Seq::<u8>::empty());
        }
    }
    let z0 = z;
    let start = Ghost(out@);
    while z < hex.len()
        invariant
            z0 <= z <= hex.len(),
            out@ == start@ + hex@.subrange(z0 as int, z as int),
            forall|t: int| 0 <= t < out@.len() ==> #[trigger] out@[t] < 128,
            forall|t: int| 0 <= t < hex@.len() ==> #[trigger] hex@[t] < 128,
        decreases hex.len() - z,
    {
        out.push(hex[z]);
        z = z + 1;
        assert(out@ =~= start@ + hex@.subrange(z0 as int, z as int));
    }
    assert(hex@.subrange(z0 as int, hex.len() as int) =~= hex@.skip(z0 as int));
    assert(out@ =~= hash_text(d@));
    proof {
        lemma_ascii_utf8(out@);
    }
    match utf8_to_string(out) {
        Some(s) => s,
        None => String::new(),
    }
}

/// The bytes of `v`, which holds them least significant first, in the usual
/// most-significant-first order.
spec fn mag_value_seq(v: Seq<u8>) -> Seq<u8> {
    v.reverse()
}

proof fn lemma_mag_len(v: Seq<u8>)
    ensures
        mag_value_seq(v).len() == v.len(),
{
}

/// The lowercase ASCII hexadecimal digit for `d`.
fn hex_byte(d: u8) -> (r: u8)
    requires
        d < 16,
    ensures
        r == hex_digit_byte(d as nat),
        r < 128,
{
    if d < 10 {
        d + 48
    } else {
        d + 87
    }
}

/// The server-id hash that binds a login to the session service: the SHA-1
/// of the server id, the shared secret and the server's public key, as
/// `hash_from_digest` renders it.
pub fn sha1(server_id: &str, shared_secret: &[u8], server_public_key: &[u8]) -> (r: String)
    ensures
        r@ == ascii_chars(
            hash_text(sha1_digest(server_id.spec_bytes() + shared_secret@ + server_public_key@)),
        ),
{
    let mut data: Vec<u8> = Vec::new();
    crate::write::write_bytearray(&vstd::slice::slice_to_vec(server_id.as_bytes()), &mut data);
    crate::write::write_bytearray(&vstd::slice::slice_to_vec(shared_secret), &mut data);
    crate::write::write_bytearray(&vstd::slice::slice_to_vec(server_public_key), &mut data);
    let digest = sha1_of(data.as_slice());
    hash_from_digest(&digest)
}

/// A fresh 16-byte shared secret from the system's secure random source.
pub fn create_shared_secret() -> (r: Result<[u8; 16], ProtoError>)
    ensures
        r is Err ==> r.unwrap_err() is CryptoError,
{
    let mut secret: [u8; 16] = [0; 16];
    let rng = ring::rand::SystemRandom::new();
    if fill_random(&rng, &mut secret) {
        Ok(secret)
    } else {
        Err(ProtoError::CryptoError)
    }
}

/// The length in bytes of an RSA ciphertext under the 1024-bit keys the
/// protocol uses.
pub const RSA_CIPHERTEXT_LEN: usize = 128;

/// Encrypt `data` under the DER-encoded RSA public key `pubkey` with PKCS#1
/// v1.5 padding. The key must parse and the ciphertext must be 128 bytes long.
pub fn rsa_encrypt(pubkey: &[u8], data: &[u8]) -> (r: Result<Vec<u8>, ProtoError>)
    ensures
        data@.len() > i32::MAX ==> r is Err,
        r is Ok ==> r.unwrap()@.len() == RSA_CIPHERTEXT_LEN,
        r is Err ==> r.unwrap_err() is CryptoError,
{
    if data.len() > i32::MAX as usize {
        return Err(ProtoError::CryptoError);
    }
    let key = match rsa_public_key_from_der(pubkey) {
        Some(k) => k,
        None => return Err(ProtoError::CryptoError),
    };
    match rsa_public_encrypt(&key, data) {
        Some(c) => if c.len() == RSA_CIPHERTEXT_LEN {
            Ok(c)
        } else {
            Err(ProtoError::CryptoError)
        },
        None => Err(ProtoError::CryptoError),
    }
}

} // verus!
