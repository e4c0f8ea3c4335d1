//! The calls this library makes into std and outside crates, each with the
//! contract relied on.
use vstd::prelude::*;
use vstd::utf8::{decode_utf8, valid_utf8};

verus! {

/// Relies on `String::from_utf8`: it succeeds exactly when the bytes are
/// valid UTF-8, and the string then holds the characters they encode.
#[verifier::external_body]
pub(crate) fn utf8_to_string(b: Vec<u8>) -> (r: Option<String>)
    ensures
        r is Some <==> valid_utf8(b@),
        r is Some ==> r.unwrap()@ == decode_utf8(b@),
{
    String::from_utf8(b).ok()
}

/// What SHA-1 makes of a message.
pub uninterp spec fn sha1_digest(data: Seq<u8>) -> Seq<u8>;

/// Relies on `ring::digest::digest` with SHA-1: the digest depends on the
/// message alone and is 20 bytes long.
#[verifier::external_body]
pub(crate) fn sha1_of(data: &[u8]) -> (r: Vec<u8>)
    ensures
        r@ == sha1_digest(data@),
        r@.len() == 20,
{
    ring::digest::digest(&ring::digest::SHA1_FOR_LEGACY_USE_ONLY, data).as_ref().to_vec()
}

#[verifier::external_type_specification]
#[verifier::external_body]
pub struct ExSystemRandom(ring::rand::SystemRandom);

/// Relies on `ring::rand::SystemRandom::new`: a handle on the system's secure
/// random source.
pub assume_specification[ ring::rand::SystemRandom::new ]() -> ring::rand::SystemRandom;

/// Relies on `ring::rand::SecureRandom::fill` of `SystemRandom`: fills the
/// buffer with secure random bytes, or reports failure.
#[verifier::external_body]
pub(crate) fn fill_random(rng: &ring::rand::SystemRandom, out: &mut [u8; 16]) -> (ok: bool)
{
    ring::rand::SecureRandom::fill(rng, out).is_ok()
}

#[verifier::external_type_specification]
#[verifier::external_body]
#[verifier::reject_recursive_types(T)]
pub struct ExRsa<T>(openssl::rsa::Rsa<T>);

#[verifier::external_type_specification]
#[verifier::external_body]
pub struct ExPublic(openssl::pkey::Public);

/// Relies on `openssl::rsa::Rsa::public_key_from_der`: parses a DER-encoded
/// public key, or fails.
#[verifier::external_body]
pub(crate) fn rsa_public_key_from_der(der: &[u8]) -> (r: Option<openssl::rsa::Rsa<openssl::pkey::Public>>)
{
    openssl::rsa::Rsa::public_key_from_der(der).ok()
}

/// Relies on `openssl::rsa::Rsa::public_encrypt` with PKCS#1 v1.5 padding,
/// given an output buffer of the key's size: the ciphertext is the first
/// bytes of that buffer, as many as the call reports.
#[verifier::external_body]
pub(crate) fn rsa_public_encrypt(key: &openssl::rsa::Rsa<openssl::pkey::Public>, data: &[u8]) -> (r: Option<Vec<u8>>)
    requires
        data@.len() <= i32::MAX,
{
    let mut out = vec![0u8; key.size() as usize];
    let n = key.public_encrypt(data, &mut out, openssl::rsa::Padding::PKCS1).ok()?;
    out.truncate(n);
    Some(out)
}

/// What zlib compression at the default level makes of some bytes.
pub uninterp spec fn zlib_compressed(data: Seq<u8>) -> Seq<u8>;

/// What zlib decompression makes of some bytes: what the stream holds, or
/// nothing when the bytes are no zlib stream.
pub uninterp spec fn zlib_decompressed(data: Seq<u8>) -> Option<Seq<u8>>;

/// Relies on `flate2::write::ZlibEncoder` at `Compression::default()`, writing
/// into a `Vec`, which never fails: the output depends on the input alone, and
/// decompresses to the input.
#[verifier::external_body]
pub(crate) fn zlib_compress(data: &[u8]) -> (r: Option<Vec<u8>>)
    ensures
        r is Some,
        r is Some ==> r.unwrap()@ == zlib_compressed(data@),
        r is Some ==> zlib_decompressed(r.unwrap()@) == Some(data@),
{
    let mut enc = flate2::write::ZlibEncoder::new(Vec::new(), flate2::Compression::default());
    std::io::Write::write_all(&mut enc, data).ok()?;
    enc.finish().ok()
}

/// Relies on `flate2::read::ZlibDecoder` over a slice: reading to the end
/// either fails, when the bytes are no zlib stream, or yields what the stream
/// holds; both depend on the bytes alone.
#[verifier::external_body]
pub(crate) fn zlib_decompress(data: &[u8]) -> (r: Option<Vec<u8>>)
    ensures
        r is Some <==> zlib_decompressed(data@) is Some,
        r is Some ==> zlib_decompressed(data@) == Some(r.unwrap()@),
{
    let mut out = Vec::new();
    std::io::Read::read_to_end(&mut flate2::read::ZlibDecoder::new(data), &mut out).ok()?;
    Some(out)
}

#[verifier::external_type_specification]
#[verifier::external_body]
pub struct ExCrypter(openssl::symm::Crypter);

/// The key a cipher was set up with; it doubles as the IV.
pub uninterp spec fn crypter_key(c: openssl::symm::Crypter) -> Seq<u8>;

/// Whether a cipher is AES-128 in CFB8 mode.
pub uninterp spec fn crypter_is_cfb8(c: openssl::symm::Crypter) -> bool;

/// Whether a cipher encrypts, rather than decrypts.
pub uninterp spec fn crypter_encrypts(c: openssl::symm::Crypter) -> bool;

/// The bytes a cipher has been fed since it was set up.
pub uninterp spec fn crypter_fed(c: openssl::symm::Crypter) -> Seq<u8>;

/// What AES-128 in CFB8 mode, with `key` as key and IV, makes of a byte
/// stream, encrypting or decrypting.
pub uninterp spec fn cfb8_stream(key: Seq<u8>, encrypt: bool, input: Seq<u8>) -> Seq<u8>;

/// Relies on `openssl::symm::Crypter::new` with the cipher of
/// `openssl::symm::Cipher::aes_128_cfb8` and the key doubling as the IV,
/// encrypting or decrypting as asked: a fresh AES-128-CFB8 cipher for one
/// direction, or a failure. The key and IV are 16 bytes, so the call does not
/// panic.
#[verifier::external_body]
pub(crate) fn crypter_new(key: &[u8; 16], encrypt: bool) -> (r: Option<openssl::symm::Crypter>)
    ensures
        r is Some ==> crypter_is_cfb8(r.unwrap()) && crypter_key(r.unwrap()) == key@
            && crypter_encrypts(r.unwrap()) == encrypt && crypter_fed(r.unwrap()) == Seq::<u8>::empty(),
{
    let mode = if encrypt { openssl::symm::Mode::Encrypt } else { openssl::symm::Mode::Decrypt };
    openssl::symm::Crypter::new(openssl::symm::Cipher::aes_128_cfb8(), mode, key, Some(key)).ok()
}

/// Relies on `openssl::symm::Crypter::update` for a CFB8 cipher, given an
/// output buffer one block longer than the input: CFB8 turns each byte fed
/// into one byte out, continuing the stream, so the output is the next
/// stretch of the stream over everything fed so far. The call panics when a
/// length does not fit in a C `int`, which the bound leaves out.
#[verifier::external_body]
pub(crate) fn crypter_update(c: &mut openssl::symm::Crypter, input: &[u8]) -> (r: Option<Vec<u8>>)
    requires
        crypter_is_cfb8(*old(c)),
        input@.len() <= i32::MAX - 16,
    ensures
        crypter_is_cfb8(*final(c)),
        r is Some ==> crypter_key(*final(c)) == crypter_key(*old(c))
            && crypter_encrypts(*final(c)) == crypter_encrypts(*old(c))
            && crypter_fed(*final(c)) == crypter_fed(*old(c)) + input@,
        r is Some ==> r.unwrap()@.len() == input@.len() && r.unwrap()@ == cfb8_stream(
            crypter_key(*old(c)),
            crypter_encrypts(*old(c)),
            crypter_fed(*old(c)) + input@,
        ).skip(crypter_fed(*old(c)).len() as int),
{
    let mut out = vec![0u8; input.len() + 16];
    let n = c.update(input, &mut out).ok()?;
    out.truncate(n);
    Some(out)
}

#[verifier::external_type_specification]
#[verifier::external_body]
pub struct ExBuf(netbuf::Buf);

/// The bytes a `netbuf::Buf` holds, oldest first.
pub uninterp spec fn buf_contents(b: netbuf::Buf) -> Seq<u8>;

/// Relies on `netbuf::Buf::new`: an empty buffer.
#[verifier::external_body]
pub(crate) fn buf_new() -> (r: netbuf::Buf)
    ensures
        buf_contents(r) == Seq::<u8>::empty(),
{
    netbuf::Buf::new()
}

/// Relies on `netbuf::Buf::extend`: the bytes are added at the end.
#[verifier::external_body]
pub(crate) fn buf_extend(b: &mut netbuf::Buf, data: &[u8])
    ensures
        buf_contents(*final(b)) == buf_contents(*old(b)) + data@,
{
    b.extend(data)
}

/// Relies on `netbuf::Buf::len`: the number of bytes held.
#[verifier::external_body]
pub(crate) fn buf_len(b: &netbuf::Buf) -> (r: usize)
    ensures
        r == buf_contents(*b).len(),
{
    b.len()
}

/// Relies on `netbuf::Buf::consume`: the first `n` bytes are dropped; it
/// panics when fewer are held.
#[verifier::external_body]
pub(crate) fn buf_consume(b: &mut netbuf::Buf, n: usize)
    requires
        n <= buf_contents(*old(b)).len(),
    ensures
        buf_contents(*final(b)) == buf_contents(*old(b)).skip(n as int),
{
    b.consume(n)
}

/// Relies on indexing a `netbuf::Buf` by `..n`: the first `n` bytes; it panics
/// when fewer are held.
#[verifier::external_body]
pub(crate) fn buf_prefix(b: &netbuf::Buf, n: usize) -> (r: Vec<u8>)
    requires
        n <= buf_contents(*b).len(),
    ensures
        r@ == buf_contents(*b).take(n as int),
{
    b[..n].to_vec()
}

/// What PKCS#1 v1.5 decryption with the DER-encoded RSA private key `der`
/// makes of a ciphertext: the plaintext, or nothing when the key does not
/// parse or the ciphertext does not decrypt.
pub uninterp spec fn rsa_decrypted(der: Seq<u8>, ciphertext: Seq<u8>) -> Option<Seq<u8>>;

/// Relies on `openssl::rsa::Rsa::private_key_from_der` and
/// `openssl::rsa::Rsa::private_decrypt` with PKCS#1 v1.5 padding, given an
/// output buffer of the key's size: the result depends on the key and the
/// ciphertext alone.
#[verifier::external_body]
pub(crate) fn rsa_private_decrypt(der: &[u8], data: &[u8]) -> (r: Option<Vec<u8>>)
    requires
        data@.len() <= i32::MAX,
    ensures
        r is Some <==> rsa_decrypted(der@, data@) is Some,
        r is Some ==> rsa_decrypted(der@, data@) == Some(r.unwrap()@),
{
    let key = openssl::rsa::Rsa::private_key_from_der(der).ok()?;
    let mut out = vec![0u8; key.size() as usize];
    let n = key.private_decrypt(data, &mut out, openssl::rsa::Padding::PKCS1).ok()?;
    out.truncate(n);
    Some(out)
}

} // verus!
