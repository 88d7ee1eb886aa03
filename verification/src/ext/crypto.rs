//! Encodings, ciphers and digests: `base64`, `aes` with `cbc`, `ring`, `md5` and
//! `flate2`.

use crate::util::chars::{is_space, opt_text};
use vstd::prelude::*;
use vstd::utf8::encode_utf8;

verus! {

/// Bytes in base 64: in the alphabet for URLs or the usual one, padded or not.
pub uninterp spec fn base64_of(bytes: Seq<u8>, url_safe: bool, padded: bool) -> Seq<char>;

/// The bytes that a text in base 64 stands for; `None` where it is none, or is
/// padded where it should not be or not padded where it should.
pub uninterp spec fn base64_read(text: Seq<char>, url_safe: bool, padded: bool) -> Option<Seq<u8>>;

/// Bytes encrypted by AES with a key of 128 bits, in CBC mode with PKCS 7 padding.
pub uninterp spec fn aes_encrypted(key: Seq<u8>, iv: Seq<u8>, data: Seq<u8>) -> Option<Seq<u8>>;

/// Bytes decrypted by AES with a key of 128 bits, in CBC mode with PKCS 7 padding.
pub uninterp spec fn aes_decrypted(key: Seq<u8>, iv: Seq<u8>, data: Seq<u8>) -> Option<Seq<u8>>;

/// The authentication code of bytes by the SHA digest of so many bits.
pub uninterp spec fn hmac_of(bits: int, key: Seq<u8>, data: Seq<u8>) -> Seq<u8>;

/// The MD5 digest of a text in hexadecimal digits.
pub uninterp spec fn md5_of(text: Seq<char>) -> Seq<char>;

/// Bytes compressed in the gzip format.
pub uninterp spec fn gzip_of(bytes: Seq<u8>) -> Seq<u8>;

/// The text that bytes in the gzip format hold; `None` where they hold none.
pub uninterp spec fn gzip_text(bytes: Seq<u8>) -> Option<Seq<char>>;

pub open spec fn opt_bytes(o: Option<Vec<u8>>) -> Option<Seq<u8>> {
    match o {
        Some(b) => Some(b@),
        None => None,
    }
}

/// `base64::Engine::encode` of the general purpose engine for an alphabet and
/// padding. The engine decodes what it encoded, and its alphabet has no white
/// space.
#[verifier::external_body]
pub(crate) fn base64_encode(bytes: &Vec<u8>, url_safe: bool, padded: bool) -> (r: String)
    ensures
        r@ == base64_of(bytes@, url_safe, padded),
        base64_read(r@, url_safe, padded) == Some(bytes@),
        forall|i: int| 0 <= i < r@.len() ==> !is_space(#[trigger] r@[i]),
{
    let engine = match (url_safe, padded) {
        (true, true) => &base64::engine::general_purpose::URL_SAFE,
        (true, false) => &base64::engine::general_purpose::URL_SAFE_NO_PAD,
        (false, true) => &base64::engine::general_purpose::STANDARD,
        (false, false) => &base64::engine::general_purpose::STANDARD_NO_PAD,
    };
    base64::Engine::encode(engine, bytes)
}

/// `base64::Engine::decode` of the general purpose engine for an alphabet and
/// padding.
#[verifier::external_body]
pub(crate) fn base64_decode(text: &str, url_safe: bool, padded: bool) -> (r: Option<Vec<u8>>)
    ensures
        opt_bytes(r) == base64_read(text@, url_safe, padded),
{
    let engine = match (url_safe, padded) {
        (true, true) => &base64::engine::general_purpose::URL_SAFE,
        (true, false) => &base64::engine::general_purpose::URL_SAFE_NO_PAD,
        (false, true) => &base64::engine::general_purpose::STANDARD,
        (false, false) => &base64::engine::general_purpose::STANDARD_NO_PAD,
    };
    base64::Engine::decode(engine, text).ok()
}

/// `cbc::Encryptor` over `aes::Aes128`: the key and the vector have 16 bytes
/// each, else there is no cipher. What is encrypted decrypts to what it was.
#[verifier::external_body]
pub(crate) fn aes_encrypt(key: &Vec<u8>, iv: &Vec<u8>, data: &Vec<u8>) -> (r: Option<Vec<u8>>)
    ensures
        opt_bytes(r) == aes_encrypted(key@, iv@, data@),
        (key@.len() == 16 && iv@.len() == 16) == r.is_some(),
        r is Some ==> aes_decrypted(key@, iv@, r->0@) == Some(data@),
{
    let cipher: cbc::Encryptor<aes::Aes128> = cbc::cipher::KeyIvInit::new_from_slices(key, iv).ok()?;
    Some(cbc::cipher::BlockEncryptMut::encrypt_padded_vec_mut::<cbc::cipher::block_padding::Pkcs7>(cipher, data))
}

/// `cbc::Decryptor` over `aes::Aes128`.
#[verifier::external_body]
pub(crate) fn aes_decrypt(key: &Vec<u8>, iv: &Vec<u8>, data: &Vec<u8>) -> (r: Option<Vec<u8>>)
    ensures
        opt_bytes(r) == aes_decrypted(key@, iv@, data@),
{
    let cipher: cbc::Decryptor<aes::Aes128> = cbc::cipher::KeyIvInit::new_from_slices(key, iv).ok()?;
    cbc::cipher::BlockDecryptMut::decrypt_padded_vec_mut::<cbc::cipher::block_padding::Pkcs7>(cipher, data).ok()
}

/// `ring::hmac::sign` with SHA-1 (160 bits), SHA-256, SHA-384 or SHA-512. The
/// code has as many bits as the digest. Digests take less than 2^61 bytes.
#[verifier::external_body]
pub(crate) fn hmac_sign(bits: u16, key: &Vec<u8>, data: &Vec<u8>) -> (r: Vec<u8>)
    requires
        bits == 160 || bits == 256 || bits == 384 || bits == 512,
        key@.len() < 0x1000_0000_0000_0000,
        data@.len() < 0x1000_0000_0000_0000,
    ensures
        r@ == hmac_of(bits as int, key@, data@),
        r@.len() * 8 == bits,
{
    let algorithm = match bits {
        160 => ring::hmac::HMAC_SHA1_FOR_LEGACY_USE_ONLY,
        256 => ring::hmac::HMAC_SHA256,
        384 => ring::hmac::HMAC_SHA384,
        _ => ring::hmac::HMAC_SHA512,
    };
    ring::hmac::sign(&ring::hmac::Key::new(algorithm, key), data).as_ref().to_vec()
}

/// `md5::compute`, written as 32 hexadecimal digits.
#[verifier::external_body]
pub(crate) fn md5_hex(text: &str) -> (r: String)
    ensures
        r@ == md5_of(text@),
        r@.len() == 32,
{
    format!("{:x}", md5::compute(text))
}

/// `flate2::write::GzEncoder` at its default level. What it wrote of a text
/// reads as that text.
#[verifier::external_body]
pub(crate) fn gzip(text: &str) -> (r: Vec<u8>)
    ensures
        r@ == gzip_of(encode_utf8(text@)),
        gzip_text(r@) == Some(text@),
{
    let mut encoder = flate2::write::GzEncoder::new(Vec::new(), flate2::Compression::default());
    std::io::Write::write_all(&mut encoder, text.as_bytes()).unwrap();
    encoder.finish().unwrap()
}

/// `flate2::read::GzDecoder`, read to its end as UTF-8.
#[verifier::external_body]
pub(crate) fn gunzip(bytes: &Vec<u8>) -> (r: Option<String>)
    ensures
        opt_text(r) == gzip_text(bytes@),
{
    let mut text = String::new();
    let mut decoder = flate2::read::GzDecoder::new(&bytes[..]);
    std::io::Read::read_to_string(&mut decoder, &mut text).ok()?;
    Some(text)
}

} // verus!
