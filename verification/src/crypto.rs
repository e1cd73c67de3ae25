//! Byte-level services from outside crates and std: Base64 decoding
//! (`base64`), AES-256-GCM decryption (`aes_gcm`) and UTF-8 decoding.
use vstd::prelude::*;
use vstd::utf8::{decode_utf8, valid_utf8};
use aes_gcm::aead::Aead;
use aes_gcm::KeyInit;
use base64::Engine;

verus! {

/// What the standard Base64 engine decodes from `text` (`None` when the text
/// is not valid padded standard Base64).
pub uninterp spec fn base64_standard_decoded(text: Seq<char>) -> Option<Seq<u8>>;

/// Calls `base64::engine::general_purpose::STANDARD.decode`.
///
/// The contract names the result `base64_standard_decoded(text@)`: it is a
/// function of the text alone. The decoding table is not written out.
#[verifier::external_body]
pub(crate) fn base64_decode(text: &str) -> (r: Option<Vec<u8>>)
    ensures
        match r {
            Some(v) => base64_standard_decoded(text@) == Some(v@),
            None => base64_standard_decoded(text@) is None,
        },
{
    base64::engine::general_purpose::STANDARD.decode(text).ok()
}

/// The plaintext that AES-256-GCM recovers from `sealed` (ciphertext followed
/// by its 16-byte tag) under a 32-byte `key` and a 12-byte `nonce`; `None`
/// when authentication fails.
pub uninterp spec fn aes256_gcm_opened(key: Seq<u8>, nonce: Seq<u8>, sealed: Seq<u8>) -> Option<
    Seq<u8>,
>;

/// Calls `aes_gcm::Aes256Gcm::new_from_slice` with `key` and then `decrypt`
/// with `aes_gcm::Nonce::from_slice(nonce)` and `sealed`.
///
/// `new_from_slice` fails only for a key that is not 32 bytes long and
/// `Nonce::from_slice` panics for a nonce that is not 12 bytes long; the
/// `requires` excludes both. The contract names the result
/// `aes256_gcm_opened(key@, nonce@, sealed@)`; the cipher is not written out.
#[verifier::external_body]
pub(crate) fn aes256_gcm_open(key: &[u8], nonce: &[u8], sealed: &[u8]) -> (r: Option<Vec<u8>>)
    requires
        key@.len() == 32,
        nonce@.len() == 12,
    ensures
        match r {
            Some(v) => aes256_gcm_opened(key@, nonce@, sealed@) == Some(v@),
            None => aes256_gcm_opened(key@, nonce@, sealed@) is None,
        },
{
    let cipher = aes_gcm::Aes256Gcm::new_from_slice(key).ok()?;
    cipher.decrypt(aes_gcm::Nonce::from_slice(nonce), sealed).ok()
}

/// Calls `String::from_utf8`: the text that `bytes` encode in UTF-8, or
/// `None` when they are not valid UTF-8, as the standard library documents.
#[verifier::external_body]
pub(crate) fn string_from_utf8(bytes: Vec<u8>) -> (r: Option<String>)
    ensures
        (r is Some) == valid_utf8(bytes@),
        r matches Some(s) ==> s@ == decode_utf8(bytes@),
{
    String::from_utf8(bytes).ok()
}

/// The bytes `s[a..b]`.
pub fn byte_range(s: &[u8], a: usize, b: usize) -> (r: Vec<u8>)
    requires
        a <= b <= s@.len(),
    ensures
        r@ == s@.subrange(a as int, b as int),
{
    let mut r: Vec<u8> = Vec::new();
    let mut i: usize = a;
    while i < b
        invariant
            a <= i <= b,
            b <= s@.len(),
            r@ == s@.subrange(a as int, i as int),
        decreases b - i,
    {
        r.push(s[i]);
        i = i + 1;
    }
    r
}

} // verus!
