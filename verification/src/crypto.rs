//! Digests, key derivation, authenticated ciphers and random bytes.

use aes_gcm::aead::{AeadInPlace, KeyInit};
use aes_gcm::{Aes128Gcm, Aes256Gcm, Nonce as AesNonce};
use chacha20poly1305::{ChaCha20Poly1305, Nonce as ChaChaNonce};
use hkdf::Hkdf;
use md5::{Digest, Md5};
use sha1::Sha1;
use sha2::Sha224;
use vstd::prelude::*;

verus! {

/// The length of the tag that a cipher appends.
pub const TAG_LEN: usize = 16;

/// The longest message that AES-GCM seals.
pub const AES_GCM_LIMIT: u64 = 0x10_0000_0000;

/// The longest message that ChaCha20-Poly1305 seals: all blocks that its counter can number.
pub const CHACHA20_LIMIT: u64 = 0x3f_ffff_ff80;

/// The longest key that HKDF-SHA1 derives: 255 digests.
pub const HKDF_SHA1_LIMIT: usize = 5100;

/// The MD5 digest of a message.
pub uninterp spec fn md5_digest(message: Seq<u8>) -> Seq<u8>;

/// The SHA-224 digest of a message.
pub uninterp spec fn sha224_digest(message: Seq<u8>) -> Seq<u8>;

/// The key that HKDF-SHA1 derives from a salt, key material and a label.
pub uninterp spec fn hkdf_sha1_key(salt: Seq<u8>, material: Seq<u8>, info: Seq<u8>, len: nat) -> Seq<u8>;

/// A message sealed with AES-128-GCM.
pub uninterp spec fn aes128_gcm_sealed(key: Seq<u8>, nonce: Seq<u8>, message: Seq<u8>) -> Seq<u8>;

/// The message in what AES-128-GCM sealed, where the tag is right.
pub uninterp spec fn aes128_gcm_opened(key: Seq<u8>, nonce: Seq<u8>, sealed: Seq<u8>) -> Option<Seq<u8>>;

/// A message sealed with AES-256-GCM.
pub uninterp spec fn aes256_gcm_sealed(key: Seq<u8>, nonce: Seq<u8>, message: Seq<u8>) -> Seq<u8>;

/// The message in what AES-256-GCM sealed, where the tag is right.
pub uninterp spec fn aes256_gcm_opened(key: Seq<u8>, nonce: Seq<u8>, sealed: Seq<u8>) -> Option<Seq<u8>>;

/// A message sealed with ChaCha20-Poly1305.
pub uninterp spec fn chacha20_poly1305_sealed(key: Seq<u8>, nonce: Seq<u8>, message: Seq<u8>) -> Seq<u8>;

/// The message in what ChaCha20-Poly1305 sealed, where the tag is right.
pub uninterp spec fn chacha20_poly1305_opened(key: Seq<u8>, nonce: Seq<u8>, sealed: Seq<u8>) -> Option<Seq<u8>>;

/// The view of optional bytes.
pub open spec fn bytes_view(bytes: Option<Vec<u8>>) -> Option<Seq<u8>> {
    match bytes {
        Some(bytes) => Some(bytes@),
        None => None,
    }
}

/// `md5::Md5` fed with the message and finalized: the digest has 16 bytes.
#[verifier::external_body]
pub(crate) fn md5_sum(message: &[u8]) -> (r: Vec<u8>)
    ensures
        r@ == md5_digest(message@),
        r@.len() == 16,
{
    let mut hasher = Md5::new();
    hasher.update(message);
    hasher.finalize().to_vec()
}

/// `sha2::Sha224::digest`: the digest has 28 bytes.
#[verifier::external_body]
pub(crate) fn sha224_sum(message: &[u8]) -> (r: Vec<u8>)
    ensures
        r@ == sha224_digest(message@),
        r@.len() == 28,
{
    Sha224::digest(message).to_vec()
}

/// `hkdf::Hkdf::<Sha1>::new` and `expand`: derives a key of the wanted length, and refuses
/// exactly those lengths that are above 255 digests.
#[verifier::external_body]
pub(crate) fn hkdf_sha1(salt: &[u8], material: &[u8], info: &[u8], len: usize) -> (r: Option<Vec<u8>>)
    ensures
        r is Some == (len <= HKDF_SHA1_LIMIT),
        r is Some ==> r->0@ == hkdf_sha1_key(salt@, material@, info@, len as nat),
        r is Some ==> r->0@.len() == len,
{
    let mut key = vec![0u8; len];
    match Hkdf::<Sha1>::new(Some(salt), material).expand(info, &mut key) {
        Ok(()) => Some(key),
        Err(_) => None,
    }
}

/// `encrypt_in_place` of `aes_gcm::Aes128Gcm` without associated data: a message of up to
/// `AES_GCM_LIMIT` bytes is sealed, grows by the tag, and opens to itself again.
#[verifier::external_body]
pub(crate) fn aes128_gcm_seal(key: &[u8], nonce: &[u8; 12], message: &[u8]) -> (r: Vec<u8>)
    requires
        key@.len() == 16,
        message@.len() <= AES_GCM_LIMIT,
    ensures
        r@ == aes128_gcm_sealed(key@, nonce@, message@),
        r@.len() == message@.len() + TAG_LEN,
        aes128_gcm_opened(key@, nonce@, r@) == Some(message@),
{
    let cipher = Aes128Gcm::new_from_slice(key).expect("a key of 16 bytes");
    let mut buffer = message.to_vec();
    cipher.encrypt_in_place(AesNonce::from_slice(nonce), b"", &mut buffer).expect("a short message");
    buffer
}

/// `decrypt_in_place` of `aes_gcm::Aes128Gcm` without associated data: the message where the
/// tag is right; never from fewer bytes than a tag has, nor from more than the cipher takes.
#[verifier::external_body]
pub(crate) fn aes128_gcm_open(key: &[u8], nonce: &[u8; 12], sealed: &[u8]) -> (r: Option<Vec<u8>>)
    requires
        key@.len() == 16,
    ensures
        bytes_view(r) == aes128_gcm_opened(key@, nonce@, sealed@),
        r is Some ==> r->0@.len() + TAG_LEN == sealed@.len(),
{
    let cipher = Aes128Gcm::new_from_slice(key).expect("a key of 16 bytes");
    let mut buffer = sealed.to_vec();
    match cipher.decrypt_in_place(AesNonce::from_slice(nonce), b"", &mut buffer) {
        Ok(()) => Some(buffer),
        Err(_) => None,
    }
}

/// `encrypt_in_place` of `aes_gcm::Aes256Gcm` without associated data: a message of up to
/// `AES_GCM_LIMIT` bytes is sealed, grows by the tag, and opens to itself again.
#[verifier::external_body]
pub(crate) fn aes256_gcm_seal(key: &[u8], nonce: &[u8; 12], message: &[u8]) -> (r: Vec<u8>)
    requires
        key@.len() == 32,
        message@.len() <= AES_GCM_LIMIT,
    ensures
        r@ == aes256_gcm_sealed(key@, nonce@, message@),
        r@.len() == message@.len() + TAG_LEN,
        aes256_gcm_opened(key@, nonce@, r@) == Some(message@),
{
    let cipher = Aes256Gcm::new_from_slice(key).expect("a key of 32 bytes");
    let mut buffer = message.to_vec();
    cipher.encrypt_in_place(AesNonce::from_slice(nonce), b"", &mut buffer).expect("a short message");
    buffer
}

/// `decrypt_in_place` of `aes_gcm::Aes256Gcm` without associated data: the message where the
/// tag is right; never from fewer bytes than a tag has, nor from more than the cipher takes.
#[verifier::external_body]
pub(crate) fn aes256_gcm_open(key: &[u8], nonce: &[u8; 12], sealed: &[u8]) -> (r: Option<Vec<u8>>)
    requires
        key@.len() == 32,
    ensures
        bytes_view(r) == aes256_gcm_opened(key@, nonce@, sealed@),
        r is Some ==> r->0@.len() + TAG_LEN == sealed@.len(),
{
    let cipher = Aes256Gcm::new_from_slice(key).expect("a key of 32 bytes");
    let mut buffer = sealed.to_vec();
    match cipher.decrypt_in_place(AesNonce::from_slice(nonce), b"", &mut buffer) {
        Ok(()) => Some(buffer),
        Err(_) => None,
    }
}

/// `encrypt_in_place` of `chacha20poly1305::ChaCha20Poly1305` without associated data: a
/// message of up to `CHACHA20_LIMIT` bytes is sealed, grows by the tag, and opens to itself
/// again.
#[verifier::external_body]
pub(crate) fn chacha20_poly1305_seal(key: &[u8], nonce: &[u8; 12], message: &[u8]) -> (r: Vec<u8>)
    requires
        key@.len() == 32,
        message@.len() <= CHACHA20_LIMIT,
    ensures
        r@ == chacha20_poly1305_sealed(key@, nonce@, message@),
        r@.len() == message@.len() + TAG_LEN,
        chacha20_poly1305_opened(key@, nonce@, r@) == Some(message@),
{
    let cipher = ChaCha20Poly1305::new_from_slice(key).expect("a key of 32 bytes");
    let mut buffer = message.to_vec();
    cipher.encrypt_in_place(ChaChaNonce::from_slice(nonce), b"", &mut buffer).expect("a short message");
    buffer
}

/// `decrypt_in_place` of `chacha20poly1305::ChaCha20Poly1305` without associated data: the
/// message where the tag is right; never from fewer bytes than a tag has.
#[verifier::external_body]
pub(crate) fn chacha20_poly1305_open(
    key: &[u8],
    nonce: &[u8; 12],
    sealed: &[u8],
) -> (r: Option<Vec<u8>>)
    requires
        key@.len() == 32,
        sealed@.len() <= CHACHA20_LIMIT + TAG_LEN,
    ensures
        bytes_view(r) == chacha20_poly1305_opened(key@, nonce@, sealed@),
        r is Some ==> r->0@.len() + TAG_LEN == sealed@.len(),
{
    let cipher = ChaCha20Poly1305::new_from_slice(key).expect("a key of 32 bytes");
    let mut buffer = sealed.to_vec();
    match cipher.decrypt_in_place(ChaChaNonce::from_slice(nonce), b"", &mut buffer) {
        Ok(()) => Some(buffer),
        Err(_) => None,
    }
}

/// `getrandom::getrandom`: bytes of the wanted number, or the text of the error of the
/// system's source. Which bytes, and whether there is an error, is up to the system.
#[verifier::external_body]
pub(crate) fn random_bytes(len: usize) -> (r: Result<Vec<u8>, String>)
    ensures
        r is Ok ==> r->Ok_0@.len() == len,
{
    let mut bytes = vec![0u8; len];
    match getrandom::getrandom(&mut bytes) {
        Ok(()) => Ok(bytes),
        Err(error) => Err(error.to_string()),
    }
}

} // verus!
