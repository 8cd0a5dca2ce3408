//! Trusted boundary to the key-derivation and cipher crates.
//!
//! The names `kdf_key`, `aead_seal` and `aead_open` stand for what
//! the Argon2id key derivation and the AES-256-GCM seal and open
//! operations return: deterministic functions of their arguments that
//! are far too large to state here.  Every other fact the library
//! uses about them is stated on the wrappers below and checked only
//! against the outside crates' sources.

use vstd::prelude::*;

use aes_gcm::aead::rand_core::RngCore;
use aes_gcm::aead::Aead;
use aes_gcm::aead::AeadCore;
use aes_gcm::KeyInit;

verus! {

/// The 32-byte key that Argon2id derives from a password, a salt and
/// the three cost parameters (with output length 32, algorithm
/// Argon2id, version 0x13).
pub uninterp spec fn kdf_key(
    password: Seq<u8>,
    salt: Seq<u8>,
    m_cost: u32,
    t_cost: u32,
    p_cost: u32,
) -> Seq<u8>;

/// What AES-256-GCM encryption returns for a key, a nonce and a
/// plaintext: the ciphertext with its 16-byte tag appended.
pub uninterp spec fn aead_seal(key: Seq<u8>, nonce: Seq<u8>, plaintext: Seq<u8>) -> Seq<u8>;

/// What AES-256-GCM decryption returns for a key, a nonce and a
/// tagged ciphertext: the plaintext when the tag verifies, nothing
/// otherwise.
pub uninterp spec fn aead_open(key: Seq<u8>, nonce: Seq<u8>, ciphertext: Seq<u8>) -> Option<
    Seq<u8>,
>;

/// The parameter ranges Argon2 accepts: at least 8 KiB of memory and
/// 8 blocks per lane, at least one pass, between 1 and 2^24 - 1
/// lanes.
pub open spec fn valid_kdf_params(m_cost: u32, t_cost: u32, p_cost: u32) -> bool {
    &&& m_cost >= 8
    &&& m_cost >= 8 * p_cost
    &&& t_cost >= 1
    &&& 1 <= p_cost <= 0xFFFFFF
}

/// Relies on argon2's `Argon2::hash_password_into` with algorithm
/// `Argon2id`, version `0x13` and a 32-byte output: within the
/// parameter, salt and password bounds below it cannot fail, and its
/// output depends on password, salt and cost parameters alone.
#[verifier::external_body]
pub(crate) fn derive_key(
    password: &[u8],
    salt: &[u8],
    m_cost: u32,
    t_cost: u32,
    p_cost: u32,
) -> (r: Vec<u8>)
    requires
        valid_kdf_params(m_cost, t_cost, p_cost),
        8 <= salt@.len() <= 0xFFFF_FFFF,
        password@.len() <= 0xFFFF_FFFF,
    ensures
        r@ == kdf_key(password@, salt@, m_cost, t_cost, p_cost),
        r@.len() == 32,
{
    let params = argon2::Params::new(m_cost, t_cost, p_cost, Some(32))
        .expect("cost parameters were validated");
    let argon = argon2::Argon2::new(argon2::Algorithm::Argon2id, argon2::Version::V0x13, params);
    let mut key = [0u8; 32];
    argon.hash_password_into(password, salt, &mut key)
        .expect("salt and password lengths were validated");
    key.to_vec()
}

/// Relies on aes_gcm's `Aes256Gcm` `encrypt` (the `Aead` trait): for
/// a 32-byte key, a 12-byte nonce and a plaintext within the GCM
/// length bound it returns ciphertext plus appended 16-byte tag, a
/// function of key, nonce and plaintext alone, and decryption of that
/// output under the same key and nonce gives the plaintext back.
#[verifier::external_body]
pub(crate) fn aead_encrypt(key: &[u8], nonce: &[u8], plaintext: &[u8]) -> (r: Vec<u8>)
    requires
        key@.len() == 32,
        nonce@.len() == 12,
        plaintext@.len() <= 0x10_0000_0000,
    ensures
        r@ == aead_seal(key@, nonce@, plaintext@),
        r@.len() == plaintext@.len() + 16,
        aead_open(key@, nonce@, r@) == Some(plaintext@),
{
    let aes = aes_gcm::Aes256Gcm::new_from_slice(key).expect("key is 32 bytes");
    let nonce_arr = aes_gcm::aead::Nonce::<aes_gcm::Aes256Gcm>::from_slice(nonce);
    aes.encrypt(nonce_arr, plaintext).expect("plaintext length was validated")
}

/// Relies on aes_gcm's `Aes256Gcm` `decrypt` (the `Aead` trait): its
/// outcome depends on key, nonce and ciphertext alone, and a
/// returned plaintext is 16 bytes shorter than the ciphertext.
#[verifier::external_body]
pub(crate) fn aead_decrypt(key: &[u8], nonce: &[u8], ciphertext: &[u8]) -> (r: Option<Vec<u8>>)
    requires
        key@.len() == 32,
        nonce@.len() == 12,
        ciphertext@.len() <= 0x10_0000_0010,
    ensures
        match aead_open(key@, nonce@, ciphertext@) {
            Some(pt) => r is Some && r.unwrap()@ == pt,
            None => r is None,
        },
        r is Some ==> r.unwrap()@.len() + 16 == ciphertext@.len(),
{
    let aes = aes_gcm::Aes256Gcm::new_from_slice(key).expect("key is 32 bytes");
    let nonce_arr = aes_gcm::aead::Nonce::<aes_gcm::Aes256Gcm>::from_slice(nonce);
    aes.decrypt(nonce_arr, ciphertext).ok()
}

/// Relies on password_hash's `SaltString::generate`: a fresh random
/// salt of 16 bytes, encoded as 22 base64 characters.  Nothing is
/// assumed about which bytes come back.
#[verifier::external_body]
pub(crate) fn generate_salt() -> (r: Vec<u8>)
    ensures
        r@.len() == 22,
{
    let salt = password_hash::SaltString::generate(&mut aes_gcm::aead::OsRng);
    salt.as_str().as_bytes().to_vec()
}

/// Relies on aes_gcm's `Aes256Gcm::generate_nonce` (the `AeadCore`
/// trait): 12 fresh random bytes.  Nothing is assumed about which
/// bytes come back.
#[verifier::external_body]
pub(crate) fn generate_nonce_bytes() -> (r: Vec<u8>)
    ensures
        r@.len() == 12,
{
    let nonce = aes_gcm::Aes256Gcm::generate_nonce(&mut aes_gcm::aead::OsRng);
    nonce.to_vec()
}

/// Relies on rand_core's `OsRng` `fill_bytes`: 32 fresh random bytes
/// for a new account secret.  Nothing is assumed about which bytes
/// come back.
#[verifier::external_body]
pub(crate) fn generate_secret_bytes() -> (r: Vec<u8>)
    ensures
        r@.len() == 32,
{
    let mut buf = [0u8; 32];
    aes_gcm::aead::OsRng.fill_bytes(&mut buf);
    buf.to_vec()
}

} // verus!
