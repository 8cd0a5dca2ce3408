//! Envelopes built by hand, with parameters other than the library's
//! defaults, must decrypt with the parameters they record.

use aes_gcm::aead::{Aead, KeyInit};
use aes_gcm::Aes256Gcm;
use argon2::{Algorithm, Argon2, Params, Version};

use account_vault::codec::decrypt;
use account_vault::envelope::{serialize_envelope, Envelope};
use account_vault::errors::Error;

// Cheap but valid Argon2 parameters, deliberately different from the
// library's defaults.
const M_COST: u32 = 8;
const T_COST: u32 = 1;
const P_COST: u32 = 1;

fn handmade_envelope(password: &str, plaintext: &[u8]) -> Vec<u8> {
    let salt = vec![7u8; 16];
    let params = Params::new(M_COST, T_COST, P_COST, Some(32)).unwrap();
    let argon = Argon2::new(Algorithm::Argon2id, Version::V0x13, params);
    let mut key = [0u8; 32];
    argon
        .hash_password_into(password.as_bytes(), &salt, &mut key)
        .unwrap();

    let nonce = [3u8; 12];
    let aes = Aes256Gcm::new_from_slice(&key).unwrap();
    let sealed = aes
        .encrypt(aes_gcm::aead::Nonce::<Aes256Gcm>::from_slice(&nonce), plaintext)
        .unwrap();
    let mut ciphertext = nonce.to_vec();
    ciphertext.extend_from_slice(&sealed);

    let env = Envelope {
        m_cost: M_COST,
        t_cost: T_COST,
        p_cost: P_COST,
        algo_name: b"Argon2id".to_vec(),
        ver_name: b"V0x13".to_vec(),
        salt,
        ciphertext,
    };
    serialize_envelope(&env)
}

#[test]
fn decrypt_uses_recorded_parameters() {
    // The envelope records cheap parameters; were decryption to use
    // the current defaults instead, the derived key would differ and
    // the open would fail.
    let secret = vec![0x42u8; 32];
    let bytes = handmade_envelope("pw", &secret);
    let opened = decrypt(&bytes, "pw").unwrap();
    assert_eq!(opened, secret);

    let wrong = decrypt(&bytes, "pW");
    assert!(matches!(wrong, Err(Error::BadPassword)));
}

#[test]
fn wrong_length_secret_is_corrupt() {
    // The envelope authenticates, but what it seals is not a 32-byte
    // secret: a corrupt-data outcome, distinct from a bad password.
    let bytes = handmade_envelope("pw", &[0x42u8; 16]);
    let outcome = decrypt(&bytes, "pw");
    assert!(matches!(outcome, Err(Error::CorruptEnvelope)));
}

#[test]
fn unrecognized_names_and_parameters_are_corrupt() {
    let good = handmade_envelope("pw", &[0x42u8; 32]);

    let reject = |env: Envelope| {
        let bytes = serialize_envelope(&env);
        assert!(matches!(decrypt(&bytes, "pw"), Err(Error::CorruptEnvelope)));
    };

    let parse = |bytes: &[u8]| account_vault::envelope::parse_envelope(bytes).unwrap();

    // A different algorithm name string.
    let mut env = parse(&good);
    env.algo_name = b"Argon2ID".to_vec();
    reject(env);

    // A different version name string.
    let mut env = parse(&good);
    env.ver_name = b"V0x10".to_vec();
    reject(env);

    // Parameters outside the valid Argon2 ranges.
    let mut env = parse(&good);
    env.p_cost = 0;
    reject(env);
    let mut env = parse(&good);
    env.t_cost = 0;
    reject(env);
    let mut env = parse(&good);
    env.m_cost = 4;
    reject(env);

    // A salt shorter than the KDF's minimum.
    let mut env = parse(&good);
    env.salt = vec![7u8; 4];
    reject(env);

    // A ciphertext shorter than one nonce.
    let mut env = parse(&good);
    env.ciphertext = vec![3u8; 8];
    reject(env);
}
