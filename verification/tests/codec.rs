use account_vault::codec::{decrypt, encrypt};
use account_vault::envelope::{parse_envelope, serialize_envelope, Envelope};
use account_vault::errors::Error;

fn sample_secret() -> Vec<u8> {
    let mut s: Vec<u8> = Vec::new();
    let mut i: u32 = 0;
    while i < 32 {
        s.push((7 * i + 3) as u8);
        i += 1;
    }
    s
}

#[test]
fn round_trip() {
    let secret = sample_secret();
    let envelope = encrypt(&secret, "correct horse").unwrap();
    let opened = decrypt(&envelope, "correct horse").unwrap();
    assert_eq!(opened, secret);
}

#[test]
fn wrong_password_is_rejected() {
    let secret = sample_secret();
    let envelope = encrypt(&secret, "first password").unwrap();
    let outcome = decrypt(&envelope, "second password");
    assert!(matches!(outcome, Err(Error::BadPassword)));
}

// The ciphertext field is the last one in the envelope: a 12-byte
// nonce, the 48-byte sealed secret with its integrity tag.  Flipping
// any single byte of those 60 must make decryption fail, never hand
// back altered plaintext.  The key derivation is memory-hard by
// design, so the 60 flips are spread over several tests.
fn tamper_range(offset_from_ct_start: usize, count: usize) {
    let secret = sample_secret();
    let envelope = encrypt(&secret, "pw").unwrap();
    let ct_start = envelope.len() - 60;
    for i in ct_start + offset_from_ct_start..ct_start + offset_from_ct_start + count {
        let mut altered = envelope.clone();
        altered[i] ^= 0x01;
        let outcome = decrypt(&altered, "pw");
        assert!(
            matches!(outcome, Err(Error::BadPassword)) || matches!(outcome, Err(Error::CorruptEnvelope)),
            "flipping byte {} must not decrypt",
            i
        );
    }
}

#[test]
fn tampered_nonce_is_rejected() {
    tamper_range(0, 12);
}

#[test]
fn tampered_ciphertext_is_rejected() {
    tamper_range(12, 12);
}

#[test]
fn tampered_ciphertext_middle_is_rejected() {
    tamper_range(24, 10);
}

#[test]
fn tampered_ciphertext_end_is_rejected() {
    tamper_range(34, 10);
}

#[test]
fn tampered_tag_is_rejected() {
    tamper_range(44, 16);
}

#[test]
fn fresh_salt_and_nonce_each_time() {
    let secret = sample_secret();
    let first = encrypt(&secret, "pw").unwrap();
    let second = encrypt(&secret, "pw").unwrap();
    assert_ne!(first, second);
}

#[test]
fn envelope_bytes_round_trip() {
    let env = Envelope {
        m_cost: 19456,
        t_cost: 2,
        p_cost: 1,
        algo_name: b"Argon2id".to_vec(),
        ver_name: b"V0x13".to_vec(),
        salt: vec![9u8; 22],
        ciphertext: vec![1u8; 60],
    };
    let bytes = serialize_envelope(&env);
    let back = parse_envelope(&bytes).unwrap();
    assert_eq!(back.m_cost, 19456);
    assert_eq!(back.t_cost, 2);
    assert_eq!(back.p_cost, 1);
    assert_eq!(back.algo_name, b"Argon2id".to_vec());
    assert_eq!(back.ver_name, b"V0x13".to_vec());
    assert_eq!(back.salt, vec![9u8; 22]);
    assert_eq!(back.ciphertext, vec![1u8; 60]);

    // Truncated input and trailing garbage both fail to parse.
    assert!(parse_envelope(&bytes[..bytes.len() - 1]).is_none());
    let mut longer = bytes.clone();
    longer.push(0);
    assert!(parse_envelope(&longer).is_none());
}

#[test]
fn malformed_envelope_is_corrupt() {
    let outcome = decrypt(&[], "pw");
    assert!(matches!(outcome, Err(Error::CorruptEnvelope)));

    let outcome = decrypt(&[2u8; 64], "pw");
    assert!(matches!(outcome, Err(Error::CorruptEnvelope)));

    let secret = sample_secret();
    let mut envelope = encrypt(&secret, "pw").unwrap();
    // An unknown algorithm tag is a structural fault.
    envelope[0] = 9;
    let outcome = decrypt(&envelope, "pw");
    assert!(matches!(outcome, Err(Error::CorruptEnvelope)));

    // Trailing bytes are a structural fault.
    let mut longer = encrypt(&secret, "pw").unwrap();
    longer.push(0);
    let outcome = decrypt(&longer, "pw");
    assert!(matches!(outcome, Err(Error::CorruptEnvelope)));
}
